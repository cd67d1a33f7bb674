//! The block engine: applies a transform to the blocks of a frame and
//! assembles the results into a new frame.
//!
//! A block's slots stand together in the buffer and no two blocks share a
//! slot. The engine hands a block transform the bytes of one block and takes
//! the block's result as a buffer of its own (`apply_block`, `apply`,
//! `assemble`), so blocks can be transformed side by side by any number of
//! workers. For the log-return transform it also runs blocks in place in any
//! order (`process_blocks`). Either way the result does not depend on who
//! transformed which block or when: `lemma_assembly_is_dlog` and
//! `lemma_dlog_deterministic` state it.

use vstd::prelude::*;
use vstd::slice::slice_subrange;
use crate::codec::{lemma_slot_at_agrees, slot_at, NAN_BITS};
use crate::dlog::{
    accepts_positive_pairs, dlog_block, dlog_cell, dlog_chunk, dlog_value_ok, in_slot,
    is_dlog_block, is_dlog_block_of, is_dlog_of, is_single_valued, log_return_matches, strides,
    touched,
};
use crate::frame::{clone_names, zeroed, DataFrame};
use crate::offsets::{block_offset, lemma_block_offset_injective, Layout};

verus! {

/// Runs transforms over frames.
pub struct Engine {}

/// Block `block` occurs among the first `upto` entries of `schedule`.
pub open spec fn scheduled(schedule: Seq<usize>, upto: int, block: int) -> bool {
    exists|j: int| 0 <= j < upto && j < schedule.len() && #[trigger] schedule[j] == block
}

/// The eight bytes of the slot at `off` are all zero.
pub open spec fn slot_is_zero(buf: Seq<u8>, off: int) -> bool {
    forall|k: int| off <= k < off + 8 ==> #[trigger] buf[k] == 0u8
}

/// In `output`, position `pos` of block `block` holds the log-return of the
/// same position in `input`, both buffers cut into blocks of `len` cells.
pub open spec fn cell_done<F: Fn(u64, u64) -> u64>(
    ln_ratio: F,
    input: Seq<u8>,
    output: Seq<u8>,
    len: int,
    block: int,
    pos: int,
) -> bool {
    if pos == 0 {
        slot_at(output, block_offset(len, block, 0)) == NAN_BITS
    } else {
        log_return_matches(
            ln_ratio,
            slot_at(input, block_offset(len, block, pos - 1)),
            slot_at(input, block_offset(len, block, pos)),
            slot_at(output, block_offset(len, block, pos)),
        )
    }
}

/// No slot of block `other` is touched by a write to the slots of `block`.
proof fn lemma_other_block_untouched(table: Seq<usize>, len: int, block: int, other: int, pos: int, k: int)
    requires
        0 <= block,
        0 <= other,
        block != other,
        0 <= pos < len,
        table.len() == len,
        forall|i: int| 0 <= i < len ==> (#[trigger] table[i]) as int == block_offset(len, block, i),
        block_offset(len, other, pos) <= k < block_offset(len, other, pos) + 8,
    ensures
        !touched(table, k),
{
    if touched(table, k) {
        let j = choose|j: int| 0 <= j < table.len() && in_slot(#[trigger] table[j], k);
        lemma_block_offset_injective(len, block, j, other, pos);
    }
}

/// The bytes of block `block` of `df`: the slots of a block stand together.
pub open spec fn block_bytes(df: &DataFrame, block: int) -> Seq<u8> {
    df.buffer@.subrange(
        block * (df.spec_block_len() * 8),
        block * (df.spec_block_len() * 8) + df.spec_block_len() * 8,
    )
}

/// `op` may be called on the bytes of every block of `df`.
pub open spec fn accepts_blocks_of<T: Fn(&[u8]) -> Vec<u8>>(op: T, df: &DataFrame) -> bool {
    forall|s: &[u8]| s@.len() == df.spec_block_len() * 8 ==> #[trigger] call_requires(op, (s,))
}

/// `chunk` is what `op` made of `source`, value for value: a result of `op`
/// on these bytes that is as long as they are.
pub open spec fn is_result_of<T: Fn(&[u8]) -> Vec<u8>>(op: T, source: Seq<u8>, chunk: Vec<u8>) -> bool {
    chunk@.len() == source.len() && exists|s: &[u8]|
        s@ == source && #[trigger] call_ensures(op, (s,), chunk)
}

/// `op` breaks the transform contract on `source`: it has a result there that
/// is not as long as its input.
pub open spec fn breaks_width<T: Fn(&[u8]) -> Vec<u8>>(op: T, source: Seq<u8>) -> bool {
    exists|s: &[u8], r: Vec<u8>|
        s@ == source && #[trigger] call_ensures(op, (s,), r) && r@.len() != source.len()
}

/// Position `pos` of `chunk` holds the log-return of position `pos` of block
/// `block` of `input`.
pub open spec fn chunk_cell_ok<F: Fn(u64, u64) -> u64>(
    ln_ratio: F,
    input: &DataFrame,
    block: int,
    chunk: Seq<u8>,
    pos: int,
) -> bool {
    if pos == 0 {
        slot_at(chunk, 0) == NAN_BITS
    } else {
        log_return_matches(
            ln_ratio,
            input.block_value(block, pos - 1),
            input.block_value(block, pos),
            slot_at(chunk, pos * 8),
        )
    }
}

/// `chunk` is the log-return of block `block` of `input`, stored from byte 0:
/// position `pos` of the block at byte `pos * 8` of the chunk.
pub open spec fn is_block_result<F: Fn(u64, u64) -> u64>(
    ln_ratio: F,
    input: &DataFrame,
    block: int,
    chunk: Seq<u8>,
) -> bool {
    &&& chunk.len() == input.spec_block_len() * 8
    &&& forall|pos: int|
        0 <= pos < input.spec_block_len() ==> #[trigger] chunk_cell_ok(
            ln_ratio,
            input,
            block,
            chunk,
            pos,
        )
}

/// `output` holds the chunks one after the other, one per block of `input`.
pub open spec fn is_assembly_of(input: &DataFrame, chunks: Seq<Vec<u8>>, output: &DataFrame) -> bool {
    &&& output.wf()
    &&& output.same_shape(input)
    &&& chunks.len() == input.spec_block_count()
    &&& forall|block: int, k: int|
        0 <= block < input.spec_block_count() && 0 <= k < input.spec_block_len() * 8
            ==> #[trigger] output.buffer@[block * (input.spec_block_len() * 8) + k]
            == chunks[block]@[k]
}

/// The log-return of a block's bytes is the log-return of the block.
pub proof fn lemma_dlog_chunk_is_block_result<F: Fn(u64, u64) -> u64>(
    ln_ratio: F,
    input: &DataFrame,
    block: int,
    chunk: Seq<u8>,
)
    requires
        input.wf(),
        0 <= block < input.spec_block_count(),
        chunk.len() == input.spec_block_len() * 8,
        is_dlog_block(ln_ratio, block_bytes(input, block), strides(input.spec_block_len()), chunk),
    ensures
        is_block_result(ln_ratio, input, block, chunk),
{
    let len = input.spec_block_len();
    let count = input.spec_block_count();
    let source = block_bytes(input, block);
    lemma_block_range(input, block);
    assert forall|pos: int| 0 <= pos < len implies #[trigger] chunk_cell_ok(
        ln_ratio,
        input,
        block,
        chunk,
        pos,
    ) by {
        assert(dlog_cell(ln_ratio, source, strides(len), chunk, pos));
        input.lemma_block_value(block, pos);
        assert(strides(len)[pos] == pos * 8);
        lemma_chunk_value(input, block, pos, source);
        if pos > 0 {
            input.lemma_block_value(block, pos - 1);
            assert(strides(len)[pos - 1] == (pos - 1) * 8);
            lemma_chunk_value(input, block, pos - 1, source);
        }
    }
}

/// The bytes of a block lie inside the buffer.
pub proof fn lemma_block_range(input: &DataFrame, block: int)
    requires
        input.wf(),
        0 <= block < input.spec_block_count(),
    ensures
        0 <= block * (input.spec_block_len() * 8),
        block * (input.spec_block_len() * 8) + input.spec_block_len() * 8 <= input.buffer@.len(),
        input.spec_block_len() * 8 <= usize::MAX,
{
    let len = input.spec_block_len();
    let count = input.spec_block_count();
    let total = input.buffer@.len();
    assert(total == input.buffer.len());
    assert(total == count * len * 8) by (nonlinear_arith)
        requires
            total == input.num_rows * input.num_columns * 8,
            (count == input.num_rows && len == input.num_columns) || (count == input.num_columns
                && len == input.num_rows),
    ;
    assert(block * (len * 8) + len * 8 <= count * len * 8) by (nonlinear_arith)
        requires
            0 <= block < count,
            0 <= len,
    ;
    assert(0 <= block * (len * 8) && 0 <= len * 8) by (nonlinear_arith)
        requires
            0 <= block,
            0 <= len,
    ;
}

/// Assembling the log-returns of the blocks gives the log-return of the
/// frame, whoever computed which block and in whatever order.
pub proof fn lemma_assembly_is_dlog<F: Fn(u64, u64) -> u64>(
    ln_ratio: F,
    input: &DataFrame,
    chunks: Seq<Vec<u8>>,
    output: &DataFrame,
)
    requires
        input.wf(),
        is_assembly_of(input, chunks, output),
        forall|block: int|
            0 <= block < input.spec_block_count() ==> is_block_result(
                ln_ratio,
                input,
                block,
                #[trigger] chunks[block]@,
            ),
    ensures
        is_dlog_of(ln_ratio, input, output),
{
    let len = input.spec_block_len();
    let count = input.spec_block_count();
    assert forall|block: int| 0 <= block < count implies #[trigger] is_dlog_block_of(
        ln_ratio,
        input,
        output,
        block,
    ) by {
        let chunk = chunks[block]@;
        assert(is_block_result(ln_ratio, input, block, chunk));
        assert forall|pos: int| 0 <= pos < len implies #[trigger] dlog_value_ok(
            ln_ratio,
            input,
            output,
            block,
            pos,
        ) by {
            assert(chunk_cell_ok(ln_ratio, input, block, chunk, pos));
            output.lemma_block_value(block, pos);
            let off = block_offset(len, block, pos);
            assert(off == block * (len * 8) + pos * 8) by (nonlinear_arith)
                requires
                    off == (block * len + pos) * 8,
            ;
            let here = output.buffer@.subrange(off, off + 8);
            let there = chunk.subrange(pos * 8, pos * 8 + 8);
            assert forall|q: int| 0 <= q < 8 implies #[trigger] here[q] == there[q] by {
                assert(output.buffer@[block * (len * 8) + (pos * 8 + q)] == chunk[pos * 8 + q]);
            }
            assert(output.buffer@.subrange(off, off + 8) =~= chunk.subrange(pos * 8, pos * 8 + 8));
            assert(output.block_value(block, pos) == slot_at(chunk, pos * 8));
        }
    }
}

/// The bytes of a block, cut out of the buffer, hold the block's values from
/// byte 0 on.
proof fn lemma_chunk_value(input: &DataFrame, block: int, pos: int, source: Seq<u8>)
    requires
        input.wf(),
        0 <= block < input.spec_block_count(),
        0 <= pos < input.spec_block_len(),
        block * (input.spec_block_len() * 8) + input.spec_block_len() * 8 <= input.buffer@.len(),
        source == input.buffer@.subrange(
            block * (input.spec_block_len() * 8),
            block * (input.spec_block_len() * 8) + input.spec_block_len() * 8,
        ),
    ensures
        slot_at(source, pos * 8) == input.block_value(block, pos),
{
    let len = input.spec_block_len();
    input.lemma_block_value(block, pos);
    let off = block_offset(len, block, pos);
    assert(off == block * (len * 8) + pos * 8) by (nonlinear_arith)
        requires
            off == (block * len + pos) * 8,
    ;
    assert(0 <= block * (len * 8)) by (nonlinear_arith)
        requires
            0 <= block,
            0 <= len,
    ;
    assert(source.subrange(pos * 8, pos * 8 + 8) =~= input.buffer@.subrange(off, off + 8));
}

/// Determinism of the log-return transform: when `ln_ratio` gives one answer
/// for each pair, a frame has exactly one log-return. Whatever the number of
/// workers and whatever the order in which blocks were handed out, two
/// outputs for the same input are the same bytes.
pub proof fn lemma_dlog_deterministic<F: Fn(u64, u64) -> u64>(
    ln_ratio: F,
    input: &DataFrame,
    first: &DataFrame,
    second: &DataFrame,
)
    requires
        input.wf(),
        is_single_valued(ln_ratio),
        is_dlog_of(ln_ratio, input, first),
        is_dlog_of(ln_ratio, input, second),
    ensures
        first.buffer@ == second.buffer@,
{
    assert forall|block: int, pos: int|
        0 <= block < first.spec_block_count() && 0 <= pos < first.spec_block_len()
        implies #[trigger] first.block_value(block, pos) == second.block_value(block, pos) by {
        assert(is_dlog_block_of(ln_ratio, input, first, block));
        assert(is_dlog_block_of(ln_ratio, input, second, block));
        assert(dlog_value_ok(ln_ratio, input, first, block, pos));
        assert(dlog_value_ok(ln_ratio, input, second, block, pos));
    }
    first.lemma_same_cells_same_buffer(second);
}

impl Engine {
    /// A new engine.
    pub fn new() -> (engine: Engine) {
        Engine {  }
    }

    /// Number of workers to start for `num_blocks` blocks when at most
    /// `max_threads` may run: the smaller of the two.
    pub fn worker_count(max_threads: usize, num_blocks: usize) -> (workers: usize)
        ensures
            workers <= max_threads,
            workers <= num_blocks,
            workers == max_threads || workers == num_blocks,
    {
        if max_threads < num_blocks {
            max_threads
        } else {
            num_blocks
        }
    }

    /// Applies the log-return transform to the blocks of `input_df` in the
    /// order of `schedule` and wraps the output buffer into a new frame of the
    /// same shape.
    ///
    /// Every block that the schedule names holds its log-return, however often
    /// and wherever in the schedule it is named; every block that it leaves
    /// out is all zero bytes. A schedule that names every block therefore
    /// yields the log-return of the whole frame.
    pub fn process_blocks<F: Fn(u64, u64) -> u64>(
        input_df: &DataFrame,
        ln_ratio: &F,
        schedule: &[usize],
    ) -> (out: DataFrame)
        requires
            input_df.wf(),
            accepts_positive_pairs(*ln_ratio),
            forall|j: int| 0 <= j < schedule@.len() ==> (#[trigger] schedule@[j]) < input_df.spec_block_count(),
        ensures
            out.wf(),
            out.same_shape(input_df),
            forall|block: int|
                0 <= block < input_df.spec_block_count() && scheduled(
                    schedule@,
                    schedule@.len() as int,
                    block,
                ) ==> #[trigger] is_dlog_block_of(*ln_ratio, input_df, &out, block),
            forall|block: int, pos: int|
                0 <= block < input_df.spec_block_count() && 0 <= pos < input_df.spec_block_len()
                    && !scheduled(schedule@, schedule@.len() as int, block) ==> slot_is_zero(
                    out.buffer@,
                    #[trigger] block_offset(input_df.spec_block_len(), block, pos),
                ),
            (forall|block: int|
                0 <= block < input_df.spec_block_count() ==> scheduled(
                    schedule@,
                    schedule@.len() as int,
                    block,
                )) ==> is_dlog_of(*ln_ratio, input_df, &out),
    {
        let size: usize = input_df.buffer.len();
        let steps: usize = schedule.len();
        let ghost count = input_df.spec_block_count();
        let ghost len = input_df.spec_block_len();
        let ghost inp = input_df.buffer@;
        let mut buffer: Vec<u8> = zeroed(size);
        proof {
            assert forall|b: int, i: int| 0 <= b < count && 0 <= i < len implies slot_is_zero(
                buffer@,
                #[trigger] block_offset(len, b, i),
            ) by {
                input_df.lemma_block_value(b, i);
            }
        }
        let mut k: usize = 0;
        while k < steps
            invariant
                k <= steps,
                steps == schedule@.len(),
                input_df.wf(),
                accepts_positive_pairs(*ln_ratio),
                count == input_df.spec_block_count(),
                len == input_df.spec_block_len(),
                inp == input_df.buffer@,
                forall|j: int| 0 <= j < schedule@.len() ==> (#[trigger] schedule@[j]) < count,
                buffer@.len() == size,
                size == inp.len(),
                forall|b: int, i: int|
                    0 <= b < count && 0 <= i < len && scheduled(schedule@, k as int, b)
                        ==> #[trigger] cell_done(*ln_ratio, inp, buffer@, len, b, i),
                forall|b: int, i: int|
                    0 <= b < count && 0 <= i < len && !scheduled(schedule@, k as int, b)
                        ==> slot_is_zero(buffer@, #[trigger] block_offset(len, b, i)),
            decreases steps - k,
        {
            let s: usize = schedule[k];
            assert(schedule@[k as int] < count);
            let block: &Vec<usize> = &input_df.offsets[s];
            let ghost mid = buffer@;
            proof {
                assert forall|i: int| 0 <= i < len implies (#[trigger] block@[i]) as int
                    == block_offset(len, s as int, i) && block@[i] + 8 <= size by {
                    input_df.lemma_block_value(s as int, i);
                }
                assert forall|i: int, j: int| 0 <= i < j < len implies #[trigger] block@[i] + 8
                    <= #[trigger] block@[j] by {
                    lemma_block_offset_injective(len, s as int, i, s as int, j);
                    assert(s * len + i < s * len + j);
                }
            }
            dlog_block(input_df.buffer.as_slice(), buffer.as_mut_slice(), block.as_slice(), ln_ratio);
            proof {
                assert forall|b: int, i: int|
                    0 <= b < count && 0 <= i < len && scheduled(
                        schedule@,
                        k + 1,
                        b,
                    ) implies #[trigger] cell_done(*ln_ratio, inp, buffer@, len, b, i) by {
                    input_df.lemma_block_value(b, i);
                    if b == s {
                        assert(dlog_cell(*ln_ratio, inp, block@, buffer@, i));
                        if i > 0 {
                            input_df.lemma_block_value(b, i - 1);
                        }
                    } else {
                        let j = choose|j: int|
                            0 <= j < k + 1 && j < schedule@.len() && #[trigger] schedule@[j] == b;
                        assert(j < k);
                        assert(scheduled(schedule@, k as int, b));
                        assert(cell_done(*ln_ratio, inp, mid, len, b, i));
                        assert forall|q: int|
                            block_offset(len, b, i) <= q < block_offset(len, b, i)
                                + 8 implies mid[q] == buffer@[q] by {
                            lemma_other_block_untouched(block@, len, s as int, b, i, q);
                        }
                        lemma_slot_at_agrees(mid, buffer@, block_offset(len, b, i));
                    }
                }
                assert forall|b: int, i: int|
                    0 <= b < count && 0 <= i < len && !scheduled(
                        schedule@,
                        k + 1,
                        b,
                    ) implies slot_is_zero(buffer@, #[trigger] block_offset(len, b, i)) by {
                    input_df.lemma_block_value(b, i);
                    assert(b != s) by {
                        if b == s {
                            assert(schedule@[k as int] == b);
                            assert(scheduled(schedule@, k + 1, b));
                        }
                    }
                    assert(!scheduled(schedule@, k as int, b)) by {
                        if scheduled(schedule@, k as int, b) {
                            let j = choose|j: int|
                                0 <= j < k && j < schedule@.len() && #[trigger] schedule@[j] == b;
                            assert(scheduled(schedule@, k + 1, b));
                        }
                    }
                    assert(slot_is_zero(mid, block_offset(len, b, i)));
                    assert forall|q: int|
                        block_offset(len, b, i) <= q < block_offset(len, b, i)
                            + 8 implies #[trigger] buffer@[q] == 0u8 by {
                        lemma_other_block_untouched(block@, len, s as int, b, i, q);
                        assert(mid[q] == 0u8);
                    }
                }
            }
            k += 1;
        }
        let out = DataFrame {
            buffer,
            num_rows: input_df.num_rows,
            num_columns: input_df.num_columns,
            column_names: clone_names(&input_df.column_names),
            row_names: clone_names(&input_df.row_names),
            layout: input_df.layout,
            offsets: DataFrame::calc_offsets(input_df.num_rows, input_df.num_columns, input_df.layout),
        };
        proof {
            assert forall|b: int|
                0 <= b < count && scheduled(
                    schedule@,
                    schedule@.len() as int,
                    b,
                ) implies #[trigger] is_dlog_block_of(*ln_ratio, input_df, &out, b) by {
                assert forall|i: int| 0 <= i < len implies #[trigger] dlog_value_ok(
                    *ln_ratio,
                    input_df,
                    &out,
                    b,
                    i,
                ) by {
                    assert(cell_done(*ln_ratio, inp, out.buffer@, len, b, i));
                    input_df.lemma_block_value(b, i);
                    out.lemma_block_value(b, i);
                    if i > 0 {
                        input_df.lemma_block_value(b, i - 1);
                    }
                }
            }
        }
        out
    }

    /// The log-return of one block of `input_df`, as a buffer of its own.
    ///
    /// Reads nothing but the block's own slots and shares nothing with the
    /// transform of any other block, so blocks may be transformed by workers
    /// side by side.
    pub fn transform_block<F: Fn(u64, u64) -> u64>(
        input_df: &DataFrame,
        block: usize,
        ln_ratio: &F,
    ) -> (chunk: Vec<u8>)
        requires
            input_df.wf(),
            block < input_df.spec_block_count(),
            accepts_positive_pairs(*ln_ratio),
        ensures
            is_block_result(*ln_ratio, input_df, block as int, chunk@),
    {
        let source = Engine::block_source(input_df, block);
        proof {
            lemma_block_range(input_df, block as int);
            assert((input_df.spec_block_len() * 8) % 8 == 0);
            assert((input_df.spec_block_len() * 8) / 8 == input_df.spec_block_len());
        }
        let chunk = dlog_chunk(source, ln_ratio);
        proof {
            lemma_dlog_chunk_is_block_result(*ln_ratio, input_df, block as int, chunk@);
        }
        chunk
    }

    /// The bytes of one block of `input_df`.
    pub fn block_source(input_df: &DataFrame, block: usize) -> (source: &[u8])
        requires
            input_df.wf(),
            block < input_df.spec_block_count(),
        ensures
            source@ == block_bytes(input_df, block as int),
            source@.len() == input_df.spec_block_len() * 8,
    {
        proof {
            lemma_block_range(input_df, block as int);
        }
        let total: usize = input_df.buffer.len();
        let cells: usize = match input_df.layout {
            Layout::RowMajor => input_df.num_columns,
            Layout::ColumnMajor => input_df.num_rows,
        };
        let width: usize = cells * 8;
        let lo: usize = block * width;
        slice_subrange(input_df.buffer.as_slice(), lo, lo + width)
    }

    /// Applies a block transform to one block of `input_df`: `op` is handed
    /// the block's bytes and nothing else, and gives the block's result as a
    /// buffer of its own. `None` where the result is not as long as the
    /// block, which no block transform may do.
    pub fn apply_block<T: Fn(&[u8]) -> Vec<u8>>(input_df: &DataFrame, block: usize, op: &T) -> (res:
        Option<Vec<u8>>)
        requires
            input_df.wf(),
            block < input_df.spec_block_count(),
            accepts_blocks_of(*op, input_df),
        ensures
            match res {
                Some(chunk) => is_result_of(*op, block_bytes(input_df, block as int), chunk),
                None => breaks_width(*op, block_bytes(input_df, block as int)),
            },
    {
        let source = Engine::block_source(input_df, block);
        let width: usize = source.len();
        let chunk = op(source);
        if chunk.len() == width {
            Some(chunk)
        } else {
            None
        }
    }

    /// Applies a block transform to every block of `input_df`, in table
    /// order, and assembles the results into a frame of the same shape.
    /// `None` where `op` gave some block a result of another length.
    pub fn apply<T: Fn(&[u8]) -> Vec<u8>>(input_df: &DataFrame, op: &T) -> (res: Option<DataFrame>)
        requires
            input_df.wf(),
            accepts_blocks_of(*op, input_df),
        ensures
            match res {
                Some(out) => exists|chunks: Seq<Vec<u8>>|
                    #[trigger] is_assembly_of(input_df, chunks, &out) && forall|block: int|
                        0 <= block < input_df.spec_block_count() ==> is_result_of(
                            *op,
                            block_bytes(input_df, block),
                            #[trigger] chunks[block],
                        ),
                None => exists|block: int|
                    0 <= block < input_df.spec_block_count() && breaks_width(
                        *op,
                        #[trigger] block_bytes(input_df, block),
                    ),
            },
    {
        let blocks: usize = input_df.offsets.len();
        let mut chunks: Vec<Vec<u8>> = Vec::new();
        let mut b: usize = 0;
        while b < blocks
            invariant
                b <= blocks,
                blocks == input_df.spec_block_count(),
                input_df.wf(),
                accepts_blocks_of(*op, input_df),
                chunks@.len() == b,
                forall|block: int|
                    0 <= block < b ==> is_result_of(
                        *op,
                        block_bytes(input_df, block),
                        #[trigger] chunks@[block],
                    ),
            decreases blocks - b,
        {
            match Engine::apply_block(input_df, b, op) {
                Some(chunk) => {
                    chunks.push(chunk);
                },
                None => {
                    return None;
                },
            }
            b += 1;
        }
        proof {
            assert forall|block: int| 0 <= block < chunks@.len() implies (
            #[trigger] chunks@[block])@.len() == input_df.spec_block_len() * 8 by {
                lemma_block_range(input_df, block);
            }
        }
        let out = Engine::assemble(input_df, &chunks);
        Some(out)
    }

    /// Log-return of a whole frame through the block engine: the log-return
    /// transform applied to every block's bytes, and the results assembled.
    /// It is the same frame that `dlog` gives.
    pub fn dlog_by_blocks<F: Fn(u64, u64) -> u64>(input_df: &DataFrame, ln_ratio: &F) -> (out:
        DataFrame)
        requires
            input_df.wf(),
            accepts_positive_pairs(*ln_ratio),
        ensures
            is_dlog_of(*ln_ratio, input_df, &out),
    {
        let ghost len = input_df.spec_block_len();
        let op = |source: &[u8]| -> (chunk: Vec<u8>)
            requires
                source@.len() % 8 == 0,
            ensures
                chunk@.len() == source@.len(),
                is_dlog_block(*ln_ratio, source@, strides(source@.len() as int / 8), chunk@),
            { dlog_chunk(source, ln_ratio) };
        match Engine::apply(input_df, &op) {
            Some(out) => {
                proof {
                    let chunks = choose|chunks: Seq<Vec<u8>>|
                        #[trigger] is_assembly_of(input_df, chunks, &out) && forall|block: int|
                            0 <= block < input_df.spec_block_count() ==> is_result_of(
                                op,
                                block_bytes(input_df, block),
                                #[trigger] chunks[block],
                            );
                    assert forall|block: int|
                        0 <= block < input_df.spec_block_count() implies is_block_result(
                        *ln_ratio,
                        input_df,
                        block,
                        #[trigger] chunks[block]@,
                    ) by {
                        lemma_block_range(input_df, block);
                        assert(is_result_of(op, block_bytes(input_df, block), chunks[block]));
                        assert((len * 8) / 8 == len);
                        lemma_dlog_chunk_is_block_result(*ln_ratio, input_df, block, chunks[block]@);
                    }
                    lemma_assembly_is_dlog(*ln_ratio, input_df, chunks, &out);
                }
                out
            },
            None => {
                // The transform above keeps the length, so no block is turned down.
                proof {
                    let block = choose|block: int|
                        0 <= block < input_df.spec_block_count() && breaks_width(
                            op,
                            #[trigger] block_bytes(input_df, block),
                        );
                    assert(false);
                }
                vstd::pervasive::unreached()
            },
        }
    }

    /// Puts the buffers of the blocks one after the other and wraps them into
    /// a frame of the shape of `input_df`.
    pub fn assemble(input_df: &DataFrame, chunks: &Vec<Vec<u8>>) -> (out: DataFrame)
        requires
            input_df.wf(),
            chunks@.len() == input_df.spec_block_count(),
            forall|block: int|
                0 <= block < chunks@.len() ==> (#[trigger] chunks@[block])@.len()
                    == input_df.spec_block_len() * 8,
        ensures
            is_assembly_of(input_df, chunks@, &out),
    {
        let ghost len = input_df.spec_block_len();
        let ghost count = input_df.spec_block_count();
        let total: usize = input_df.buffer.len();
        proof {
            assert(total == count * (len * 8)) by (nonlinear_arith)
                requires
                    total == input_df.num_rows * input_df.num_columns * 8,
                    (count == input_df.num_rows && len == input_df.num_columns) || (count
                        == input_df.num_columns && len == input_df.num_rows),
            ;
        }
        let mut buffer: Vec<u8> = Vec::new();
        let mut b: usize = 0;
        while b < chunks.len()
            invariant
                b <= chunks@.len(),
                chunks@.len() == count,
                0 <= len,
                forall|block: int|
                    0 <= block < chunks@.len() ==> (#[trigger] chunks@[block])@.len() == len * 8,
                buffer@.len() == b * (len * 8),
                forall|block: int, k: int|
                    0 <= block < b && 0 <= k < len * 8 ==> #[trigger] buffer@[block * (len * 8) + k]
                        == chunks@[block]@[k],
            decreases chunks@.len() - b,
        {
            let chunk: &Vec<u8> = &chunks[b];
            let ghost before = buffer@;
            let mut k: usize = 0;
            while k < chunk.len()
                invariant
                    k <= chunk@.len(),
                    chunk@.len() == len * 8,
                    before.len() == b * (len * 8),
                    buffer@.len() == before.len() + k,
                    forall|j: int| 0 <= j < before.len() ==> buffer@[j] == before[j],
                    forall|j: int| 0 <= j < k ==> buffer@[before.len() + j] == chunk@[j],
                decreases chunk@.len() - k,
            {
                buffer.push(chunk[k]);
                k += 1;
            }
            proof {
                assert((b + 1) * (len * 8) == b * (len * 8) + len * 8) by (nonlinear_arith);
                assert forall|block: int, j: int|
                    0 <= block < b + 1 && 0 <= j < len * 8 implies #[trigger] buffer@[block * (len
                    * 8) + j] == chunks@[block]@[j] by {
                    if block < b {
                        assert(block * (len * 8) + j < b * (len * 8)) by (nonlinear_arith)
                            requires
                                0 <= block < b,
                                0 <= j < len * 8,
                        ;
                        assert(0 <= block * (len * 8)) by (nonlinear_arith)
                            requires
                                0 <= block,
                                0 <= len,
                        ;
                        assert(before[block * (len * 8) + j] == chunks@[block]@[j]);
                    }
                }
            }
            b += 1;
        }
        DataFrame {
            buffer,
            num_rows: input_df.num_rows,
            num_columns: input_df.num_columns,
            column_names: clone_names(&input_df.column_names),
            row_names: clone_names(&input_df.row_names),
            layout: input_df.layout,
            offsets: DataFrame::calc_offsets(input_df.num_rows, input_df.num_columns, input_df.layout),
        }
    }
}

} // verus!
