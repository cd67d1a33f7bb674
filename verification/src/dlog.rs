//! Log-return along one block.
//!
//! The first cell of a block has no predecessor and becomes the NaN pattern.
//! Every later cell becomes the logarithm of the ratio of its value to its
//! predecessor's when both are strictly positive, and the NaN pattern when
//! either is not. The logarithm itself is floating-point work and is handed
//! in by the caller as a function on bit patterns; everything else is decided
//! here on the bits.

use vstd::prelude::*;
use crate::codec::{
    decode, encode, is_positive, lemma_slot_at_agrees, slot_at, spec_is_positive, NAN_BITS,
};
use crate::engine::Engine;
use crate::frame::{zeroed, DataFrame};

verus! {

/// Byte `k` belongs to the slot that starts at `off`.
pub open spec fn in_slot(off: usize, k: int) -> bool {
    off <= k < off + 8
}

/// Byte `k` belongs to one of the slots listed in `offsets`.
pub open spec fn touched(offsets: Seq<usize>, k: int) -> bool {
    exists|j: int| 0 <= j < offsets.len() && in_slot(#[trigger] offsets[j], k)
}

/// The offsets of a block: each names a whole slot inside a buffer of `len`
/// bytes, in ascending order and without overlap.
pub open spec fn block_fits(offsets: Seq<usize>, len: int) -> bool {
    &&& forall|i: int| 0 <= i < offsets.len() ==> #[trigger] offsets[i] + 8 <= len
    &&& forall|i: int, j: int|
        0 <= i < j < offsets.len() ==> #[trigger] offsets[i] + 8 <= #[trigger] offsets[j]
}

/// `out` is a log-return of `curr` over `prev`: some result of `ln_ratio` on
/// the pair when both are strictly positive, the NaN pattern otherwise.
pub open spec fn log_return_matches<F: Fn(u64, u64) -> u64>(
    ln_ratio: F,
    prev: u64,
    curr: u64,
    out: u64,
) -> bool {
    if spec_is_positive(prev) && spec_is_positive(curr) {
        call_ensures(ln_ratio, (curr, prev), out)
    } else {
        out == NAN_BITS
    }
}

/// Cell `i` of the block holds in `output` what log-return asks for, given
/// the block's values in `input`.
pub open spec fn dlog_cell<F: Fn(u64, u64) -> u64>(
    ln_ratio: F,
    input: Seq<u8>,
    offsets: Seq<usize>,
    output: Seq<u8>,
    i: int,
) -> bool {
    if i == 0 {
        slot_at(output, offsets[0] as int) == NAN_BITS
    } else {
        log_return_matches(
            ln_ratio,
            slot_at(input, offsets[i - 1] as int),
            slot_at(input, offsets[i] as int),
            slot_at(output, offsets[i] as int),
        )
    }
}

/// Every cell of the block holds its log-return in `output`.
pub open spec fn is_dlog_block<F: Fn(u64, u64) -> u64>(
    ln_ratio: F,
    input: Seq<u8>,
    offsets: Seq<usize>,
    output: Seq<u8>,
) -> bool {
    forall|i: int| 0 <= i < offsets.len() ==> #[trigger] dlog_cell(ln_ratio, input, offsets, output, i)
}

/// `ln_ratio` gives one answer for each pair: it is a function of its
/// arguments.
pub open spec fn is_single_valued<F: Fn(u64, u64) -> u64>(ln_ratio: F) -> bool {
    forall|c: u64, p: u64, a: u64, b: u64|
        #[trigger] call_ensures(ln_ratio, (c, p), a) && #[trigger] call_ensures(ln_ratio, (c, p), b)
            ==> a == b
}

/// `ln_ratio` may be called on every pair of strictly positive patterns.
pub open spec fn accepts_positive_pairs<F: Fn(u64, u64) -> u64>(ln_ratio: F) -> bool {
    forall|c: u64, p: u64|
        spec_is_positive(c) && spec_is_positive(p) ==> #[trigger] call_requires(ln_ratio, (c, p))
}

/// Log-return of one cell from its predecessor's and its own bit pattern.
/// `ln_ratio(curr, prev)` is only consulted when both are strictly positive.
pub fn log_return<F: Fn(u64, u64) -> u64>(prev: u64, curr: u64, ln_ratio: &F) -> (out: u64)
    requires
        accepts_positive_pairs(*ln_ratio),
    ensures
        log_return_matches(*ln_ratio, prev, curr, out),
        !spec_is_positive(prev) || !spec_is_positive(curr) ==> out == NAN_BITS,
{
    if is_positive(prev) && is_positive(curr) {
        ln_ratio(curr, prev)
    } else {
        NAN_BITS
    }
}

/// Writes the log-return of one block into `output`.
///
/// Reads the block's values from `input`, writes exactly one value per offset
/// of the block into `output`, and leaves every byte of `output` outside the
/// block's slots as it was. An empty block writes nothing.
pub fn dlog_block<F: Fn(u64, u64) -> u64>(
    input: &[u8],
    output: &mut [u8],
    offsets: &[usize],
    ln_ratio: &F,
)
    requires
        block_fits(offsets@, input@.len() as int),
        block_fits(offsets@, old(output)@.len() as int),
        accepts_positive_pairs(*ln_ratio),
    ensures
        final(output)@.len() == old(output)@.len(),
        is_dlog_block(*ln_ratio, input@, offsets@, final(output)@),
        offsets@.len() >= 1 ==> slot_at(final(output)@, offsets@[0] as int) == NAN_BITS,
        forall|i: int|
            1 <= i < offsets@.len() && !(spec_is_positive(slot_at(input@, offsets@[i - 1] as int))
                && spec_is_positive(slot_at(input@, offsets@[i] as int))) ==> slot_at(
                final(output)@,
                #[trigger] offsets@[i] as int,
            ) == NAN_BITS,
        forall|k: int|
            0 <= k < old(output)@.len() && !touched(offsets@, k) ==> final(output)@[k] == old(
                output,
            )@[k],
{
    let ghost before = output@;
    let n: usize = offsets.len();
    if n == 0 {
        return ;
    }
    encode(output, offsets[0], NAN_BITS);
    proof {
        assert(dlog_cell(*ln_ratio, input@, offsets@, output@, 0));
        assert forall|k: int| 0 <= k < before.len() && !touched(offsets@.take(1), k) implies output@[k]
            == before[k] by {
            if in_slot(offsets@[0], k) {
                assert(offsets@.take(1)[0] == offsets@[0]);
                assert(touched(offsets@.take(1), k));
            }
        }
    }
    let mut i: usize = 1;
    while i < n
        invariant
            1 <= i <= n,
            n == offsets@.len(),
            output@.len() == before.len(),
            block_fits(offsets@, input@.len() as int),
            block_fits(offsets@, before.len() as int),
            accepts_positive_pairs(*ln_ratio),
            forall|j: int| 0 <= j < i ==> #[trigger] dlog_cell(*ln_ratio, input@, offsets@, output@, j),
            forall|k: int|
                0 <= k < before.len() && !touched(offsets@.take(i as int), k) ==> output@[k]
                    == before[k],
        decreases n - i,
    {
        let prev: u64 = decode(input, offsets[i - 1]);
        let curr: u64 = decode(input, offsets[i]);
        let value: u64 = log_return(prev, curr, ln_ratio);
        let ghost mid = output@;
        encode(output, offsets[i], value);
        proof {
            assert forall|j: int| 0 <= j < i + 1 implies #[trigger] dlog_cell(
                *ln_ratio,
                input@,
                offsets@,
                output@,
                j,
            ) by {
                if j < i {
                    assert(dlog_cell(*ln_ratio, input@, offsets@, mid, j));
                    assert(offsets@[j] + 8 <= offsets@[i as int]);
                    lemma_slot_at_agrees(mid, output@, offsets@[j] as int);
                }
            }
            assert forall|k: int|
                0 <= k < before.len() && !touched(offsets@.take(i + 1), k) implies output@[k]
                == before[k] by {
                if in_slot(offsets@[i as int], k) {
                    assert(offsets@.take(i + 1)[i as int] == offsets@[i as int]);
                    assert(touched(offsets@.take(i + 1), k));
                }
                if touched(offsets@.take(i as int), k) {
                    let j = choose|j: int|
                        0 <= j < offsets@.take(i as int).len() && in_slot(
                            #[trigger] offsets@.take(i as int)[j],
                            k,
                        );
                    assert(offsets@.take(i + 1)[j] == offsets@.take(i as int)[j]);
                    assert(touched(offsets@.take(i + 1), k));
                }
            }
        }
        i += 1;
    }
    proof {
        assert(offsets@.take(n as int) =~= offsets@);
        assert(dlog_cell(*ln_ratio, input@, offsets@, output@, 0));
        assert forall|i: int|
            1 <= i < offsets@.len() && !(spec_is_positive(slot_at(input@, offsets@[i - 1] as int))
                && spec_is_positive(slot_at(input@, offsets@[i] as int))) implies slot_at(
            output@,
            #[trigger] offsets@[i] as int,
        ) == NAN_BITS by {
            assert(dlog_cell(*ln_ratio, input@, offsets@, output@, i));
        }
    }
}

/// The offsets of `cells` slots that follow each other from byte 0.
pub open spec fn strides(cells: int) -> Seq<usize> {
    Seq::new(cells as nat, |i: int| (i * 8) as usize)
}

/// The log-return of a block whose values stand one after the other in
/// `source`, as a buffer of the same length: the block transform in the form
/// that owns its output.
pub fn dlog_chunk<F: Fn(u64, u64) -> u64>(source: &[u8], ln_ratio: &F) -> (chunk: Vec<u8>)
    requires
        source@.len() % 8 == 0,
        accepts_positive_pairs(*ln_ratio),
    ensures
        chunk@.len() == source@.len(),
        is_dlog_block(*ln_ratio, source@, strides(source@.len() as int / 8), chunk@),
{
    let width: usize = source.len();
    let cells: usize = width / 8;
    let mut offsets: Vec<usize> = Vec::new();
    let mut i: usize = 0;
    while i < cells
        invariant
            i <= cells,
            cells * 8 == width,
            offsets@ == strides(i as int),
        decreases cells - i,
    {
        offsets.push(i * 8);
        i += 1;
        assert(offsets@ =~= strides(i as int));
    }
    let mut chunk: Vec<u8> = zeroed(width);
    dlog_block(source, chunk.as_mut_slice(), offsets.as_slice(), ln_ratio);
    chunk
}

/// Cell `pos` of block `block` of `output` holds the log-return of the same
/// cell of `input`: the NaN pattern at the head of the block, and elsewhere
/// what `log_return_matches` asks for of this cell and the one before it
/// along the block.
pub open spec fn dlog_value_ok<F: Fn(u64, u64) -> u64>(
    ln_ratio: F,
    input: &DataFrame,
    output: &DataFrame,
    block: int,
    pos: int,
) -> bool {
    if pos == 0 {
        output.block_value(block, 0) == NAN_BITS
    } else {
        log_return_matches(
            ln_ratio,
            input.block_value(block, pos - 1),
            input.block_value(block, pos),
            output.block_value(block, pos),
        )
    }
}

/// Block `block` of `output` is the log-return of block `block` of `input`.
pub open spec fn is_dlog_block_of<F: Fn(u64, u64) -> u64>(
    ln_ratio: F,
    input: &DataFrame,
    output: &DataFrame,
    block: int,
) -> bool {
    forall|pos: int|
        0 <= pos < input.spec_block_len() ==> #[trigger] dlog_value_ok(
            ln_ratio,
            input,
            output,
            block,
            pos,
        )
}

/// `output` is the log-return of `input`: a well-formed frame of the same
/// shape in which every block is the log-return of the block it came from.
pub open spec fn is_dlog_of<F: Fn(u64, u64) -> u64>(
    ln_ratio: F,
    input: &DataFrame,
    output: &DataFrame,
) -> bool {
    &&& output.wf()
    &&& output.same_shape(input)
    &&& forall|block: int|
        0 <= block < input.spec_block_count() ==> #[trigger] is_dlog_block_of(
            ln_ratio,
            input,
            output,
            block,
        )
}

/// Log-return of a whole frame, block after block in table order.
///
/// Under a column-major layout a block is a column, so the result is the
/// log-return over time of each series; under a row-major layout a block is a
/// row, and the result runs across the columns of each row.
pub fn dlog<F: Fn(u64, u64) -> u64>(input_df: &DataFrame, ln_ratio: &F) -> (out: DataFrame)
    requires
        input_df.wf(),
        accepts_positive_pairs(*ln_ratio),
    ensures
        is_dlog_of(*ln_ratio, input_df, &out),
{
    let blocks: usize = input_df.offsets.len();
    let mut schedule: Vec<usize> = Vec::new();
    let mut b: usize = 0;
    while b < blocks
        invariant
            b <= blocks,
            schedule@.len() == b,
            forall|j: int| 0 <= j < b ==> schedule@[j] == j,
        decreases blocks - b,
    {
        schedule.push(b);
        b += 1;
    }
    let out = Engine::process_blocks(input_df, ln_ratio, schedule.as_slice());
    proof {
        assert forall|block: int| 0 <= block < input_df.spec_block_count() implies #[trigger] is_dlog_block_of(
            *ln_ratio,
            input_df,
            &out,
            block,
        ) by {
            assert(schedule@[block] == block);
            assert(crate::engine::scheduled(schedule@, schedule@.len() as int, block));
        }
    }
    out
}

} // verus!
