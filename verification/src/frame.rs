//! The columnar frame: a table of 64-bit values in one flat byte buffer.
//!
//! A frame owns its buffer, its row labels and column names, its dimensions,
//! the layout tag, and the offset table that the layout and the dimensions
//! determine. It is never changed in place: every operation that yields other
//! contents yields a new frame.

use vstd::prelude::*;
use vstd::arithmetic::div_mod::{
    lemma_div_pos_is_pos, lemma_fundamental_div_mod, lemma_mod_bound, lemma_multiply_divide_lt,
};
use crate::codec::{decode, encode, lemma_slot_at_agrees, lemma_slot_bytes_agree, slot_at};
use crate::offsets::{
    block_count, block_len, block_offset, block_table, cell_offset, column_major_offset,
    is_offset_table, lemma_block_offset_in_range, lemma_cell_offset_in_range,
    lemma_cell_offset_injective, row_major_offset, Layout,
};

verus! {

/// The table that a frame stands for: its names, its labels and its values
/// row by row, with the layout as a tag that does not change what a cell holds.
pub struct Table {
    /// Physical order of the frame's buffer.
    pub layout: Layout,
    /// Name of each column.
    pub column_names: Seq<Seq<char>>,
    /// Label of each row.
    pub row_names: Seq<Seq<char>>,
    /// The values, one sequence per row.
    pub cells: Seq<Seq<u64>>,
}

/// A table of `num_rows` by `num_columns` values, stored as 8-byte
/// little-endian slots in `buffer` in the order that `layout` names.
#[derive(Debug)]
pub struct DataFrame {
    /// The values, `num_rows * num_columns * 8` bytes.
    pub buffer: Vec<u8>,
    /// Number of rows.
    pub num_rows: usize,
    /// Number of columns.
    pub num_columns: usize,
    /// Name of each column.
    pub column_names: Vec<String>,
    /// Label of each row, kept as text.
    pub row_names: Vec<String>,
    /// Physical order of the cells.
    pub layout: Layout,
    /// Byte offsets of the cells, one block per row or per column.
    pub offsets: Vec<Vec<usize>>,
}

impl View for DataFrame {
    type V = Table;

    open spec fn view(&self) -> Table {
        Table {
            layout: self.layout,
            column_names: self.column_names.deep_view(),
            row_names: self.row_names.deep_view(),
            cells: self.cells(),
        }
    }
}

impl DataFrame {
    /// The invariant of a frame: the buffer has one slot per cell, there is one
    /// name per column and one label per row, and the offset table is the one
    /// that the dimensions and the layout determine.
    pub open spec fn wf(&self) -> bool {
        &&& self.buffer@.len() == self.num_rows * self.num_columns * 8
        &&& self.column_names@.len() == self.num_columns
        &&& self.row_names@.len() == self.num_rows
        &&& is_offset_table(self.offsets@, self.layout, self.num_rows as int, self.num_columns as int)
    }

    /// The value of cell `(row, col)`, whatever the layout.
    pub open spec fn value_at(&self, row: int, col: int) -> u64 {
        slot_at(
            self.buffer@,
            cell_offset(self.layout, self.num_rows as int, self.num_columns as int, row, col),
        )
    }

    /// The table of values, row by row.
    pub open spec fn cells(&self) -> Seq<Seq<u64>> {
        Seq::new(
            self.num_rows as nat,
            |r: int| Seq::new(self.num_columns as nat, |c: int| self.value_at(r, c)),
        )
    }

    /// Number of blocks of the frame.
    pub open spec fn spec_block_count(&self) -> int {
        block_count(self.layout, self.num_rows as int, self.num_columns as int)
    }

    /// Number of cells in each block of the frame.
    pub open spec fn spec_block_len(&self) -> int {
        block_len(self.layout, self.num_rows as int, self.num_columns as int)
    }

    /// The value at position `pos` of block `block`: cell `(block, pos)` when
    /// blocks are rows, cell `(pos, block)` when blocks are columns.
    pub open spec fn block_value(&self, block: int, pos: int) -> u64 {
        match self.layout {
            Layout::RowMajor => self.value_at(block, pos),
            Layout::ColumnMajor => self.value_at(pos, block),
        }
    }

    /// The frames have the same dimensions, layout, column names and row labels.
    pub open spec fn same_shape(&self, other: &DataFrame) -> bool {
        &&& self.num_rows == other.num_rows
        &&& self.num_columns == other.num_columns
        &&& self.layout == other.layout
        &&& self.column_names@ == other.column_names@
        &&& self.row_names@ == other.row_names@
    }

    /// The value of a block position is the slot that the offset table names.
    pub proof fn lemma_block_value(&self, block: int, pos: int)
        requires
            self.wf(),
            0 <= block < self.spec_block_count(),
            0 <= pos < self.spec_block_len(),
        ensures
            self.block_value(block, pos) == slot_at(
                self.buffer@,
                block_offset(self.spec_block_len(), block, pos),
            ),
            self.offsets@[block]@[pos] as int == block_offset(self.spec_block_len(), block, pos),
            block_offset(self.spec_block_len(), block, pos) + 8 <= self.buffer@.len(),
    {
        lemma_block_offset_in_range(self.spec_block_count(), self.spec_block_len(), block, pos);
        assert(self.num_rows * self.num_columns * 8 == self.spec_block_count()
            * self.spec_block_len() * 8) by (nonlinear_arith)
            requires
                (self.spec_block_count() == self.num_rows && self.spec_block_len()
                    == self.num_columns) || (self.spec_block_count() == self.num_columns
                    && self.spec_block_len() == self.num_rows),
        ;
    }

    /// The buffer is determined by the dimensions, the layout and the values:
    /// two well-formed frames of the same dimensions and layout that agree on
    /// every cell are the same bytes.
    pub proof fn lemma_same_cells_same_buffer(&self, other: &DataFrame)
        requires
            self.wf(),
            other.wf(),
            self.num_rows == other.num_rows,
            self.num_columns == other.num_columns,
            self.layout == other.layout,
            forall|block: int, pos: int|
                0 <= block < self.spec_block_count() && 0 <= pos < self.spec_block_len()
                    ==> #[trigger] self.block_value(block, pos) == other.block_value(block, pos),
        ensures
            self.buffer@ == other.buffer@,
    {
        let count = self.spec_block_count();
        let len = self.spec_block_len();
        assert(self.num_rows * self.num_columns * 8 == count * len * 8) by (nonlinear_arith)
            requires
                (count == self.num_rows && len == self.num_columns) || (count == self.num_columns
                    && len == self.num_rows),
        ;
        assert forall|k: int| 0 <= k < self.buffer@.len() implies self.buffer@[k]
            == other.buffer@[k] by {
            assert(count > 0 && len > 0) by (nonlinear_arith)
                requires
                    0 <= k < count * len * 8,
                    count >= 0,
                    len >= 0,
            ;
            let slot = k / 8;
            assert(0 <= slot < count * len && slot * 8 <= k < slot * 8 + 8);
            let block = slot / len;
            let pos = slot % len;
            lemma_fundamental_div_mod(slot, len);
            lemma_mod_bound(slot, len);
            lemma_div_pos_is_pos(slot, len);
            lemma_multiply_divide_lt(slot, len, count);
            assert(block * len == len * block) by (nonlinear_arith);
            assert(block_offset(len, block, pos) == slot * 8);
            assert(self.block_value(block, pos) == other.block_value(block, pos));
            self.lemma_block_value(block, pos);
            other.lemma_block_value(block, pos);
            lemma_slot_bytes_agree(self.buffer@, other.buffer@, slot * 8);
        }
        assert(self.buffer@ =~= other.buffer@);
    }

    /// The offset table is determined by the dimensions and the layout.
    pub proof fn lemma_same_shape_same_offsets(&self, other: &DataFrame)
        requires
            self.wf(),
            other.wf(),
            self.num_rows == other.num_rows,
            self.num_columns == other.num_columns,
            self.layout == other.layout,
        ensures
            self.offsets.deep_view() == other.offsets.deep_view(),
    {
        let count = self.spec_block_count();
        let len = self.spec_block_len();
        assert forall|b: int| 0 <= b < count implies self.offsets.deep_view()[b]
            == other.offsets.deep_view()[b] by {
            assert(self.offsets@[b]@.len() == len);
            assert(other.offsets@[b]@.len() == len);
            assert forall|i: int| 0 <= i < len implies self.offsets@[b]@[i] == other.offsets@[b]@[i] by {
                assert(self.offsets@[b]@[i] as int == block_offset(len, b, i));
                assert(other.offsets@[b]@[i] as int == block_offset(len, b, i));
            }
            assert(self.offsets@[b].deep_view() =~= other.offsets@[b].deep_view());
        }
        assert(self.offsets.deep_view() =~= other.offsets.deep_view());
    }

    /// Every offset of the table names an 8-aligned slot inside the buffer,
    /// and the offsets of a block ascend slot by slot.
    pub proof fn lemma_offsets_are_slots(&self, block: int, pos: int)
        requires
            self.wf(),
            0 <= block < self.spec_block_count(),
            0 <= pos < self.spec_block_len(),
        ensures
            self.offsets@[block]@[pos] + 8 <= self.buffer@.len(),
            self.offsets@[block]@[pos] % 8 == 0,
            pos + 1 < self.spec_block_len() ==> self.offsets@[block]@[pos + 1]
                == self.offsets@[block]@[pos] + 8,
    {
        self.lemma_block_value(block, pos);
        lemma_block_offset_in_range(self.spec_block_count(), self.spec_block_len(), block, pos);
    }

    /// Offset table with one block per row.
    pub fn calc_row_offsets(num_rows: usize, num_columns: usize) -> (table: Vec<Vec<usize>>)
        requires
            num_rows * num_columns * 8 <= usize::MAX,
        ensures
            is_offset_table(table@, Layout::RowMajor, num_rows as int, num_columns as int),
            table@.len() == num_rows,
            forall|r: int, c: int|
                0 <= r < num_rows && 0 <= c < num_columns ==> (#[trigger] table@[r]@[c]) as int
                    == row_major_offset(num_columns as int, r, c),
    {
        block_table(num_rows, num_columns)
    }

    /// Offset table with one block per column.
    pub fn calc_column_offsets(num_rows: usize, num_columns: usize) -> (table: Vec<Vec<usize>>)
        requires
            num_rows * num_columns * 8 <= usize::MAX,
        ensures
            is_offset_table(table@, Layout::ColumnMajor, num_rows as int, num_columns as int),
            table@.len() == num_columns,
            forall|r: int, c: int|
                0 <= r < num_rows && 0 <= c < num_columns ==> (#[trigger] table@[c]@[r]) as int
                    == column_major_offset(num_rows as int, r, c),
    {
        proof {
            assert(num_columns * num_rows * 8 == num_rows * num_columns * 8) by (nonlinear_arith);
        }
        block_table(num_columns, num_rows)
    }

    /// Offset table of a `num_rows` by `num_columns` table under `layout`.
    pub fn calc_offsets(num_rows: usize, num_columns: usize, layout: Layout) -> (table: Vec<
        Vec<usize>,
    >)
        requires
            num_rows * num_columns * 8 <= usize::MAX,
        ensures
            is_offset_table(table@, layout, num_rows as int, num_columns as int),
    {
        match layout {
            Layout::RowMajor => DataFrame::calc_row_offsets(num_rows, num_columns),
            Layout::ColumnMajor => DataFrame::calc_column_offsets(num_rows, num_columns),
        }
    }

    /// Checks the invariant of a frame whose fields were filled in by hand.
    pub fn is_well_formed(&self) -> (ok: bool)
        ensures
            ok == self.wf(),
    {
        let rows: usize = self.num_rows;
        let columns: usize = self.num_columns;
        let size: usize = self.buffer.len();
        let cells: usize = match rows.checked_mul(columns) {
            Some(cells) => cells,
            None => {
                assert(size < rows * columns * 8) by (nonlinear_arith)
                    requires
                        size <= usize::MAX,
                        rows * columns > usize::MAX,
                ;
                return false;
            },
        };
        let wanted: usize = match cells.checked_mul(8) {
            Some(wanted) => wanted,
            None => {
                return false;
            },
        };
        if size != wanted || self.column_names.len() != columns || self.row_names.len() != rows {
            return false;
        }
        let (count, len): (usize, usize) = match self.layout {
            Layout::RowMajor => (rows, columns),
            Layout::ColumnMajor => (columns, rows),
        };
        assert(count * len * 8 == rows * columns * 8) by (nonlinear_arith)
            requires
                (count == rows && len == columns) || (count == columns && len == rows),
        ;
        if self.offsets.len() != count {
            return false;
        }
        let mut b: usize = 0;
        while b < count
            invariant
                b <= count,
                count == self.spec_block_count(),
                len == self.spec_block_len(),
                count * len * 8 <= usize::MAX,
                self.offsets@.len() == count,
                forall|j: int| 0 <= j < b ==> (#[trigger] self.offsets@[j])@.len() == len,
                forall|j: int, i: int|
                    0 <= j < b && 0 <= i < len ==> (#[trigger] self.offsets@[j]@[i]) as int
                        == block_offset(len as int, j, i),
            decreases count - b,
        {
            let block: &Vec<usize> = &self.offsets[b];
            if block.len() != len {
                return false;
            }
            let mut i: usize = 0;
            while i < len
                invariant
                    i <= len,
                    b < count,
                    count == self.spec_block_count(),
                    len == self.spec_block_len(),
                    count * len * 8 <= usize::MAX,
                    self.offsets@.len() == count,
                    block@.len() == len,
                    block == self.offsets@[b as int],
                    forall|k: int|
                        0 <= k < i ==> (#[trigger] block@[k]) as int == block_offset(
                            len as int,
                            b as int,
                            k,
                        ),
                decreases len - i,
            {
                proof {
                    lemma_block_offset_in_range(count as int, len as int, b as int, i as int);
                    assert(0 <= b * len) by (nonlinear_arith)
                        requires
                            0 <= b,
                            0 <= len,
                    ;
                }
                if block[i] != (b * len + i) * 8 {
                    assert(self.offsets@[b as int]@[i as int] as int != block_offset(
                        len as int,
                        b as int,
                        i as int,
                    ));
                    return false;
                }
                i += 1;
            }
            b += 1;
        }
        true
    }

    /// Reads cell `(row, col)` through the offset table.
    pub fn decode_at(&self, row: usize, col: usize) -> (bits: u64)
        requires
            self.wf(),
            row < self.num_rows,
            col < self.num_columns,
        ensures
            bits == self.value_at(row as int, col as int),
    {
        proof {
            lemma_cell_offset_in_range(
                self.layout,
                self.num_rows as int,
                self.num_columns as int,
                row as int,
                col as int,
            );
        }
        let off: usize = match self.layout {
            Layout::RowMajor => self.offsets[row][col],
            Layout::ColumnMajor => self.offsets[col][row],
        };
        decode(self.buffer.as_slice(), off)
    }

    /// The same table in the `target` layout: a new frame with a new buffer of
    /// the same size, in which every cell holds what it held before.
    pub fn to_layout(&self, target: Layout) -> (out: DataFrame)
        requires
            self.wf(),
        ensures
            out.wf(),
            out.layout == target,
            out.num_rows == self.num_rows,
            out.num_columns == self.num_columns,
            out.column_names@ == self.column_names@,
            out.row_names@ == self.row_names@,
            forall|r: int, c: int|
                0 <= r < self.num_rows && 0 <= c < self.num_columns ==> #[trigger] out.value_at(r, c)
                    == self.value_at(r, c),
            out.cells() == self.cells(),
            out@ == (Table { layout: target, ..self@ }),
    {
        let rows: usize = self.num_rows;
        let columns: usize = self.num_columns;
        let size: usize = self.buffer.len();
        let offsets = DataFrame::calc_offsets(rows, columns, target);
        let mut buffer: Vec<u8> = zeroed(size);
        let mut r: usize = 0;
        while r < rows
            invariant
                self.wf(),
                rows == self.num_rows,
                columns == self.num_columns,
                r <= rows,
                buffer@.len() == self.buffer@.len(),
                is_offset_table(offsets@, target, rows as int, columns as int),
                forall|i: int, j: int|
                    0 <= i < r && 0 <= j < columns ==> #[trigger] slot_at(
                        buffer@,
                        cell_offset(target, rows as int, columns as int, i, j),
                    ) == self.value_at(i, j),
            decreases rows - r,
        {
            let mut c: usize = 0;
            while c < columns
                invariant
                    self.wf(),
                    rows == self.num_rows,
                    columns == self.num_columns,
                    r < rows,
                    c <= columns,
                    buffer@.len() == self.buffer@.len(),
                    is_offset_table(offsets@, target, rows as int, columns as int),
                    forall|i: int, j: int|
                        (0 <= i < r && 0 <= j < columns) || (i == r && 0 <= j < c)
                            ==> #[trigger] slot_at(
                            buffer@,
                            cell_offset(target, rows as int, columns as int, i, j),
                        ) == self.value_at(i, j),
                decreases columns - c,
            {
                let bits: u64 = self.decode_at(r, c);
                proof {
                    lemma_cell_offset_in_range(target, rows as int, columns as int, r as int, c as int);
                }
                let dst: usize = match target {
                    Layout::RowMajor => offsets[r][c],
                    Layout::ColumnMajor => offsets[c][r],
                };
                let ghost mid = buffer@;
                encode(buffer.as_mut_slice(), dst, bits);
                proof {
                    assert forall|i: int, j: int|
                        (0 <= i < r && 0 <= j < columns) || (i == r && 0 <= j < c + 1)
                        implies #[trigger] slot_at(
                        buffer@,
                        cell_offset(target, rows as int, columns as int, i, j),
                    ) == self.value_at(i, j) by {
                        if i != r || j != c {
                            lemma_cell_offset_in_range(target, rows as int, columns as int, i, j);
                            lemma_cell_offset_injective(
                                target,
                                rows as int,
                                columns as int,
                                i,
                                j,
                                r as int,
                                c as int,
                            );
                            lemma_slot_at_agrees(
                                mid,
                                buffer@,
                                cell_offset(target, rows as int, columns as int, i, j),
                            );
                        }
                    }
                }
                c += 1;
            }
            r += 1;
        }
        let out = DataFrame {
            buffer,
            num_rows: rows,
            num_columns: columns,
            column_names: clone_names(&self.column_names),
            row_names: clone_names(&self.row_names),
            layout: target,
            offsets,
        };
        proof {
            assert forall|i: int, j: int| 0 <= i < rows && 0 <= j < columns implies #[trigger] out.value_at(
                i,
                j,
            ) == self.value_at(i, j) by {
                assert(slot_at(out.buffer@, cell_offset(target, rows as int, columns as int, i, j))
                    == self.value_at(i, j));
            }
            assert(out.cells() =~~= self.cells());
        }
        out
    }
}

/// A buffer of `len` zero bytes.
pub fn zeroed(len: usize) -> (buf: Vec<u8>)
    ensures
        buf@.len() == len,
        forall|k: int| 0 <= k < len ==> buf@[k] == 0u8,
{
    let mut buf: Vec<u8> = Vec::new();
    let mut k: usize = 0;
    while k < len
        invariant
            k <= len,
            buf@.len() == k,
            forall|j: int| 0 <= j < k ==> buf@[j] == 0u8,
        decreases len - k,
    {
        buf.push(0u8);
        k += 1;
    }
    buf
}

/// A copy of a list of names.
pub fn clone_names(names: &Vec<String>) -> (copy: Vec<String>)
    ensures
        copy@ == names@,
{
    let mut copy: Vec<String> = Vec::new();
    let mut k: usize = 0;
    while k < names.len()
        invariant
            k <= names@.len(),
            copy@ == names@.take(k as int),
        decreases names@.len() - k,
    {
        copy.push(names[k].clone());
        k += 1;
        assert(copy@ =~= names@.take(k as int));
    }
    assert(names@.take(names@.len() as int) =~= names@);
    copy
}

} // verus!
