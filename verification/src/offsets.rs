//! Offset table: where each cell of a table lives in the flat buffer.
//!
//! A table of `rows` by `columns` cells is cut into blocks along one axis.
//! Row-major: one block per row, cell `(r, c)` at byte `(r * columns + c) * 8`.
//! Column-major: one block per column, cell `(r, c)` at byte `(c * rows + r) * 8`.
//! Both are the same rule seen from the block: position `i` of block `b` lies
//! at `(b * block_len + i) * 8`.

use vstd::prelude::*;

verus! {

/// Physical order of the cells in the buffer.
#[derive(Clone, Copy, Debug, PartialEq, Eq, Structural)]
pub enum Layout {
    /// Consecutive slots hold consecutive columns of one row.
    RowMajor,
    /// Consecutive slots hold consecutive rows of one column.
    ColumnMajor,
}

/// Byte offset of cell `(row, col)` in a row-major buffer.
pub open spec fn row_major_offset(columns: int, row: int, col: int) -> int {
    (row * columns + col) * 8
}

/// Byte offset of cell `(row, col)` in a column-major buffer.
pub open spec fn column_major_offset(rows: int, row: int, col: int) -> int {
    (col * rows + row) * 8
}

/// Byte offset of cell `(row, col)` under `layout`.
pub open spec fn cell_offset(layout: Layout, rows: int, columns: int, row: int, col: int) -> int {
    match layout {
        Layout::RowMajor => row_major_offset(columns, row, col),
        Layout::ColumnMajor => column_major_offset(rows, row, col),
    }
}

/// Number of blocks: rows if row-major, columns if column-major.
pub open spec fn block_count(layout: Layout, rows: int, columns: int) -> int {
    match layout {
        Layout::RowMajor => rows,
        Layout::ColumnMajor => columns,
    }
}

/// Number of cells in each block: the extent of the other axis.
pub open spec fn block_len(layout: Layout, rows: int, columns: int) -> int {
    match layout {
        Layout::RowMajor => columns,
        Layout::ColumnMajor => rows,
    }
}

/// Byte offset of position `pos` in block `block`, for blocks of `len` cells.
pub open spec fn block_offset(len: int, block: int, pos: int) -> int {
    (block * len + pos) * 8
}

/// `table` is the offset table of `blocks` blocks of `len` cells each.
pub open spec fn is_block_table(table: Seq<Vec<usize>>, blocks: int, len: int) -> bool {
    &&& table.len() == blocks
    &&& forall|b: int| 0 <= b < blocks ==> (#[trigger] table[b])@.len() == len
    &&& forall|b: int, i: int|
        0 <= b < blocks && 0 <= i < len ==> (#[trigger] table[b]@[i]) as int == block_offset(
            len,
            b,
            i,
        )
}

/// `table` is the offset table of a `rows` by `columns` table under `layout`.
pub open spec fn is_offset_table(table: Seq<Vec<usize>>, layout: Layout, rows: int, columns: int) -> bool {
    is_block_table(table, block_count(layout, rows, columns), block_len(layout, rows, columns))
}

/// Every slot of the table lies inside a buffer of `blocks * len * 8` bytes,
/// is 8-aligned, and slots follow each other in ascending order inside a block.
pub proof fn lemma_block_offset_in_range(blocks: int, len: int, block: int, pos: int)
    requires
        0 <= block < blocks,
        0 <= pos < len,
    ensures
        0 <= block_offset(len, block, pos),
        block_offset(len, block, pos) + 8 <= blocks * len * 8,
        block_offset(len, block, pos) % 8 == 0,
        block * len + pos < blocks * len,
        pos + 1 < len ==> block_offset(len, block, pos + 1) == block_offset(len, block, pos) + 8,
{
    assert(block * len + pos < blocks * len && 0 <= block * len) by (nonlinear_arith)
        requires
            0 <= block < blocks,
            0 <= pos < len,
    ;
    assert(blocks * len * 8 == (blocks * len) * 8) by (nonlinear_arith);
}

/// Two different cells never share a slot.
pub proof fn lemma_block_offset_injective(len: int, b1: int, i1: int, b2: int, i2: int)
    requires
        0 <= b1,
        0 <= b2,
        0 <= i1 < len,
        0 <= i2 < len,
        b1 != b2 || i1 != i2,
    ensures
        block_offset(len, b1, i1) + 8 <= block_offset(len, b2, i2) || block_offset(len, b2, i2)
            + 8 <= block_offset(len, b1, i1),
{
    if b1 < b2 {
        assert(b1 * len + i1 < b2 * len + i2) by (nonlinear_arith)
            requires
                0 <= b1 < b2,
                0 <= i1 < len,
                0 <= i2 < len,
        ;
    } else if b2 < b1 {
        assert(b2 * len + i2 < b1 * len + i1) by (nonlinear_arith)
            requires
                0 <= b2 < b1,
                0 <= i1 < len,
                0 <= i2 < len,
        ;
    }
}

/// The slot of a cell lies inside a buffer of `rows * columns * 8` bytes.
pub proof fn lemma_cell_offset_in_range(layout: Layout, rows: int, columns: int, row: int, col: int)
    requires
        0 <= row < rows,
        0 <= col < columns,
    ensures
        0 <= cell_offset(layout, rows, columns, row, col),
        cell_offset(layout, rows, columns, row, col) + 8 <= rows * columns * 8,
        cell_offset(layout, rows, columns, row, col) % 8 == 0,
{
    match layout {
        Layout::RowMajor => {
            lemma_block_offset_in_range(rows, columns, row, col);
        },
        Layout::ColumnMajor => {
            lemma_block_offset_in_range(columns, rows, col, row);
            assert(columns * rows * 8 == rows * columns * 8) by (nonlinear_arith);
        },
    }
}

/// Under one layout two different cells never share a slot.
pub proof fn lemma_cell_offset_injective(
    layout: Layout,
    rows: int,
    columns: int,
    r1: int,
    c1: int,
    r2: int,
    c2: int,
)
    requires
        0 <= r1 < rows,
        0 <= r2 < rows,
        0 <= c1 < columns,
        0 <= c2 < columns,
        r1 != r2 || c1 != c2,
    ensures
        cell_offset(layout, rows, columns, r1, c1) + 8 <= cell_offset(layout, rows, columns, r2, c2)
            || cell_offset(layout, rows, columns, r2, c2) + 8 <= cell_offset(
            layout,
            rows,
            columns,
            r1,
            c1,
        ),
{
    match layout {
        Layout::RowMajor => {
            lemma_block_offset_injective(columns, r1, c1, r2, c2);
        },
        Layout::ColumnMajor => {
            lemma_block_offset_injective(rows, c1, r1, c2, r2);
        },
    }
}

/// Builds the table of `blocks` blocks of `len` offsets each.
pub fn block_table(blocks: usize, len: usize) -> (table: Vec<Vec<usize>>)
    requires
        blocks * len * 8 <= usize::MAX,
    ensures
        is_block_table(table@, blocks as int, len as int),
{
    let mut table: Vec<Vec<usize>> = Vec::new();
    let mut b: usize = 0;
    while b < blocks
        invariant
            b <= blocks,
            blocks * len * 8 <= usize::MAX,
            is_block_table(table@, b as int, len as int),
        decreases blocks - b,
    {
        let mut block: Vec<usize> = Vec::new();
        let mut i: usize = 0;
        while i < len
            invariant
                i <= len,
                b < blocks,
                blocks * len * 8 <= usize::MAX,
                block@.len() == i,
                forall|k: int| 0 <= k < i ==> (#[trigger] block@[k]) as int == block_offset(len as int, b as int, k),
            decreases len - i,
        {
            proof {
                lemma_block_offset_in_range(blocks as int, len as int, b as int, i as int);
                assert(0 <= b * len) by (nonlinear_arith)
                    requires
                        0 <= b,
                        0 <= len,
                ;
            }
            let off: usize = (b * len + i) * 8;
            block.push(off);
            i += 1;
        }
        let ghost prev = table@;
        table.push(block);
        proof {
            assert forall|c: int| 0 <= c < b + 1 implies (#[trigger] table@[c])@.len() == len by {
                if c < b {
                    assert(table@[c] == prev[c]);
                }
            }
            assert forall|c: int, k: int| 0 <= c < b + 1 && 0 <= k < len implies (
            #[trigger] table@[c]@[k]) as int == block_offset(len as int, c, k) by {
                if c < b {
                    assert(table@[c] == prev[c]);
                }
            }
        }
        b += 1;
    }
    table
}

} // verus!
