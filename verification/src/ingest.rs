//! Ingestion: from the bytes of a comma-separated table to a frame.
//!
//! The first line is the header; its first field must be `DATE` and the
//! others name the columns. Every later line is a row: its first field is the
//! row's label and the others are its values. Only lines that end in a line
//! feed count; bytes after the last line feed are ignored. An empty field is
//! a missing value, and so is a field that the caller's number reader turns
//! down: both are stored as the NaN pattern. The values of all rows, taken
//! together, must be exactly rows times columns many.

use vstd::prelude::*;
use vstd::slice::slice_subrange;
use crate::codec::{encode, lemma_slot_at_agrees, slot_at, NAN_BITS};
use crate::frame::{zeroed, DataFrame};
use crate::offsets::{lemma_block_offset_in_range, row_major_offset, Layout};
use crate::scan::{split_on, split_ranges, COMMA, NEWLINE};

verus! {

/// Why a table was turned down.
#[derive(Clone, Copy, Debug, PartialEq, Eq, Structural)]
pub enum FrameError {
    /// There is no header line, or its first field is not `DATE`.
    MissingDateHeader,
    /// The rows do not hold rows times columns values between them.
    RaggedRows,
    /// The table needs more bytes than the machine can address.
    TooLarge,
    /// The input is empty or holds nothing but white space.
    NoInput,
    /// The record reader or writer turned the text down.
    Csv,
    /// The system refused a memory map.
    Mapping,
}

impl FrameError {
    /// What to tell the user.
    pub fn message(&self) -> (text: String)
        ensures
            text@ == match *self {
                FrameError::MissingDateHeader => "Error: First column must be 'DATE'."@,
                FrameError::RaggedRows => "Error: Mismatched row or column count."@,
                FrameError::TooLarge => "Error: Table too large for this machine."@,
                FrameError::NoInput => "Error: No input provided via stdin."@,
                FrameError::Csv => "Error: Malformed record."@,
                FrameError::Mapping => "Error: Memory map failed."@,
            },
    {
        match self {
            FrameError::MissingDateHeader => "Error: First column must be 'DATE'.".to_owned(),
            FrameError::RaggedRows => "Error: Mismatched row or column count.".to_owned(),
            FrameError::TooLarge => "Error: Table too large for this machine.".to_owned(),
            FrameError::NoInput => "Error: No input provided via stdin.".to_owned(),
            FrameError::Csv => "Error: Malformed record.".to_owned(),
            FrameError::Mapping => "Error: Memory map failed.".to_owned(),
        }
    }
}

/// The text that any byte string stands for when bytes that are not UTF-8 are
/// replaced by the replacement character.
pub uninterp spec fn utf8_lossy(bytes: Seq<u8>) -> Seq<char>;

/// `String::from_utf8_lossy` of std, made into an owned string. The contract
/// only gives the result its name, `utf8_lossy`: the same bytes always give
/// the same text.
#[verifier::external_body]
fn lossy_string(bytes: &[u8]) -> (text: String)
    ensures
        text@ == utf8_lossy(bytes@),
{
    String::from_utf8_lossy(bytes).into_owned()
}

/// The bytes of the word `DATE`.
pub open spec fn date_tag() -> Seq<u8> {
    seq![68u8, 65u8, 84u8, 69u8]
}

/// The lines of `data`: what stands before each line feed.
pub open spec fn csv_lines(data: Seq<u8>) -> Seq<Seq<u8>> {
    split_on(data, NEWLINE).drop_last()
}

/// The fields of the header line.
pub open spec fn header_fields(data: Seq<u8>) -> Seq<Seq<u8>> {
    split_on(csv_lines(data)[0], COMMA)
}

/// The fields of data row `row`.
pub open spec fn row_fields(data: Seq<u8>, row: int) -> Seq<Seq<u8>> {
    split_on(csv_lines(data)[row + 1], COMMA)
}

/// There is a header line and its first field is `DATE`.
pub open spec fn has_date_header(data: Seq<u8>) -> bool {
    csv_lines(data).len() >= 1 && header_fields(data)[0] == date_tag()
}

/// Number of columns that the header declares.
pub open spec fn csv_columns(data: Seq<u8>) -> int {
    header_fields(data).len() - 1
}

/// Number of data rows.
pub open spec fn csv_rows(data: Seq<u8>) -> int {
    csv_lines(data).len() - 1
}

/// The value fields of the first `rows` data rows, row after row.
pub open spec fn value_fields(data: Seq<u8>, rows: int) -> Seq<Seq<u8>>
    decreases rows,
{
    if rows <= 0 {
        Seq::<Seq<u8>>::empty()
    } else {
        value_fields(data, rows - 1) + row_fields(data, rows - 1).skip(1)
    }
}

/// What is stored for a reader's answer: the pattern it gave, or the NaN
/// pattern where it gave none.
pub open spec fn bits_or_nan(answer: Option<u64>) -> u64 {
    match answer {
        Some(bits) => bits,
        None => NAN_BITS,
    }
}

/// `bits` is what is stored for `field`: the NaN pattern for an empty field,
/// else what `parse` made of the field, with the NaN pattern for a refusal.
pub open spec fn cell_matches<F: Fn(&[u8]) -> Option<u64>>(parse: F, field: Seq<u8>, bits: u64) -> bool {
    if field.len() == 0 {
        bits == NAN_BITS
    } else {
        exists|s: &[u8], answer: Option<u64>|
            s@ == field && #[trigger] call_ensures(parse, (s,), answer) && bits == bits_or_nan(
                answer,
            )
    }
}

/// `df` is the frame of the table `data` in layout `layout`: it has the
/// table's dimensions, its names are the header's fields after `DATE`, its
/// labels the first fields of the rows, and cell `(r, c)` holds what is stored
/// for the field at place `r * columns + c` among all value fields.
pub open spec fn is_frame_of_csv<F: Fn(&[u8]) -> Option<u64>>(
    parse: F,
    data: Seq<u8>,
    layout: Layout,
    df: &DataFrame,
) -> bool {
    &&& df.wf()
    &&& df.layout == layout
    &&& df.num_rows == csv_rows(data)
    &&& df.num_columns == csv_columns(data)
    &&& df.buffer@.len() == csv_rows(data) * csv_columns(data) * 8
    &&& forall|c: int|
        0 <= c < df.num_columns ==> (#[trigger] df.column_names@[c])@ == utf8_lossy(
            header_fields(data)[c + 1],
        )
    &&& forall|r: int|
        0 <= r < df.num_rows ==> (#[trigger] df.row_names@[r])@ == utf8_lossy(row_fields(data, r)[0])
    &&& forall|r: int, c: int|
        0 <= r < df.num_rows && 0 <= c < df.num_columns ==> cell_matches(
            parse,
            value_fields(data, csv_rows(data))[r * df.num_columns + c],
            #[trigger] df.value_at(r, c),
        )
}

/// `parse` may be called on every field.
pub open spec fn accepts_every_field<F: Fn(&[u8]) -> Option<u64>>(parse: F) -> bool {
    forall|s: &[u8]| #[trigger] call_requires(parse, (s,))
}

/// The value stored for one field. `parse` is not consulted for an empty field.
pub fn field_value<F: Fn(&[u8]) -> Option<u64>>(field: &[u8], parse: &F) -> (bits: u64)
    requires
        accepts_every_field(*parse),
    ensures
        cell_matches(*parse, field@, bits),
        field@.len() == 0 ==> bits == NAN_BITS,
{
    if field.len() == 0 {
        NAN_BITS
    } else {
        match parse(field) {
            Some(bits) => bits,
            None => NAN_BITS,
        }
    }
}

/// Whether `data[lo..hi]` spells `DATE`.
fn is_date_tag(data: &[u8], lo: usize, hi: usize) -> (yes: bool)
    requires
        lo <= hi <= data@.len(),
    ensures
        yes == (data@.subrange(lo as int, hi as int) == date_tag()),
{
    let ghost field = data@.subrange(lo as int, hi as int);
    assert(date_tag().len() == 4);
    if hi - lo != 4 {
        return false;
    }
    let yes = data[lo] == 68 && data[lo + 1] == 65 && data[lo + 2] == 84 && data[lo + 3] == 69;
    proof {
        assert(field[0] == data@[lo as int]);
        assert(field[1] == data@[lo + 1]);
        assert(field[2] == data@[lo + 2]);
        assert(field[3] == data@[lo + 3]);
        if yes {
            assert(field =~= date_tag());
        }
    }
    yes
}

/// The buffer that holds `values` as consecutive slots.
fn pack_values(values: &Vec<u64>, size: usize) -> (buffer: Vec<u8>)
    requires
        size == values@.len() * 8,
    ensures
        buffer@.len() == size,
        forall|k: int| 0 <= k < values@.len() ==> #[trigger] slot_at(buffer@, k * 8) == values@[k],
{
    let mut buffer: Vec<u8> = zeroed(size);
    let mut k: usize = 0;
    while k < values.len()
        invariant
            k <= values@.len(),
            size == values@.len() * 8,
            buffer@.len() == size,
            forall|j: int| 0 <= j < k ==> #[trigger] slot_at(buffer@, j * 8) == values@[j],
        decreases values@.len() - k,
    {
        let ghost mid = buffer@;
        encode(buffer.as_mut_slice(), k * 8, values[k]);
        proof {
            assert forall|j: int| 0 <= j < k + 1 implies #[trigger] slot_at(buffer@, j * 8)
                == values@[j] by {
                if j < k {
                    lemma_slot_at_agrees(mid, buffer@, j * 8);
                }
            }
        }
        k += 1;
    }
    buffer
}

impl DataFrame {
    /// Builds a frame from its names, its labels and its values in row order.
    ///
    /// There are as many columns as names and as many rows as labels. Fails
    /// if and only if `values` does not hold rows times columns values, or the
    /// buffer would not fit the address space. On success cell `(r, c)` holds
    /// `values[r * columns + c]`, whichever layout was asked for.
    pub fn from_values(
        column_names: Vec<String>,
        row_names: Vec<String>,
        values: Vec<u64>,
        layout: Layout,
    ) -> (res: Result<DataFrame, FrameError>)
        ensures
            values@.len() != row_names@.len() * column_names@.len() <==> res == Err::<
                DataFrame,
                FrameError,
            >(FrameError::RaggedRows),
            (values@.len() == row_names@.len() * column_names@.len() && values@.len() * 8
                > usize::MAX) <==> res == Err::<DataFrame, FrameError>(FrameError::TooLarge),
            res is Ok <==> (values@.len() == row_names@.len() * column_names@.len() && values@.len()
                * 8 <= usize::MAX),
            res matches Ok(df) ==> {
                &&& df.wf()
                &&& df.layout == layout
                &&& df.num_rows == row_names@.len()
                &&& df.num_columns == column_names@.len()
                &&& df.buffer@.len() == values@.len() * 8
                &&& df.column_names@ == column_names@
                &&& df.row_names@ == row_names@
                &&& forall|r: int, c: int|
                    0 <= r < df.num_rows && 0 <= c < df.num_columns ==> #[trigger] df.value_at(r, c)
                        == values@[r * df.num_columns + c]
            },
    {
        let num_rows: usize = row_names.len();
        let num_columns: usize = column_names.len();
        let found: usize = values.len();
        let cells: usize = match num_rows.checked_mul(num_columns) {
            Some(cells) => cells,
            None => {
                assert(found < num_rows * num_columns);
                return Err(FrameError::RaggedRows);
            },
        };
        if found != cells {
            return Err(FrameError::RaggedRows);
        }
        let size: usize = match cells.checked_mul(8) {
            Some(size) => size,
            None => {
                return Err(FrameError::TooLarge);
            },
        };
        assert(num_rows * num_columns * 8 == size) by (nonlinear_arith)
            requires
                cells == num_rows * num_columns,
                size == cells * 8,
        ;
        let buffer = pack_values(&values, size);
        let frame = DataFrame {
            buffer,
            num_rows,
            num_columns,
            column_names,
            row_names,
            layout: Layout::RowMajor,
            offsets: DataFrame::calc_row_offsets(num_rows, num_columns),
        };
        proof {
            assert forall|i: int, j: int|
                0 <= i < num_rows && 0 <= j < num_columns implies #[trigger] frame.value_at(i, j)
                == values@[i * num_columns + j] by {
                lemma_block_offset_in_range(num_rows as int, num_columns as int, i, j);
                let k = i * num_columns + j;
                assert(row_major_offset(num_columns as int, i, j) == k * 8);
                assert(slot_at(frame.buffer@, k * 8) == values@[k]);
            }
        }
        match layout {
            Layout::RowMajor => Ok(frame),
            Layout::ColumnMajor => {
                let turned = frame.to_layout(Layout::ColumnMajor);
                proof {
                    assert forall|i: int, j: int|
                        0 <= i < num_rows && 0 <= j < num_columns implies #[trigger] turned.value_at(
                        i,
                        j,
                    ) == values@[i * num_columns + j] by {
                        assert(turned.value_at(i, j) == frame.value_at(i, j));
                    }
                }
                Ok(turned)
            },
        }
    }

    /// Wraps a buffer that already holds the values in the order of `layout`.
    ///
    /// There are as many columns as names and as many rows as labels. Fails,
    /// with `FrameError::RaggedRows`, if and only if the buffer is not rows
    /// times columns slots long. On success the frame holds the buffer as
    /// it is.
    pub fn from_buffer(
        column_names: Vec<String>,
        row_names: Vec<String>,
        buffer: Vec<u8>,
        layout: Layout,
    ) -> (res: Result<DataFrame, FrameError>)
        ensures
            res is Ok <==> buffer@.len() == row_names@.len() * column_names@.len() * 8,
            res matches Err(e) ==> e == FrameError::RaggedRows,
            res matches Ok(df) ==> {
                &&& df.wf()
                &&& df.layout == layout
                &&& df.num_rows == row_names@.len()
                &&& df.num_columns == column_names@.len()
                &&& df.buffer@ == buffer@
                &&& df.column_names@ == column_names@
                &&& df.row_names@ == row_names@
            },
    {
        let num_rows: usize = row_names.len();
        let num_columns: usize = column_names.len();
        let size: usize = buffer.len();
        let cells: usize = match num_rows.checked_mul(num_columns) {
            Some(cells) => cells,
            None => {
                assert(size < num_rows * num_columns * 8) by (nonlinear_arith)
                    requires
                        size <= usize::MAX,
                        num_rows * num_columns > usize::MAX,
                ;
                return Err(FrameError::RaggedRows);
            },
        };
        let wanted: usize = match cells.checked_mul(8) {
            Some(wanted) => wanted,
            None => {
                return Err(FrameError::RaggedRows);
            },
        };
        if size != wanted {
            return Err(FrameError::RaggedRows);
        }
        Ok(
            DataFrame {
                buffer,
                num_rows,
                num_columns,
                column_names,
                row_names,
                layout,
                offsets: DataFrame::calc_offsets(num_rows, num_columns, layout),
            },
        )
    }

    /// Builds a frame from the bytes of a comma-separated table.
    ///
    /// Fails if and only if the header is missing or does not start with
    /// `DATE`, or the rows do not hold rows times columns values, or the
    /// buffer would not fit the address space. On success cell `(r, c)` holds
    /// what is stored for the field that stands at place `r * columns + c`
    /// among all value fields, whichever layout was asked for.
    pub fn new_from_csv<F: Fn(&[u8]) -> Option<u64>>(data: &[u8], layout: Layout, parse: &F) -> (res:
        Result<DataFrame, FrameError>)
        requires
            accepts_every_field(*parse),
        ensures
            !has_date_header(data@) <==> res == Err::<DataFrame, FrameError>(
                FrameError::MissingDateHeader,
            ),
            (has_date_header(data@) && value_fields(data@, csv_rows(data@)).len() != csv_rows(data@)
                * csv_columns(data@)) <==> res == Err::<DataFrame, FrameError>(
                FrameError::RaggedRows,
            ),
            (has_date_header(data@) && value_fields(data@, csv_rows(data@)).len() == csv_rows(data@)
                * csv_columns(data@) && csv_rows(data@) * csv_columns(data@) * 8 > usize::MAX)
                <==> res == Err::<DataFrame, FrameError>(FrameError::TooLarge),
            res is Ok <==> (has_date_header(data@) && value_fields(data@, csv_rows(data@)).len()
                == csv_rows(data@) * csv_columns(data@) && csv_rows(data@) * csv_columns(data@) * 8
                <= usize::MAX),
            res matches Ok(df) ==> is_frame_of_csv(*parse, data@, layout, &df),
    {
        let total_len: usize = data.len();
        let lines = split_ranges(data, 0, total_len, NEWLINE);
        proof {
            assert(data@.subrange(0, total_len as int) =~= data@);
        }
        let num_lines: usize = lines.len() - 1;
        if num_lines == 0 {
            return Err(FrameError::MissingDateHeader);
        }
        let header = split_ranges(data, lines[0].0, lines[0].1, COMMA);
        assert(data@.subrange(lines@[0].0 as int, lines@[0].1 as int) == csv_lines(data@)[0]);
        if !is_date_tag(data, header[0].0, header[0].1) {
            return Err(FrameError::MissingDateHeader);
        }
        let num_columns: usize = header.len() - 1;
        let num_rows: usize = num_lines - 1;
        let mut column_names: Vec<String> = Vec::new();
        let mut c: usize = 0;
        while c < num_columns
            invariant
                c <= num_columns,
                num_columns == header@.len() - 1,
                column_names@.len() == c,
                forall|i: int| 0 <= i < header@.len() ==> (#[trigger] header@[i]).0 <= header@[i].1 <= data@.len(),
                forall|i: int|
                    0 <= i < header@.len() ==> data@.subrange(
                        (#[trigger] header@[i]).0 as int,
                        header@[i].1 as int,
                    ) == header_fields(data@)[i],
                forall|j: int|
                    0 <= j < c ==> (#[trigger] column_names@[j])@ == utf8_lossy(
                        header_fields(data@)[j + 1],
                    ),
            decreases num_columns - c,
        {
            let range = header[c + 1];
            let name = lossy_string(slice_subrange(data, range.0, range.1));
            column_names.push(name);
            c += 1;
        }
        let mut row_names: Vec<String> = Vec::new();
        let mut values: Vec<u64> = Vec::new();
        let mut r: usize = 0;
        while r < num_rows
            invariant
                r <= num_rows,
                num_rows == csv_rows(data@),
                lines@.len() == num_rows + 2,
                accepts_every_field(*parse),
                forall|i: int| 0 <= i < lines@.len() ==> (#[trigger] lines@[i]).0 <= lines@[i].1 <= data@.len(),
                forall|i: int|
                    0 <= i < lines@.len() - 1 ==> data@.subrange(
                        (#[trigger] lines@[i]).0 as int,
                        lines@[i].1 as int,
                    ) == csv_lines(data@)[i],
                row_names@.len() == r,
                forall|j: int|
                    0 <= j < r ==> (#[trigger] row_names@[j])@ == utf8_lossy(row_fields(data@, j)[0]),
                values@.len() == value_fields(data@, r as int).len(),
                forall|k: int|
                    0 <= k < values@.len() ==> cell_matches(
                        *parse,
                        value_fields(data@, r as int)[k],
                        #[trigger] values@[k],
                    ),
            decreases num_rows - r,
        {
            let line = lines[r + 1];
            let fields = split_ranges(data, line.0, line.1, COMMA);
            assert(data@.subrange(line.0 as int, line.1 as int) == csv_lines(data@)[r + 1]);
            let first = fields[0];
            row_names.push(lossy_string(slice_subrange(data, first.0, first.1)));
            let ghost done = value_fields(data@, r as int);
            let ghost this_row = row_fields(data@, r as int);
            let mut f: usize = 1;
            while f < fields.len()
                invariant
                    1 <= f <= fields@.len(),
                    accepts_every_field(*parse),
                    this_row == row_fields(data@, r as int),
                    fields@.len() == this_row.len(),
                    done == value_fields(data@, r as int),
                    forall|i: int| 0 <= i < fields@.len() ==> (#[trigger] fields@[i]).0 <= fields@[i].1 <= data@.len(),
                    forall|i: int|
                        0 <= i < fields@.len() ==> data@.subrange(
                            (#[trigger] fields@[i]).0 as int,
                            fields@[i].1 as int,
                        ) == this_row[i],
                    values@.len() == done.len() + f - 1,
                    forall|k: int|
                        0 <= k < values@.len() ==> cell_matches(
                            *parse,
                            (done + this_row.skip(1))[k],
                            #[trigger] values@[k],
                        ),
                decreases fields@.len() - f,
            {
                let range = fields[f];
                let bits: u64 = field_value(slice_subrange(data, range.0, range.1), parse);
                let ghost before = values@;
                values.push(bits);
                proof {
                    assert forall|k: int| 0 <= k < values@.len() implies cell_matches(
                        *parse,
                        (done + this_row.skip(1))[k],
                        #[trigger] values@[k],
                    ) by {
                        if k < before.len() {
                            assert(values@[k] == before[k]);
                        } else {
                            assert((done + this_row.skip(1))[k] == this_row[f as int]);
                        }
                    }
                }
                f += 1;
            }
            proof {
                assert(value_fields(data@, r + 1) == done + this_row.skip(1));
            }
            r += 1;
        }
        let ghost all = value_fields(data@, num_rows as int);
        assert(csv_rows(data@) * csv_columns(data@) == num_rows * num_columns);
        let res = DataFrame::from_values(column_names, row_names, values, layout);
        proof {
            if let Ok(df) = &res {
                assert forall|i: int, j: int|
                    0 <= i < num_rows && 0 <= j < num_columns implies cell_matches(
                    *parse,
                    all[i * num_columns + j],
                    #[trigger] df.value_at(i, j),
                ) by {
                    lemma_block_offset_in_range(num_rows as int, num_columns as int, i, j);
                }
            }
        }
        res
    }
}

} // verus!
