//! Frames and record text: reading a frame from the records of a table with
//! quoting, and writing a frame out as records.
//!
//! The record grammar (quotes, escapes, line ends) is the `csv` crate's. This
//! module decides what the records mean: which one is the header, what the
//! labels and the values are, and when a table is turned down.

use vstd::prelude::*;
use vstd::utf8::encode_utf8;
use crate::frame::DataFrame;
use crate::ingest::{
    accepts_every_field, cell_matches, csv_columns, csv_rows, field_value, header_fields,
    is_frame_of_csv, row_fields, utf8_lossy, value_fields, FrameError,
};
use crate::offsets::Layout;

verus! {

/// The error type of the `csv` crate, carried through and never looked into.
#[verifier::external_type_specification]
#[verifier::external_body]
pub struct ExCsvError(csv::Error);

/// `text` without the white space at its two ends.
pub uninterp spec fn trim_text(text: Seq<char>) -> Seq<char>;

/// The fields of the first record of `input`, or `None` where the record
/// reader fails on it.
pub uninterp spec fn csv_header_text(input: Seq<u8>) -> Option<Seq<Seq<char>>>;

/// The fields of every record of `input` after the first, record by record,
/// or `None` where the record reader fails on one of them.
pub uninterp spec fn csv_record_text(input: Seq<u8>) -> Option<Seq<Seq<Seq<char>>>>;

/// The bytes that one record of these fields is written as, or `None` where
/// the record writer fails.
pub uninterp spec fn csv_line_bytes(fields: Seq<Seq<char>>) -> Option<Seq<u8>>;

/// `str::trim` of std. The contract only gives the result its name,
/// `trim_text`.
#[verifier::external_body]
pub(crate) fn trimmed(text: &str) -> (rest: &str)
    ensures
        rest@ == trim_text(text@),
{
    text.trim()
}

/// `csv::Reader::headers` on a reader that `csv::Reader::from_reader` makes
/// over `input`, each field copied into a string. The contract only gives the
/// outcome its name, `csv_header_text`: what the reader makes of the first
/// record depends on the bytes alone.
#[verifier::external_body]
fn csv_headers(input: &[u8]) -> (res: Result<Vec<String>, csv::Error>)
    ensures
        match res {
            Ok(fields) => csv_header_text(input@) == Some(fields.deep_view()),
            Err(_) => csv_header_text(input@).is_none(),
        },
{
    let mut reader = csv::Reader::from_reader(input);
    let headers = reader.headers()?;
    Ok(headers.iter().map(String::from).collect())
}

/// `csv::Reader::records` on a reader that `csv::Reader::from_reader` makes
/// over `input`, run to the end or to the first error, each field copied into
/// a string. The contract only gives the outcome its name, `csv_record_text`.
#[verifier::external_body]
fn csv_records(input: &[u8]) -> (res: Result<Vec<Vec<String>>, csv::Error>)
    ensures
        match res {
            Ok(rows) => csv_record_text(input@) == Some(rows.deep_view()),
            Err(_) => csv_record_text(input@).is_none(),
        },
{
    let mut reader = csv::Reader::from_reader(input);
    let mut rows: Vec<Vec<String>> = Vec::new();
    for record in reader.records() {
        rows.push(record?.iter().map(String::from).collect());
    }
    Ok(rows)
}

/// `csv::Writer::write_record` on a writer that `csv::Writer::from_writer`
/// makes over an empty vector, which `csv::Writer::into_inner` then hands
/// back. The contract only gives the outcome its name, `csv_line_bytes`.
#[verifier::external_body]
fn csv_line(fields: &Vec<String>) -> (res: Result<Vec<u8>, csv::Error>)
    ensures
        match res {
            Ok(bytes) => csv_line_bytes(fields.deep_view()) == Some(bytes@),
            Err(_) => csv_line_bytes(fields.deep_view()).is_none(),
        },
{
    let mut writer = csv::Writer::from_writer(Vec::new());
    writer.write_record(fields)?;
    writer.into_inner().map_err(|e| csv::Error::from(e.into_error()))
}

/// The text of the word `DATE`.
pub open spec fn date_text() -> Seq<char> {
    "DATE"@
}

/// The header starts with `DATE`.
pub open spec fn header_ok(header: Seq<Seq<char>>) -> bool {
    header.len() >= 1 && header[0] == date_text()
}

/// Every record has as many fields as the header.
pub open spec fn records_fit(header: Seq<Seq<char>>, records: Seq<Seq<Seq<char>>>) -> bool {
    forall|r: int| 0 <= r < records.len() ==> (#[trigger] records[r]).len() == header.len()
}

/// The error that is due for a header record and row records, or `None`
/// where a frame is due.
pub open spec fn records_error(header: Seq<Seq<char>>, records: Seq<Seq<Seq<char>>>) -> Option<
    FrameError,
> {
    if !header_ok(header) {
        Some(FrameError::MissingDateHeader)
    } else if !records_fit(header, records) {
        Some(FrameError::RaggedRows)
    } else if records.len() * (header.len() - 1) * 8 > usize::MAX {
        Some(FrameError::TooLarge)
    } else {
        None
    }
}

/// The error that is due for the text `input`, or `None` where a frame is
/// due: blank input first, then a header that cannot be read or does not
/// start with `DATE`, then rows that cannot be read, then what
/// `records_error` finds.
pub open spec fn stdin_error(input: Seq<char>) -> Option<FrameError> {
    let bytes = encode_utf8(input);
    if trim_text(input).len() == 0 {
        Some(FrameError::NoInput)
    } else if csv_header_text(bytes).is_none() {
        Some(FrameError::Csv)
    } else if !header_ok(csv_header_text(bytes).unwrap()) {
        Some(FrameError::MissingDateHeader)
    } else if csv_record_text(bytes).is_none() {
        Some(FrameError::Csv)
    } else {
        records_error(csv_header_text(bytes).unwrap(), csv_record_text(bytes).unwrap())
    }
}

/// `df` is the frame of these records in layout `layout`: one column per
/// header field after `DATE`, one row per record, the labels the first fields
/// of the records, and cell `(r, c)` what is stored for field `c + 1` of
/// record `r`.
pub open spec fn is_frame_of_records<F: Fn(&[u8]) -> Option<u64>>(
    parse: F,
    header: Seq<Seq<char>>,
    records: Seq<Seq<Seq<char>>>,
    layout: Layout,
    df: &DataFrame,
) -> bool {
    &&& df.wf()
    &&& df.layout == layout
    &&& df.num_columns == header.len() - 1
    &&& df.num_rows == records.len()
    &&& df.buffer@.len() == df.num_rows * df.num_columns * 8
    &&& forall|c: int|
        0 <= c < df.num_columns ==> (#[trigger] df.column_names@[c])@ == header[c + 1]
    &&& forall|r: int| 0 <= r < df.num_rows ==> (#[trigger] df.row_names@[r])@ == records[r][0]
    &&& forall|r: int, c: int|
        0 <= r < df.num_rows && 0 <= c < df.num_columns ==> cell_matches(
            parse,
            encode_utf8(records[r][c + 1]),
            #[trigger] df.value_at(r, c),
        )
}

/// `record` is the header record of `df`: `DATE`, then the column names.
pub open spec fn is_header_record(df: &DataFrame, record: Vec<String>) -> bool {
    &&& record@.len() == df.num_columns + 1
    &&& record@[0]@ == date_text()
    &&& forall|c: int| 0 <= c < df.num_columns ==> (#[trigger] record@[c + 1]) == df.column_names@[c]
}

/// `record` is the record of row `row` of `df`: the row's label, then what
/// `render` made of each of the row's values, column by column.
pub open spec fn is_row_record<F: Fn(u64) -> String>(
    df: &DataFrame,
    render: F,
    row: int,
    record: Vec<String>,
) -> bool {
    &&& record@.len() == df.num_columns + 1
    &&& record@[0] == df.row_names@[row]
    &&& forall|c: int|
        0 <= c < df.num_columns ==> call_ensures(
            render,
            (df.value_at(row, c),),
            #[trigger] record@[c + 1],
        )
}

/// `records` are the records of `df`: the header, then one record per row in
/// label order.
pub open spec fn is_records_of<F: Fn(u64) -> String>(
    df: &DataFrame,
    render: F,
    records: Seq<Vec<String>>,
) -> bool {
    &&& records.len() == df.num_rows + 1
    &&& is_header_record(df, records[0])
    &&& forall|r: int|
        0 <= r < df.num_rows ==> is_row_record(df, render, r, #[trigger] records[r + 1])
}

/// The bytes that `records` are written as, one after the other, or `None`
/// where the record writer fails on one of them.
pub open spec fn csv_text(records: Seq<Vec<String>>) -> Option<Seq<u8>>
    decreases records.len(),
{
    if records.len() == 0 {
        Some(Seq::<u8>::empty())
    } else {
        match (csv_text(records.drop_last()), csv_line_bytes(records.last().deep_view())) {
            (Some(head), Some(line)) => Some(head + line),
            _ => None,
        }
    }
}

/// Writes `records` one after the other. Fails with `FrameError::Csv` if and
/// only if the record writer fails on one of them.
pub fn write_records(records: &Vec<Vec<String>>) -> (res: Result<Vec<u8>, FrameError>)
    ensures
        match res {
            Ok(bytes) => csv_text(records@) == Some(bytes@),
            Err(e) => e == FrameError::Csv && csv_text(records@).is_none(),
        },
{
    let mut out: Vec<u8> = Vec::new();
    let mut r: usize = 0;
    while r < records.len()
        invariant
            r <= records@.len(),
            csv_text(records@.take(r as int)) == Some(out@),
        decreases records@.len() - r,
    {
        proof {
            assert(records@.take(r + 1).drop_last() =~= records@.take(r as int));
            assert(records@.take(r + 1).last() == records@[r as int]);
        }
        match csv_line(&records[r]) {
            Ok(mut line) => {
                out.append(&mut line);
            },
            Err(_) => {
                proof {
                    lemma_csv_text_fails(records@, r + 1);
                }
                return Err(FrameError::Csv);
            },
        }
        r += 1;
    }
    proof {
        assert(records@.take(records@.len() as int) =~= records@);
    }
    Ok(out)
}

/// Once the writer has failed on a prefix of the records, it fails on all.
proof fn lemma_csv_text_fails(records: Seq<Vec<String>>, upto: int)
    requires
        0 <= upto <= records.len(),
        csv_text(records.take(upto)).is_none(),
    ensures
        csv_text(records).is_none(),
    decreases records.len() - upto,
{
    if upto < records.len() {
        assert(records.take(upto + 1).drop_last() =~= records.take(upto));
        lemma_csv_text_fails(records, upto + 1);
    } else {
        assert(records.take(upto) =~= records);
    }
}

/// `text` is what `render` wrote for a pattern that is stored for `field`.
pub open spec fn is_rendering_of<P: Fn(&[u8]) -> Option<u64>, R: Fn(u64) -> String>(
    parse: P,
    render: R,
    field: Seq<u8>,
    text: String,
) -> bool {
    exists|bits: u64| cell_matches(parse, field, bits) && #[trigger] call_ensures(render, (bits,), text)
}

/// Round trip: the records of a frame that was read from a table give the
/// table back. The header record is `DATE` and the text of the header's other
/// fields, each row record starts with the text of the row's first field, and
/// each value in it is what `render` wrote for the pattern that was stored
/// for the field at the same place.
pub proof fn lemma_records_of_ingested_table<P: Fn(&[u8]) -> Option<u64>, R: Fn(u64) -> String>(
    parse: P,
    render: R,
    data: Seq<u8>,
    layout: Layout,
    df: &DataFrame,
    records: Seq<Vec<String>>,
)
    requires
        is_frame_of_csv(parse, data, layout, df),
        is_records_of(df, render, records),
    ensures
        records.len() == csv_rows(data) + 1,
        forall|r: int| 0 <= r < records.len() ==> (#[trigger] records[r])@.len() == csv_columns(data) + 1,
        records[0]@[0]@ == date_text(),
        forall|c: int|
            0 <= c < csv_columns(data) ==> (#[trigger] records[0]@[c + 1])@ == utf8_lossy(
                header_fields(data)[c + 1],
            ),
        forall|r: int|
            0 <= r < csv_rows(data) ==> (#[trigger] records[r + 1])@[0]@ == utf8_lossy(
                row_fields(data, r)[0],
            ),
        forall|r: int, c: int|
            0 <= r < csv_rows(data) && 0 <= c < csv_columns(data) ==> is_rendering_of(
                parse,
                render,
                value_fields(data, csv_rows(data))[r * csv_columns(data) + c],
                #[trigger] records[r + 1]@[c + 1],
            ),
{
    assert forall|r: int| 0 <= r < records.len() implies (#[trigger] records[r])@.len()
        == csv_columns(data) + 1 by {
        if r > 0 {
            assert(is_row_record(df, render, r - 1, records[(r - 1) + 1]));
        }
    }
    assert forall|c: int| 0 <= c < csv_columns(data) implies (#[trigger] records[0]@[c + 1])@
        == utf8_lossy(header_fields(data)[c + 1]) by {
        assert(records[0]@[c + 1] == df.column_names@[c]);
    }
    assert forall|r: int| 0 <= r < csv_rows(data) implies (#[trigger] records[r + 1])@[0]@
        == utf8_lossy(row_fields(data, r)[0]) by {
        assert(is_row_record(df, render, r, records[r + 1]));
    }
    assert forall|r: int, c: int|
        0 <= r < csv_rows(data) && 0 <= c < csv_columns(data) implies is_rendering_of(
        parse,
        render,
        value_fields(data, csv_rows(data))[r * csv_columns(data) + c],
        #[trigger] records[r + 1]@[c + 1],
    ) by {
        assert(is_row_record(df, render, r, records[r + 1]));
        let bits = df.value_at(r, c);
        assert(cell_matches(
            parse,
            value_fields(data, csv_rows(data))[r * csv_columns(data) + c],
            bits,
        ));
        assert(call_ensures(render, (bits,), records[r + 1]@[c + 1]));
    }
}

impl DataFrame {
    /// Builds a frame from the records of a table: the header record and the
    /// records of the rows.
    ///
    /// The header must start with `DATE`; its other fields name the columns.
    /// The first field of each row record is the row's label, the others are
    /// its values. Fails if and only if the header does not start with
    /// `DATE`, a record has not as many fields as the header, or the table is
    /// too large to address: `records_error` says which. On success cell
    /// `(r, c)` holds what is stored for field `c + 1` of record `r`,
    /// whichever layout was asked for.
    pub fn from_records<F: Fn(&[u8]) -> Option<u64>>(
        header: &Vec<String>,
        rows: &Vec<Vec<String>>,
        layout: Layout,
        parse: &F,
    ) -> (res: Result<DataFrame, FrameError>)
        requires
            accepts_every_field(*parse),
        ensures
            match res {
                Err(e) => records_error(header.deep_view(), rows.deep_view()) == Some(e),
                Ok(df) => records_error(header.deep_view(), rows.deep_view()).is_none()
                    && is_frame_of_records(*parse, header.deep_view(), rows.deep_view(), layout, &df),
            },
    {
        let ghost head = header.deep_view();
        let ghost records = rows.deep_view();
        if !DataFrame::starts_with_date(header) {
            return Err(FrameError::MissingDateHeader);
        }
        let width: usize = header.len();
        let num_columns: usize = width - 1;
        let mut column_names: Vec<String> = Vec::new();
        let mut c: usize = 0;
        while c < num_columns
            invariant
                c <= num_columns,
                width == header@.len(),
                width == num_columns + 1,
                head == header.deep_view(),
                column_names@.len() == c,
                forall|j: int| 0 <= j < c ==> (#[trigger] column_names@[j])@ == head[j + 1],
            decreases num_columns - c,
        {
            assert(head[c + 1] == header@[c + 1]@);
            column_names.push(header[c + 1].clone());
            c += 1;
        }
        let num_rows: usize = rows.len();
        let mut row_names: Vec<String> = Vec::new();
        let mut values: Vec<u64> = Vec::new();
        let mut r: usize = 0;
        while r < num_rows
            invariant
                r <= num_rows,
                num_rows == rows@.len(),
                records == rows.deep_view(),
                head == header.deep_view(),
                header_ok(head),
                width == head.len(),
                width == num_columns + 1,
                accepts_every_field(*parse),
                forall|i: int| 0 <= i < r ==> (#[trigger] records[i]).len() == width,
                row_names@.len() == r,
                forall|i: int| 0 <= i < r ==> (#[trigger] row_names@[i])@ == records[i][0],
                values@.len() == r * num_columns,
                forall|i: int, j: int|
                    0 <= i < r && 0 <= j < num_columns ==> cell_matches(
                        *parse,
                        encode_utf8(records[i][j + 1]),
                        #[trigger] values@[i * num_columns + j],
                    ),
            decreases num_rows - r,
        {
            let record: &Vec<String> = &rows[r];
            assert(records[r as int] == record.deep_view());
            if record.len() != width {
                assert(records[r as int].len() != head.len());
                return Err(FrameError::RaggedRows);
            }
            assert(record.deep_view()[0] == record@[0]@);
            row_names.push(record[0].clone());
            let ghost before = values@;
            let mut c: usize = 0;
            while c < num_columns
                invariant
                    c <= num_columns,
                    r < num_rows,
                    width == num_columns + 1,
                    record@.len() == width,
                    records[r as int] == record.deep_view(),
                    accepts_every_field(*parse),
                    before.len() == r * num_columns,
                    values@.len() == before.len() + c,
                    forall|k: int| 0 <= k < before.len() ==> values@[k] == before[k],
                    forall|j: int|
                        0 <= j < c ==> cell_matches(
                            *parse,
                            encode_utf8(records[r as int][j + 1]),
                            #[trigger] values@[before.len() + j],
                        ),
                decreases num_columns - c,
            {
                let field: &String = &record[c + 1];
                assert(record.deep_view()[c + 1] == field@);
                let bits: u64 = field_value(field.as_str().as_bytes(), parse);
                values.push(bits);
                c += 1;
            }
            proof {
                assert((r + 1) * num_columns == r * num_columns + num_columns) by (nonlinear_arith);
                assert forall|i: int, j: int|
                    0 <= i < r + 1 && 0 <= j < num_columns implies cell_matches(
                    *parse,
                    encode_utf8(records[i][j + 1]),
                    #[trigger] values@[i * num_columns + j],
                ) by {
                    if i < r {
                        assert(i * num_columns + j < r * num_columns) by (nonlinear_arith)
                            requires
                                0 <= i < r,
                                0 <= j < num_columns,
                        ;
                        assert(values@[i * num_columns + j] == before[i * num_columns + j]);
                    } else {
                        assert(i * num_columns + j == before.len() + j);
                    }
                }
            }
            r += 1;
        }
        assert(records_fit(head, records));
        proof {
            assert(num_rows * num_columns * 8 == (num_rows * num_columns) * 8) by (nonlinear_arith);
        }
        DataFrame::from_values(column_names, row_names, values, layout)
    }

    /// Reads a frame from the whole text of a table.
    ///
    /// Fails on blank input, on text that the record reader turns down, and
    /// wherever `from_records` fails on the records read: `stdin_error` says
    /// which error is due. The header is looked at before the rows are read,
    /// so a header without `DATE` is reported even where a later record is
    /// malformed.
    pub fn from_stdin<F: Fn(&[u8]) -> Option<u64>>(input: &str, layout: Layout, parse: &F) -> (res:
        Result<DataFrame, FrameError>)
        requires
            accepts_every_field(*parse),
        ensures
            match res {
                Err(e) => stdin_error(input@) == Some(e),
                Ok(df) => stdin_error(input@).is_none() && is_frame_of_records(
                    *parse,
                    csv_header_text(encode_utf8(input@)).unwrap(),
                    csv_record_text(encode_utf8(input@)).unwrap(),
                    layout,
                    &df,
                ),
            },
    {
        if trimmed(input).is_empty() {
            return Err(FrameError::NoInput);
        }
        let bytes = input.as_bytes();
        let header: Vec<String> = match csv_headers(bytes) {
            Ok(fields) => fields,
            Err(_) => {
                return Err(FrameError::Csv);
            },
        };
        if !DataFrame::starts_with_date(&header) {
            return Err(FrameError::MissingDateHeader);
        }
        let rows: Vec<Vec<String>> = match csv_records(bytes) {
            Ok(rows) => rows,
            Err(_) => {
                return Err(FrameError::Csv);
            },
        };
        DataFrame::from_records(&header, &rows, layout, parse)
    }

    /// Whether a header record starts with `DATE`.
    pub fn starts_with_date(header: &Vec<String>) -> (yes: bool)
        ensures
            yes == header_ok(header.deep_view()),
    {
        if header.len() == 0 {
            return false;
        }
        assert(header.deep_view()[0] == header@[0]@);
        let tag: String = "DATE".to_owned();
        header[0] == tag
    }

    /// The records of the frame: the header `DATE` and the column names, then
    /// for each row its label and its values as `render` writes them. Values
    /// are read through the offset table, so the records do not depend on the
    /// layout.
    pub fn to_records<F: Fn(u64) -> String>(&self, render: &F) -> (records: Vec<Vec<String>>)
        requires
            self.wf(),
            forall|bits: u64| call_requires(*render, (bits,)),
        ensures
            is_records_of(self, *render, records@),
    {
        let mut records: Vec<Vec<String>> = Vec::new();
        let mut header: Vec<String> = Vec::new();
        header.push("DATE".to_owned());
        let mut c: usize = 0;
        while c < self.num_columns
            invariant
                self.wf(),
                c <= self.num_columns,
                header@.len() == c + 1,
                header@[0]@ == date_text(),
                forall|j: int| 0 <= j < c ==> (#[trigger] header@[j + 1]) == self.column_names@[j],
            decreases self.num_columns - c,
        {
            header.push(self.column_names[c].clone());
            c += 1;
        }
        records.push(header);
        let mut r: usize = 0;
        while r < self.num_rows
            invariant
                self.wf(),
                r <= self.num_rows,
                forall|bits: u64| call_requires(*render, (bits,)),
                records@.len() == r + 1,
                is_header_record(self, records@[0]),
                forall|i: int|
                    0 <= i < r ==> is_row_record(self, *render, i, #[trigger] records@[i + 1]),
            decreases self.num_rows - r,
        {
            let mut record: Vec<String> = Vec::new();
            record.push(self.row_names[r].clone());
            let mut c: usize = 0;
            while c < self.num_columns
                invariant
                    self.wf(),
                    r < self.num_rows,
                    c <= self.num_columns,
                    forall|bits: u64| call_requires(*render, (bits,)),
                    record@.len() == c + 1,
                    record@[0] == self.row_names@[r as int],
                    forall|j: int|
                        0 <= j < c ==> call_ensures(
                            *render,
                            (self.value_at(r as int, j),),
                            #[trigger] record@[j + 1],
                        ),
                decreases self.num_columns - c,
            {
                let bits: u64 = self.decode_at(r, c);
                record.push(render(bits));
                c += 1;
            }
            let ghost before = records@;
            records.push(record);
            proof {
                assert(records@[0] == before[0]);
                assert forall|i: int| 0 <= i < r + 1 implies is_row_record(
                    self,
                    *render,
                    i,
                    #[trigger] records@[i + 1],
                ) by {
                    if i < r {
                        assert(records@[i + 1] == before[i + 1]);
                    }
                }
            }
            r += 1;
        }
        records
    }

    /// The frame as record text: its records, written one after the other.
    /// Fails with `FrameError::Csv` only where the record writer fails.
    pub fn to_csv<F: Fn(u64) -> String>(&self, render: &F) -> (res: Result<Vec<u8>, FrameError>)
        requires
            self.wf(),
            forall|bits: u64| call_requires(*render, (bits,)),
        ensures
            exists|records: Seq<Vec<String>>|
                is_records_of(self, *render, records) && match res {
                    Ok(bytes) => #[trigger] csv_text(records) == Some(bytes@),
                    Err(e) => e == FrameError::Csv && csv_text(records).is_none(),
                },
    {
        let records = self.to_records(render);
        write_records(&records)
    }
}

} // verus!
