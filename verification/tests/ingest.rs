use light_r::codec::NAN_BITS;
use light_r::frame::DataFrame;
use light_r::ingest::{field_value, FrameError};
use light_r::offsets::Layout;
use light_r::scan::split_ranges;

fn parse(field: &[u8]) -> Option<u64> {
    String::from_utf8_lossy(field).trim().parse::<f64>().ok().map(f64::to_bits)
}

fn load(text: &str, layout: Layout) -> Result<DataFrame, FrameError> {
    DataFrame::new_from_csv(text.as_bytes(), layout, &parse)
}

fn value(df: &DataFrame, r: usize, c: usize) -> f64 {
    f64::from_bits(df.decode_at(r, c))
}

#[test]
fn split_ranges_cuts_at_every_separator() {
    let data = b"a,bc,,d";
    assert_eq!(split_ranges(data, 0, data.len(), b','), vec![(0, 1), (2, 4), (5, 5), (6, 7)]);
    assert_eq!(split_ranges(data, 0, 0, b','), vec![(0, 0)]);
    assert_eq!(split_ranges(b",", 0, 1, b','), vec![(0, 0), (1, 1)]);
    assert_eq!(split_ranges(data, 2, 5, b','), vec![(2, 4), (5, 5)]);
    assert_eq!(split_ranges(b"abc", 0, 3, b','), vec![(0, 3)]);
}

#[test]
fn field_value_of_empty_and_unreadable_fields_is_nan() {
    assert_eq!(field_value(b"", &parse), NAN_BITS);
    assert_eq!(field_value(b"abc", &parse), NAN_BITS);
    assert_eq!(field_value(b"   ", &parse), NAN_BITS);
    assert_eq!(field_value(b"1.5", &parse), 1.5f64.to_bits());
    assert_eq!(field_value(b" 2 ", &parse), 2.0f64.to_bits());
    assert_eq!(field_value(b"-5", &parse), (-5.0f64).to_bits());
}

#[test]
fn field_value_does_not_ask_the_reader_about_an_empty_field() {
    let never = |_: &[u8]| -> Option<u64> { Some(0) };
    assert_eq!(field_value(b"", &never), NAN_BITS);
    assert_eq!(field_value(b"x", &never), 0);
}

#[test]
fn ingest_reads_names_labels_and_values() {
    let text = "DATE,Column1,Column2\n2021-01-01,1.0,2.0\n2021-01-02,3.0,4.0\n2021-01-03,5.0,6.0\n";
    let df = load(text, Layout::RowMajor).unwrap();
    assert_eq!(df.num_rows, 3);
    assert_eq!(df.num_columns, 2);
    assert_eq!(df.column_names, vec!["Column1", "Column2"]);
    assert_eq!(df.row_names, vec!["2021-01-01", "2021-01-02", "2021-01-03"]);
    assert_eq!(df.buffer.len(), 3 * 2 * 8);
    assert_eq!(value(&df, 0, 0), 1.0);
    assert_eq!(value(&df, 0, 1), 2.0);
    assert_eq!(value(&df, 1, 0), 3.0);
    assert_eq!(value(&df, 1, 1), 4.0);
    assert_eq!(value(&df, 2, 0), 5.0);
    assert_eq!(value(&df, 2, 1), 6.0);
}

#[test]
fn ingest_stores_missing_values_as_nan() {
    let text = "DATE,Column1,Column2\n2021-01-01,1.0,\n2021-01-02,,4.0\n2021-01-03,5.0,oops\n";
    let df = load(text, Layout::RowMajor).unwrap();
    assert_eq!(df.num_rows, 3);
    assert_eq!(df.decode_at(0, 1), NAN_BITS);
    assert_eq!(df.decode_at(1, 0), NAN_BITS);
    assert_eq!(df.decode_at(2, 1), NAN_BITS);
    assert_eq!(value(&df, 0, 0), 1.0);
    assert_eq!(value(&df, 1, 1), 4.0);
    assert_eq!(value(&df, 2, 0), 5.0);
}

#[test]
fn ingest_column_major_holds_the_same_cells() {
    let text = "DATE,A,B,C\nd1,1,2,3\nd2,4,5,6\n";
    let rows = load(text, Layout::RowMajor).unwrap();
    let cols = load(text, Layout::ColumnMajor).unwrap();
    assert_eq!(cols.layout, Layout::ColumnMajor);
    assert_eq!(cols.buffer.len(), 2 * 3 * 8);
    for r in 0..2 {
        for c in 0..3 {
            assert_eq!(rows.decode_at(r, c), cols.decode_at(r, c));
            assert_eq!(value(&cols, r, c), (r * 3 + c + 1) as f64);
        }
    }
    let expected: Vec<u8> =
        [1.0f64, 4.0, 2.0, 5.0, 3.0, 6.0].iter().flat_map(|v| v.to_le_bytes()).collect();
    assert_eq!(cols.buffer, expected);
}

#[test]
fn ingest_fails_without_a_date_header() {
    assert_eq!(load("TIME,A\n2021-01-01,1\n", Layout::RowMajor).err(), Some(FrameError::MissingDateHeader));
    assert_eq!(load("date,A\n2021-01-01,1\n", Layout::RowMajor).err(), Some(FrameError::MissingDateHeader));
    assert_eq!(load("DATES,A\n2021-01-01,1\n", Layout::RowMajor).err(), Some(FrameError::MissingDateHeader));
    assert_eq!(load("\nDATE,A\n", Layout::RowMajor).err(), Some(FrameError::MissingDateHeader));
}

#[test]
fn ingest_fails_on_input_without_a_finished_line() {
    assert_eq!(load("", Layout::RowMajor).err(), Some(FrameError::MissingDateHeader));
    assert_eq!(load("DATE,A", Layout::RowMajor).err(), Some(FrameError::MissingDateHeader));
}

#[test]
fn ingest_fails_on_ragged_rows() {
    let text = "DATE,A,B\n2021-01-01,1,2\n2021-01-02,3,4,5\n";
    assert_eq!(load(text, Layout::RowMajor).err(), Some(FrameError::RaggedRows));
    let text = "DATE,A,B\n2021-01-01,1\n";
    assert_eq!(load(text, Layout::ColumnMajor).err(), Some(FrameError::RaggedRows));
    let text = "DATE,A\n2021-01-01,1\n\n";
    assert_eq!(load(text, Layout::RowMajor).err(), Some(FrameError::RaggedRows));
}

#[test]
fn ingest_checks_the_total_count_only() {
    let text = "DATE,A,B\nd1,1\nd2,2,3,4\n";
    let df = load(text, Layout::RowMajor).unwrap();
    assert_eq!(df.num_rows, 2);
    assert_eq!(value(&df, 0, 0), 1.0);
    assert_eq!(value(&df, 0, 1), 2.0);
    assert_eq!(value(&df, 1, 0), 3.0);
    assert_eq!(value(&df, 1, 1), 4.0);
}

#[test]
fn ingest_ignores_bytes_after_the_last_line_feed() {
    let df = load("DATE,A\nd1,1\nd2,2", Layout::RowMajor).unwrap();
    assert_eq!(df.num_rows, 1);
    assert_eq!(df.row_names, vec!["d1"]);
}

#[test]
fn ingest_of_a_header_alone() {
    let df = load("DATE,A,B\n", Layout::ColumnMajor).unwrap();
    assert_eq!(df.num_rows, 0);
    assert_eq!(df.num_columns, 2);
    assert_eq!(df.buffer.len(), 0);
    let df = load("DATE\nd1\nd2\n", Layout::RowMajor).unwrap();
    assert_eq!(df.num_rows, 2);
    assert_eq!(df.num_columns, 0);
    assert_eq!(df.buffer.len(), 0);
}

#[test]
fn ingest_replaces_bytes_that_are_not_text() {
    let mut data = b"DATE,A\n".to_vec();
    data.extend_from_slice(&[0xff, b'x', b',', b'1', b'\n']);
    let df = DataFrame::new_from_csv(&data, Layout::RowMajor, &parse).unwrap();
    assert_eq!(df.row_names, vec!["\u{fffd}x"]);
    assert_eq!(value(&df, 0, 0), 1.0);
}

#[test]
fn buffer_length_is_rows_times_columns_times_eight() {
    for (rows, cols) in [(1usize, 1usize), (2, 3), (5, 2), (7, 4)] {
        let mut text = String::from("DATE");
        for c in 0..cols {
            text.push_str(&format!(",C{}", c));
        }
        text.push('\n');
        for r in 0..rows {
            text.push_str(&format!("d{}", r));
            for c in 0..cols {
                text.push_str(&format!(",{}", r * cols + c));
            }
            text.push('\n');
        }
        for layout in [Layout::RowMajor, Layout::ColumnMajor] {
            let df = load(&text, layout).unwrap();
            assert_eq!(df.num_rows, rows);
            assert_eq!(df.num_columns, cols);
            assert_eq!(df.buffer.len(), rows * cols * 8);
        }
    }
}

#[test]
fn frame_errors_have_their_messages() {
    assert_eq!(FrameError::MissingDateHeader.message(), "Error: First column must be 'DATE'.");
    assert_eq!(FrameError::RaggedRows.message(), "Error: Mismatched row or column count.");
    assert_eq!(FrameError::NoInput.message(), "Error: No input provided via stdin.");
    assert_eq!(FrameError::TooLarge.message(), "Error: Table too large for this machine.");
    assert_eq!(FrameError::Csv.message(), "Error: Malformed record.");
    assert_eq!(FrameError::Mapping.message(), "Error: Memory map failed.");
}
