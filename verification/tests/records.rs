use light_r::codec::NAN_BITS;
use light_r::frame::DataFrame;
use light_r::ingest::FrameError;
use light_r::offsets::Layout;
use light_r::records::write_records;

fn parse(field: &[u8]) -> Option<u64> {
    String::from_utf8_lossy(field).trim().parse::<f64>().ok().map(f64::to_bits)
}

fn render(bits: u64) -> String {
    f64::from_bits(bits).to_string()
}

fn text(bytes: Vec<u8>) -> String {
    String::from_utf8(bytes).unwrap()
}

#[test]
fn from_stdin_reads_names_labels_and_values() {
    let input = "DATE,A,B\n2021-01-01,1.5,2\n2021-01-02,3,4\n";
    let df = DataFrame::from_stdin(input, Layout::ColumnMajor, &parse).unwrap();
    assert_eq!(df.num_rows, 2);
    assert_eq!(df.num_columns, 2);
    assert_eq!(df.layout, Layout::ColumnMajor);
    assert_eq!(df.column_names, vec!["A", "B"]);
    assert_eq!(df.row_names, vec!["2021-01-01", "2021-01-02"]);
    assert_eq!(df.buffer.len(), 2 * 2 * 8);
    assert_eq!(f64::from_bits(df.decode_at(0, 0)), 1.5);
    assert_eq!(f64::from_bits(df.decode_at(0, 1)), 2.0);
    assert_eq!(f64::from_bits(df.decode_at(1, 0)), 3.0);
    assert_eq!(f64::from_bits(df.decode_at(1, 1)), 4.0);
    let expected: Vec<u8> = [1.5f64, 3.0, 2.0, 4.0].iter().flat_map(|v| v.to_le_bytes()).collect();
    assert_eq!(df.buffer, expected);
}

#[test]
fn from_stdin_row_major_keeps_row_order() {
    let input = "DATE,A,B\nd1,1,2\nd2,3,4\n";
    let df = DataFrame::from_stdin(input, Layout::RowMajor, &parse).unwrap();
    let expected: Vec<u8> = [1.0f64, 2.0, 3.0, 4.0].iter().flat_map(|v| v.to_le_bytes()).collect();
    assert_eq!(df.buffer, expected);
}

#[test]
fn from_stdin_understands_quoted_fields() {
    let input = "DATE,\"A,B\",C\n\"Jan 1, 2021\",1,2\n";
    let df = DataFrame::from_stdin(input, Layout::RowMajor, &parse).unwrap();
    assert_eq!(df.column_names, vec!["A,B", "C"]);
    assert_eq!(df.row_names, vec!["Jan 1, 2021"]);
    assert_eq!(f64::from_bits(df.decode_at(0, 1)), 2.0);
}

#[test]
fn from_stdin_stores_missing_values_as_nan() {
    let input = "DATE,A,B\nd1,,2\nd2,x,\n";
    let df = DataFrame::from_stdin(input, Layout::ColumnMajor, &parse).unwrap();
    assert_eq!(df.decode_at(0, 0), NAN_BITS);
    assert_eq!(f64::from_bits(df.decode_at(0, 1)), 2.0);
    assert_eq!(df.decode_at(1, 0), NAN_BITS);
    assert_eq!(df.decode_at(1, 1), NAN_BITS);
}

#[test]
fn from_stdin_fails_on_blank_input() {
    for input in ["", "   ", "\n\n", " \t\r\n "] {
        let res = DataFrame::from_stdin(input, Layout::ColumnMajor, &parse);
        assert_eq!(res.err(), Some(FrameError::NoInput));
    }
}

#[test]
fn from_stdin_fails_without_a_date_header() {
    let res = DataFrame::from_stdin("TIME,A\nd1,1\n", Layout::ColumnMajor, &parse);
    assert_eq!(res.err(), Some(FrameError::MissingDateHeader));
}

#[test]
fn from_stdin_fails_on_a_row_of_another_width() {
    let res = DataFrame::from_stdin("DATE,A\nd1,1\nd2,2,3\n", Layout::ColumnMajor, &parse);
    assert_eq!(res.err(), Some(FrameError::Csv));
    let res = DataFrame::from_stdin("DATE,A,B\nd1,1\n", Layout::RowMajor, &parse);
    assert_eq!(res.err(), Some(FrameError::Csv));
}

#[test]
fn from_stdin_of_a_header_alone() {
    let df = DataFrame::from_stdin("DATE,A\n", Layout::ColumnMajor, &parse).unwrap();
    assert_eq!(df.num_rows, 0);
    assert_eq!(df.num_columns, 1);
    assert_eq!(df.buffer.len(), 0);
}

#[test]
fn to_csv_writes_header_and_rows() {
    let input = "DATE,A,B\n2021-01-01,1.5,2\n2021-01-02,3,4\n";
    for layout in [Layout::RowMajor, Layout::ColumnMajor] {
        let df = DataFrame::from_stdin(input, layout, &parse).unwrap();
        let out = text(df.to_csv(&render).unwrap());
        assert_eq!(out, "DATE,A,B\n2021-01-01,1.5,2\n2021-01-02,3,4\n");
    }
}

#[test]
fn to_csv_writes_nan_as_the_float_formatter_does() {
    let df = DataFrame::new_from_csv(b"DATE,A\nd1,\nd2,7\n", Layout::ColumnMajor, &parse).unwrap();
    let out = text(df.to_csv(&render).unwrap());
    assert_eq!(out, "DATE,A\nd1,NaN\nd2,7\n");
}

#[test]
fn to_csv_quotes_what_needs_quoting() {
    let df = DataFrame::from_values(
        vec!["A,B".to_string(), "say \"hi\"".to_string()],
        vec!["Jan 1, 2021".to_string()],
        vec![1.0f64.to_bits(), 2.0f64.to_bits()],
        Layout::RowMajor,
    )
    .unwrap();
    let out = text(df.to_csv(&render).unwrap());
    assert_eq!(out, "DATE,\"A,B\",\"say \"\"hi\"\"\"\n\"Jan 1, 2021\",1,2\n");
}

#[test]
fn to_records_gives_one_record_per_row_after_the_header() {
    let df = DataFrame::new_from_csv(b"DATE,A,B\nd1,1,2\nd2,3,4\n", Layout::ColumnMajor, &parse)
        .unwrap();
    let records = df.to_records(&render);
    assert_eq!(
        records,
        vec![vec!["DATE", "A", "B"], vec!["d1", "1", "2"], vec!["d2", "3", "4"]]
    );
}

#[test]
fn write_records_of_nothing_is_empty() {
    assert_eq!(write_records(&Vec::new()), Ok(Vec::new()));
}

#[test]
fn round_trip_reproduces_labels_names_and_values() {
    let source = "DATE,Column1,Column2\n2021-01-01,1,2\n2021-01-02,3.25,-4\n2021-01-03,5,6.5\n";
    for layout in [Layout::RowMajor, Layout::ColumnMajor] {
        let df = DataFrame::new_from_csv(source.as_bytes(), layout, &parse).unwrap();
        assert_eq!(text(df.to_csv(&render).unwrap()), source);
        let df = DataFrame::from_stdin(source, layout, &parse).unwrap();
        assert_eq!(text(df.to_csv(&render).unwrap()), source);
    }
}

#[test]
fn round_trip_through_both_readers_agrees() {
    let source = "DATE,A\nd1,100\nd2,110\nd3,121\n";
    let from_bytes = DataFrame::new_from_csv(source.as_bytes(), Layout::ColumnMajor, &parse).unwrap();
    let from_text = DataFrame::from_stdin(source, Layout::ColumnMajor, &parse).unwrap();
    assert_eq!(from_bytes.buffer, from_text.buffer);
    assert_eq!(from_bytes.column_names, from_text.column_names);
    assert_eq!(from_bytes.row_names, from_text.row_names);
}

fn record(fields: &[&str]) -> Vec<String> {
    fields.iter().map(|s| s.to_string()).collect()
}

#[test]
fn from_records_builds_the_frame_of_the_records() {
    let header = record(&["DATE", "A", "B"]);
    let rows = vec![record(&["d1", "1", "2"]), record(&["d2", "", "x"])];
    let df = DataFrame::from_records(&header, &rows, Layout::ColumnMajor, &parse).unwrap();
    assert_eq!(df.num_rows, 2);
    assert_eq!(df.num_columns, 2);
    assert_eq!(df.column_names, vec!["A", "B"]);
    assert_eq!(df.row_names, vec!["d1", "d2"]);
    assert_eq!(f64::from_bits(df.decode_at(0, 0)), 1.0);
    assert_eq!(f64::from_bits(df.decode_at(0, 1)), 2.0);
    assert_eq!(df.decode_at(1, 0), NAN_BITS);
    assert_eq!(df.decode_at(1, 1), NAN_BITS);
    assert_eq!(df.buffer.len(), 32);
}

#[test]
fn from_records_turns_down_a_header_without_date() {
    let rows = vec![record(&["d1", "1"])];
    let res = DataFrame::from_records(&record(&["TIME", "A"]), &rows, Layout::RowMajor, &parse);
    assert_eq!(res.err(), Some(FrameError::MissingDateHeader));
    let res = DataFrame::from_records(&Vec::new(), &rows, Layout::RowMajor, &parse);
    assert_eq!(res.err(), Some(FrameError::MissingDateHeader));
}

#[test]
fn from_records_turns_down_a_record_of_another_width() {
    let header = record(&["DATE", "A", "B"]);
    let rows = vec![record(&["d1", "1", "2"]), record(&["d2", "3", "4", "5"])];
    let res = DataFrame::from_records(&header, &rows, Layout::RowMajor, &parse);
    assert_eq!(res.err(), Some(FrameError::RaggedRows));
    let rows = vec![record(&["d1", "1"]), record(&["d2", "3", "4"])];
    let res = DataFrame::from_records(&header, &rows, Layout::ColumnMajor, &parse);
    assert_eq!(res.err(), Some(FrameError::RaggedRows));
    let rows = vec![Vec::new()];
    let res = DataFrame::from_records(&header, &rows, Layout::ColumnMajor, &parse);
    assert_eq!(res.err(), Some(FrameError::RaggedRows));
}

#[test]
fn starts_with_date_looks_at_the_first_field_only() {
    assert!(DataFrame::starts_with_date(&record(&["DATE"])));
    assert!(DataFrame::starts_with_date(&record(&["DATE", "DATE"])));
    assert!(!DataFrame::starts_with_date(&record(&["A", "DATE"])));
    assert!(!DataFrame::starts_with_date(&record(&["DATE "])));
    assert!(!DataFrame::starts_with_date(&Vec::new()));
}

#[test]
fn from_stdin_reports_the_header_before_a_malformed_row() {
    let res = DataFrame::from_stdin("TIME,A\nd1,1\nd2,2,3\n", Layout::ColumnMajor, &parse);
    assert_eq!(res.err(), Some(FrameError::MissingDateHeader));
}
