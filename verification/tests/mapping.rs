use light_r::frame::DataFrame;
use light_r::ingest::FrameError;
use light_r::mapping::{freeze, thaw};
use light_r::offsets::Layout;

fn names(list: &[&str]) -> Vec<String> {
    list.iter().map(|s| s.to_string()).collect()
}

#[test]
fn a_frozen_buffer_reads_back_as_it_was() {
    let bytes: Vec<u8> = (0..=255u8).cycle().take(4096 + 24).collect();
    let map = freeze(&bytes).unwrap();
    assert_eq!(&map[..], &bytes[..]);
    assert_eq!(thaw(&map), bytes);
}

#[test]
fn an_empty_buffer_can_be_frozen() {
    let map = freeze(&[]).unwrap();
    assert_eq!(map.len(), 0);
    assert_eq!(thaw(&map), Vec::<u8>::new());
}

#[test]
fn a_frame_survives_freezing_and_thawing() {
    let values = [1.0f64, 2.0, 3.0, 4.0, 5.0, 6.0];
    let df = DataFrame::from_values(
        names(&["A", "B"]),
        names(&["x", "y", "z"]),
        values.iter().map(|v| v.to_bits()).collect(),
        Layout::ColumnMajor,
    )
    .unwrap();
    let map = freeze(&df.buffer).unwrap();
    let back = DataFrame::from_buffer(
        df.column_names.clone(),
        df.row_names.clone(),
        thaw(&map),
        Layout::ColumnMajor,
    )
    .unwrap();
    assert!(back.is_well_formed());
    assert_eq!(back.buffer, df.buffer);
    assert_eq!(back.offsets, df.offsets);
    for r in 0..3 {
        for c in 0..2 {
            assert_eq!(back.decode_at(r, c), df.decode_at(r, c));
        }
    }
}

#[test]
fn from_buffer_turns_down_a_buffer_of_the_wrong_length() {
    let res = DataFrame::from_buffer(names(&["A"]), names(&["x", "y"]), vec![0u8; 15], Layout::RowMajor);
    assert_eq!(res.err(), Some(FrameError::RaggedRows));
    let res = DataFrame::from_buffer(names(&["A"]), names(&["x", "y"]), vec![0u8; 24], Layout::RowMajor);
    assert_eq!(res.err(), Some(FrameError::RaggedRows));
    let res = DataFrame::from_buffer(names(&["A"]), names(&["x", "y"]), vec![0u8; 16], Layout::RowMajor);
    assert!(res.is_ok());
    let res = DataFrame::from_buffer(Vec::new(), Vec::new(), Vec::new(), Layout::ColumnMajor);
    assert!(res.is_ok());
}
