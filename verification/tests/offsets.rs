use light_r::frame::DataFrame;
use light_r::offsets::{block_table, Layout};

#[test]
fn row_offsets_follow_the_row_major_formula() {
    let table = DataFrame::calc_row_offsets(3, 2);
    assert_eq!(table, vec![vec![0, 8], vec![16, 24], vec![32, 40]]);
}

#[test]
fn column_offsets_follow_the_column_major_formula() {
    let table = DataFrame::calc_column_offsets(3, 2);
    assert_eq!(table, vec![vec![0, 8, 16], vec![24, 32, 40]]);
}

#[test]
fn offsets_for_more_than_two_columns() {
    let table = DataFrame::calc_row_offsets(2, 4);
    for r in 0..2 {
        for c in 0..4 {
            assert_eq!(table[r][c], (r * 4 + c) * 8);
        }
    }
    let table = DataFrame::calc_column_offsets(2, 4);
    for r in 0..2 {
        for c in 0..4 {
            assert_eq!(table[c][r], (c * 2 + r) * 8);
        }
    }
}

#[test]
fn calc_offsets_goes_by_the_layout() {
    assert_eq!(DataFrame::calc_offsets(3, 2, Layout::RowMajor), DataFrame::calc_row_offsets(3, 2));
    assert_eq!(DataFrame::calc_offsets(3, 2, Layout::ColumnMajor), DataFrame::calc_column_offsets(3, 2));
    assert_ne!(DataFrame::calc_offsets(3, 2, Layout::RowMajor), DataFrame::calc_offsets(3, 2, Layout::ColumnMajor));
}

#[test]
fn offsets_of_empty_tables() {
    assert_eq!(DataFrame::calc_row_offsets(0, 5), Vec::<Vec<usize>>::new());
    assert_eq!(DataFrame::calc_row_offsets(2, 0), vec![Vec::<usize>::new(), Vec::new()]);
    assert_eq!(DataFrame::calc_column_offsets(5, 0), Vec::<Vec<usize>>::new());
    assert_eq!(DataFrame::calc_column_offsets(0, 2), vec![Vec::<usize>::new(), Vec::new()]);
}

#[test]
fn every_offset_is_an_aligned_slot_inside_the_buffer() {
    for layout in [Layout::RowMajor, Layout::ColumnMajor] {
        let table = DataFrame::calc_offsets(4, 3, layout);
        let mut seen = vec![false; 12];
        for block in &table {
            for w in block.windows(2) {
                assert_eq!(w[0] + 8, w[1]);
            }
            for &off in block {
                assert_eq!(off % 8, 0);
                assert!(off + 8 <= 4 * 3 * 8);
                assert!(!seen[off / 8]);
                seen[off / 8] = true;
            }
        }
        assert!(seen.iter().all(|&s| s));
    }
}

#[test]
fn block_table_is_the_same_rule_for_both_layouts() {
    assert_eq!(block_table(3, 2), DataFrame::calc_row_offsets(3, 2));
    assert_eq!(block_table(2, 3), DataFrame::calc_column_offsets(3, 2));
}
