use chonker::minimal_debug::{click_mismatch, click_mismatches, click_record, parse_click_record};

#[test]
fn click_record_format() {
    assert_eq!(click_record(12, 3, 4, 5), "Click(12,3) → Cursor(4,5)");
    assert_eq!(click_record(0, 0, 0, 0), "Click(0,0) → Cursor(0,0)");
}

#[test]
fn click_mismatch_compares_column_and_row() {
    assert!(!click_mismatch(5, 4, 4, 5));
    assert!(click_mismatch(5, 4, 3, 5));
    assert!(click_mismatch(6, 4, 4, 5));
}

#[test]
fn click_record_reads_back() {
    assert_eq!(parse_click_record("Click(12,3) → Cursor(4,5)"), Some((12, 3, 4, 5)));
    assert_eq!(parse_click_record(&click_record(65535, 7, 100, 2)), Some((65535, 7, 100, 2)));
}

#[test]
fn click_record_malformed_lines() {
    assert_eq!(parse_click_record("garbage"), None);
    assert_eq!(parse_click_record("Click(1,2) → Cursor(3)"), None);
    assert_eq!(parse_click_record("Click(1,2) → Cursor(3,4) → Cursor(5,6)"), None);
    assert_eq!(parse_click_record("Click(x,2) → Cursor(3,+4)"), Some((0, 2, 3, 4)));
    assert_eq!(parse_click_record("Click(99999999999999999999999,2) → Cursor(3,-4)"), Some((0, 2, 3, 0)));
}

#[test]
fn click_mismatches_lists_missed_clicks() {
    let lines = vec![
        "Click(5,4) → Cursor(4,5)".to_string(),
        "Click(1,1) → Cursor(2,2)".to_string(),
        "junk".to_string(),
        "Click(9,0) → Cursor(0,8)".to_string(),
    ];
    assert_eq!(click_mismatches(&lines), vec![(1, 1, 2, 2), (9, 0, 0, 8)]);
}
