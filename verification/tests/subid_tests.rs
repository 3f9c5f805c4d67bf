use fhsenv::subid::{parse_subid_ranges, IdRange, SubidField};

#[test]
fn empty_content_yields_no_ranges() {
    // a missing delegation file is read as empty content
    let ranges = parse_subid_ranges("", "alice").unwrap();
    assert!(ranges.is_empty());
}

#[test]
fn single_line_for_user() {
    let ranges = parse_subid_ranges("alice:100000:65536", "alice").unwrap();
    assert_eq!(ranges, vec![IdRange { lower: 100000, count: 65536 }]);
}

#[test]
fn other_users_are_skipped() {
    let content = "root:1:999\nalice:100000:65536\nbob:200000:65536";
    let ranges = parse_subid_ranges(content, "alice").unwrap();
    assert_eq!(ranges, vec![IdRange { lower: 100000, count: 65536 }]);
}

#[test]
fn malformed_shape_is_skipped() {
    // lines without exactly three colon-separated fields are not errors
    let content = "junk\nalice:1:2:3\nalice:5\n\nalice:100000:10";
    let ranges = parse_subid_ranges(content, "alice").unwrap();
    assert_eq!(ranges, vec![IdRange { lower: 100000, count: 10 }]);
}

#[test]
fn non_numeric_lower_is_hard_error() {
    let err = parse_subid_ranges("alice:ten:5", "alice").unwrap_err();
    assert_eq!(err.line, 0);
    assert_eq!(err.field, SubidField::LowerId);
}

#[test]
fn non_numeric_count_is_hard_error() {
    let err = parse_subid_ranges("bob:1:1\nalice:10:many", "alice").unwrap_err();
    assert_eq!(err.line, 1);
    assert_eq!(err.field, SubidField::Count);
}

#[test]
fn overflowing_number_is_hard_error() {
    let err = parse_subid_ranges("alice:4294967296:5", "alice").unwrap_err();
    assert_eq!(err.line, 0);
    assert_eq!(err.field, SubidField::LowerId);
}

#[test]
fn ranges_are_sorted_by_lower_id() {
    let content = "alice:300000:10\nalice:100000:10\nalice:200000:10";
    let ranges = parse_subid_ranges(content, "alice").unwrap();
    assert_eq!(
        ranges,
        vec![
            IdRange { lower: 100000, count: 10 },
            IdRange { lower: 200000, count: 10 },
            IdRange { lower: 300000, count: 10 },
        ]
    );
}

#[test]
fn error_reports_first_bad_line() {
    let content = "alice:bad:1\nalice:also:bad";
    let err = parse_subid_ranges(content, "alice").unwrap_err();
    assert_eq!(err.line, 0);
}
