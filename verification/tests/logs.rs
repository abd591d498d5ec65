use dst_admin_rust::logs::{parse_line_limit, recent_lines_from_tail_bytes, DEFAULT_LINE_LIMIT};

#[test]
fn parses_go_compatible_line_limits() {
    assert_eq!(parse_line_limit(None), DEFAULT_LINE_LIMIT);
    assert_eq!(parse_line_limit(Some("2")), 2);
    assert_eq!(parse_line_limit(Some("0")), usize::MAX);
    assert_eq!(parse_line_limit(Some("-1")), usize::MAX);
    assert_eq!(parse_line_limit(Some("not-a-number")), usize::MAX);
}

#[test]
fn recent_lines_returns_newest_first_with_go_newline_shape() {
    assert_eq!(
        recent_lines_from_tail_bytes(b"one\r\ntwo\r\nthree\r\n", 3),
        vec!["".to_owned(), "three\r".to_owned(), "two\r".to_owned()]
    );
}

#[test]
fn recent_lines_reads_from_file_tail() {
    assert_eq!(
        recent_lines_from_tail_bytes(b"one\ntwo\nthree\nfour", 2),
        vec!["four".to_owned(), "three".to_owned()]
    );
}

#[test]
fn empty_file_matches_go_reverse_read_shape() {
    assert_eq!(recent_lines_from_tail_bytes(b"", 100), vec!["".to_owned()]);
}
