use taboo::line::{extract_line, find_line_end, find_line_start, is_line_break};

#[test]
fn line_of_span_in_middle_line() {
    let buf = b"first\nsecond bad word\nthird";
    let e = extract_line(buf, 13, 16);
    assert_eq!(e.prefix, b"second ".to_vec());
    assert_eq!(e.matched, b"bad".to_vec());
    assert_eq!(e.suffix, b" word".to_vec());
}

#[test]
fn span_at_buffer_start_has_empty_prefix() {
    let buf = b"bad = 1\nx";
    let e = extract_line(buf, 0, 3);
    assert!(e.prefix.is_empty());
    assert_eq!(e.suffix, b" = 1".to_vec());
}

#[test]
fn span_at_buffer_end_has_empty_suffix() {
    let buf = b"x\ny = bad";
    let e = extract_line(buf, 6, 9);
    assert_eq!(e.prefix, b"y = ".to_vec());
    assert!(e.suffix.is_empty());
}

#[test]
fn last_line_without_break_runs_to_buffer_end() {
    let buf = b"a\nbad tail";
    assert_eq!(find_line_end(buf, 5), 10);
    let e = extract_line(buf, 2, 5);
    assert_eq!(e.suffix, b" tail".to_vec());
}

#[test]
fn carriage_return_ends_a_line() {
    let buf = b"one\r\nx bad y\r\nz";
    assert_eq!(find_line_start(buf, 7), 5);
    assert_eq!(find_line_end(buf, 10), 12);
    let e = extract_line(buf, 7, 10);
    assert_eq!(e.prefix, b"x ".to_vec());
    assert_eq!(e.suffix, b" y".to_vec());
}

#[test]
fn lone_carriage_return_ends_a_line() {
    let buf = b"p\rbad\rq";
    let e = extract_line(buf, 2, 5);
    assert!(e.prefix.is_empty());
    assert!(e.suffix.is_empty());
}

#[test]
fn two_spans_on_one_line_each_get_the_whole_line() {
    let buf = b"f bad g bad h\n";
    let a = extract_line(buf, 2, 5);
    let b = extract_line(buf, 8, 11);
    assert_eq!(a.prefix, b"f ".to_vec());
    assert_eq!(a.suffix, b" g bad h".to_vec());
    assert_eq!(b.prefix, b"f bad g ".to_vec());
    assert_eq!(b.suffix, b" h".to_vec());
    let mut whole_a = a.prefix.clone();
    whole_a.extend(a.matched.iter());
    whole_a.extend(a.suffix.iter());
    let mut whole_b = b.prefix.clone();
    whole_b.extend(b.matched.iter());
    whole_b.extend(b.suffix.iter());
    assert_eq!(whole_a, b"f bad g bad h".to_vec());
    assert_eq!(whole_a, whole_b);
}

#[test]
fn line_breaks_are_lf_and_cr_only() {
    assert!(is_line_break(b'\n'));
    assert!(is_line_break(b'\r'));
    assert!(!is_line_break(b' '));
    assert!(!is_line_break(b'\t'));
}
