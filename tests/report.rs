use taboo::line::LineExcerpt;
use taboo::report::{append_decimal, diagnostic_line};
use taboo::scan::{Diagnostic, Occurrence, Scanner};
use taboo::words::BannedWordSet;

fn decimal(n: usize) -> String {
    let mut s = String::new();
    append_decimal(&mut s, n);
    s
}

#[test]
fn decimal_digits() {
    assert_eq!(decimal(0), "0");
    assert_eq!(decimal(7), "7");
    assert_eq!(decimal(10), "10");
    assert_eq!(decimal(4096), "4096");
    assert_eq!(decimal(usize::MAX), usize::MAX.to_string());
}

#[test]
fn diagnostic_line_for_row_three_column_four() {
    let words = BannedWordSet::banned_words_from(&vec!["bad".to_string()]);
    let buf = b"f = 1\ng = 2\n    bad = 3\n";
    let occs = vec![Occurrence { start_byte: 16, end_byte: 19, row: 3, column: 4 }];
    let mut scanner = Scanner::new();
    let r = scanner.scan_file(&words, buf, &Some(occs));
    assert_eq!(r.diagnostics.len(), 1);
    let line = diagnostic_line("Main.hs", &r.diagnostics[0], "[bad]");
    assert_eq!(line, "(Main.hs:3:4)     [bad] = 3");
}

#[test]
fn invalid_utf8_around_identifier_is_replaced() {
    let d = Diagnostic {
        row: 12,
        column: 1,
        excerpt: LineExcerpt { prefix: vec![0xff], matched: b"bad".to_vec(), suffix: vec![b' ', 0xc3] },
    };
    assert_eq!(diagnostic_line("x.hs", &d, "bad"), "(x.hs:12:1) \u{fffd}bad \u{fffd}");
}
