use taboo::haskell::{occurrences_from_nodes, HaskellSource};
use taboo::scan::{scan_occurrences, Occurrence, Scanner};
use taboo::words::BannedWordSet;

fn set_of(lines: &[&str]) -> BannedWordSet {
    let v: Vec<String> = lines.iter().map(|s| s.to_string()).collect();
    BannedWordSet::banned_words_from(&v)
}

fn occ(start_byte: usize, end_byte: usize, row: usize, column: usize) -> Occurrence {
    Occurrence { start_byte, end_byte, row, column }
}

#[test]
fn banned_identifier_at_row_three_column_four() {
    let words = set_of(&["bad"]);
    let buf = b"f = 1\ng = 2\n    bad = 3\n";
    let occs = vec![occ(0, 1, 1, 0), occ(6, 7, 2, 0), occ(16, 19, 3, 4)];
    let mut scanner = Scanner::new();
    let r = scanner.scan_file(&words, buf, &Some(occs));
    assert!(r.announce);
    assert_eq!(r.diagnostics.len(), 1);
    let d = &r.diagnostics[0];
    assert_eq!((d.row, d.column), (3, 4));
    assert_eq!(d.excerpt.prefix, b"    ".to_vec());
    assert_eq!(d.excerpt.matched, b"bad".to_vec());
    assert_eq!(d.excerpt.suffix, b" = 3".to_vec());
    assert!(scanner.seen_banned_word());
}

#[test]
fn longer_identifier_is_no_match() {
    let words = set_of(&["bad"]);
    let buf = b"badger = 1\n";
    let mut scanner = Scanner::new();
    let r = scanner.scan_file(&words, buf, &Some(vec![occ(0, 6, 1, 0)]));
    assert!(!r.announce);
    assert!(r.diagnostics.is_empty());
    assert!(!scanner.seen_banned_word());
}

#[test]
fn empty_word_list_passes_everything() {
    let words = set_of(&["", "   "]);
    let buf = b"bad x";
    let mut scanner = Scanner::new();
    let r = scanner.scan_file(&words, buf, &Some(vec![occ(0, 3, 1, 0), occ(4, 5, 1, 4), occ(0, 0, 1, 0)]));
    assert!(!r.announce);
    assert!(r.diagnostics.is_empty());
    assert!(!scanner.seen_banned_word());
}

#[test]
fn unparsed_file_gives_nothing_and_keeps_verdict() {
    let words = set_of(&["bad"]);
    let mut scanner = Scanner::new();
    let r = scanner.scan_file(&words, b"bad", &None);
    assert!(r.diagnostics.is_empty());
    assert!(!r.announce);
    assert!(!scanner.seen_banned_word());
    let hit = scanner.scan_file(&words, b"bad", &Some(vec![occ(0, 3, 1, 0)]));
    assert!(hit.announce);
    let r = scanner.scan_file(&words, b"bad", &None);
    assert!(r.diagnostics.is_empty());
    assert!(scanner.seen_banned_word());
}

#[test]
fn heading_is_announced_once_per_run() {
    let words = set_of(&["bad"]);
    let mut scanner = Scanner::new();
    let a = scanner.scan_file(&words, b"bad", &Some(vec![occ(0, 3, 1, 0)]));
    let b = scanner.scan_file(&words, b"ok", &Some(vec![occ(0, 2, 1, 0)]));
    let c = scanner.scan_file(&words, b"bad bad", &Some(vec![occ(0, 3, 1, 0), occ(4, 7, 1, 4)]));
    assert!(a.announce);
    assert!(!b.announce);
    assert!(!c.announce);
    assert_eq!(c.diagnostics.len(), 2);
    assert!(scanner.seen_banned_word());
}

#[test]
fn diagnostics_keep_occurrence_order() {
    let words = set_of(&["bad", "evil"]);
    let buf = b"evil\nbad\n";
    let occs = vec![occ(5, 8, 2, 0), occ(0, 4, 1, 0)];
    let r = scan_occurrences(&words, buf, &occs);
    assert_eq!(r.len(), 2);
    assert_eq!(r[0].row, 2);
    assert_eq!(r[0].excerpt.matched, b"bad".to_vec());
    assert_eq!(r[1].row, 1);
    assert_eq!(r[1].excerpt.matched, b"evil".to_vec());
}

#[test]
fn nodes_become_occurrences_with_rows_from_one() {
    let nodes = vec![(0usize, 3usize, 0usize, 0usize), (4, 7, 2, 5)];
    let occs = occurrences_from_nodes(&nodes, 10).unwrap();
    assert_eq!(occs, vec![occ(0, 3, 1, 0), occ(4, 7, 3, 5)]);
}

#[test]
fn nodes_outside_the_buffer_are_refused() {
    assert!(occurrences_from_nodes(&vec![(0, 11, 0, 0)], 10).is_none());
    assert!(occurrences_from_nodes(&vec![(5, 4, 0, 0)], 10).is_none());
    assert!(occurrences_from_nodes(&vec![(0, 1, usize::MAX, 0)], 10).is_none());
    assert_eq!(occurrences_from_nodes(&vec![], 0), Some(vec![]));
}

#[test]
fn haskell_source_finds_variables() {
    let mut source = HaskellSource::new().unwrap();
    let buf = b"main = print bad\n  where bad = 1\n";
    let occs = source.occurrences(buf).unwrap();
    assert!(occs.iter().any(|o| o.start_byte == 13 && o.end_byte == 16 && o.row == 1 && o.column == 13));
    assert!(occs.iter().any(|o| o.start_byte == 25 && o.end_byte == 28 && o.row == 2 && o.column == 8));
}

#[test]
fn haskell_scan_reports_banned_name_in_context() {
    let words = set_of(&["bad"]);
    let mut source = HaskellSource::new().unwrap();
    let mut scanner = Scanner::new();
    let r = scanner.scan_source(&words, &mut source, b"main = print bad\n  where bad = 1\n");
    assert!(r.announce);
    assert!(r.diagnostics.len() >= 2);
    let d = r.diagnostics.iter().find(|d| d.row == 1).unwrap();
    assert_eq!(d.column, 13);
    assert_eq!(d.excerpt.prefix, b"main = print ".to_vec());
    assert!(d.excerpt.suffix.is_empty());
    let e = r.diagnostics.iter().find(|d| d.row == 2).unwrap();
    assert_eq!(e.excerpt.prefix, b"  where ".to_vec());
    assert_eq!(e.excerpt.suffix, b" = 1".to_vec());
}

#[test]
fn haskell_scan_ignores_substrings() {
    let words = set_of(&["bad"]);
    let mut source = HaskellSource::new().unwrap();
    let mut scanner = Scanner::new();
    let r = scanner.scan_source(&words, &mut source, b"badger = 1\n");
    assert!(r.diagnostics.is_empty());
    assert!(!scanner.seen_banned_word());
}
