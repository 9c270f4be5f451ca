use sieve::error::SieveError;
use sieve::filter::{filter_text, find_line_end};
use sieve::pattern::{contains_bytes, matches_at, should_drop};

fn patterns(list: &[&str]) -> Vec<String> {
    list.iter().map(|p| p.to_string()).collect()
}

#[test]
fn drops_a_line_that_holds_a_pattern() {
    let pats = patterns(&["pattern"]);
    assert!(should_drop(b"line 2 pattern", &pats));
    assert!(!should_drop(b"line 1", &pats));
}

#[test]
fn no_patterns_drop_nothing() {
    assert!(!should_drop(b"line 2 pattern", &[]));
    assert!(!should_drop(b"", &[]));
}

#[test]
fn any_of_the_patterns_drops() {
    let pats = patterns(&["pattern1", "pattern2"]);
    assert!(should_drop(b"remove pattern1", &pats));
    assert!(should_drop(b"also pattern2 here", &pats));
    assert!(!should_drop(b"keep this line", &pats));
    let reversed = patterns(&["pattern2", "pattern1"]);
    assert!(should_drop(b"remove pattern1", &reversed));
    assert!(!should_drop(b"keep this line", &reversed));
}

#[test]
fn matching_is_literal_and_case_sensitive() {
    assert!(should_drop(b"line 2 special*chars", &patterns(&["special*chars"])));
    assert!(!should_drop(b"line 2 specialXchars", &patterns(&["special*chars"])));
    assert!(!should_drop(b"line 2 specialchars", &patterns(&["special*chars"])));
    assert!(!should_drop(b"abc", &patterns(&["a.c"])));
    assert!(!should_drop(b"line REMOVE", &patterns(&["remove"])));
    assert!(should_drop(b"a\\b", &patterns(&["\\"])));
}

#[test]
fn patterns_match_through_their_utf8_bytes() {
    assert!(should_drop("caf\u{e9} au lait".as_bytes(), &patterns(&["\u{e9}"])));
    assert!(!should_drop(b"cafe au lait", &patterns(&["\u{e9}"])));
    // Raw bytes that are no text can be searched too.
    assert!(should_drop(&[0xff, b'a', b'b', 0xfe], &patterns(&["ab"])));
}

#[test]
fn substring_positions() {
    assert!(contains_bytes(b"hello", b"hello"));
    assert!(contains_bytes(b"hello", b"he"));
    assert!(contains_bytes(b"hello", b"lo"));
    assert!(contains_bytes(b"hello", b"ll"));
    assert!(!contains_bytes(b"hello", b"hello!"));
    assert!(!contains_bytes(b"hello", b"lol"));
    assert!(!contains_bytes(b"", b"a"));
    assert!(contains_bytes(b"aab", b"ab"));
}

#[test]
fn the_empty_pattern_occurs_everywhere() {
    assert!(contains_bytes(b"hello", b""));
    assert!(contains_bytes(b"", b""));
    assert!(should_drop(b"anything", &patterns(&[""])));
}

#[test]
fn matches_at_compares_in_place() {
    assert!(matches_at(b"line 2 pattern", b"pattern", 7));
    assert!(!matches_at(b"line 2 pattern", b"pattern", 6));
    assert!(matches_at(b"line", b"", 4));
}

#[test]
fn line_end_is_the_next_separator() {
    assert_eq!(find_line_end(b"ab\ncd", 0), 2);
    assert_eq!(find_line_end(b"ab\ncd", 2), 2);
    assert_eq!(find_line_end(b"ab\ncd", 3), 5);
    assert_eq!(find_line_end(b"ab\ncd", 5), 5);
    assert_eq!(find_line_end(b"", 0), 0);
}

#[test]
fn filters_three_lines() {
    let f = filter_text(b"line 1\nline 2 pattern\nline 3\n", &patterns(&["pattern"])).unwrap();
    assert_eq!(f.text, b"line 1\nline 3\n".to_vec());
    assert_eq!(f.lines_read, 3);
    assert_eq!(f.lines_removed, 1);
}

#[test]
fn empty_text_has_no_lines() {
    let f = filter_text(b"", &patterns(&["pattern"])).unwrap();
    assert_eq!(f.text, b"".to_vec());
    assert_eq!(f.lines_read, 0);
    assert_eq!(f.lines_removed, 0);
}

#[test]
fn text_without_separator_is_refused() {
    assert_eq!(
        filter_text(&[0, 159, 146, 150], &patterns(&["pattern"])).unwrap_err(),
        SieveError::Codec
    );
    assert_eq!(filter_text(b"no separator", &[]).unwrap_err(), SieveError::Codec);
}

#[test]
fn last_line_without_separator_is_a_line() {
    let f = filter_text(b"a\nb", &[]).unwrap();
    assert_eq!(f.lines_read, 2);
    assert_eq!(f.lines_removed, 0);
    assert_eq!(f.text, b"a\nb\n".to_vec());

    let g = filter_text(b"a\nb x", &patterns(&["x"])).unwrap();
    assert_eq!(g.lines_read, 2);
    assert_eq!(g.lines_removed, 1);
    assert_eq!(g.text, b"a\n".to_vec());
}

#[test]
fn empty_lines_are_lines() {
    let f = filter_text(b"\n\na\n\n", &patterns(&["a"])).unwrap();
    assert_eq!(f.lines_read, 4);
    assert_eq!(f.lines_removed, 1);
    assert_eq!(f.text, b"\n\n\n".to_vec());

    let g = filter_text(b"\n", &[]).unwrap();
    assert_eq!(g.lines_read, 1);
    assert_eq!(g.text, b"\n".to_vec());
}

#[test]
fn carriage_returns_stay_in_their_lines() {
    let f = filter_text(b"a\r\nb\r\n", &patterns(&["b"])).unwrap();
    assert_eq!(f.lines_read, 2);
    assert_eq!(f.lines_removed, 1);
    assert_eq!(f.text, b"a\r\n".to_vec());
}

#[test]
fn order_is_kept_and_nothing_is_doubled() {
    let f = filter_text(b"3\n1 x\n2\n3\n1\nx\n", &patterns(&["x"])).unwrap();
    assert_eq!(f.text, b"3\n2\n3\n1\n".to_vec());
    assert_eq!(f.lines_read, 6);
    assert_eq!(f.lines_removed, 2);
}

#[test]
fn filtering_twice_is_filtering_once() {
    let pats = patterns(&["pattern1", "pattern2"]);
    let once = filter_text(
        b"keep this line\nremove pattern1\nalso pattern2 here\nkeep this too",
        &pats,
    )
    .unwrap();
    let twice = filter_text(&once.text, &pats).unwrap();
    assert_eq!(twice.text, once.text);
    assert_eq!(twice.lines_removed, 0);
    assert_eq!(twice.lines_read, once.lines_read - once.lines_removed);
}

#[test]
fn all_lines_removed_leaves_empty_text() {
    let f = filter_text(b"pattern\npattern\n", &patterns(&["pattern"])).unwrap();
    assert_eq!(f.text, b"".to_vec());
    assert_eq!(f.lines_read, 2);
    assert_eq!(f.lines_removed, 2);
    // The empty text can be filtered again.
    let g = filter_text(&f.text, &patterns(&["pattern"])).unwrap();
    assert_eq!(g.lines_read, 0);
}

#[test]
fn every_tenth_line_of_a_thousand() {
    let mut text = String::new();
    for i in 0..1000 {
        text.push_str(&format!(
            "line {} {}\n",
            i,
            if i % 10 == 0 { "remove" } else { "keep" }
        ));
    }
    let f = filter_text(text.as_bytes(), &patterns(&["remove"])).unwrap();
    assert_eq!(f.lines_read, 1000);
    assert_eq!(f.lines_removed, 100);
}

#[test]
fn error_kinds_have_names() {
    assert_eq!(SieveError::Path.name(), "PathError");
    assert_eq!(SieveError::Codec.name(), "CodecError");
    assert_eq!(SieveError::Io.name(), "IoError");
    assert_eq!(SieveError::PoolConfig.name(), "PoolConfigError");
}
