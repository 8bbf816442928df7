use cognicode_explorer::moldql::cursor::Cursor;

fn c(s: &str) -> Cursor {
    Cursor::new(s)
}

#[test]
fn new_starts_at_zero() {
    let cur = c("hello");
    assert_eq!(cur.index, 0);
    assert!(!cur.is_eof());
}

#[test]
fn empty_input_is_eof() {
    let cur = c("");
    assert!(cur.is_eof());
    assert_eq!(cur.peek_char(), None);
}

#[test]
fn peek_char_does_not_advance() {
    let mut cur = c("ab");
    assert_eq!(cur.peek_char(), Some('a'));
    assert_eq!(cur.peek_char(), Some('a'));
    assert_eq!(cur.index, 0);
    cur.advance();
    assert_eq!(cur.index, 1);
    assert_eq!(cur.peek_char(), Some('b'));
}

#[test]
fn peek_char_at_offset() {
    let cur = c("abcd");
    assert_eq!(cur.peek_char_at(0), Some('a'));
    assert_eq!(cur.peek_char_at(2), Some('c'));
    assert_eq!(cur.peek_char_at(10), None);
}

#[test]
fn advance_walks_one_char_at_a_time() {
    let mut cur = c("abc");
    cur.advance();
    assert_eq!(cur.index, 1);
    cur.advance();
    assert_eq!(cur.index, 2);
}

#[test]
fn advance_at_eof_is_noop() {
    let mut cur = c("");
    cur.advance();
    assert_eq!(cur.index, 0);
}

#[test]
fn advance_by_walks_n_chars() {
    let mut cur = c("abcdef");
    cur.advance_by(3);
    assert_eq!(cur.index, 3);
    assert_eq!(cur.peek_char(), Some('d'));
}

#[test]
fn skip_ws_passes_whitespace() {
    let mut cur = c("   foo");
    cur.skip_ws();
    assert_eq!(cur.peek_char(), Some('f'));
    assert_eq!(cur.index, 3);
}

#[test]
fn skip_ws_handles_tabs_and_newlines() {
    let mut cur = c("\t\n  \r x");
    cur.skip_ws();
    assert_eq!(cur.peek_char(), Some('x'));
}

#[test]
fn skip_ws_at_eof_is_safe() {
    let mut cur = c("   ");
    cur.skip_ws();
    assert!(cur.is_eof());
}

#[test]
fn peek_keyword_returns_word() {
    let cur = c("FIND symbols");
    assert_eq!(cur.peek_keyword().as_deref(), Some("FIND"));
}

#[test]
fn peek_keyword_returns_none_for_empty() {
    let cur = c("   ");
    assert_eq!(cur.peek_keyword(), None);
}

#[test]
fn peek_keyword_stops_at_operators() {
    let cur = c("foo > 1");
    assert_eq!(cur.peek_keyword().as_deref(), Some("foo"));
}

#[test]
fn peek_keyword_stops_at_dot() {
    let cur = c("provenance.lsp");
    assert_eq!(cur.peek_keyword().as_deref(), Some("provenance"));
}

#[test]
fn peek_keyword_case_insensitive_via_caller() {
    let cur = c("find");
    assert_eq!(cur.peek_keyword().as_deref(), Some("find"));
}

#[test]
fn consume_keyword_advances_past_word() {
    let mut cur = c("FIND  symbols");
    cur.consume_keyword("FIND");
    assert_eq!(cur.peek_char(), Some('s'));
}

#[test]
fn position_starts_at_one_one() {
    let cur = c("abc");
    assert_eq!(cur.position(), (1, 1));
}

#[test]
fn position_after_newline() {
    let mut cur = c("ab\ncd");
    cur.advance_by(3);
    assert_eq!(cur.position(), (2, 1));
}

#[test]
fn position_mid_line() {
    let mut cur = c("abcdef");
    cur.advance_by(3);
    assert_eq!(cur.position(), (1, 4));
}

#[test]
fn remaining_returns_tail() {
    let mut cur = c("FIND symbols WHERE x = 1");
    cur.advance_by(5);
    let r = cur.remaining();
    assert!(r.starts_with("symbols"));
}

#[test]
fn remaining_clips_to_32_chars() {
    let s = "a".repeat(100);
    let cur = c(&s);
    let r = cur.remaining();
    assert_eq!(r.len(), 32);
}

#[test]
fn index_counts_utf8_bytes() {
    let mut cur = c("é→x");
    cur.advance();
    assert_eq!(cur.index, 2);
    cur.advance();
    assert_eq!(cur.index, 5);
    assert_eq!(cur.peek_char(), Some('x'));
    assert_eq!(cur.position(), (1, 3));
}
