use peeking_iter::parser::Parser;
use peeking_iter::producer::CharSource;
use peeking_iter::producer::Producer;

fn text_cursor(text: &str) -> Parser<CharSource> {
    Parser::new(CharSource::new(text.chars().collect()))
}

fn drain(mut p: CharSource) -> String {
    let mut out = String::new();
    while let Some(c) = p.produce() {
        out.push(c);
    }
    out
}

#[test]
fn line_and_col_after_three_commits_with_newline() {
    let mut it = text_cursor("ab\nc");
    it.next();
    it.next();
    it.next();
    assert_eq!(it.line(), 2);
    assert_eq!(it.col(), 0);
    it.next();
    assert_eq!(it.line(), 2);
    assert_eq!(it.col(), 1);
}

#[test]
fn line_and_col_after_three_commits_without_newline() {
    let mut it = text_cursor("abc");
    it.next();
    it.next();
    it.next();
    assert_eq!(it.line(), 1);
    assert_eq!(it.col(), 3);
}

#[test]
fn position_starts_at_line_one_col_zero() {
    let it = text_cursor("anything");
    assert_eq!(it.line(), 1);
    assert_eq!(it.col(), 0);
}

#[test]
fn next_and_peek_interleave_as_on_the_generic_cursor() {
    let mut it = text_cursor("abc");
    assert_eq!(it.next(), Some('a'));
    assert_eq!(it.peek(), Some('b'));
    assert_eq!(it.peek(), Some('c'));
    assert_eq!(it.next(), Some('b'));
    assert_eq!(it.peek(), Some('c'));
    assert_eq!(it.peek(), None);
}

#[test]
fn peeking_does_not_move_the_position() {
    let mut it = text_cursor("x\ny");
    assert_eq!(it.peek(), Some('x'));
    assert_eq!(it.peek(), Some('\n'));
    assert_eq!(it.line(), 1);
    assert_eq!(it.col(), 0);
    it.advance_to_peeked();
    assert_eq!(it.line(), 1);
    assert_eq!(it.col(), 0);
    assert_eq!(it.next(), Some('y'));
    assert_eq!(it.line(), 1);
    assert_eq!(it.col(), 1);
}

#[test]
fn commits_past_a_newline_reset_the_column() {
    let mut it = text_cursor("ab\ncd");
    assert_eq!(it.next(), Some('a'));
    assert_eq!(it.line(), 1);
    assert_eq!(it.col(), 1);
    assert_eq!(it.next(), Some('b'));
    assert_eq!(it.line(), 1);
    assert_eq!(it.col(), 2);
    assert_eq!(it.next(), Some('\n'));
    assert_eq!(it.line(), 2);
    assert_eq!(it.col(), 0);
    assert_eq!(it.next(), Some('c'));
    assert_eq!(it.line(), 2);
    assert_eq!(it.col(), 1);
}

#[test]
fn peek_nth_from_fresh_text_cursor() {
    let mut it = text_cursor("abc");
    assert_eq!(it.peek_nth(2), Some('c'));
    assert_eq!(it.next(), Some('a'));
}

#[test]
fn text_peek_nth_past_end_and_on_overflow() {
    let mut it = text_cursor("abc");
    assert_eq!(it.peek_nth(3), None);
    assert_eq!(it.peek_nth(usize::MAX), None);
    assert_eq!(it.next(), Some('a'));
}

#[test]
fn text_advance_to_peeked_commits_the_peeked_run() {
    let mut it = text_cursor("abc");
    assert_eq!(it.peek(), Some('a'));
    assert_eq!(it.peek(), Some('b'));
    it.advance_to_peeked();
    assert_eq!(it.next(), Some('c'));
    assert_eq!(it.next(), None);
}

#[test]
fn text_rewind_peeking_restarts_lookahead_at_base() {
    let mut it = text_cursor("abc");
    assert_eq!(it.peek(), Some('a'));
    assert_eq!(it.peek(), Some('b'));
    it.rewind_peeking();
    assert_eq!(it.peek(), Some('a'));
}

#[test]
fn next_while_collects_the_uppercase_run() {
    let mut it = text_cursor("ABc");
    assert_eq!(it.next_while(|c| c.is_uppercase()), "AB".to_string());
    assert_eq!(it.peek(), Some('c'));
    assert_eq!(it.next(), Some('c'));
}

#[test]
fn next_while_updates_the_position_of_the_committed_run() {
    let mut it = text_cursor("a\nb c");
    assert_eq!(it.next_while(|c| c != ' '), "a\nb".to_string());
    assert_eq!(it.line(), 2);
    assert_eq!(it.col(), 1);
    assert_eq!(it.peek(), Some(' '));
}

#[test]
fn text_next_while_rejecting_first_commits_nothing() {
    let mut it = text_cursor("abc");
    assert_eq!(it.next_while(|_| false), String::new());
    assert_eq!(it.line(), 1);
    assert_eq!(it.col(), 0);
    assert_eq!(it.next(), Some('a'));
}

#[test]
fn next_while_on_exhausted_input_returns_empty_text() {
    let mut it = text_cursor("");
    assert_eq!(it.next_while(|_| true), String::new());
    assert_eq!(it.next(), None);
    assert_eq!(it.line(), 1);
    assert_eq!(it.col(), 0);
}

#[test]
fn text_into_inner_round_trips_untouched_cursor() {
    let it = text_cursor("abc");
    let back = Parser::into_inner(it);
    assert_eq!(drain(back), "abc".to_string());
}

#[test]
fn text_into_inner_keeps_committed_position_and_drops_lookahead() {
    let mut it = text_cursor("abc");
    it.next();
    assert_eq!(it.peek(), Some('b'));
    let back = Parser::into_inner(it);
    assert_eq!(drain(back), "bc".to_string());
}
