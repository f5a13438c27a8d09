use slidedeck::cursor::ParserCursor;
use slidedeck::lexer::{gather_value, is_keyword};
use slidedeck::document::{LexType, ParseHalt, ValueType};

fn num(s: &str) -> ValueType {
    ValueType::Num(s.to_string())
}

fn text(s: &str) -> ValueType {
    ValueType::Str(s.to_string())
}

#[test]
fn cursor_counts_rows_and_columns() {
    let mut c = ParserCursor::new(String::from("a\nb"));
    assert_eq!(c.current(), Some('a'));
    assert_eq!(c.peek(), Some('\n'));
    assert_eq!(c.next(), Some('\n'));
    assert_eq!((c.pos(), c.row(), c.col()), (1, 1, 0));
    assert_eq!(c.next(), Some('b'));
    assert_eq!((c.pos(), c.row(), c.col()), (2, 1, 1));
    assert_eq!(c.peek(), None);
    assert_eq!(c.next(), None);
    assert_eq!((c.pos(), c.prev_pos()), (2, 2));
}

#[test]
fn previous_undoes_next() {
    let mut c = ParserCursor::new(String::from("ab\ncd"));
    c.next();
    c.next();
    let (p, r, k) = (c.pos(), c.row(), c.col());
    c.next();
    c.previous();
    assert_eq!((c.pos(), c.row(), c.col()), (p, r, k));
}

#[test]
fn empty_text_has_no_current_character() {
    let mut c = ParserCursor::new(String::new());
    assert_eq!(c.current(), None);
    assert_eq!(c.next(), None);
    assert_eq!(c.len(), 0);
}

#[test]
fn keyword_with_reset_leaves_cursor() {
    let mut c = ParserCursor::new(String::from("#slide x"));
    assert!(is_keyword(&mut c, "#slide", true));
    assert_eq!(c.pos(), 0);
    assert!(is_keyword(&mut c, "#sli", false));
    assert_eq!(c.pos(), 4);
    // A failed try stays where the first difference was found.
    assert!(!is_keyword(&mut c, "dx", false));
    assert_eq!(c.pos(), 5);
    assert!(is_keyword(&mut c, "e ", false));
    assert_eq!(c.pos(), 7);
}

#[test]
fn number_is_kept_as_its_literal() {
    let mut c = ParserCursor::new(String::from("12.5,"));
    assert_eq!(gather_value(&mut c, LexType::Num, None), Ok(num("12.5")));
    // The cursor steps back from the separator.
    assert_eq!(c.pos(), 3);
}

#[test]
fn number_after_spaces_and_before_parenthesis() {
    let mut c = ParserCursor::new(String::from(" 7)"));
    assert_eq!(gather_value(&mut c, LexType::Num, None), Ok(num("7")));
    assert_eq!(c.pos(), 1);
}

#[test]
fn no_digit_is_an_invalid_number() {
    let mut c = ParserCursor::new(String::from("x1,"));
    assert_eq!(gather_value(&mut c, LexType::Num, None), Ok(ValueType::Invalid));
    assert_eq!(c.pos(), 0);
}

#[test]
fn number_at_end_of_text_reads_past_end() {
    let mut c = ParserCursor::new(String::from("12"));
    assert_eq!(gather_value(&mut c, LexType::Num, None), Err(ParseHalt::ReadPastEnd));
}

#[test]
fn number_with_two_points_is_no_number() {
    let mut c = ParserCursor::new(String::from("1.2.3)"));
    assert_eq!(gather_value(&mut c, LexType::Num, None), Err(ParseHalt::BadNumber));
}

#[test]
fn number_may_end_with_its_point() {
    let mut c = ParserCursor::new(String::from("4.)"));
    assert_eq!(gather_value(&mut c, LexType::Num, None), Ok(num("4.")));
}

#[test]
fn quoted_string_stops_on_closing_quote() {
    let mut c = ParserCursor::new(String::from("x \"hi\" y"));
    assert_eq!(gather_value(&mut c, LexType::Str, None), Ok(text("hi")));
    assert_eq!(c.pos(), 5);
    assert_eq!(c.current(), Some('"'));
}

#[test]
fn unclosed_string_never_ends() {
    let mut c = ParserCursor::new(String::from("\"abc\n"));
    assert_eq!(gather_value(&mut c, LexType::Str, None), Err(ParseHalt::Endless));
}

#[test]
fn array_of_numbers() {
    let mut c = ParserCursor::new(String::from("[1, 2]"));
    assert_eq!(
        gather_value(&mut c, LexType::Arr, None),
        Ok(ValueType::Arr(vec![num("1"), num("2")]))
    );
    assert_eq!(c.pos(), 5);
}

#[test]
fn array_of_strings() {
    let mut c = ParserCursor::new(String::from("[\"a\", \"bc\"]"));
    assert_eq!(
        gather_value(&mut c, LexType::Arr, Some(LexType::Str)),
        Ok(ValueType::Arr(vec![text("a"), text("bc")]))
    );
}

#[test]
fn unclosed_array_never_ends() {
    let mut c = ParserCursor::new(String::from("[1, 2\n"));
    assert_eq!(gather_value(&mut c, LexType::Arr, None), Err(ParseHalt::Endless));
}

#[test]
fn slide_text_stops_at_blank_line() {
    let mut c = ParserCursor::new(String::from("ab\ncd\n\nef"));
    assert_eq!(gather_value(&mut c, LexType::SlideStr, None), Ok(text("abcd")));
    assert_eq!(c.pos(), 5);
}

#[test]
fn slide_text_stops_at_inline_font() {
    let mut c = ParserCursor::new(String::from("ab #font(x)\n"));
    assert_eq!(gather_value(&mut c, LexType::SlideStr, None), Ok(text("ab")));
    assert_eq!(c.pos(), 2);
}

#[test]
fn braced_slide_text_stops_before_brace() {
    let mut c = ParserCursor::new(String::from("ab}\n"));
    assert_eq!(gather_value(&mut c, LexType::SlideStr, Some(LexType::Braced)), Ok(text("a")));
    assert_eq!(c.pos(), 1);
}

#[test]
fn slide_text_at_end_of_text_reads_past_end() {
    let mut c = ParserCursor::new(String::from("ab"));
    assert_eq!(gather_value(&mut c, LexType::SlideStr, None), Err(ParseHalt::ReadPastEnd));
}

#[test]
fn braced_kind_reads_nothing() {
    let mut c = ParserCursor::new(String::from("abc"));
    assert_eq!(gather_value(&mut c, LexType::Braced, None), Ok(ValueType::Invalid));
    assert_eq!(c.pos(), 0);
}
