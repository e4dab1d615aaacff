use esh::lexer::errors::{LexerError, LexerErrorKind};
use esh::lexer::types::{Position, Range, TokenType};
use esh::lexer::Lexer;
use esh::text::{i64_decimal, u64_decimal, usize_decimal};

#[test]
fn decimals_are_written_most_significant_first() {
    assert_eq!(u64_decimal(0), "0");
    assert_eq!(u64_decimal(1234), "1234");
    assert_eq!(u64_decimal(u64::MAX), "18446744073709551615");
    assert_eq!(usize_decimal(90), "90");
    assert_eq!(i64_decimal(-42), "-42");
    assert_eq!(i64_decimal(7), "7");
    assert_eq!(i64_decimal(i64::MIN), "-9223372036854775808");
}

#[test]
fn positions_are_described_as_line_and_char() {
    let p = Position { line: 12, char: 5 };
    assert_eq!(p.describe(), "12:5");
    let e = LexerError { range: Range::new((3, 4), (3, 9)), source: LexerErrorKind::UnterminatedString };
    assert_eq!(e.message(), "Parser error at 3:4");
    assert_eq!(LexerErrorKind::UnterminatedString.message(), "unterminated string");
}

#[test]
fn lexer_reads_a_string_literal() {
    let mut l = Lexer::new("\"hello\"");
    let t = l.next().unwrap().unwrap();
    assert_eq!(t.token_type, TokenType::String("hello".to_string()));
    assert!(l.next().is_none());
}

#[test]
fn lexer_unescapes_quotes() {
    let mut l = Lexer::new("\"a\\\"b\"");
    let t = l.next().unwrap().unwrap();
    assert_eq!(t.token_type, TokenType::String("a\"b".to_string()));
}

#[test]
fn lexer_reports_unterminated_strings() {
    let mut l = Lexer::new("\"abc");
    let e = l.next().unwrap().unwrap_err();
    assert_eq!(e.source, LexerErrorKind::UnterminatedString);
}

#[test]
fn lexer_stops_at_end_and_at_nul() {
    let mut l = Lexer::new("");
    assert!(l.next().is_none());
    let mut l = Lexer::new("\0\"x\"");
    assert!(l.next().is_none());
}
