use kanna::lexer::{decimal, escape, Lexer};
use kanna::parser::{ParserError, Token};

fn ident(s: &str) -> Token {
    Token::Identifier(s.to_owned())
}

#[test]
fn lexer_string() {
    assert_eq!(Lexer::new("string").next(), Some(Ok(Token::Identifier("string".to_owned()))));
    assert_eq!(Lexer::new("\"string\"").next(), Some(Ok(Token::String("string".to_owned()))));
    assert_eq!(Lexer::new("\"string\\n\"").next(), Some(Ok(Token::String("string\n".to_owned()))));
    assert_eq!(Lexer::new("\"\\\"\"").next(), Some(Ok(Token::String("\"".to_owned()))));
    assert_eq!(Lexer::new("\"string").next(), Some(Err(ParserError::UnmatchedQuote)));
}

#[test]
fn lexer_scope() {
    assert_eq!(Lexer::new("\t").next(), None);
    assert_eq!(Lexer::new("\t\n").next(), Some(Ok(Token::Terminator)));
    assert_eq!(&Lexer::new("\tstring").tokens(), &[Ok(Token::ScopeOpen),
        Ok(Token::Identifier("string".to_owned())), Ok(Token::ScopeClose)]);
    assert_eq!(&Lexer::new("diverge\n\t\"string\"").tokens(),
        &[Ok(Token::Identifier("diverge".to_owned())), Ok(Token::Terminator),
            Ok(Token::ScopeOpen), Ok(Token::String("string".to_owned())), Ok(Token::ScopeClose)]);
}

// Numbers are held in thousandths: 1.0 is 1000.
#[test]
fn lexer_numeric() {
    assert_eq!(Lexer::new("0").next(), Some(Ok(Token::Numeric(0))));
    assert_eq!(Lexer::new("1").next(), Some(Ok(Token::Numeric(1000))));
    assert_eq!(Lexer::new("1.0").next(), Some(Ok(Token::Numeric(1000))));
    assert_eq!(Lexer::new("-1.0").next(), Some(Ok(Token::Numeric(-1000))));
    assert_eq!(&Lexer::new("(1.0,)").tokens(), &[Ok(Token::BracketOpen),
        Ok(Token::Numeric(1000)), Ok(Token::ListSeparator), Ok(Token::BracketClose)]);
}

#[test]
fn lexer_invalid_numeric() {
    assert_eq!(Lexer::new("-").next(), Some(Err(ParserError::InvalidNumeric)));
    assert_eq!(Lexer::new("1.2.3").next(), Some(Err(ParserError::InvalidNumeric)));
    assert_eq!(Lexer::new("12abc").next(), Some(Err(ParserError::InvalidNumeric)));
}

#[test]
fn decimal_values() {
    let d = |s: &str| decimal(&s.chars().collect());
    assert_eq!(d("2.5"), Some(2500));
    assert_eq!(d("-0.125"), Some(-125));
    assert_eq!(d("0.1239"), Some(123));
    assert_eq!(d(".5"), Some(500));
    assert_eq!(d("7."), Some(7000));
    assert_eq!(d("1000000000"), Some(1_000_000_000_000));
    assert_eq!(d("1000000001"), None);
    assert_eq!(d("."), None);
    assert_eq!(d(""), None);
}

#[test]
fn escapes_resolved() {
    assert_eq!(escape("a\\nb".to_owned()), "a\nb");
    assert_eq!(escape("\\\"q\\\"".to_owned()), "\"q\"");
    assert_eq!(escape("\\\\x".to_owned()), "\\\\x");
    assert_eq!(escape("\\\\n".to_owned()), "\\\n");
    assert_eq!(escape("\\t".to_owned()), "\\t");
    assert_eq!(escape("plain".to_owned()), "plain");
}

#[test]
fn punctuation_and_words() {
    assert_eq!(&Lexer::new("glide[1000, _]").tokens(), &[Ok(ident("glide")), Ok(Token::SquareOpen),
        Ok(Token::Numeric(1_000_000)), Ok(Token::ListSeparator), Ok(Token::Underscore), Ok(Token::SquareClose)]);
    assert_eq!(&Lexer::new("jump l-left").tokens(), &[Ok(ident("jump")), Ok(ident("l-left"))]);
    assert_eq!(&Lexer::new("\"\u{e9}t\u{e9}\"").tokens(), &[Ok(Token::String("\u{e9}t\u{e9}".to_owned()))]);
}

#[test]
fn blank_lines_keep_indentation() {
    let tokens = Lexer::new("a\n\tb\n\n\tc\nd\n").tokens();
    assert_eq!(&tokens, &[Ok(ident("a")), Ok(Token::Terminator), Ok(Token::ScopeOpen), Ok(ident("b")),
        Ok(Token::Terminator), Ok(Token::Terminator), Ok(ident("c")), Ok(Token::Terminator),
        Ok(Token::ScopeClose), Ok(ident("d")), Ok(Token::Terminator)]);
}

fn balanced(s: &str) -> bool {
    let tokens = Lexer::new(s).tokens();
    let open = tokens.iter().filter(|t| **t == Ok(Token::ScopeOpen)).count();
    let close = tokens.iter().filter(|t| **t == Ok(Token::ScopeClose)).count();
    open == close
}

#[test]
fn scopes_balance() {
    assert!(balanced("\t\t\ta"));
    assert!(balanced("a\n\t\tb\n\tc\n\t\t\td"));
    assert!(balanced("\"unterminated\n\t\tx"));
    assert!(balanced("\t\n\t\t\n"));
    assert!(balanced(""));
}

#[test]
fn unmatched_quote_stops_at_line_end() {
    assert_eq!(&Lexer::new("\"abc\nx").tokens(), &[Err(ParserError::UnmatchedQuote), Ok(Token::Terminator), Ok(ident("x"))]);
}

#[test]
fn other_backslashes_kept() {
    assert_eq!(Lexer::new("\"a\\tb\"").next(), Some(Ok(Token::String("a\\tb".to_owned()))));
}
