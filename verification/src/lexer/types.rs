use vstd::prelude::*;

use crate::text::{decimal, str_eq, usize_decimal};

verus! {

/// How a position is written: `line:char`, both in decimal.
pub open spec fn describe_position(line: nat, ch: nat) -> Seq<char> {
    decimal(line) + seq![':'] + decimal(ch)
}

/// A position inside the code.
#[derive(Debug, Clone, Copy, PartialEq, Eq, Structural)]
pub struct Position {
    pub line: usize,
    pub char: usize,
}

impl Position {
    /// Renders the position as `line:char`.
    pub fn describe(&self) -> (s: String)
        ensures
            s@ == describe_position(self.line as nat, self.char as nat),
    {
        let mut s = usize_decimal(self.line);
        s.append(":");
        let c = usize_decimal(self.char);
        s.append(c.as_str());
        proof {
            reveal_strlit(":");
            assert(s@ =~= describe_position(self.line as nat, self.char as nat));
        }
        s
    }
}

/// A range inside the code, from `start` to `end`.
#[derive(Clone, Copy, Debug, PartialEq, Eq, Structural)]
pub struct Range {
    pub start: Position,
    pub end: Position,
}

impl Range {
    /// Builds a range from two `(line, char)` pairs.
    pub fn new(start: (usize, usize), end: (usize, usize)) -> (r: Self)
        ensures
            r.start == (Position { line: start.0, char: start.1 }),
            r.end == (Position { line: end.0, char: end.1 }),
    {
        Self {
            start: Position { line: start.0, char: start.1 },
            end: Position { line: end.0, char: end.1 },
        }
    }
}

/// The kind of a token, with its payload.
///
/// A number literal carries the IEEE-754 bit pattern of its `f64` value
/// (`f64::to_bits`), so that tokens stay plain data.
#[derive(Clone, Debug, PartialEq)]
pub enum TokenType {
    Ident(String),
    String(String),
    Number(u64),
    Comment(String),

    Assign,   // =
    Equal,    // ==
    NotEqual, // !=
    LTEqual,  // <=
    GTEqual,  // >=
    Or,       // ||
    And,      // &&
    Arrow,    // ->

    Plus,      // +
    Dash,      // -
    Asterisk,  // *
    Slash,     // /
    Perc,      // %
    Bang,      // !
    Comma,     // ,
    Dot,       // .
    Semicolon, // ;
    Bar,       // |
    Ampersand, // &
    Colon,     // :

    LBrace,   // {
    RBrace,   // }
    LParen,   // (
    RParen,   // )
    LAngle,   // <
    RAngle,   // >
    LBracket, // [
    RBracket, // ]

    Keyword(Keyword),
}

/// Reserved words.
#[derive(Clone, Copy, Debug, PartialEq, Eq, Structural)]
pub enum Keyword {
    Func,   // functions
    If,     // ifs
    Else,   // else
    Return, // return
    Break,  // break
    Struct, // struct definition
    For,    // for loop
    While,  // while loop
    Domain, // domain definition
    Value(ValuedKeyword), // keywords that stand for a value
}

/// Keywords that denote a value and may stand where an identifier stands.
#[derive(Clone, Copy, Debug, PartialEq, Eq, Structural)]
pub enum ValuedKeyword {
    True,         // true (boolean)
    False,        // false (boolean)
    SelfIdentity, // self
}

/// A token with the range of source it was read from.
#[derive(Clone, Debug, PartialEq)]
pub struct Token {
    pub token_type: TokenType,
    pub range: Range,
}


/// Whether two token kinds are the same, strings compared by their text.
pub open spec fn token_type_eq(a: TokenType, b: TokenType) -> bool {
    match a {
        TokenType::Ident(s) => b matches TokenType::Ident(t) && s@ == t@,
        TokenType::String(s) => b matches TokenType::String(t) && s@ == t@,
        TokenType::Comment(s) => b matches TokenType::Comment(t) && s@ == t@,
        TokenType::Number(n) => b matches TokenType::Number(m) && n == m,
        TokenType::Keyword(k) => b matches TokenType::Keyword(l) && k == l,
        _ => a == b,
    }
}

/// Whether two tokens are the same, strings compared by their text.
pub open spec fn token_eq(a: Token, b: Token) -> bool {
    token_type_eq(a.token_type, b.token_type) && a.range == b.range
}

impl TokenType {
    /// Whether two token kinds are the same.
    pub fn same(&self, other: &TokenType) -> (r: bool)
        ensures
            r == token_type_eq(*self, *other),
    {
        match self {
            TokenType::Ident(s) => match other {
                TokenType::Ident(t) => str_eq(s.as_str(), t.as_str()),
                _ => false,
            },
            TokenType::String(s) => match other {
                TokenType::String(t) => str_eq(s.as_str(), t.as_str()),
                _ => false,
            },
            TokenType::Comment(s) => match other {
                TokenType::Comment(t) => str_eq(s.as_str(), t.as_str()),
                _ => false,
            },
            TokenType::Number(n) => match other {
                TokenType::Number(m) => *n == *m,
                _ => false,
            },
            TokenType::Keyword(k) => match other {
                TokenType::Keyword(l) => *k == *l,
                _ => false,
            },
            TokenType::Assign => matches!(other, TokenType::Assign),
            TokenType::Equal => matches!(other, TokenType::Equal),
            TokenType::NotEqual => matches!(other, TokenType::NotEqual),
            TokenType::LTEqual => matches!(other, TokenType::LTEqual),
            TokenType::GTEqual => matches!(other, TokenType::GTEqual),
            TokenType::Or => matches!(other, TokenType::Or),
            TokenType::And => matches!(other, TokenType::And),
            TokenType::Arrow => matches!(other, TokenType::Arrow),
            TokenType::Plus => matches!(other, TokenType::Plus),
            TokenType::Dash => matches!(other, TokenType::Dash),
            TokenType::Asterisk => matches!(other, TokenType::Asterisk),
            TokenType::Slash => matches!(other, TokenType::Slash),
            TokenType::Perc => matches!(other, TokenType::Perc),
            TokenType::Bang => matches!(other, TokenType::Bang),
            TokenType::Comma => matches!(other, TokenType::Comma),
            TokenType::Dot => matches!(other, TokenType::Dot),
            TokenType::Semicolon => matches!(other, TokenType::Semicolon),
            TokenType::Bar => matches!(other, TokenType::Bar),
            TokenType::Ampersand => matches!(other, TokenType::Ampersand),
            TokenType::Colon => matches!(other, TokenType::Colon),
            TokenType::LBrace => matches!(other, TokenType::LBrace),
            TokenType::RBrace => matches!(other, TokenType::RBrace),
            TokenType::LParen => matches!(other, TokenType::LParen),
            TokenType::RParen => matches!(other, TokenType::RParen),
            TokenType::LAngle => matches!(other, TokenType::LAngle),
            TokenType::RAngle => matches!(other, TokenType::RAngle),
            TokenType::LBracket => matches!(other, TokenType::LBracket),
            TokenType::RBracket => matches!(other, TokenType::RBracket),
        }
    }
}

impl Token {
    /// Whether two tokens are the same.
    pub fn same(&self, other: &Token) -> (r: bool)
        ensures
            r == token_eq(*self, *other),
    {
        self.token_type.same(&other.token_type) && self.range == other.range
    }
}

} // verus!
