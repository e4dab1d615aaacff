use vstd::prelude::*;

use super::types::Range;

verus! {

/// An error of the lexer, with the range of source it concerns.
#[derive(Debug, PartialEq, Eq, Structural)]
pub struct LexerError {
    pub range: Range,
    pub source: LexerErrorKind,
}

/// What went wrong while lexing.
#[derive(Debug, PartialEq, Eq, Structural)]
pub enum LexerErrorKind {
    InvalidCharacter,
    UnterminatedString,
    InvalidNumber,
}

impl LexerError {
    /// The message of the error: `Parser error at line:char`.
    pub fn message(&self) -> (s: String)
        ensures
            s@ == "Parser error at "@ + super::types::describe_position(
                self.range.start.line as nat,
                self.range.start.char as nat,
            ),
    {
        let mut s = String::from_str("Parser error at ");
        let p = self.range.start.describe();
        s.append(p.as_str());
        proof {
            reveal_strlit("Parser error at ");
        }
        s
    }
}

impl LexerErrorKind {
    /// The message of the error kind.
    pub fn message(&self) -> (s: &'static str)
        ensures
            s@ == match self {
                LexerErrorKind::InvalidCharacter => "invalid character sir"@,
                LexerErrorKind::UnterminatedString => "unterminated string"@,
                LexerErrorKind::InvalidNumber => "invalid number Sir"@,
            },
    {
        match self {
            LexerErrorKind::InvalidCharacter => "invalid character sir",
            LexerErrorKind::UnterminatedString => "unterminated string",
            LexerErrorKind::InvalidNumber => "invalid number Sir",
        }
    }
}

} // verus!
