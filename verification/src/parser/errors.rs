use vstd::prelude::*;
use std::rc::Rc;

use crate::lexer::types::Token;

verus! {

/// A parser error, with the token at which it was found.
#[derive(Debug, PartialEq)]
pub enum ParserError {
    InvalidToken(Rc<Token>),        // Token is not recognized
    InvalidStatement(Rc<Token>),    // Statement is not recognized
    MissingIdentifier(Rc<Token>),   // Expected an ident
    MissingSemicolon(Rc<Token>),    // Expected a semicolon
    MissingParenthesis(Rc<Token>),  // Expected opening/closing parenthesis
    MissingBracket(Rc<Token>),      // Expected opening/closing bracket
    MissingBrace(Rc<Token>),        // Expected opening/closing brace
    MissingAngleBracket(Rc<Token>), // Expected opening/closing angle bracket
}

/// Why a parsing step produced no node.
#[derive(Debug, PartialEq)]
pub enum ParseStop {
    /// The tokens do not form what was being parsed.
    Error(ParserError),
    /// The step needed a token past the end of the input.
    Exhausted,
}

} // verus!
