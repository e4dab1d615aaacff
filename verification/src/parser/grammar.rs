//! The grammar of Esh as functions from a token sequence and a position to
//! the tree read there and the position after it.
use vstd::prelude::*;
use std::rc::Rc;

use crate::lexer::types::{Keyword, Token, TokenType, ValuedKeyword};
use super::errors::ParserError;
use super::node::Tree;

verus! {

/// The outcome of reading a part of the grammar.
pub enum Parsed {
    /// The tree read and the position after it.
    Done(Tree, nat),
    /// The error found and the position at which reading stopped.
    Failed(ParserError, nat),
    /// Reading needed a token past the end of the input.
    Exhausted,
}

/// A token that is expected at a position.
#[derive(Clone, Copy)]
pub enum Expected {
    IdentLike,
    Semicolon,
    LParen,
    RParen,
    LBrace,
    RBrace,
    LBracket,
    LAngle,
    RAngle,
    Comma,
    Struct,
    Domain,
    Func,
    If,
    While,
}

/// The kind of the token at `p`.
pub open spec fn kind(t: Seq<Rc<Token>>, p: nat) -> TokenType {
    t[p as int].token_type
}

/// Identifiers and value keywords (`true`, `false`, `self`).
pub open spec fn ident_like(k: TokenType) -> bool {
    k is Ident || k matches TokenType::Keyword(Keyword::Value(_))
}

/// Whether a token kind is the one expected.
pub open spec fn fits(k: TokenType, w: Expected) -> bool {
    match w {
        Expected::IdentLike => ident_like(k),
        Expected::Semicolon => k is Semicolon,
        Expected::LParen => k is LParen,
        Expected::RParen => k is RParen,
        Expected::LBrace => k is LBrace,
        Expected::RBrace => k is RBrace,
        Expected::LBracket => k is LBracket,
        Expected::LAngle => k is LAngle,
        Expected::RAngle => k is RAngle,
        Expected::Comma => k is Comma,
        Expected::Struct => k == TokenType::Keyword(Keyword::Struct),
        Expected::Domain => k == TokenType::Keyword(Keyword::Domain),
        Expected::Func => k == TokenType::Keyword(Keyword::Func),
        Expected::If => k == TokenType::Keyword(Keyword::If),
        Expected::While => k == TokenType::Keyword(Keyword::While),
    }
}

/// The error reported at `tok` when another token was expected.
pub open spec fn missing(w: Expected, tok: Rc<Token>) -> ParserError {
    match w {
        Expected::IdentLike => ParserError::MissingIdentifier(tok),
        Expected::Semicolon => ParserError::MissingSemicolon(tok),
        Expected::LParen => ParserError::MissingParenthesis(tok),
        Expected::RParen => ParserError::MissingParenthesis(tok),
        Expected::LBrace => ParserError::MissingBrace(tok),
        Expected::RBrace => ParserError::MissingBrace(tok),
        _ => ParserError::InvalidToken(tok),
    }
}

/// The expected token is at `p`.
pub open spec fn present(t: Seq<Rc<Token>>, p: nat, w: Expected) -> bool {
    p < t.len() && fits(kind(t, p), w)
}

/// The outcome when the expected token is not at `p`.
pub open spec fn absent(t: Seq<Rc<Token>>, p: nat, w: Expected) -> Parsed {
    if p >= t.len() {
        Parsed::Exhausted
    } else {
        Parsed::Failed(missing(w, t[p as int]), p)
    }
}

/// A position reached from `p` that is still inside the input.
pub open spec fn onward(t: Seq<Rc<Token>>, p: nat, q: nat) -> bool {
    p <= q <= t.len()
}

pub open spec fn bx(x: Tree) -> Box<Tree> {
    Box::new(x)
}

/// Statements up to a closing brace or the end of the input.
pub open spec fn statement_block(t: Seq<Rc<Token>>, p: nat) -> Parsed
    decreases t.len() - p, 40int,
{
    block_items(t, p, Seq::empty())
}

/// The statements from `p` on, after the statements `acc`.
pub open spec fn block_items(t: Seq<Rc<Token>>, p: nat, acc: Seq<Tree>) -> Parsed
    decreases t.len() - p, 39int,
{
    if p >= t.len() || kind(t, p) is RBrace {
        Parsed::Done(Tree::Block(acc), p)
    } else {
        match statement(t, p) {
            Parsed::Done(s, q) => if p < q <= t.len() {
                block_items(t, q, acc.push(s))
            } else {
                Parsed::Exhausted
            },
            other => other,
        }
    }
}

/// A statement, ended by a semicolon where it is a simple statement.
pub open spec fn statement(t: Seq<Rc<Token>>, p: nat) -> Parsed
    decreases t.len() - p, 38int,
{
    if p >= t.len() {
        Parsed::Exhausted
    } else {
        let k = kind(t, p);
        if ident_like(k) {
            terminated(t, assignment(t, p))
        } else if k == TokenType::Keyword(Keyword::Struct) {
            struct_statement(t, p)
        } else if k == TokenType::Keyword(Keyword::Domain) {
            domain_statement(t, p)
        } else if k == TokenType::Keyword(Keyword::Func) {
            func(t, p)
        } else if k == TokenType::Keyword(Keyword::If) {
            if_else_block(t, p)
        } else if k == TokenType::Keyword(Keyword::While) {
            while_block(t, p)
        } else if k == TokenType::Keyword(Keyword::Return) {
            terminated(t, return_block(t, p))
        } else if k == TokenType::Keyword(Keyword::Break) {
            if !present(t, p + 1, Expected::Semicolon) {
                absent(t, p + 1, Expected::Semicolon)
            } else {
                Parsed::Done(Tree::Break, p + 2)
            }
        } else {
            Parsed::Failed(ParserError::InvalidStatement(t[p as int]), p)
        }
    }
}

/// The outcome `r` of a simple statement followed by its semicolon: the
/// semicolon is required and passed over whether `r` is a tree or an error.
pub open spec fn terminated(t: Seq<Rc<Token>>, r: Parsed) -> Parsed {
    match r {
        Parsed::Done(s, q) => if !present(t, q, Expected::Semicolon) {
            absent(t, q, Expected::Semicolon)
        } else {
            Parsed::Done(s, q + 1)
        },
        Parsed::Failed(e, q) => if !present(t, q, Expected::Semicolon) {
            absent(t, q, Expected::Semicolon)
        } else {
            Parsed::Failed(e, q + 1)
        },
        Parsed::Exhausted => Parsed::Exhausted,
    }
}

/// `<keyword> name { block }`, for a struct or a domain.
pub open spec fn named_block(t: Seq<Rc<Token>>, p: nat, w: Expected) -> Parsed
    decreases t.len() - p, 36int,
{
    if !present(t, p, w) {
        absent(t, p, w)
    } else if !present(t, p + 1, Expected::IdentLike) {
        absent(t, p + 1, Expected::IdentLike)
    } else {
        match ident(t, p + 1) {
            Parsed::Done(name, q) => if !onward(t, p + 1, q) {
                Parsed::Exhausted
            } else if !present(t, q, Expected::LBrace) {
                absent(t, q, Expected::LBrace)
            } else {
                match statement_block(t, q + 1) {
                    Parsed::Done(body, r) => if !onward(t, q + 1, r) {
                        Parsed::Exhausted
                    } else if !present(t, r, Expected::RBrace) {
                        absent(t, r, Expected::RBrace)
                    } else {
                        Parsed::Done(
                            if w is Struct {
                                Tree::Struct(bx(name), bx(body))
                            } else {
                                Tree::Domain(bx(name), bx(body))
                            },
                            r + 1,
                        )
                    },
                    other => other,
                }
            },
            other => other,
        }
    }
}

/// `struct name { block }`.
pub open spec fn struct_statement(t: Seq<Rc<Token>>, p: nat) -> Parsed
    decreases t.len() - p, 37int,
{
    named_block(t, p, Expected::Struct)
}

/// `domain name { block }`.
pub open spec fn domain_statement(t: Seq<Rc<Token>>, p: nat) -> Parsed
    decreases t.len() - p, 37int,
{
    named_block(t, p, Expected::Domain)
}

/// `func name (params) [-> type] { block }`.
pub open spec fn func(t: Seq<Rc<Token>>, p: nat) -> Parsed
    decreases t.len() - p, 37int,
{
    if !present(t, p, Expected::Func) {
        absent(t, p, Expected::Func)
    } else if !present(t, p + 1, Expected::IdentLike) {
        absent(t, p + 1, Expected::IdentLike)
    } else {
        match ident(t, p + 1) {
            Parsed::Done(name, q) => if !onward(t, p + 1, q) {
                Parsed::Exhausted
            } else if !present(t, q, Expected::LParen) {
                absent(t, q, Expected::LParen)
            } else {
                match tuple(t, q) {
                    Parsed::Done(params, r) => if !onward(t, q, r) {
                        Parsed::Exhausted
                    } else {
                        match return_type(t, r) {
                            Parsed::Done(ret, s) => if !onward(t, r, s) {
                                Parsed::Exhausted
                            } else if !present(t, s, Expected::LBrace) {
                                absent(t, s, Expected::LBrace)
                            } else {
                                match statement_block(t, s + 1) {
                                    Parsed::Done(body, u) => if !onward(t, s + 1, u) {
                                        Parsed::Exhausted
                                    } else if !present(t, u, Expected::RBrace) {
                                        absent(t, u, Expected::RBrace)
                                    } else {
                                        Parsed::Done(Tree::Func(bx(name), bx(params), bx(ret), bx(body)), u + 1)
                                    },
                                    other => other,
                                }
                            },
                            other => other,
                        }
                    },
                    other => other,
                }
            },
            other => other,
        }
    }
}

/// The return type of a function: `-> type`, or nothing.
pub open spec fn return_type(t: Seq<Rc<Token>>, p: nat) -> Parsed
    decreases t.len() - p, 36int,
{
    if p >= t.len() {
        Parsed::Exhausted
    } else if kind(t, p) is Arrow {
        if p + 1 >= t.len() {
            Parsed::Exhausted
        } else if ident_like(kind(t, p + 1)) {
            ident(t, p + 1)
        } else {
            primary(t, p + 1)
        }
    } else {
        Parsed::Done(Tree::Empty, p)
    }
}

/// `if cond { block }`, optionally followed by `else if ...` or `else { block }`.
pub open spec fn if_else_block(t: Seq<Rc<Token>>, p: nat) -> Parsed
    decreases t.len() - p, 37int,
{
    if !present(t, p, Expected::If) {
        absent(t, p, Expected::If)
    } else {
        match if_block(t, p) {
            Parsed::Done(i, q) => if !onward(t, p, q) {
                Parsed::Exhausted
            } else if q >= t.len() || kind(t, q) != TokenType::Keyword(Keyword::Else) {
                Parsed::Done(i, q)
            } else if q + 1 >= t.len() {
                Parsed::Failed(ParserError::MissingBrace(t[q as int]), q + 1)
            } else if kind(t, q + 1) == TokenType::Keyword(Keyword::If) {
                match if_else_block(t, q + 1) {
                    Parsed::Done(e, r) => Parsed::Done(Tree::Else(bx(i), bx(e)), r),
                    other => other,
                }
            } else if kind(t, q + 1) is LBrace {
                match statement_block(t, q + 2) {
                    Parsed::Done(b, r) => if !present(t, r, Expected::RBrace) {
                        absent(t, r, Expected::RBrace)
                    } else {
                        Parsed::Done(Tree::Else(bx(i), bx(b)), r + 1)
                    },
                    other => other,
                }
            } else {
                Parsed::Failed(ParserError::MissingBrace(t[q as int + 1]), q + 1)
            },
            other => other,
        }
    }
}

/// `<keyword> cond { block }`, for an if or a while.
pub open spec fn guarded_block(t: Seq<Rc<Token>>, p: nat, w: Expected) -> Parsed
    decreases t.len() - p, 35int,
{
    if !present(t, p, w) {
        absent(t, p, w)
    } else {
        match logic(t, p + 1) {
            Parsed::Done(cond, q) => if !onward(t, p + 1, q) {
                Parsed::Exhausted
            } else if !present(t, q, Expected::LBrace) {
                absent(t, q, Expected::LBrace)
            } else {
                match statement_block(t, q + 1) {
                    Parsed::Done(body, r) => if !present(t, r, Expected::RBrace) {
                        absent(t, r, Expected::RBrace)
                    } else {
                        Parsed::Done(
                            if w is If {
                                Tree::If(bx(cond), bx(body))
                            } else {
                                Tree::While(bx(cond), bx(body))
                            },
                            r + 1,
                        )
                    },
                    other => other,
                }
            },
            other => other,
        }
    }
}

/// `if cond { block }`.
pub open spec fn if_block(t: Seq<Rc<Token>>, p: nat) -> Parsed
    decreases t.len() - p, 36int,
{
    guarded_block(t, p, Expected::If)
}

/// `while cond { block }`.
pub open spec fn while_block(t: Seq<Rc<Token>>, p: nat) -> Parsed
    decreases t.len() - p, 37int,
{
    guarded_block(t, p, Expected::While)
}

/// A declaration or expression, optionally assigned: `target = expr`.
pub open spec fn assignment(t: Seq<Rc<Token>>, p: nat) -> Parsed
    decreases t.len() - p, 36int,
{
    match declaration(t, p) {
        Parsed::Done(target, q) => if !onward(t, p, q) {
            Parsed::Exhausted
        } else if q >= t.len() || !(kind(t, q) is Assign) {
            Parsed::Done(target, q)
        } else {
            match expression(t, q + 1) {
                Parsed::Done(value, r) => Parsed::Done(Tree::Assignment(bx(target), bx(value)), r),
                other => other,
            }
        },
        other => other,
    }
}

/// `type name`, or else an expression.
pub open spec fn declaration(t: Seq<Rc<Token>>, p: nat) -> Parsed
    decreases t.len() - p, 34int,
{
    if p >= t.len() {
        Parsed::Exhausted
    } else if !ident_like(kind(t, p)) {
        expression(t, p)
    } else {
        match list_call(t, p) {
            Parsed::Done(ty, q) => if !onward(t, p, q) {
                Parsed::Exhausted
            } else if q >= t.len() {
                Parsed::Exhausted
            } else if ident_like(kind(t, q)) {
                match ident(t, q) {
                    Parsed::Done(name, r) => Parsed::Done(Tree::Declaration(bx(ty), bx(name)), r),
                    other => other,
                }
            } else {
                expression(t, p)
            },
            other => other,
        }
    }
}

/// `return [expr]`, without its semicolon.
pub open spec fn return_block(t: Seq<Rc<Token>>, p: nat) -> Parsed
    decreases t.len() - p, 36int,
{
    if p + 1 >= t.len() {
        Parsed::Exhausted
    } else if kind(t, p + 1) is Semicolon {
        Parsed::Done(Tree::Return(bx(Tree::Empty)), p + 1)
    } else {
        match expression(t, p + 1) {
            Parsed::Done(e, q) => Parsed::Done(Tree::Return(bx(e)), q),
            other => other,
        }
    }
}

/// An expression.
pub open spec fn expression(t: Seq<Rc<Token>>, p: nat) -> Parsed
    decreases t.len() - p, 33int,
{
    logic(t, p)
}

/// The binary operators, by precedence level.
#[derive(Clone, Copy)]
pub enum Level {
    Logic,
    Equality,
    Comparison,
    Term,
    Factor,
}

/// The tree `op(l, r)` for the binary operator token `k` of a level.
pub open spec fn binary(k: TokenType, l: Tree, r: Tree) -> Tree {
    match k {
        TokenType::And => Tree::And(bx(l), bx(r)),
        TokenType::Or => Tree::Or(bx(l), bx(r)),
        TokenType::Equal => Tree::Equal(bx(l), bx(r)),
        TokenType::NotEqual => Tree::NotEqual(bx(l), bx(r)),
        TokenType::LAngle => Tree::LessThan(bx(l), bx(r)),
        TokenType::RAngle => Tree::GreaterThan(bx(l), bx(r)),
        TokenType::LTEqual => Tree::LessThanOrEqualTo(bx(l), bx(r)),
        TokenType::GTEqual => Tree::GreaterThanOrEqualTo(bx(l), bx(r)),
        TokenType::Plus => Tree::Sum(bx(l), bx(r)),
        TokenType::Dash => Tree::Difference(bx(l), bx(r)),
        TokenType::Asterisk => Tree::Product(bx(l), bx(r)),
        TokenType::Slash => Tree::Quotient(bx(l), bx(r)),
        _ => Tree::Modulo(bx(l), bx(r)),
    }
}

/// Each operator token builds the tree of its own operation, with the left
/// operand first: `<=` is "less than or equal to", `>=` "greater than or
/// equal to", `<` "less than", `>` "greater than", and so on.
pub proof fn lemma_operator_trees(l: Tree, r: Tree)
    ensures
        binary(TokenType::And, l, r) == Tree::And(Box::new(l), Box::new(r)),
        binary(TokenType::Or, l, r) == Tree::Or(Box::new(l), Box::new(r)),
        binary(TokenType::Equal, l, r) == Tree::Equal(Box::new(l), Box::new(r)),
        binary(TokenType::NotEqual, l, r) == Tree::NotEqual(Box::new(l), Box::new(r)),
        binary(TokenType::LAngle, l, r) == Tree::LessThan(Box::new(l), Box::new(r)),
        binary(TokenType::RAngle, l, r) == Tree::GreaterThan(Box::new(l), Box::new(r)),
        binary(TokenType::LTEqual, l, r) == Tree::LessThanOrEqualTo(Box::new(l), Box::new(r)),
        binary(TokenType::GTEqual, l, r) == Tree::GreaterThanOrEqualTo(Box::new(l), Box::new(r)),
        binary(TokenType::Plus, l, r) == Tree::Sum(Box::new(l), Box::new(r)),
        binary(TokenType::Dash, l, r) == Tree::Difference(Box::new(l), Box::new(r)),
        binary(TokenType::Asterisk, l, r) == Tree::Product(Box::new(l), Box::new(r)),
        binary(TokenType::Slash, l, r) == Tree::Quotient(Box::new(l), Box::new(r)),
        binary(TokenType::Perc, l, r) == Tree::Modulo(Box::new(l), Box::new(r)),
{
}

/// The operator tokens of a level.
pub open spec fn operator_of(lv: Level, k: TokenType) -> bool {
    match lv {
        Level::Logic => k is And || k is Or,
        Level::Equality => k is Equal || k is NotEqual,
        Level::Comparison => k is LAngle || k is RAngle || k is LTEqual || k is GTEqual,
        Level::Term => k is Plus || k is Dash,
        Level::Factor => k is Asterisk || k is Slash || k is Perc,
    }
}

/// Tokens that may start the right operand of `>`.
pub open spec fn starts_greater_operand(k: TokenType) -> bool {
    k is Ident || k is Number || k is Dash || k matches TokenType::Keyword(Keyword::Value(_))
}

/// `a && b`, `a || b`, left to right.
pub open spec fn logic(t: Seq<Rc<Token>>, p: nat) -> Parsed
    decreases t.len() - p, 32int,
{
    match equality(t, p) {
        Parsed::Done(l, q) => if !onward(t, p, q) {
            Parsed::Exhausted
        } else {
            chain(t, q, l, Level::Logic)
        },
        other => other,
    }
}

/// `a == b`, `a != b`, left to right.
pub open spec fn equality(t: Seq<Rc<Token>>, p: nat) -> Parsed
    decreases t.len() - p, 30int,
{
    match comparison(t, p) {
        Parsed::Done(l, q) => if !onward(t, p, q) {
            Parsed::Exhausted
        } else {
            chain(t, q, l, Level::Equality)
        },
        other => other,
    }
}

/// `a < b`, `a > b`, `a <= b`, `a >= b`, left to right.
pub open spec fn comparison(t: Seq<Rc<Token>>, p: nat) -> Parsed
    decreases t.len() - p, 28int,
{
    match term(t, p) {
        Parsed::Done(l, q) => if !onward(t, p, q) {
            Parsed::Exhausted
        } else {
            chain(t, q, l, Level::Comparison)
        },
        other => other,
    }
}

/// `a + b`, `a - b`, left to right.
pub open spec fn term(t: Seq<Rc<Token>>, p: nat) -> Parsed
    decreases t.len() - p, 26int,
{
    match factor(t, p) {
        Parsed::Done(l, q) => if !onward(t, p, q) {
            Parsed::Exhausted
        } else {
            chain(t, q, l, Level::Term)
        },
        other => other,
    }
}

/// `a * b`, `a / b`, `a % b`, left to right.
pub open spec fn factor(t: Seq<Rc<Token>>, p: nat) -> Parsed
    decreases t.len() - p, 24int,
{
    match unary(t, p) {
        Parsed::Done(l, q) => if !onward(t, p, q) {
            Parsed::Exhausted
        } else {
            chain(t, q, l, Level::Factor)
        },
        other => other,
    }
}

/// Where the operations of a level stand among the grammar's parts read at
/// one position: below the level's own part, above its operand's.
pub open spec fn chain_rank(lv: Level) -> int {
    match lv {
        Level::Logic => 31,
        Level::Equality => 29,
        Level::Comparison => 27,
        Level::Term => 25,
        Level::Factor => 23,
    }
}

/// The operand of a level: the next higher level.
pub open spec fn operand(t: Seq<Rc<Token>>, p: nat, lv: Level) -> Parsed
    decreases t.len() - p, 33int,
{
    match lv {
        Level::Logic => equality(t, p),
        Level::Equality => comparison(t, p),
        Level::Comparison => term(t, p),
        Level::Term => factor(t, p),
        Level::Factor => unary(t, p),
    }
}

/// The operations of a level that follow the left operand `acc` at `p`.
pub open spec fn chain(t: Seq<Rc<Token>>, p: nat, acc: Tree, lv: Level) -> Parsed
    decreases t.len() - p, chain_rank(lv),
{
    if p >= t.len() || !operator_of(lv, kind(t, p)) {
        Parsed::Done(acc, p)
    } else if kind(t, p) is RAngle && (p + 1 >= t.len() || !starts_greater_operand(kind(t, p + 1))) {
        if p + 1 >= t.len() {
            Parsed::Exhausted
        } else {
            Parsed::Done(acc, p)
        }
    } else {
        match operand(t, p + 1, lv) {
            Parsed::Done(r, q) => if !onward(t, p + 1, q) {
                Parsed::Exhausted
            } else {
                chain(t, q, binary(kind(t, p), acc, r), lv)
            },
            other => other,
        }
    }
}

/// `!unary`, `-unary`, or a list call.
pub open spec fn unary(t: Seq<Rc<Token>>, p: nat) -> Parsed
    decreases t.len() - p, 22int,
{
    if p >= t.len() {
        Parsed::Exhausted
    } else if kind(t, p) is Bang {
        match unary(t, p + 1) {
            Parsed::Done(u, q) => Parsed::Done(Tree::Not(bx(u)), q),
            other => other,
        }
    } else if kind(t, p) is Dash {
        match unary(t, p + 1) {
            Parsed::Done(u, q) => Parsed::Done(Tree::Negative(bx(u)), q),
            other => other,
        }
    } else {
        list_call(t, p)
    }
}

/// `ident[expr][]...`, or a primary.
pub open spec fn list_call(t: Seq<Rc<Token>>, p: nat) -> Parsed
    decreases t.len() - p, 21int,
{
    if p >= t.len() {
        Parsed::Exhausted
    } else if !(kind(t, p) is Ident) {
        primary(t, p)
    } else {
        match ident(t, p) {
            Parsed::Done(name, q) => if !onward(t, p, q) {
                Parsed::Exhausted
            } else if q >= t.len() || kind(t, q) is Ident {
                Parsed::Done(name, q)
            } else if kind(t, q) is LBracket {
                indexes(t, q, name)
            } else {
                primary(t, p)
            },
            other => other,
        }
    }
}

/// The `[expr]` and `[]` suffixes that follow `acc` at `p`.
pub open spec fn indexes(t: Seq<Rc<Token>>, p: nat, acc: Tree) -> Parsed
    decreases t.len() - p, 20int,
{
    if p >= t.len() || !(kind(t, p) is LBracket) {
        Parsed::Done(acc, p)
    } else if p + 1 >= t.len() {
        Parsed::Exhausted
    } else if kind(t, p + 1) is RBracket {
        indexes(t, p + 2, Tree::ListCall(bx(acc), bx(Tree::Empty)))
    } else {
        match expression(t, p + 1) {
            Parsed::Done(i, q) => if !onward(t, p + 1, q) {
                Parsed::Exhausted
            } else if q >= t.len() {
                Parsed::Exhausted
            } else if kind(t, q) is RBracket {
                indexes(t, q + 1, Tree::ListCall(bx(acc), bx(i)))
            } else {
                Parsed::Failed(ParserError::MissingBracket(t[q as int]), q)
            },
            other => other,
        }
    }
}

/// A literal, a constructed value, a parenthesised expression, a tuple, a
/// list, or a vector.
pub open spec fn primary(t: Seq<Rc<Token>>, p: nat) -> Parsed
    decreases t.len() - p, 19int,
{
    if p >= t.len() {
        Parsed::Exhausted
    } else {
        let k = kind(t, p);
        if k is Ident || k == TokenType::Keyword(Keyword::Value(ValuedKeyword::SelfIdentity)) {
            construct(t, p)
        } else if k is Number || k is String || k matches TokenType::Keyword(Keyword::Value(_)) {
            Parsed::Done(Tree::Primary(*t[p as int]), p + 1)
        } else if k is LParen {
            parenthesised(t, p)
        } else if k is LBracket {
            list(t, p)
        } else if k is LAngle {
            vector(t, p)
        } else {
            Parsed::Failed(ParserError::InvalidToken(t[p as int]), p)
        }
    }
}

/// What starts with `(`: `()`, `(expr)`, or a tuple.
pub open spec fn parenthesised(t: Seq<Rc<Token>>, p: nat) -> Parsed
    decreases t.len() - p, 18int,
{
    if p + 1 >= t.len() {
        Parsed::Exhausted
    } else if kind(t, p + 1) is RParen {
        Parsed::Done(Tree::Empty, p + 2)
    } else {
        let inner = if ident_like(kind(t, p + 1)) {
            declaration(t, p + 1)
        } else {
            expression(t, p + 1)
        };
        match inner {
            Parsed::Done(e, q) => if !onward(t, p + 1, q) {
                Parsed::Exhausted
            } else if q >= t.len() {
                Parsed::Exhausted
            } else if kind(t, q) is RParen {
                Parsed::Done(e, q + 1)
            } else if kind(t, q) is Comma {
                tuple(t, p)
            } else {
                Parsed::Failed(ParserError::MissingParenthesis(t[q as int]), q)
            },
            other => other,
        }
    }
}

/// A function call, optionally followed by a construction body `{ block }`.
pub open spec fn construct(t: Seq<Rc<Token>>, p: nat) -> Parsed
    decreases t.len() - p, 17int,
{
    match function_call(t, p) {
        Parsed::Done(e, q) => if !onward(t, p, q) {
            Parsed::Exhausted
        } else if q >= t.len() {
            Parsed::Exhausted
        } else if kind(t, q) is LBrace {
            match statement_block(t, q + 1) {
                Parsed::Done(b, r) => if !present(t, r, Expected::RBrace) {
                    absent(t, r, Expected::RBrace)
                } else {
                    Parsed::Done(Tree::Construct(bx(e), bx(b)), r + 1)
                },
                other => other,
            }
        } else {
            Parsed::Done(e, q)
        },
        other => other,
    }
}

/// An access chain, optionally called with a tuple.
pub open spec fn function_call(t: Seq<Rc<Token>>, p: nat) -> Parsed
    decreases t.len() - p, 16int,
{
    match access(t, p) {
        Parsed::Done(e, q) => if !onward(t, p, q) {
            Parsed::Exhausted
        } else if q >= t.len() {
            Parsed::Exhausted
        } else if kind(t, q) is LParen {
            match tuple(t, q) {
                Parsed::Done(args, r) => Parsed::Done(Tree::FunctionCall(bx(e), bx(args)), r),
                other => other,
            }
        } else {
            Parsed::Done(e, q)
        },
        other => other,
    }
}

/// `ident.ident.ident...`.
pub open spec fn access(t: Seq<Rc<Token>>, p: nat) -> Parsed
    decreases t.len() - p, 15int,
{
    match ident(t, p) {
        Parsed::Done(e, q) => if !onward(t, p, q) {
            Parsed::Exhausted
        } else {
            fields(t, q, e)
        },
        other => other,
    }
}

/// The `.ident` suffixes that follow `acc` at `p`.
pub open spec fn fields(t: Seq<Rc<Token>>, p: nat, acc: Tree) -> Parsed
    decreases t.len() - p, 14int,
{
    if p >= t.len() || !(kind(t, p) is Dot) {
        Parsed::Done(acc, p)
    } else {
        match ident(t, p + 1) {
            Parsed::Done(f, q) => if !onward(t, p + 1, q) {
                Parsed::Exhausted
            } else {
                fields(t, q, Tree::Access(bx(acc), bx(f)))
            },
            other => other,
        }
    }
}

/// Opening and closing tokens of a delimited sequence.
#[derive(Clone, Copy)]
pub enum Delimiters {
    Parentheses,
    Brackets,
}

pub open spec fn opening(d: Delimiters) -> Expected {
    match d {
        Delimiters::Parentheses => Expected::LParen,
        Delimiters::Brackets => Expected::LBracket,
    }
}

pub open spec fn closes(d: Delimiters, k: TokenType) -> bool {
    match d {
        Delimiters::Parentheses => k is RParen,
        Delimiters::Brackets => k is RBracket,
    }
}

/// The tree of a delimited sequence of items.
pub open spec fn collection(d: Delimiters, items: Seq<Tree>) -> Tree {
    match d {
        Delimiters::Parentheses => Tree::Tuple(items),
        Delimiters::Brackets => Tree::List(items),
    }
}

/// The error for an item not followed by a comma or the closing token.
pub open spec fn unclosed(d: Delimiters, tok: Rc<Token>) -> ParserError {
    match d {
        Delimiters::Parentheses => ParserError::MissingParenthesis(tok),
        Delimiters::Brackets => ParserError::MissingBracket(tok),
    }
}

/// `(item, item, ...)` or `[item, item, ...]`.
pub open spec fn delimited(t: Seq<Rc<Token>>, p: nat, d: Delimiters) -> Parsed
    decreases t.len() - p, 12int,
{
    if !present(t, p, opening(d)) {
        absent(t, p, opening(d))
    } else if p + 1 >= t.len() {
        Parsed::Exhausted
    } else if closes(d, kind(t, p + 1)) {
        Parsed::Done(collection(d, Seq::empty()), p + 2)
    } else {
        items(t, p + 1, Seq::empty(), d)
    }
}

/// The items from `p` on, after the items `acc`.
pub open spec fn items(t: Seq<Rc<Token>>, p: nat, acc: Seq<Tree>, d: Delimiters) -> Parsed
    decreases t.len() - p, 35int,
{
    if p >= t.len() {
        Parsed::Done(collection(d, acc), p)
    } else {
        match declaration(t, p) {
            Parsed::Done(item, q) => if !onward(t, p, q) {
                Parsed::Exhausted
            } else if q >= t.len() {
                Parsed::Exhausted
            } else if kind(t, q) is Comma {
                items(t, q + 1, acc.push(item), d)
            } else if closes(d, kind(t, q)) {
                Parsed::Done(collection(d, acc.push(item)), q + 1)
            } else {
                Parsed::Failed(unclosed(d, t[q as int]), q)
            },
            other => other,
        }
    }
}

/// `(item, item, ...)`.
pub open spec fn tuple(t: Seq<Rc<Token>>, p: nat) -> Parsed
    decreases t.len() - p, 13int,
{
    delimited(t, p, Delimiters::Parentheses)
}

/// `[item, item, ...]`.
pub open spec fn list(t: Seq<Rc<Token>>, p: nat) -> Parsed
    decreases t.len() - p, 13int,
{
    delimited(t, p, Delimiters::Brackets)
}

/// `<x, y, z>` or `<x, y, z, pitch, yaw>`.
pub open spec fn vector(t: Seq<Rc<Token>>, p: nat) -> Parsed
    decreases t.len() - p, 13int,
{
    if !present(t, p, Expected::LAngle) {
        absent(t, p, Expected::LAngle)
    } else {
        match expression(t, p + 1) {
            Parsed::Done(x, q1) => if !onward(t, p + 1, q1) {
                Parsed::Exhausted
            } else if !present(t, q1, Expected::Comma) {
                absent(t, q1, Expected::Comma)
            } else {
                match expression(t, q1 + 1) {
                    Parsed::Done(y, q2) => if !onward(t, q1 + 1, q2) {
                        Parsed::Exhausted
                    } else if !present(t, q2, Expected::Comma) {
                        absent(t, q2, Expected::Comma)
                    } else {
                        match expression(t, q2 + 1) {
                            Parsed::Done(z, q3) => if !onward(t, q2 + 1, q3) {
                                Parsed::Exhausted
                            } else if q3 >= t.len() {
                                Parsed::Exhausted
                            } else if kind(t, q3) is RAngle {
                                Parsed::Done(Tree::Vector(bx(x), bx(y), bx(z)), q3 + 1)
                            } else if !(kind(t, q3) is Comma) {
                                Parsed::Failed(ParserError::MissingAngleBracket(t[q3 as int]), q3)
                            } else {
                                location_rest(t, q3 + 1, x, y, z)
                            },
                            other => other,
                        }
                    },
                    other => other,
                }
            },
            other => other,
        }
    }
}

/// The `pitch, yaw>` that completes a location after `<x, y, z,`.
pub open spec fn location_rest(t: Seq<Rc<Token>>, p: nat, x: Tree, y: Tree, z: Tree) -> Parsed
    decreases t.len() - p, 34int,
{
    match expression(t, p) {
        Parsed::Done(pitch, q4) => if !onward(t, p, q4) {
            Parsed::Exhausted
        } else if !present(t, q4, Expected::Comma) {
            absent(t, q4, Expected::Comma)
        } else {
            match expression(t, q4 + 1) {
                Parsed::Done(yaw, q5) => if !onward(t, q4 + 1, q5) {
                    Parsed::Exhausted
                } else if !present(t, q5, Expected::RAngle) {
                    absent(t, q5, Expected::RAngle)
                } else {
                    Parsed::Done(
                        Tree::Location(bx(x), bx(y), bx(z), bx(pitch), bx(yaw)),
                        q5 + 1,
                    )
                },
                other => other,
            }
        },
        other => other,
    }
}

/// An identifier or a value keyword, as a primary tree.
pub open spec fn ident(t: Seq<Rc<Token>>, p: nat) -> Parsed
    decreases t.len() - p, 1int,
{
    if !present(t, p, Expected::IdentLike) {
        absent(t, p, Expected::IdentLike)
    } else {
        Parsed::Done(Tree::Primary(*t[p as int]), p + 1)
    }
}

} // verus!
