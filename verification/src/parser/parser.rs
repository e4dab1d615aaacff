use vstd::prelude::*;
use std::rc::Rc;

use crate::lexer::types::{Keyword, Token, TokenType, ValuedKeyword};
use super::errors::{ParseStop, ParserError};
use super::grammar::{self, Delimiters, Expected, Level, Parsed};
use super::node::{tree, trees, Node, Tree};

verus! {

broadcast use vstd::slice::axiom_spec_len;

/// Whether the outcome `r`, with the parser left at `at`, is the outcome `s`
/// of the grammar.
pub open spec fn agrees(r: Result<Node, ParseStop>, at: nat, s: Parsed) -> bool {
    match s {
        Parsed::Done(v, q) => (r matches Ok(n) && n@ == v) && at == q,
        Parsed::Failed(e, q) => r == Err::<Node, ParseStop>(ParseStop::Error(e)) && at == q,
        Parsed::Exhausted => r == Err::<Node, ParseStop>(ParseStop::Exhausted),
    }
}

/// A parsing step from `before` to `after` with outcome `r` is the grammar's
/// outcome `s`, and a successful step moves forward within the input.
pub open spec fn stepped<'a>(before: Parser<'a>, after: Parser<'a>, r: Result<Node, ParseStop>, s: Parsed) -> bool {
    &&& after.input() == before.input()
    &&& agrees(r, after.position(), s)
    &&& r is Ok ==> before.position() <= after.position() <= before.input().len()
}

/// A successful step reads at least one token.
pub open spec fn progressed<'a>(before: Parser<'a>, after: Parser<'a>, r: Result<Node, ParseStop>) -> bool {
    r is Ok ==> before.position() < after.position()
}

/// Whether a token kind is the one expected.
fn fits(k: &TokenType, w: Expected) -> (b: bool)
    ensures
        b == grammar::fits(*k, w),
{
    match w {
        Expected::IdentLike => matches!(k, TokenType::Ident(_) | TokenType::Keyword(Keyword::Value(_))),
        Expected::Semicolon => matches!(k, TokenType::Semicolon),
        Expected::LParen => matches!(k, TokenType::LParen),
        Expected::RParen => matches!(k, TokenType::RParen),
        Expected::LBrace => matches!(k, TokenType::LBrace),
        Expected::RBrace => matches!(k, TokenType::RBrace),
        Expected::LBracket => matches!(k, TokenType::LBracket),
        Expected::LAngle => matches!(k, TokenType::LAngle),
        Expected::RAngle => matches!(k, TokenType::RAngle),
        Expected::Comma => matches!(k, TokenType::Comma),
        Expected::Struct => matches!(k, TokenType::Keyword(Keyword::Struct)),
        Expected::Domain => matches!(k, TokenType::Keyword(Keyword::Domain)),
        Expected::Func => matches!(k, TokenType::Keyword(Keyword::Func)),
        Expected::If => matches!(k, TokenType::Keyword(Keyword::If)),
        Expected::While => matches!(k, TokenType::Keyword(Keyword::While)),
    }
}

fn ident_like(k: &TokenType) -> (b: bool)
    ensures
        b == grammar::ident_like(*k),
{
    matches!(k, TokenType::Ident(_) | TokenType::Keyword(Keyword::Value(_)))
}

/// The node `op(l, r)` for the binary operator token kind `k`.
fn binary(k: &TokenType, l: Node, r: Node) -> (n: Node)
    ensures
        n@ == grammar::binary(*k, l@, r@),
{
    let (l, r) = (Rc::new(l), Rc::new(r));
    match k {
        TokenType::And => Node::And(l, r),
        TokenType::Or => Node::Or(l, r),
        TokenType::Equal => Node::Equal(l, r),
        TokenType::NotEqual => Node::NotEqual(l, r),
        TokenType::LAngle => Node::LessThan(l, r),
        TokenType::RAngle => Node::GreaterThan(l, r),
        TokenType::LTEqual => Node::LessThanOrEqualTo(l, r),
        TokenType::GTEqual => Node::GreaterThanOrEqualTo(l, r),
        TokenType::Plus => Node::Sum(l, r),
        TokenType::Dash => Node::Difference(l, r),
        TokenType::Asterisk => Node::Product(l, r),
        TokenType::Slash => Node::Quotient(l, r),
        _ => Node::Modulo(l, r),
    }
}

fn operator_of(lv: Level, k: &TokenType) -> (b: bool)
    ensures
        b == grammar::operator_of(lv, *k),
{
    match lv {
        Level::Logic => matches!(k, TokenType::And | TokenType::Or),
        Level::Equality => matches!(k, TokenType::Equal | TokenType::NotEqual),
        Level::Comparison => matches!(k, TokenType::LAngle | TokenType::RAngle | TokenType::LTEqual | TokenType::GTEqual),
        Level::Term => matches!(k, TokenType::Plus | TokenType::Dash),
        Level::Factor => matches!(k, TokenType::Asterisk | TokenType::Slash | TokenType::Perc),
    }
}

pub proof fn lemma_trees_push(s: Seq<Rc<Node>>, n: Node)
    ensures
        trees(s.push(Rc::new(n))) == trees(s).push(n@),
{
    assert(s.push(Rc::new(n)).drop_last() =~= s);
}

/// A recursive-descent parser over a slice of tokens.
pub struct Parser<'a> {
    tokens: &'a [Rc<Token>],
    current: usize,
}

impl<'a> Parser<'a> {
    #[verifier::type_invariant]
    spec fn position_in_input(&self) -> bool {
        &&& self.current <= self.tokens@.len()
        &&& self.tokens@.len() == self.tokens.len()
    }

    /// The tokens being parsed.
    pub closed spec fn input(&self) -> Seq<Rc<Token>> {
        self.tokens@
    }

    /// The index of the next token to read.
    pub closed spec fn position(&self) -> nat {
        self.current as nat
    }

    /// A parser at the first of `input`.
    pub fn new(input: &'a [Rc<Token>]) -> (p: Self)
        ensures
            p.input() == input@,
            p.position() == 0,
    {
        Self { tokens: input, current: 0 }
    }

    /// Parses the whole input as a block of statements.
    pub fn parse(&mut self) -> (r: Result<Node, ParserError>)
        requires
            !(grammar::statement_block(old(self).input(), old(self).position()) is Exhausted),
        ensures
            stopped(*old(self), *final(self), r, grammar::statement_block(old(self).input(), old(self).position())),
    {
        self.statement_block()
    }

    /// Parses the whole input as a block of statements, telling apart the
    /// inputs that end before the grammar is satisfied
    /// (`ParseStop::Exhausted`), on which [`Parser::parse`] must not be
    /// called.
    pub fn parse_checked(&mut self) -> (r: Result<Node, ParseStop>)
        ensures
            stepped(*old(self), *final(self), r, grammar::statement_block(old(self).input(), old(self).position())),
    {
        self.read_statement_block()
    }

    /// Parses a block of statements, up to a closing brace or the end.
    pub fn statement_block(&mut self) -> (r: Result<Node, ParserError>)
        requires
            !(grammar::statement_block(old(self).input(), old(self).position()) is Exhausted),
        ensures
            stopped(*old(self), *final(self), r, grammar::statement_block(old(self).input(), old(self).position())),
    {
        let r = self.read_statement_block();
        unstop(r)
    }

    /// Parses one statement.
    pub fn statement(&mut self) -> (r: Result<Node, ParserError>)
        requires
            !(grammar::statement(old(self).input(), old(self).position()) is Exhausted),
        ensures
            stopped(*old(self), *final(self), r, grammar::statement(old(self).input(), old(self).position())),
    {
        let r = self.read_statement();
        unstop(r)
    }

    /// Parses one statement, telling apart the inputs that end before the
    /// statement does (`ParseStop::Exhausted`), on which
    /// [`Parser::statement`] must not be called.
    pub fn statement_checked(&mut self) -> (r: Result<Node, ParseStop>)
        ensures
            stepped(*old(self), *final(self), r, grammar::statement(old(self).input(), old(self).position())),
    {
        self.read_statement()
    }

    /// Parses one expression, telling apart the inputs that end before the
    /// expression does (`ParseStop::Exhausted`), on which
    /// [`Parser::expression`] must not be called.
    pub fn expression_checked(&mut self) -> (r: Result<Node, ParseStop>)
        ensures
            stepped(*old(self), *final(self), r, grammar::expression(old(self).input(), old(self).position())),
    {
        self.read_expression()
    }

    /// Parses one expression.
    pub fn expression(&mut self) -> (r: Result<Node, ParserError>)
        requires
            !(grammar::expression(old(self).input(), old(self).position()) is Exhausted),
        ensures
            stopped(*old(self), *final(self), r, grammar::expression(old(self).input(), old(self).position())),
    {
        let r = self.read_expression();
        unstop(r)
    }
}

/// The public outcome of a step whose grammar outcome is not exhaustion: the
/// node, or the error found.
pub open spec fn stopped<'a>(before: Parser<'a>, after: Parser<'a>, r: Result<Node, ParserError>, s: Parsed) -> bool {
    &&& after.input() == before.input()
    &&& match s {
        Parsed::Done(v, q) => (r matches Ok(n) && n@ == v) && after.position() == q,
        Parsed::Failed(e, q) => r == Err::<Node, ParserError>(e) && after.position() == q,
        Parsed::Exhausted => false,
    }
}

fn unstop(r: Result<Node, ParseStop>) -> (u: Result<Node, ParserError>)
    requires
        r != Err::<Node, ParseStop>(ParseStop::Exhausted),
    ensures
        r matches Ok(n) ==> u == Ok::<Node, ParserError>(n),
        r matches Err(ParseStop::Error(e)) ==> u == Err::<Node, ParserError>(e),
{
    match r {
        Ok(n) => Ok(n),
        Err(ParseStop::Error(e)) => Err(e),
        Err(ParseStop::Exhausted) => vstd::pervasive::unreached(),
    }
}

impl<'a> Parser<'a> {
    fn at_end(&self) -> (b: bool)
        ensures
            b == (self.position() >= self.input().len()),
    {
        proof {
            use_type_invariant(self);
        }
        self.current >= self.tokens.len()
    }

    /// The kind of the current token.
    fn kind(&self) -> (k: &TokenType)
        requires
            self.position() < self.input().len(),
        ensures
            *k == grammar::kind(self.input(), self.position()),
    {
        &self.tokens[self.current].token_type
    }

    /// The kind of the token after the current one.
    fn next_kind(&self) -> (k: &TokenType)
        requires
            self.position() + 1 < self.input().len(),
        ensures
            *k == grammar::kind(self.input(), self.position() + 1),
    {
        proof {
            use_type_invariant(self);
        }
        &self.tokens[self.current + 1].token_type
    }

    /// The current token.
    fn token(&self) -> (tok: Rc<Token>)
        requires
            self.position() < self.input().len(),
        ensures
            tok == self.input()[self.position() as int],
    {
        self.tokens[self.current].clone()
    }

    /// Moves past the current token.
    fn advance(&mut self)
        requires
            old(self).position() < old(self).input().len(),
        ensures
            final(self).input() == old(self).input(),
            final(self).position() == old(self).position() + 1,
    {
        proof {
            use_type_invariant(&*self);
        }
        self.current = self.current + 1;
    }

    /// Moves back to an earlier position.
    fn reset(&mut self, to: usize)
        requires
            to <= old(self).input().len(),
        ensures
            final(self).input() == old(self).input(),
            final(self).position() == to,
    {
        self.current = to;
    }

    /// Whether the expected token is the current one.
    fn present(&self, w: Expected) -> (b: bool)
        ensures
            b == grammar::present(self.input(), self.position(), w),
    {
        !self.at_end() && fits(self.kind(), w)
    }

    /// The outcome when the expected token is not the current one.
    fn absent(&self, w: Expected) -> (r: Result<Node, ParseStop>)
        ensures
            agrees(r, self.position(), grammar::absent(self.input(), self.position(), w)),
    {
        if self.at_end() {
            Err(ParseStop::Exhausted)
        } else {
            let tok = self.token();
            Err(ParseStop::Error(match w {
                Expected::IdentLike => ParserError::MissingIdentifier(tok),
                Expected::Semicolon => ParserError::MissingSemicolon(tok),
                Expected::LParen => ParserError::MissingParenthesis(tok),
                Expected::RParen => ParserError::MissingParenthesis(tok),
                Expected::LBrace => ParserError::MissingBrace(tok),
                Expected::RBrace => ParserError::MissingBrace(tok),
                _ => ParserError::InvalidToken(tok),
            }))
        }
    }

    fn read_statement_block(&mut self) -> (r: Result<Node, ParseStop>)
        ensures
            stepped(*old(self), *final(self), r, grammar::statement_block(old(self).input(), old(self).position())),
        decreases old(self).input().len() - old(self).position(), 40int,
    {
        let ghost t = self.input();
        let ghost p0 = self.position();
        let mut block: Vec<Rc<Node>> = Vec::new();
        proof {
            use_type_invariant(&*self);
            assert(trees(block@) =~= Seq::<Tree>::empty());
        }
        loop
            invariant_except_break
                self.input() == t,
                t == old(self).input(),
                p0 == old(self).position(),
                p0 <= self.position() <= t.len(),
                grammar::statement_block(t, p0) == grammar::block_items(t, self.position(), trees(block@)),
            ensures
                self.input() == t,
                t == old(self).input(),
                p0 == old(self).position(),
                p0 <= self.position() <= t.len(),
                grammar::statement_block(t, p0) == Parsed::Done(Tree::Block(trees(block@)), self.position()),
            decreases t.len() - self.position(),
        {
            proof {
                use_type_invariant(&*self);
            }
            if self.at_end() {
                break;
            }
            if matches!(self.kind(), TokenType::RBrace) {
                break;
            }
            let s = self.read_statement()?;
            proof {
                lemma_trees_push(block@, s);
            }
            block.push(Rc::new(s));
        }
        Ok(Node::Block(block))
    }

    fn read_statement(&mut self) -> (r: Result<Node, ParseStop>)
        ensures
            stepped(*old(self), *final(self), r, grammar::statement(old(self).input(), old(self).position())),
            progressed(*old(self), *final(self), r),
        decreases old(self).input().len() - old(self).position(), 38int,
    {
        proof {
            use_type_invariant(&*self);
        }
        if self.at_end() {
            return Err(ParseStop::Exhausted);
        }
        let k = self.kind();
        if ident_like(k) {
            let ghost t = self.input();
            let ghost p = self.position();
            let r = self.read_assignment();
            self.terminate(r, Ghost(grammar::assignment(t, p)))
        } else if matches!(k, TokenType::Keyword(Keyword::Struct)) {
            self.read_struct_statement()
        } else if matches!(k, TokenType::Keyword(Keyword::Domain)) {
            self.read_domain_statement()
        } else if matches!(k, TokenType::Keyword(Keyword::Func)) {
            self.read_func()
        } else if matches!(k, TokenType::Keyword(Keyword::If)) {
            self.read_if_else_block()
        } else if matches!(k, TokenType::Keyword(Keyword::While)) {
            self.read_while_block()
        } else if matches!(k, TokenType::Keyword(Keyword::Return)) {
            let ghost t = self.input();
            let ghost p = self.position();
            let r = self.read_return_block();
            self.terminate(r, Ghost(grammar::return_block(t, p)))
        } else if matches!(k, TokenType::Keyword(Keyword::Break)) {
            self.advance();
            if !self.present(Expected::Semicolon) {
                return self.absent(Expected::Semicolon);
            }
            self.advance();
            Ok(Node::Break)
        } else {
            Err(ParseStop::Error(ParserError::InvalidStatement(self.token())))
        }
    }

    /// Requires the semicolon after a simple statement with outcome `r`,
    /// and passes over it.
    fn terminate(&mut self, r: Result<Node, ParseStop>, Ghost(s): Ghost<Parsed>) -> (out: Result<Node, ParseStop>)
        requires
            agrees(r, old(self).position(), s),
        ensures
            final(self).input() == old(self).input(),
            agrees(out, final(self).position(), grammar::terminated(old(self).input(), s)),
            out is Ok ==> final(self).position() == old(self).position() + 1,
    {
        if matches!(r, Err(ParseStop::Exhausted)) {
            return r;
        }
        if !self.present(Expected::Semicolon) {
            return self.absent(Expected::Semicolon);
        }
        self.advance();
        r
    }

    fn read_named_block(&mut self, w: Expected) -> (r: Result<Node, ParseStop>)
        requires
            w is Struct || w is Domain,
        ensures
            stepped(*old(self), *final(self), r, grammar::named_block(old(self).input(), old(self).position(), w)),
            progressed(*old(self), *final(self), r),
        decreases old(self).input().len() - old(self).position(), 36int,
    {
        if !self.present(w) {
            return self.absent(w);
        }
        self.advance();
        if !self.present(Expected::IdentLike) {
            return self.absent(Expected::IdentLike);
        }
        let name = self.read_ident()?;
        if !self.present(Expected::LBrace) {
            return self.absent(Expected::LBrace);
        }
        self.advance();
        let body = self.read_statement_block()?;
        if !self.present(Expected::RBrace) {
            return self.absent(Expected::RBrace);
        }
        self.advance();
        Ok(
            if matches!(w, Expected::Struct) {
                Node::Struct(Rc::new(name), Rc::new(body))
            } else {
                Node::Domain(Rc::new(name), Rc::new(body))
            },
        )
    }

    fn read_struct_statement(&mut self) -> (r: Result<Node, ParseStop>)
        ensures
            stepped(*old(self), *final(self), r, grammar::struct_statement(old(self).input(), old(self).position())),
            progressed(*old(self), *final(self), r),
        decreases old(self).input().len() - old(self).position(), 37int,
    {
        self.read_named_block(Expected::Struct)
    }

    fn read_domain_statement(&mut self) -> (r: Result<Node, ParseStop>)
        ensures
            stepped(*old(self), *final(self), r, grammar::domain_statement(old(self).input(), old(self).position())),
            progressed(*old(self), *final(self), r),
        decreases old(self).input().len() - old(self).position(), 37int,
    {
        self.read_named_block(Expected::Domain)
    }

    fn read_if_block(&mut self) -> (r: Result<Node, ParseStop>)
        ensures
            stepped(*old(self), *final(self), r, grammar::if_block(old(self).input(), old(self).position())),
            progressed(*old(self), *final(self), r),
        decreases old(self).input().len() - old(self).position(), 36int,
    {
        self.read_guarded_block(Expected::If)
    }

    fn read_while_block(&mut self) -> (r: Result<Node, ParseStop>)
        ensures
            stepped(*old(self), *final(self), r, grammar::while_block(old(self).input(), old(self).position())),
            progressed(*old(self), *final(self), r),
        decreases old(self).input().len() - old(self).position(), 37int,
    {
        self.read_guarded_block(Expected::While)
    }

    fn read_tuple(&mut self) -> (r: Result<Node, ParseStop>)
        ensures
            stepped(*old(self), *final(self), r, grammar::tuple(old(self).input(), old(self).position())),
            progressed(*old(self), *final(self), r),
        decreases old(self).input().len() - old(self).position(), 13int,
    {
        self.read_delimited(Delimiters::Parentheses)
    }

    fn read_list(&mut self) -> (r: Result<Node, ParseStop>)
        ensures
            stepped(*old(self), *final(self), r, grammar::list(old(self).input(), old(self).position())),
            progressed(*old(self), *final(self), r),
        decreases old(self).input().len() - old(self).position(), 13int,
    {
        self.read_delimited(Delimiters::Brackets)
    }

    fn read_func(&mut self) -> (r: Result<Node, ParseStop>)
        ensures
            stepped(*old(self), *final(self), r, grammar::func(old(self).input(), old(self).position())),
            progressed(*old(self), *final(self), r),
        decreases old(self).input().len() - old(self).position(), 37int,
    {
        if !self.present(Expected::Func) {
            return self.absent(Expected::Func);
        }
        self.advance();
        if !self.present(Expected::IdentLike) {
            return self.absent(Expected::IdentLike);
        }
        let name = self.read_ident()?;
        if !self.present(Expected::LParen) {
            return self.absent(Expected::LParen);
        }
        let params = self.read_tuple()?;
        let ret = self.read_return_type()?;
        if !self.present(Expected::LBrace) {
            return self.absent(Expected::LBrace);
        }
        self.advance();
        let body = self.read_statement_block()?;
        if !self.present(Expected::RBrace) {
            return self.absent(Expected::RBrace);
        }
        self.advance();
        Ok(Node::Func(Rc::new(name), Rc::new(params), Rc::new(ret), Rc::new(body)))
    }

    fn read_return_type(&mut self) -> (r: Result<Node, ParseStop>)
        ensures
            stepped(*old(self), *final(self), r, grammar::return_type(old(self).input(), old(self).position())),
        decreases old(self).input().len() - old(self).position(), 36int,
    {
        if self.at_end() {
            return Err(ParseStop::Exhausted);
        }
        if matches!(self.kind(), TokenType::Arrow) {
            self.advance();
            if self.at_end() {
                return Err(ParseStop::Exhausted);
            }
            if ident_like(self.kind()) {
                self.read_ident()
            } else {
                self.read_primary()
            }
        } else {
            Ok(Node::Empty)
        }
    }

    fn read_if_else_block(&mut self) -> (r: Result<Node, ParseStop>)
        ensures
            stepped(*old(self), *final(self), r, grammar::if_else_block(old(self).input(), old(self).position())),
            progressed(*old(self), *final(self), r),
        decreases old(self).input().len() - old(self).position(), 37int,
    {
        if !self.present(Expected::If) {
            return self.absent(Expected::If);
        }
        let i = self.read_if_block()?;
        if self.at_end() || !matches!(self.kind(), TokenType::Keyword(Keyword::Else)) {
            return Ok(i);
        }
        let else_token = self.token();
        self.advance();
        if self.at_end() {
            return Err(ParseStop::Error(ParserError::MissingBrace(else_token)));
        }
        if matches!(self.kind(), TokenType::Keyword(Keyword::If)) {
            let e = self.read_if_else_block()?;
            Ok(Node::Else(Rc::new(i), Rc::new(e)))
        } else if matches!(self.kind(), TokenType::LBrace) {
            self.advance();
            let b = self.read_statement_block()?;
            if !self.present(Expected::RBrace) {
                return self.absent(Expected::RBrace);
            }
            self.advance();
            Ok(Node::Else(Rc::new(i), Rc::new(b)))
        } else {
            Err(ParseStop::Error(ParserError::MissingBrace(self.token())))
        }
    }

    fn read_guarded_block(&mut self, w: Expected) -> (r: Result<Node, ParseStop>)
        requires
            w is If || w is While,
        ensures
            stepped(*old(self), *final(self), r, grammar::guarded_block(old(self).input(), old(self).position(), w)),
            progressed(*old(self), *final(self), r),
        decreases old(self).input().len() - old(self).position(), 35int,
    {
        if !self.present(w) {
            return self.absent(w);
        }
        self.advance();
        let cond = self.read_chain_level(Level::Logic)?;
        if !self.present(Expected::LBrace) {
            return self.absent(Expected::LBrace);
        }
        self.advance();
        let body = self.read_statement_block()?;
        if !self.present(Expected::RBrace) {
            return self.absent(Expected::RBrace);
        }
        self.advance();
        Ok(
            if matches!(w, Expected::If) {
                Node::If(Rc::new(cond), Rc::new(body))
            } else {
                Node::While(Rc::new(cond), Rc::new(body))
            },
        )
    }

    fn read_assignment(&mut self) -> (r: Result<Node, ParseStop>)
        ensures
            stepped(*old(self), *final(self), r, grammar::assignment(old(self).input(), old(self).position())),
            progressed(*old(self), *final(self), r),
        decreases old(self).input().len() - old(self).position(), 36int,
    {
        let target = self.read_declaration()?;
        if self.at_end() || !matches!(self.kind(), TokenType::Assign) {
            return Ok(target);
        }
        self.advance();
        let value = self.read_expression()?;
        Ok(Node::Assignment(Rc::new(target), Rc::new(value)))
    }

    fn read_declaration(&mut self) -> (r: Result<Node, ParseStop>)
        ensures
            stepped(*old(self), *final(self), r, grammar::declaration(old(self).input(), old(self).position())),
            progressed(*old(self), *final(self), r),
        decreases old(self).input().len() - old(self).position(), 34int,
    {
        proof {
            use_type_invariant(&*self);
        }
        let start = self.current;
        if self.at_end() {
            return Err(ParseStop::Exhausted);
        }
        if !ident_like(self.kind()) {
            return self.read_expression();
        }
        let ty = self.read_list_call()?;
        if self.at_end() {
            return Err(ParseStop::Exhausted);
        }
        if ident_like(self.kind()) {
            let name = self.read_ident()?;
            Ok(Node::Declaration(Rc::new(ty), Rc::new(name)))
        } else {
            self.reset(start);
            self.read_expression()
        }
    }

    #[verifier::rlimit(40)]
    fn read_return_block(&mut self) -> (r: Result<Node, ParseStop>)
        ensures
            stepped(*old(self), *final(self), r, grammar::return_block(old(self).input(), old(self).position())),
            progressed(*old(self), *final(self), r),
        decreases old(self).input().len() - old(self).position(), 36int,
    {
        if self.at_end() {
            return Err(ParseStop::Exhausted);
        }
        self.advance();
        if self.at_end() {
            return Err(ParseStop::Exhausted);
        }
        if matches!(self.kind(), TokenType::Semicolon) {
            let n = Node::Return(Rc::new(Node::Empty));
            assert(n@ == Tree::Return(grammar::bx(Tree::Empty)));
            return Ok(n);
        }
        let e = self.read_expression()?;
        let n = Node::Return(Rc::new(e));
        assert(n@ == Tree::Return(grammar::bx(e@)));
        Ok(n)
    }

    fn read_expression(&mut self) -> (r: Result<Node, ParseStop>)
        ensures
            stepped(*old(self), *final(self), r, grammar::expression(old(self).input(), old(self).position())),
            progressed(*old(self), *final(self), r),
        decreases old(self).input().len() - old(self).position(), 33int,
    {
        self.read_chain_level(Level::Logic)
    }

    /// A level of binary operators: its operand, then its operations.
    fn read_chain_level(&mut self, lv: Level) -> (r: Result<Node, ParseStop>)
        ensures
            stepped(*old(self), *final(self), r, level(old(self).input(), old(self).position(), lv)),
            progressed(*old(self), *final(self), r),
        decreases old(self).input().len() - old(self).position(), chain_rank(lv) + 1,
    {
        let first = self.read_operand_of(lv)?;
        self.read_chain(first, lv)
    }

    /// The operand of the operations of a level, at the current position.
    fn read_operand_of(&mut self, lv: Level) -> (r: Result<Node, ParseStop>)
        ensures
            stepped(*old(self), *final(self), r, grammar::operand(old(self).input(), old(self).position(), lv)),
            progressed(*old(self), *final(self), r),
        decreases old(self).input().len() - old(self).position(), chain_rank(lv),
    {
        match lv {
            Level::Logic => self.read_chain_level(Level::Equality),
            Level::Equality => self.read_chain_level(Level::Comparison),
            Level::Comparison => self.read_chain_level(Level::Term),
            Level::Term => self.read_chain_level(Level::Factor),
            Level::Factor => self.read_unary(),
        }
    }

    fn read_chain(&mut self, acc: Node, lv: Level) -> (r: Result<Node, ParseStop>)
        ensures
            stepped(*old(self), *final(self), r, grammar::chain(old(self).input(), old(self).position(), acc@, lv)),
        decreases old(self).input().len() - old(self).position(), grammar::chain_rank(lv),
    {
        let ghost t = self.input();
        let ghost p0 = self.position();
        let ghost acc0 = acc@;
        let mut tree = acc;
        proof {
            use_type_invariant(&*self);
        }
        loop
            invariant_except_break
                self.input() == t,
                t == old(self).input(),
                p0 == old(self).position(),
                acc0 == acc@,
                p0 <= self.position() <= t.len(),
                grammar::chain(t, p0, acc0, lv) == grammar::chain(t, self.position(), tree@, lv),
            ensures
                self.input() == t,
                t == old(self).input(),
                p0 == old(self).position(),
                acc0 == acc@,
                p0 <= self.position() <= t.len(),
                grammar::chain(t, p0, acc0, lv) == Parsed::Done(tree@, self.position()),
            decreases t.len() - self.position(),
        {
            proof {
                use_type_invariant(&*self);
            }
            if self.at_end() || !operator_of(lv, self.kind()) {
                break;
            }
            let op = self.token();
            if matches!(op.token_type, TokenType::RAngle) {
                proof {
                    use_type_invariant(&*self);
                }
                if self.current + 1 >= self.tokens.len() {
                    return Err(ParseStop::Exhausted);
                }
                if !matches!(
                    self.next_kind(),
                    TokenType::Ident(_) | TokenType::Number(_) | TokenType::Dash | TokenType::Keyword(Keyword::Value(_))
                ) {
                    break;
                }
            }
            self.advance();
            let r = self.read_operand_of(lv)?;
            tree = binary(&op.token_type, tree, r);
        }
        Ok(tree)
    }

    fn read_unary(&mut self) -> (r: Result<Node, ParseStop>)
        ensures
            stepped(*old(self), *final(self), r, grammar::unary(old(self).input(), old(self).position())),
            progressed(*old(self), *final(self), r),
        decreases old(self).input().len() - old(self).position(), 22int,
    {
        if self.at_end() {
            return Err(ParseStop::Exhausted);
        }
        if matches!(self.kind(), TokenType::Bang) {
            self.advance();
            let u = self.read_unary()?;
            Ok(Node::Not(Rc::new(u)))
        } else if matches!(self.kind(), TokenType::Dash) {
            self.advance();
            let u = self.read_unary()?;
            Ok(Node::Negative(Rc::new(u)))
        } else {
            self.read_list_call()
        }
    }

    fn read_list_call(&mut self) -> (r: Result<Node, ParseStop>)
        ensures
            stepped(*old(self), *final(self), r, grammar::list_call(old(self).input(), old(self).position())),
            progressed(*old(self), *final(self), r),
        decreases old(self).input().len() - old(self).position(), 21int,
    {
        proof {
            use_type_invariant(&*self);
        }
        if self.at_end() {
            return Err(ParseStop::Exhausted);
        }
        if !matches!(self.kind(), TokenType::Ident(_)) {
            return self.read_primary();
        }
        let start = self.current;
        let name = self.read_ident()?;
        if self.at_end() || matches!(self.kind(), TokenType::Ident(_)) {
            return Ok(name);
        }
        if !matches!(self.kind(), TokenType::LBracket) {
            self.reset(start);
            return self.read_primary();
        }
        self.read_indexes(name)
    }

    fn read_indexes(&mut self, acc: Node) -> (r: Result<Node, ParseStop>)
        ensures
            stepped(*old(self), *final(self), r, grammar::indexes(old(self).input(), old(self).position(), acc@)),
        decreases old(self).input().len() - old(self).position(), 20int,
    {
        let ghost t = self.input();
        let ghost p0 = self.position();
        let ghost acc0 = acc@;
        let mut tree = acc;
        proof {
            use_type_invariant(&*self);
        }
        loop
            invariant_except_break
                self.input() == t,
                t == old(self).input(),
                p0 == old(self).position(),
                acc0 == acc@,
                p0 <= self.position() <= t.len(),
                grammar::indexes(t, p0, acc0) == grammar::indexes(t, self.position(), tree@),
            ensures
                self.input() == t,
                t == old(self).input(),
                p0 == old(self).position(),
                acc0 == acc@,
                p0 <= self.position() <= t.len(),
                grammar::indexes(t, p0, acc0) == Parsed::Done(tree@, self.position()),
            decreases t.len() - self.position(),
        {
            proof {
                use_type_invariant(&*self);
            }
            if self.at_end() || !matches!(self.kind(), TokenType::LBracket) {
                break;
            }
            self.advance();
            if self.at_end() {
                return Err(ParseStop::Exhausted);
            }
            if matches!(self.kind(), TokenType::RBracket) {
                tree = Node::ListCall(Rc::new(tree), Rc::new(Node::Empty));
                self.advance();
            } else {
                let i = self.read_expression()?;
                if self.at_end() {
                    return Err(ParseStop::Exhausted);
                }
                if !matches!(self.kind(), TokenType::RBracket) {
                    return Err(ParseStop::Error(ParserError::MissingBracket(self.token())));
                }
                tree = Node::ListCall(Rc::new(tree), Rc::new(i));
                self.advance();
            }
        }
        Ok(tree)
    }

    fn read_primary(&mut self) -> (r: Result<Node, ParseStop>)
        ensures
            stepped(*old(self), *final(self), r, grammar::primary(old(self).input(), old(self).position())),
            progressed(*old(self), *final(self), r),
        decreases old(self).input().len() - old(self).position(), 19int,
    {
        if self.at_end() {
            return Err(ParseStop::Exhausted);
        }
        let k = self.kind();
        if matches!(k, TokenType::Ident(_) | TokenType::Keyword(Keyword::Value(ValuedKeyword::SelfIdentity))) {
            self.read_construct()
        } else if matches!(k, TokenType::Number(_) | TokenType::String(_) | TokenType::Keyword(Keyword::Value(_))) {
            let tok = self.token();
            self.advance();
            Ok(Node::Primary(tok))
        } else if matches!(k, TokenType::LParen) {
            self.read_parenthesised()
        } else if matches!(k, TokenType::LBracket) {
            self.read_list()
        } else if matches!(k, TokenType::LAngle) {
            self.read_vector()
        } else {
            Err(ParseStop::Error(ParserError::InvalidToken(self.token())))
        }
    }

    fn read_parenthesised(&mut self) -> (r: Result<Node, ParseStop>)
        requires
            old(self).position() < old(self).input().len(),
        ensures
            stepped(*old(self), *final(self), r, grammar::parenthesised(old(self).input(), old(self).position())),
            progressed(*old(self), *final(self), r),
        decreases old(self).input().len() - old(self).position(), 18int,
    {
        let start = self.current;
        self.advance();
        if self.at_end() {
            return Err(ParseStop::Exhausted);
        }
        if matches!(self.kind(), TokenType::RParen) {
            self.advance();
            return Ok(Node::Empty);
        }
        let e = if ident_like(self.kind()) {
            self.read_declaration()?
        } else {
            self.read_expression()?
        };
        if self.at_end() {
            return Err(ParseStop::Exhausted);
        }
        if matches!(self.kind(), TokenType::RParen) {
            self.advance();
            Ok(e)
        } else if matches!(self.kind(), TokenType::Comma) {
            self.reset(start);
            self.read_tuple()
        } else {
            Err(ParseStop::Error(ParserError::MissingParenthesis(self.token())))
        }
    }

    fn read_construct(&mut self) -> (r: Result<Node, ParseStop>)
        ensures
            stepped(*old(self), *final(self), r, grammar::construct(old(self).input(), old(self).position())),
            progressed(*old(self), *final(self), r),
        decreases old(self).input().len() - old(self).position(), 17int,
    {
        let e = self.read_function_call()?;
        if self.at_end() {
            return Err(ParseStop::Exhausted);
        }
        if !matches!(self.kind(), TokenType::LBrace) {
            return Ok(e);
        }
        self.advance();
        let b = self.read_statement_block()?;
        if !self.present(Expected::RBrace) {
            return self.absent(Expected::RBrace);
        }
        self.advance();
        Ok(Node::Construct(Rc::new(e), Rc::new(b)))
    }

    fn read_function_call(&mut self) -> (r: Result<Node, ParseStop>)
        ensures
            stepped(*old(self), *final(self), r, grammar::function_call(old(self).input(), old(self).position())),
            progressed(*old(self), *final(self), r),
        decreases old(self).input().len() - old(self).position(), 16int,
    {
        let e = self.read_access()?;
        if self.at_end() {
            return Err(ParseStop::Exhausted);
        }
        if !matches!(self.kind(), TokenType::LParen) {
            return Ok(e);
        }
        let args = self.read_tuple()?;
        Ok(Node::FunctionCall(Rc::new(e), Rc::new(args)))
    }

    fn read_access(&mut self) -> (r: Result<Node, ParseStop>)
        ensures
            stepped(*old(self), *final(self), r, grammar::access(old(self).input(), old(self).position())),
            progressed(*old(self), *final(self), r),
        decreases old(self).input().len() - old(self).position(), 15int,
    {
        let e = self.read_ident()?;
        self.read_fields(e)
    }

    fn read_fields(&mut self, acc: Node) -> (r: Result<Node, ParseStop>)
        ensures
            stepped(*old(self), *final(self), r, grammar::fields(old(self).input(), old(self).position(), acc@)),
        decreases old(self).input().len() - old(self).position(), 14int,
    {
        let ghost t = self.input();
        let ghost p0 = self.position();
        let ghost acc0 = acc@;
        let mut tree = acc;
        proof {
            use_type_invariant(&*self);
        }
        loop
            invariant_except_break
                self.input() == t,
                t == old(self).input(),
                p0 == old(self).position(),
                acc0 == acc@,
                p0 <= self.position() <= t.len(),
                grammar::fields(t, p0, acc0) == grammar::fields(t, self.position(), tree@),
            ensures
                self.input() == t,
                t == old(self).input(),
                p0 == old(self).position(),
                acc0 == acc@,
                p0 <= self.position() <= t.len(),
                grammar::fields(t, p0, acc0) == Parsed::Done(tree@, self.position()),
            decreases t.len() - self.position(),
        {
            proof {
                use_type_invariant(&*self);
            }
            if self.at_end() || !matches!(self.kind(), TokenType::Dot) {
                break;
            }
            self.advance();
            let f = self.read_ident()?;
            tree = Node::Access(Rc::new(tree), Rc::new(f));
        }
        Ok(tree)
    }

    fn read_delimited(&mut self, d: Delimiters) -> (r: Result<Node, ParseStop>)
        ensures
            stepped(*old(self), *final(self), r, grammar::delimited(old(self).input(), old(self).position(), d)),
            progressed(*old(self), *final(self), r),
        decreases old(self).input().len() - old(self).position(), 12int,
    {
        let open = match d {
            Delimiters::Parentheses => Expected::LParen,
            Delimiters::Brackets => Expected::LBracket,
        };
        if !self.present(open) {
            return self.absent(open);
        }
        self.advance();
        if self.at_end() {
            return Err(ParseStop::Exhausted);
        }
        if closes(d, self.kind()) {
            self.advance();
            let v: Vec<Rc<Node>> = Vec::new();
            proof {
                assert(trees(v@) =~= Seq::<Tree>::empty());
            }
            return Ok(collection(d, v));
        }
        self.read_items(d)
    }

    fn read_items(&mut self, d: Delimiters) -> (r: Result<Node, ParseStop>)
        ensures
            stepped(*old(self), *final(self), r, grammar::items(old(self).input(), old(self).position(), Seq::empty(), d)),
        decreases old(self).input().len() - old(self).position(), 35int,
    {
        let ghost t = self.input();
        let ghost p0 = self.position();
        let mut block: Vec<Rc<Node>> = Vec::new();
        proof {
            use_type_invariant(&*self);
            assert(trees(block@) =~= Seq::<Tree>::empty());
        }
        loop
            invariant_except_break
                self.input() == t,
                t == old(self).input(),
                p0 == old(self).position(),
                p0 <= self.position() <= t.len(),
                grammar::items(t, p0, Seq::empty(), d) == grammar::items(t, self.position(), trees(block@), d),
            ensures
                self.input() == t,
                t == old(self).input(),
                p0 == old(self).position(),
                p0 <= self.position() <= t.len(),
                grammar::items(t, p0, Seq::empty(), d) == Parsed::Done(grammar::collection(d, trees(block@)), self.position()),
            decreases t.len() - self.position(),
        {
            proof {
                use_type_invariant(&*self);
            }
            if self.at_end() {
                break;
            }
            let item = self.read_declaration()?;
            if self.at_end() {
                return Err(ParseStop::Exhausted);
            }
            proof {
                lemma_trees_push(block@, item);
            }
            if matches!(self.kind(), TokenType::Comma) {
                block.push(Rc::new(item));
                self.advance();
            } else if closes(d, self.kind()) {
                block.push(Rc::new(item));
                self.advance();
                break;
            } else {
                let tok = self.token();
                return Err(ParseStop::Error(
                    match d {
                        Delimiters::Parentheses => ParserError::MissingParenthesis(tok),
                        Delimiters::Brackets => ParserError::MissingBracket(tok),
                    },
                ));
            }
        }
        Ok(collection(d, block))
    }

    fn read_vector(&mut self) -> (r: Result<Node, ParseStop>)
        ensures
            stepped(*old(self), *final(self), r, grammar::vector(old(self).input(), old(self).position())),
            progressed(*old(self), *final(self), r),
        decreases old(self).input().len() - old(self).position(), 13int,
    {
        if !self.present(Expected::LAngle) {
            return self.absent(Expected::LAngle);
        }
        self.advance();
        let x = self.read_expression()?;
        if !self.present(Expected::Comma) {
            return self.absent(Expected::Comma);
        }
        self.advance();
        let y = self.read_expression()?;
        if !self.present(Expected::Comma) {
            return self.absent(Expected::Comma);
        }
        self.advance();
        let z = self.read_expression()?;
        if self.at_end() {
            return Err(ParseStop::Exhausted);
        }
        if matches!(self.kind(), TokenType::RAngle) {
            self.advance();
            return Ok(Node::Vector(Rc::new(x), Rc::new(y), Rc::new(z)));
        }
        if !matches!(self.kind(), TokenType::Comma) {
            return Err(ParseStop::Error(ParserError::MissingAngleBracket(self.token())));
        }
        self.advance();
        self.read_location_rest(x, y, z)
    }

    fn read_location_rest(&mut self, x: Node, y: Node, z: Node) -> (r: Result<Node, ParseStop>)
        ensures
            stepped(*old(self), *final(self), r, grammar::location_rest(old(self).input(), old(self).position(), x@, y@, z@)),
            progressed(*old(self), *final(self), r),
        decreases old(self).input().len() - old(self).position(), 34int,
    {
        let pitch = self.read_expression()?;
        if !self.present(Expected::Comma) {
            return self.absent(Expected::Comma);
        }
        self.advance();
        let yaw = self.read_expression()?;
        if !self.present(Expected::RAngle) {
            return self.absent(Expected::RAngle);
        }
        self.advance();
        Ok(Node::Location(Rc::new(x), Rc::new(y), Rc::new(z), Rc::new(pitch), Rc::new(yaw)))
    }

    fn read_ident(&mut self) -> (r: Result<Node, ParseStop>)
        ensures
            stepped(*old(self), *final(self), r, grammar::ident(old(self).input(), old(self).position())),
            progressed(*old(self), *final(self), r),
        decreases old(self).input().len() - old(self).position(), 1int,
    {
        if !self.present(Expected::IdentLike) {
            return self.absent(Expected::IdentLike);
        }
        let tok = self.token();
        self.advance();
        Ok(Node::Primary(tok))
    }
}

/// Whether `k` closes a delimited sequence.
fn closes(d: Delimiters, k: &TokenType) -> (b: bool)
    ensures
        b == grammar::closes(d, *k),
{
    match d {
        Delimiters::Parentheses => matches!(k, TokenType::RParen),
        Delimiters::Brackets => matches!(k, TokenType::RBracket),
    }
}

/// The node of a delimited sequence of items.
fn collection(d: Delimiters, items: Vec<Rc<Node>>) -> (n: Node)
    ensures
        n@ == grammar::collection(d, trees(items@)),
{
    match d {
        Delimiters::Parentheses => Node::Tuple(items),
        Delimiters::Brackets => Node::List(items),
    }
}

/// The part of the grammar that reads a whole level of binary operators.
pub open spec fn level(t: Seq<Rc<Token>>, p: nat, lv: Level) -> Parsed {
    match lv {
        Level::Logic => grammar::logic(t, p),
        Level::Equality => grammar::equality(t, p),
        Level::Comparison => grammar::comparison(t, p),
        Level::Term => grammar::term(t, p),
        Level::Factor => grammar::factor(t, p),
    }
}

pub open spec fn chain_rank(lv: Level) -> int {
    grammar::chain_rank(lv)
}

} // verus!
