use vstd::prelude::*;
use std::rc::Rc;

use crate::lexer::types::{token_eq, Token};

verus! {

/// A syntactical node.
#[derive(Debug, PartialEq)]
pub enum Node {
    Empty,                                                      // ()
    Primary(Rc<Token>),                                         // 0
    FunctionCall(Rc<Node>, Rc<Node>),                           // ident(tuple/expr)
    Access(Rc<Node>, Rc<Node>),                                 // ident.ident
    Construct(Rc<Node>, Rc<Node>),                              // ident {block}
    Not(Rc<Node>),                                              // !expr
    Negative(Rc<Node>),                                         // -expr
    Product(Rc<Node>, Rc<Node>),                                // expr * expr
    Quotient(Rc<Node>, Rc<Node>),                               // expr / expr
    Modulo(Rc<Node>, Rc<Node>),                                 // expr % expr
    Sum(Rc<Node>, Rc<Node>),                                    // expr + expr
    Difference(Rc<Node>, Rc<Node>),                             // expr - expr
    LessThan(Rc<Node>, Rc<Node>),                               // expr < expr
    GreaterThan(Rc<Node>, Rc<Node>),                            // expr > expr
    LessThanOrEqualTo(Rc<Node>, Rc<Node>),                      // expr <= expr
    GreaterThanOrEqualTo(Rc<Node>, Rc<Node>),                   // expr >= expr
    Tuple(Vec<Rc<Node>>),                                       // (decl/expr, decl/expr, decl/expr)
    Equal(Rc<Node>, Rc<Node>),                                  // expr == expr
    NotEqual(Rc<Node>, Rc<Node>),                               // expr != expr
    And(Rc<Node>, Rc<Node>),                                    // expr && expr
    Or(Rc<Node>, Rc<Node>),                                     // expr || expr
    ListCall(Rc<Node>, Rc<Node>),                               // ident[expr]
    List(Vec<Rc<Node>>),                                        // [expr, expr, expr]
    Vector(Rc<Node>, Rc<Node>, Rc<Node>),                       // <expr, expr, expr>
    Location(Rc<Node>, Rc<Node>, Rc<Node>, Rc<Node>, Rc<Node>), // <expr, expr, expr, expr, expr>
    Declaration(Rc<Node>, Rc<Node>),                            // ident ident
    Break,                                                      // break;
    Return(Rc<Node>),                                           // return expr;
    Assignment(Rc<Node>, Rc<Node>),                             // decl/ident = expr;
    If(Rc<Node>, Rc<Node>),                                     // if cond {block}
    Else(Rc<Node>, Rc<Node>),                                   // stmt else {block}
    While(Rc<Node>, Rc<Node>),                                  // while cond {block}
    Func(Rc<Node>, Rc<Node>, Rc<Node>, Rc<Node>),               // func ident (tuple/decl) -> tuple/ident {block}
    Struct(Rc<Node>, Rc<Node>),                                 // struct ident {block}
    Domain(Rc<Node>, Rc<Node>),                                 // domain ident {block}
    Block(Vec<Rc<Node>>),                                       // stmt; stmt; stmt;
}

/// The mathematical value of a [Node]: the same tree, with sequences in
/// place of vectors.
pub enum Tree {
    Empty,
    Primary(Token),
    FunctionCall(Box<Tree>, Box<Tree>),
    Access(Box<Tree>, Box<Tree>),
    Construct(Box<Tree>, Box<Tree>),
    Not(Box<Tree>),
    Negative(Box<Tree>),
    Product(Box<Tree>, Box<Tree>),
    Quotient(Box<Tree>, Box<Tree>),
    Modulo(Box<Tree>, Box<Tree>),
    Sum(Box<Tree>, Box<Tree>),
    Difference(Box<Tree>, Box<Tree>),
    LessThan(Box<Tree>, Box<Tree>),
    GreaterThan(Box<Tree>, Box<Tree>),
    LessThanOrEqualTo(Box<Tree>, Box<Tree>),
    GreaterThanOrEqualTo(Box<Tree>, Box<Tree>),
    Tuple(Seq<Tree>),
    Equal(Box<Tree>, Box<Tree>),
    NotEqual(Box<Tree>, Box<Tree>),
    And(Box<Tree>, Box<Tree>),
    Or(Box<Tree>, Box<Tree>),
    ListCall(Box<Tree>, Box<Tree>),
    List(Seq<Tree>),
    Vector(Box<Tree>, Box<Tree>, Box<Tree>),
    Location(Box<Tree>, Box<Tree>, Box<Tree>, Box<Tree>, Box<Tree>),
    Declaration(Box<Tree>, Box<Tree>),
    Break,
    Return(Box<Tree>),
    Assignment(Box<Tree>, Box<Tree>),
    If(Box<Tree>, Box<Tree>),
    Else(Box<Tree>, Box<Tree>),
    While(Box<Tree>, Box<Tree>),
    Func(Box<Tree>, Box<Tree>, Box<Tree>, Box<Tree>),
    Struct(Box<Tree>, Box<Tree>),
    Domain(Box<Tree>, Box<Tree>),
    Block(Seq<Tree>),
}

/// The trees of a sequence of nodes.
pub open spec fn trees(s: Seq<Rc<Node>>) -> Seq<Tree>
    decreases s,
{
    if s.len() == 0 {
        Seq::empty()
    } else {
        trees(s.drop_last()).push(tree(*s.last()))
    }
}

/// The tree of a node.
pub open spec fn tree(n: Node) -> Tree
    decreases n,
{
    match n {
        Node::Empty => Tree::Empty,
        Node::Primary(t) => Tree::Primary(*t),
        Node::FunctionCall(a, b) => Tree::FunctionCall(Box::new(tree(*a)), Box::new(tree(*b))),
        Node::Access(a, b) => Tree::Access(Box::new(tree(*a)), Box::new(tree(*b))),
        Node::Construct(a, b) => Tree::Construct(Box::new(tree(*a)), Box::new(tree(*b))),
        Node::Not(a) => Tree::Not(Box::new(tree(*a))),
        Node::Negative(a) => Tree::Negative(Box::new(tree(*a))),
        Node::Product(a, b) => Tree::Product(Box::new(tree(*a)), Box::new(tree(*b))),
        Node::Quotient(a, b) => Tree::Quotient(Box::new(tree(*a)), Box::new(tree(*b))),
        Node::Modulo(a, b) => Tree::Modulo(Box::new(tree(*a)), Box::new(tree(*b))),
        Node::Sum(a, b) => Tree::Sum(Box::new(tree(*a)), Box::new(tree(*b))),
        Node::Difference(a, b) => Tree::Difference(Box::new(tree(*a)), Box::new(tree(*b))),
        Node::LessThan(a, b) => Tree::LessThan(Box::new(tree(*a)), Box::new(tree(*b))),
        Node::GreaterThan(a, b) => Tree::GreaterThan(Box::new(tree(*a)), Box::new(tree(*b))),
        Node::LessThanOrEqualTo(a, b) => Tree::LessThanOrEqualTo(Box::new(tree(*a)), Box::new(tree(*b))),
        Node::GreaterThanOrEqualTo(a, b) => Tree::GreaterThanOrEqualTo(Box::new(tree(*a)), Box::new(tree(*b))),
        Node::Tuple(v) => Tree::Tuple(trees(v@)),
        Node::Equal(a, b) => Tree::Equal(Box::new(tree(*a)), Box::new(tree(*b))),
        Node::NotEqual(a, b) => Tree::NotEqual(Box::new(tree(*a)), Box::new(tree(*b))),
        Node::And(a, b) => Tree::And(Box::new(tree(*a)), Box::new(tree(*b))),
        Node::Or(a, b) => Tree::Or(Box::new(tree(*a)), Box::new(tree(*b))),
        Node::ListCall(a, b) => Tree::ListCall(Box::new(tree(*a)), Box::new(tree(*b))),
        Node::List(v) => Tree::List(trees(v@)),
        Node::Vector(a, b, c) => Tree::Vector(Box::new(tree(*a)), Box::new(tree(*b)), Box::new(tree(*c))),
        Node::Location(a, b, c, d, e) => Tree::Location(
            Box::new(tree(*a)),
            Box::new(tree(*b)),
            Box::new(tree(*c)),
            Box::new(tree(*d)),
            Box::new(tree(*e)),
        ),
        Node::Declaration(a, b) => Tree::Declaration(Box::new(tree(*a)), Box::new(tree(*b))),
        Node::Break => Tree::Break,
        Node::Return(a) => Tree::Return(Box::new(tree(*a))),
        Node::Assignment(a, b) => Tree::Assignment(Box::new(tree(*a)), Box::new(tree(*b))),
        Node::If(a, b) => Tree::If(Box::new(tree(*a)), Box::new(tree(*b))),
        Node::Else(a, b) => Tree::Else(Box::new(tree(*a)), Box::new(tree(*b))),
        Node::While(a, b) => Tree::While(Box::new(tree(*a)), Box::new(tree(*b))),
        Node::Func(a, b, c, d) => Tree::Func(
            Box::new(tree(*a)),
            Box::new(tree(*b)),
            Box::new(tree(*c)),
            Box::new(tree(*d)),
        ),
        Node::Struct(a, b) => Tree::Struct(Box::new(tree(*a)), Box::new(tree(*b))),
        Node::Domain(a, b) => Tree::Domain(Box::new(tree(*a)), Box::new(tree(*b))),
        Node::Block(v) => Tree::Block(trees(v@)),
    }
}

impl View for Node {
    type V = Tree;

    open spec fn view(&self) -> Tree {
        tree(*self)
    }
}


/// Whether two nodes are the same tree, strings compared by their text.
pub open spec fn node_eq(a: Node, b: Node) -> bool
    decreases a, 1nat,
{
    match a {
        Node::Empty => b is Empty,
        Node::Primary(x) => b matches Node::Primary(y) && token_eq(*x, *y),
        Node::FunctionCall(a0, a1) => b matches Node::FunctionCall(b0, b1) && node_eq(*a0, *b0) && node_eq(*a1, *b1),
        Node::Access(a0, a1) => b matches Node::Access(b0, b1) && node_eq(*a0, *b0) && node_eq(*a1, *b1),
        Node::Construct(a0, a1) => b matches Node::Construct(b0, b1) && node_eq(*a0, *b0) && node_eq(*a1, *b1),
        Node::Not(a0) => b matches Node::Not(b0) && node_eq(*a0, *b0),
        Node::Negative(a0) => b matches Node::Negative(b0) && node_eq(*a0, *b0),
        Node::Product(a0, a1) => b matches Node::Product(b0, b1) && node_eq(*a0, *b0) && node_eq(*a1, *b1),
        Node::Quotient(a0, a1) => b matches Node::Quotient(b0, b1) && node_eq(*a0, *b0) && node_eq(*a1, *b1),
        Node::Modulo(a0, a1) => b matches Node::Modulo(b0, b1) && node_eq(*a0, *b0) && node_eq(*a1, *b1),
        Node::Sum(a0, a1) => b matches Node::Sum(b0, b1) && node_eq(*a0, *b0) && node_eq(*a1, *b1),
        Node::Difference(a0, a1) => b matches Node::Difference(b0, b1) && node_eq(*a0, *b0) && node_eq(*a1, *b1),
        Node::LessThan(a0, a1) => b matches Node::LessThan(b0, b1) && node_eq(*a0, *b0) && node_eq(*a1, *b1),
        Node::GreaterThan(a0, a1) => b matches Node::GreaterThan(b0, b1) && node_eq(*a0, *b0) && node_eq(*a1, *b1),
        Node::LessThanOrEqualTo(a0, a1) => b matches Node::LessThanOrEqualTo(b0, b1) && node_eq(*a0, *b0) && node_eq(*a1, *b1),
        Node::GreaterThanOrEqualTo(a0, a1) => b matches Node::GreaterThanOrEqualTo(b0, b1) && node_eq(*a0, *b0) && node_eq(*a1, *b1),
        Node::Tuple(v) => b matches Node::Tuple(w) && nodes_eq(v@, w@),
        Node::Equal(a0, a1) => b matches Node::Equal(b0, b1) && node_eq(*a0, *b0) && node_eq(*a1, *b1),
        Node::NotEqual(a0, a1) => b matches Node::NotEqual(b0, b1) && node_eq(*a0, *b0) && node_eq(*a1, *b1),
        Node::And(a0, a1) => b matches Node::And(b0, b1) && node_eq(*a0, *b0) && node_eq(*a1, *b1),
        Node::Or(a0, a1) => b matches Node::Or(b0, b1) && node_eq(*a0, *b0) && node_eq(*a1, *b1),
        Node::ListCall(a0, a1) => b matches Node::ListCall(b0, b1) && node_eq(*a0, *b0) && node_eq(*a1, *b1),
        Node::List(v) => b matches Node::List(w) && nodes_eq(v@, w@),
        Node::Vector(a0, a1, a2) => b matches Node::Vector(b0, b1, b2) && node_eq(*a0, *b0) && node_eq(*a1, *b1) && node_eq(*a2, *b2),
        Node::Location(a0, a1, a2, a3, a4) => b matches Node::Location(b0, b1, b2, b3, b4) && node_eq(*a0, *b0) && node_eq(*a1, *b1) && node_eq(*a2, *b2) && node_eq(*a3, *b3) && node_eq(*a4, *b4),
        Node::Declaration(a0, a1) => b matches Node::Declaration(b0, b1) && node_eq(*a0, *b0) && node_eq(*a1, *b1),
        Node::Break => b is Break,
        Node::Return(a0) => b matches Node::Return(b0) && node_eq(*a0, *b0),
        Node::Assignment(a0, a1) => b matches Node::Assignment(b0, b1) && node_eq(*a0, *b0) && node_eq(*a1, *b1),
        Node::If(a0, a1) => b matches Node::If(b0, b1) && node_eq(*a0, *b0) && node_eq(*a1, *b1),
        Node::Else(a0, a1) => b matches Node::Else(b0, b1) && node_eq(*a0, *b0) && node_eq(*a1, *b1),
        Node::While(a0, a1) => b matches Node::While(b0, b1) && node_eq(*a0, *b0) && node_eq(*a1, *b1),
        Node::Func(a0, a1, a2, a3) => b matches Node::Func(b0, b1, b2, b3) && node_eq(*a0, *b0) && node_eq(*a1, *b1) && node_eq(*a2, *b2) && node_eq(*a3, *b3),
        Node::Struct(a0, a1) => b matches Node::Struct(b0, b1) && node_eq(*a0, *b0) && node_eq(*a1, *b1),
        Node::Domain(a0, a1) => b matches Node::Domain(b0, b1) && node_eq(*a0, *b0) && node_eq(*a1, *b1),
        Node::Block(v) => b matches Node::Block(w) && nodes_eq(v@, w@),
    }
}

/// Whether two sequences of nodes are the same, item by item.
pub open spec fn nodes_eq(s: Seq<Rc<Node>>, t: Seq<Rc<Node>>) -> bool
    decreases s, 0nat,
{
    if s.len() == 0 {
        t.len() == 0
    } else {
        t.len() > 0 && node_eq(*s[0], *t[0]) && nodes_eq(s.drop_first(), t.drop_first())
    }
}

impl Node {
    /// Whether two nodes are the same tree.
    pub fn same(&self, other: &Node) -> (r: bool)
        ensures
            r == node_eq(*self, *other),
        decreases *self, 1nat,
    {
        match self {
            Node::Empty => matches!(other, Node::Empty),
            Node::Primary(x) => match other {
                Node::Primary(y) => x.same(y),
                _ => false,
            },
            Node::FunctionCall(a0, a1) => match other {
                Node::FunctionCall(b0, b1) => a0.same(b0) && a1.same(b1),
                _ => false,
            },
            Node::Access(a0, a1) => match other {
                Node::Access(b0, b1) => a0.same(b0) && a1.same(b1),
                _ => false,
            },
            Node::Construct(a0, a1) => match other {
                Node::Construct(b0, b1) => a0.same(b0) && a1.same(b1),
                _ => false,
            },
            Node::Not(a0) => match other {
                Node::Not(b0) => a0.same(b0),
                _ => false,
            },
            Node::Negative(a0) => match other {
                Node::Negative(b0) => a0.same(b0),
                _ => false,
            },
            Node::Product(a0, a1) => match other {
                Node::Product(b0, b1) => a0.same(b0) && a1.same(b1),
                _ => false,
            },
            Node::Quotient(a0, a1) => match other {
                Node::Quotient(b0, b1) => a0.same(b0) && a1.same(b1),
                _ => false,
            },
            Node::Modulo(a0, a1) => match other {
                Node::Modulo(b0, b1) => a0.same(b0) && a1.same(b1),
                _ => false,
            },
            Node::Sum(a0, a1) => match other {
                Node::Sum(b0, b1) => a0.same(b0) && a1.same(b1),
                _ => false,
            },
            Node::Difference(a0, a1) => match other {
                Node::Difference(b0, b1) => a0.same(b0) && a1.same(b1),
                _ => false,
            },
            Node::LessThan(a0, a1) => match other {
                Node::LessThan(b0, b1) => a0.same(b0) && a1.same(b1),
                _ => false,
            },
            Node::GreaterThan(a0, a1) => match other {
                Node::GreaterThan(b0, b1) => a0.same(b0) && a1.same(b1),
                _ => false,
            },
            Node::LessThanOrEqualTo(a0, a1) => match other {
                Node::LessThanOrEqualTo(b0, b1) => a0.same(b0) && a1.same(b1),
                _ => false,
            },
            Node::GreaterThanOrEqualTo(a0, a1) => match other {
                Node::GreaterThanOrEqualTo(b0, b1) => a0.same(b0) && a1.same(b1),
                _ => false,
            },
            Node::Tuple(v) => match other {
                Node::Tuple(w) => Self::same_all(v, w),
                _ => false,
            },
            Node::Equal(a0, a1) => match other {
                Node::Equal(b0, b1) => a0.same(b0) && a1.same(b1),
                _ => false,
            },
            Node::NotEqual(a0, a1) => match other {
                Node::NotEqual(b0, b1) => a0.same(b0) && a1.same(b1),
                _ => false,
            },
            Node::And(a0, a1) => match other {
                Node::And(b0, b1) => a0.same(b0) && a1.same(b1),
                _ => false,
            },
            Node::Or(a0, a1) => match other {
                Node::Or(b0, b1) => a0.same(b0) && a1.same(b1),
                _ => false,
            },
            Node::ListCall(a0, a1) => match other {
                Node::ListCall(b0, b1) => a0.same(b0) && a1.same(b1),
                _ => false,
            },
            Node::List(v) => match other {
                Node::List(w) => Self::same_all(v, w),
                _ => false,
            },
            Node::Vector(a0, a1, a2) => match other {
                Node::Vector(b0, b1, b2) => a0.same(b0) && a1.same(b1) && a2.same(b2),
                _ => false,
            },
            Node::Location(a0, a1, a2, a3, a4) => match other {
                Node::Location(b0, b1, b2, b3, b4) => a0.same(b0) && a1.same(b1) && a2.same(b2) && a3.same(b3) && a4.same(b4),
                _ => false,
            },
            Node::Declaration(a0, a1) => match other {
                Node::Declaration(b0, b1) => a0.same(b0) && a1.same(b1),
                _ => false,
            },
            Node::Break => matches!(other, Node::Break),
            Node::Return(a0) => match other {
                Node::Return(b0) => a0.same(b0),
                _ => false,
            },
            Node::Assignment(a0, a1) => match other {
                Node::Assignment(b0, b1) => a0.same(b0) && a1.same(b1),
                _ => false,
            },
            Node::If(a0, a1) => match other {
                Node::If(b0, b1) => a0.same(b0) && a1.same(b1),
                _ => false,
            },
            Node::Else(a0, a1) => match other {
                Node::Else(b0, b1) => a0.same(b0) && a1.same(b1),
                _ => false,
            },
            Node::While(a0, a1) => match other {
                Node::While(b0, b1) => a0.same(b0) && a1.same(b1),
                _ => false,
            },
            Node::Func(a0, a1, a2, a3) => match other {
                Node::Func(b0, b1, b2, b3) => a0.same(b0) && a1.same(b1) && a2.same(b2) && a3.same(b3),
                _ => false,
            },
            Node::Struct(a0, a1) => match other {
                Node::Struct(b0, b1) => a0.same(b0) && a1.same(b1),
                _ => false,
            },
            Node::Domain(a0, a1) => match other {
                Node::Domain(b0, b1) => a0.same(b0) && a1.same(b1),
                _ => false,
            },
            Node::Block(v) => match other {
                Node::Block(w) => Self::same_all(v, w),
                _ => false,
            },
        }
    }

    /// Whether two vectors of nodes are the same, item by item.
    fn same_all(v: &Vec<Rc<Node>>, w: &Vec<Rc<Node>>) -> (r: bool)
        ensures
            r == nodes_eq(v@, w@),
        decreases v@, 0nat,
    {
        if v.len() != w.len() {
            proof {
                lemma_nodes_eq_len(v@, w@);
            }
            return false;
        }
        let mut j: usize = v.len();
        let mut result = true;
        proof {
            assert(v@.skip(j as int) =~= Seq::<Rc<Node>>::empty());
            assert(w@.skip(j as int) =~= Seq::<Rc<Node>>::empty());
        }
        while j > 0
            invariant
                j <= v@.len(),
                v@.len() == w@.len(),
                result == nodes_eq(v@.skip(j as int), w@.skip(j as int)),
            decreases j,
        {
            j = j - 1;
            proof {
                assert(v@.skip(j as int).drop_first() =~= v@.skip(j + 1));
                assert(w@.skip(j as int).drop_first() =~= w@.skip(j + 1));
                assert(v@.skip(j as int)[0] == v@[j as int]);
                assert(w@.skip(j as int)[0] == w@[j as int]);
                assert(decreases_to!(v@ => v@[j as int]));
            }
            let same = v[j].same(&w[j]);
            result = same && result;
        }
        proof {
            assert(v@.skip(0) =~= v@);
            assert(w@.skip(0) =~= w@);
        }
        result
    }
}

/// Sequences of different lengths are never the same.
proof fn lemma_nodes_eq_len(s: Seq<Rc<Node>>, t: Seq<Rc<Node>>)
    requires
        s.len() != t.len(),
    ensures
        !nodes_eq(s, t),
    decreases s.len(),
{
    if s.len() > 0 && t.len() > 0 {
        lemma_nodes_eq_len(s.drop_first(), t.drop_first());
    }
}

} // verus!
