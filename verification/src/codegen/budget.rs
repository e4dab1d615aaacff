//! The costs of compiling a program, computed exactly up to `u64::MAX`,
//! so that a program too large for the identifier counter is refused
//! before its code is generated.
use vstd::prelude::*;
use std::rc::Rc;

use crate::codegen::context::{Context, ContextType};
use crate::codegen::generate::{expr_cost, items_cost, lemma_item_cost};
use crate::codegen::program::{
    all_code_cost, block_cost, body_cost, code_cost, fields_cost, fill_cost, function_cost, lemma_body_skip,
    lemma_code_prefix, lemma_fields_prefix, lemma_fill_prefix, return_cost, stmt_cost, type_cost,
};
use crate::codegen::types::{Field, ValueType};
use crate::parser::Node;

verus! {

/// A count, held at `u64::MAX` when it does not fit.
pub open spec fn capped(x: nat) -> nat {
    if x <= u64::MAX {
        x
    } else {
        u64::MAX as nat
    }
}


/// The cost of the expression a pointer refers to.
pub open spec fn cost_of(n: &Rc<Node>) -> nat {
    expr_cost(**n)
}

/// The cost of a statement a pointer refers to.
pub open spec fn stmt_cost_of(n: &Rc<Node>) -> nat {
    stmt_cost(**n)
}

/// The cost of a block a pointer refers to.
pub open spec fn block_cost_of(n: &Rc<Node>) -> nat {
    block_cost(**n)
}

/// The cost of an expression of a sequence.
pub open spec fn item_cost(s: Seq<Rc<Node>>, j: int) -> nat {
    expr_cost(*s[j])
}

/// The cost of a statement of a sequence.
pub open spec fn stmt_item_cost(s: Seq<Rc<Node>>, j: int) -> nat {
    stmt_cost(*s[j])
}

/// The cost of the expression a reference refers to.
pub open spec fn node_cost(n: &Node) -> nat {
    expr_cost(*n)
}

/// The capped sum of two capped counts.
fn add_capped(a: u64, b: u64) -> (r: u64)
    ensures
        r == capped((a + b) as nat),
{
    if a <= u64::MAX - b {
        a + b
    } else {
        u64::MAX
    }
}

/// Capping the parts of a sum and then the sum caps the sum.
proof fn lemma_capped_sum(x: nat, y: nat)
    ensures
        capped(capped(x) + capped(y)) == capped(x + y),
{
}

/// The cost of generating an expression, capped.
pub fn expr_budget(n: &Node) -> (r: u64)
    ensures
        r == capped(expr_cost(*n)),
    decreases *n, 1nat,
{
    match n {
        Node::Vector(a, b, c) => {
            let s = add_capped(add_capped(expr_budget(a), expr_budget(b)), expr_budget(c));
            proof {
                lemma_capped_sum(cost_of(a), cost_of(b));
                lemma_capped_sum(cost_of(a) + cost_of(b), cost_of(c));
                lemma_capped_sum(64, cost_of(a) + cost_of(b) + cost_of(c));
            }
            add_capped(64, s)
        },
        Node::Location(a, b, c, d, e) => {
            let s1 = add_capped(expr_budget(a), expr_budget(b));
            let s2 = add_capped(s1, expr_budget(c));
            let s3 = add_capped(s2, expr_budget(d));
            let s4 = add_capped(s3, expr_budget(e));
            proof {
                lemma_capped_sum(cost_of(a), cost_of(b));
                lemma_capped_sum(cost_of(a) + cost_of(b), cost_of(c));
                lemma_capped_sum(cost_of(a) + cost_of(b) + cost_of(c), cost_of(d));
                lemma_capped_sum(cost_of(a) + cost_of(b) + cost_of(c) + cost_of(d), cost_of(e));
                lemma_capped_sum(64, cost_of(a) + cost_of(b) + cost_of(c) + cost_of(d) + cost_of(e));
            }
            add_capped(64, s4)
        },
        Node::Construct(a, b) | Node::FunctionCall(a, b) | Node::ListCall(a, b) | Node::Sum(a, b) | Node::Product(a, b) => {
            let s = add_capped(expr_budget(a), expr_budget(b));
            proof {
                lemma_capped_sum(cost_of(a), cost_of(b));
                lemma_capped_sum(64, cost_of(a) + cost_of(b));
            }
            add_capped(64, s)
        },
        Node::Block(v) | Node::Tuple(v) => {
            let s = items_budget(v);
            proof {
                lemma_capped_sum(64, items_cost(v@));
            }
            add_capped(64, s)
        },
        Node::List(v) => {
            let s = items_budget(v);
            proof {
                lemma_capped_sum(items_cost(v@), items_cost(v@));
                lemma_capped_sum(64, 2 * items_cost(v@));
            }
            add_capped(64, add_capped(s, s))
        },
        Node::Declaration(t, _) | Node::Access(t, _) => {
            let s = expr_budget(t);
            proof {
                lemma_capped_sum(64, cost_of(t));
            }
            add_capped(64, s)
        },
        Node::Assignment(a, x) => {
            let ca = expr_budget(a);
            let cx = expr_budget(x);
            proof {
                lemma_capped_sum(cost_of(a), cost_of(a));
                lemma_capped_sum(2 * cost_of(a), cost_of(x));
                lemma_capped_sum(64, 2 * cost_of(a) + cost_of(x));
            }
            add_capped(64, add_capped(add_capped(ca, ca), cx))
        },
        _ => 64,
    }
}

/// The cost of a sequence of expressions, capped.
pub fn items_budget(v: &Vec<Rc<Node>>) -> (r: u64)
    ensures
        r == capped(items_cost(v@)),
    decreases v@, 0nat,
{
    let mut acc: u64 = 0;
    proof {
        assert(v@.take(0) =~= Seq::<Rc<Node>>::empty());
    }
    for j in 0..v.len()
        invariant
            acc == capped(items_cost(v@.take(j as int))),
    {
        proof {
            lemma_item_cost(v@, j as int);
            assert(decreases_to!(v@ => v@[j as int]));
        }
        let item = add_capped(expr_budget(&v[j]), 1);
        proof {
            lemma_capped_sum(item_cost(v@, j as int), 1);
            lemma_capped_sum(items_cost(v@.take(j as int)), item_cost(v@, j as int) + 1);
        }
        acc = add_capped(acc, item);
    }
    proof {
        assert(v@.take(v@.len() as int) =~= v@);
    }
    acc
}

/// The cost of generating a statement, capped.
pub fn stmt_budget(n: &Node) -> (r: u64)
    ensures
        r == capped(stmt_cost(*n)),
    decreases *n, 2nat,
{
    match n {
        Node::Declaration(..) | Node::Assignment(..) => {
            let c = expr_budget(n);
            proof {
                lemma_capped_sum(node_cost(n), 2);
            }
            add_capped(c, 2)
        },
        Node::Else(i, b) => {
            let s = add_capped(stmt_budget(i), block_budget(b));
            proof {
                lemma_capped_sum(stmt_cost_of(i), block_cost_of(b));
            }
            s
        },
        Node::If(c, b) | Node::While(c, b) => {
            let e = add_capped(expr_budget(c), 2);
            let s = add_capped(e, block_budget(b));
            proof {
                lemma_capped_sum(cost_of(c), 2);
                lemma_capped_sum(cost_of(c) + 2, block_cost_of(b));
            }
            s
        },
        Node::Return(v) => {
            if matches!(&**v, Node::Empty) {
                0
            } else {
                let c = expr_budget(v);
                proof {
                    lemma_capped_sum(cost_of(v), 1);
                }
                add_capped(c, 1)
            }
        },
        Node::FunctionCall(f, p) => {
            let s = add_capped(add_capped(expr_budget(f), expr_budget(p)), 9);
            proof {
                lemma_capped_sum(cost_of(f), cost_of(p));
                lemma_capped_sum(cost_of(f) + cost_of(p), 9);
            }
            s
        },
        _ => 0,
    }
}

/// The cost of a block's statements, capped.
pub fn block_budget(n: &Node) -> (r: u64)
    ensures
        r == capped(block_cost(*n)),
    decreases *n, 1nat,
{
    match n {
        Node::Block(v) => body_budget(v),
        _ => 0,
    }
}

/// The cost of a sequence of statements, capped.
pub fn body_budget(v: &Vec<Rc<Node>>) -> (r: u64)
    ensures
        r == capped(body_cost(v@)),
    decreases v@, 0nat,
{
    let mut acc: u64 = 0;
    let mut j = v.len();
    proof {
        assert(v@.skip(j as int) =~= Seq::<Rc<Node>>::empty());
    }
    while j > 0
        invariant
            j <= v@.len(),
            acc == capped(body_cost(v@.skip(j as int))),
        decreases j,
    {
        j = j - 1;
        proof {
            lemma_body_skip(v@, j as int);
            assert(decreases_to!(v@ => v@[j as int]));
        }
        let s = stmt_budget(&v[j]);
        proof {
            lemma_capped_sum(stmt_item_cost(v@, j as int), body_cost(v@.skip(j + 1)));
        }
        acc = add_capped(s, acc);
    }
    proof {
        assert(v@.skip(0) =~= v@);
    }
    acc
}

/// The cost of resolving a type, capped.
fn type_budget(t: &ValueType) -> (r: u64)
    ensures
        r == capped(type_cost(*t)),
{
    match t {
        ValueType::Ident(n) => {
            let c = expr_budget(n);
            proof {
                lemma_capped_sum(cost_of(n), 1);
            }
            add_capped(c, 1)
        },
        _ => 0,
    }
}

/// The cost of resolving the types of fields, capped.
fn fields_budget(fs: &Vec<Field>) -> (r: u64)
    ensures
        r == capped(fields_cost(fs@)),
{
    let mut acc: u64 = 0;
    proof {
        assert(fs@.take(0) =~= Seq::<Field>::empty());
    }
    for j in 0..fs.len()
        invariant
            acc == capped(fields_cost(fs@.take(j as int))),
    {
        proof {
            lemma_fields_prefix(fs@, j as int);
            lemma_capped_sum(fields_cost(fs@.take(j as int)), type_cost(fs@[j as int].field_type));
        }
        acc = add_capped(acc, type_budget(&fs[j].field_type));
    }
    proof {
        assert(fs@.take(fs@.len() as int) =~= fs@);
    }
    acc
}

/// The cost of resolving a function's return type, capped.
fn return_budget(t: &ContextType) -> (r: u64)
    ensures
        r == capped(return_cost(*t)),
{
    match t {
        ContextType::Function(ValueType::Ident(n)) => {
            if matches!(&**n, Node::Empty) {
                0
            } else {
                let c = expr_budget(n);
                proof {
                    lemma_capped_sum(cost_of(n), 1);
                }
                add_capped(c, 1)
            }
        },
        _ => 0,
    }
}

/// The cost of resolving the types of contexts, capped.
pub fn fill_budget(cs: &Vec<Context>) -> (r: u64)
    ensures
        r == capped(fill_cost(cs@)),
{
    let mut acc: u64 = 0;
    proof {
        assert(cs@.take(0) =~= Seq::<Context>::empty());
    }
    for i in 0..cs.len()
        invariant
            acc == capped(fill_cost(cs@.take(i as int))),
    {
        proof {
            lemma_fill_prefix(cs@, i as int);
            lemma_capped_sum(return_cost(cs@[i as int].context_type), fields_cost(cs@[i as int].fields@));
            lemma_capped_sum(
                fill_cost(cs@.take(i as int)),
                return_cost(cs@[i as int].context_type) + fields_cost(cs@[i as int].fields@),
            );
        }
        let own = add_capped(return_budget(&cs[i].context_type), fields_budget(&cs[i].fields));
        acc = add_capped(acc, own);
    }
    proof {
        assert(cs@.take(cs@.len() as int) =~= cs@);
    }
    acc
}

/// The cost of generating a context's code, capped.
fn code_budget(c: &Context) -> (r: u64)
    ensures
        r == capped(code_cost(*c)),
{
    match &c.context_type {
        ContextType::Function(_) => {
            let body = body_budget(&*c.body);
            let fields = c.fields.len() as u64;
            proof {
                lemma_capped_sum(5 + 2 * c.fields@.len(), body_cost((*c.body)@));
                lemma_capped_sum(5, 2 * c.fields@.len());
                lemma_capped_sum(c.fields@.len() as nat, c.fields@.len() as nat);
            }
            add_capped(add_capped(5, add_capped(fields, fields)), body)
        },
        _ => 0,
    }
}

/// The cost of generating the code of contexts, capped.
pub fn all_code_budget(cs: &Vec<Context>) -> (r: u64)
    ensures
        r == capped(all_code_cost(cs@)),
{
    let mut acc: u64 = 0;
    proof {
        assert(cs@.take(0) =~= Seq::<Context>::empty());
    }
    for i in 0..cs.len()
        invariant
            acc == capped(all_code_cost(cs@.take(i as int))),
    {
        proof {
            lemma_code_prefix(cs@, i as int);
            lemma_capped_sum(all_code_cost(cs@.take(i as int)), code_cost(cs@[i as int]));
        }
        acc = add_capped(acc, code_budget(&cs[i]));
    }
    proof {
        assert(cs@.take(cs@.len() as int) =~= cs@);
    }
    acc
}

} // verus!
