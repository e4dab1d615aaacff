//! Compiling a whole program: resolving the types its declarations name,
//! then generating the code of each function's body.
use vstd::prelude::*;
use std::rc::Rc;

use crate::code::{
    act, bare, slotless, Action, Instruction, InstructionView, Parameter, ParameterValue, Parent, ValueView, VarScope,
    CTRL_RETURN, CTRL_STOP_REPEAT, REP_FOREVER, VARIF_EQ,
};
use crate::codegen::buffer::{after_function, grows, lemma_named_costs, room};
use crate::codegen::budget::{all_code_budget, fill_budget};
use crate::codegen::codegen::{
    contexts_wf, defs, defs_in_range, domains_ok, error_at, field_declared, fields_distinct, fnames_ok, misplaced, node_size,
    outline_ok, prefix_ok,
    parents_ordered, tables_ok, types_ok, CodeGen,
};
use crate::codegen::context::{CodeScope, Context, ContextType};
use crate::codegen::errors::{CodegenError, ErrorRepr};
use crate::codegen::expression::{code_kept, gen_frame, gen_ok, same_shape};
use crate::codegen::generate::{expr_cost, lemma_lookup_kinds, looked_up, primitive_type_name};
use crate::codegen::expression::traced;
use crate::codegen::types::{type_eq, IdentifierCategory};
use crate::codegen::types::{
    type_ids_ok, CodegenBodyStackMode, CodegenValue, Field, GenerateExpressionSettings, PrimitiveType, RuntimeVariable, ValueType,
};
use crate::table::str_keyed;
use crate::text::str_eq;
use crate::parser::Node;

verus! {

/// The cost of resolving a type: nothing once resolved.
pub open spec fn type_cost(t: ValueType) -> nat {
    match t {
        ValueType::Ident(n) => expr_cost(*n) + 1,
        _ => 0,
    }
}

/// The cost of resolving a function's return type; none when it returns
/// nothing.
pub open spec fn return_cost(t: ContextType) -> nat {
    match t {
        ContextType::Function(ValueType::Ident(n)) => if *n is Empty {
            0
        } else {
            expr_cost(*n) + 1
        },
        _ => 0,
    }
}

/// The cost of resolving the types of fields.
pub open spec fn fields_cost(fs: Seq<Field>) -> nat
    decreases fs.len(),
{
    if fs.len() == 0 {
        0
    } else {
        fields_cost(fs.drop_last()) + type_cost(fs.last().field_type)
    }
}

/// The cost of resolving the types of contexts.
pub open spec fn fill_cost(cs: Seq<Context>) -> nat
    decreases cs.len(),
{
    if cs.len() == 0 {
        0
    } else {
        fill_cost(cs.drop_last()) + return_cost(cs.last().context_type) + fields_cost(cs.last().fields@)
    }
}

/// Every field type and every function's return type is resolved.
pub open spec fn filled(g: CodeGen) -> bool {
    &&& forall|c: int, j: int| 0 <= c < g.contexts@.len() && 0 <= j < g.contexts@[c].fields@.len()
        ==> !(#[trigger] g.contexts@[c].fields@[j].field_type is Ident)
    &&& forall|c: int| 0 <= c < g.contexts@.len() ==> !(#[trigger] g.contexts@[c].context_type matches ContextType::Function(
        ValueType::Ident(_),
    ))
}

/// Whether field `j` of context `c`, named by a type in `g0`, is resolved in
/// `g`: a primitive type name to that primitive type, with the domain
/// variable of the field, when there is one, of the same type; a field
/// already of a type keeps it.
pub open spec fn field_resolved(g0: CodeGen, g: CodeGen, c: int, j: int) -> bool {
    match g0.contexts@[c].fields@[j].field_type {
        ValueType::Ident(node) => {
            &&& primitive_type_name(g0, c, *node) matches Some(p) ==> g.contexts@[c].fields@[j].field_type
                == ValueType::Primitive(p)
            &&& j < g.domain_vars@[c]@.len() ==> g.domain_vars@[c]@[j].variable.value_type
                == g.contexts@[c].fields@[j].field_type
        },
        t => g.contexts@[c].fields@[j].field_type == t,
    }
}

/// Whether the return type of context `c`, named in `g0`, is resolved in
/// `g`: none to nothing returned, a primitive type name to that type; any
/// other context type is kept.
pub open spec fn return_resolved(g0: CodeGen, g: CodeGen, c: int) -> bool {
    match g0.contexts@[c].context_type {
        ContextType::Function(ValueType::Ident(node)) => if *node is Empty {
            g.contexts@[c].context_type == ContextType::Function(ValueType::Primitive(PrimitiveType::Void))
        } else {
            primitive_type_name(g0, c, *node) matches Some(p) ==> g.contexts@[c].context_type == ContextType::Function(
                ValueType::Primitive(p),
            )
        },
        t => g.contexts@[c].context_type == t,
    }
}

/// Whether the types that context `c` of `g0` names are resolved in `g`.
pub open spec fn resolved_in(g0: CodeGen, g: CodeGen, c: int) -> bool {
    &&& forall|j: int| 0 <= j < g0.contexts@[c].fields@.len() ==> #[trigger] field_resolved(g0, g, c, j)
    &&& return_resolved(g0, g, c)
}

/// What is resolved of a context stays so while the context and its
/// domain variables are left alone.
proof fn lemma_resolved_kept(g0: CodeGen, a: CodeGen, b: CodeGen, c: int)
    requires
        resolved_in(g0, a, c),
        a.contexts@[c] == b.contexts@[c],
        a.domain_vars@[c] == b.domain_vars@[c],
    ensures
        resolved_in(g0, b, c),
{
    assert forall|j: int| 0 <= j < g0.contexts@[c].fields@.len() implies #[trigger] field_resolved(g0, b, c, j) by {
        assert(field_resolved(g0, a, c, j));
    }
}

/// Two contexts are the same but for the types of their fields and of
/// their return.
pub open spec fn same_but_types(a: Context, b: Context) -> bool {
    &&& a.parent_id == b.parent_id
    &&& a.id == b.id
    &&& a.depth == b.depth
    &&& a.definition_lookup == b.definition_lookup
    &&& a.body == b.body
    &&& a.scope == b.scope
    &&& a.children == b.children
    &&& a.fields@.len() == b.fields@.len()
    &&& (a.context_type is Function <==> b.context_type is Function)
    &&& (a.context_type is Struct <==> b.context_type is Struct)
    &&& (a.context_type is Domain <==> b.context_type is Domain)
}

/// The program is the same but for resolved types.
pub open spec fn kept_but_types(a: CodeGen, b: CodeGen) -> bool {
    &&& a.contexts@.len() == b.contexts@.len()
    &&& forall|i: int| 0 <= i < a.contexts@.len() ==> same_but_types(#[trigger] a.contexts@[i], b.contexts@[i])
    &&& a.current_id == b.current_id
    &&& a.parents == b.parents
    &&& a.runtime_vars@.len() == b.runtime_vars@.len()
    &&& a.field_names == b.field_names
    &&& a.context_names == b.context_names
    &&& a.context_full_names == b.context_full_names
    &&& a.domain_vars@.len() == b.domain_vars@.len()
    &&& forall|i: int| 0 <= i < a.domain_vars@.len() ==> (#[trigger] a.domain_vars@[i])@.len() == b.domain_vars@[i]@.len()
}


/// An upper bound on how far generating a statement of a function moves
/// the buffer's counters, its nested blocks included.
pub open spec fn stmt_cost(s: Node) -> nat
    decreases s, 2nat,
{
    match s {
        Node::Declaration(..) => expr_cost(s) + 2,
        Node::Assignment(..) => expr_cost(s) + 2,
        Node::Else(i, b) => stmt_cost(*i) + block_cost(*b),
        Node::If(c, b) => expr_cost(*c) + 2 + block_cost(*b),
        Node::Return(v) => if *v is Empty {
            0
        } else {
            expr_cost(*v) + 1
        },
        Node::FunctionCall(f, p) => expr_cost(*f) + expr_cost(*p) + 9,
        Node::While(c, b) => expr_cost(*c) + 2 + block_cost(*b),
        _ => 0,
    }
}

/// The cost of a block's statements; nothing for anything else.
pub open spec fn block_cost(b: Node) -> nat
    decreases b, 1nat,
{
    match b {
        Node::Block(v) => body_cost(v@),
        _ => 0,
    }
}

/// The cost of a sequence of statements.
pub open spec fn body_cost(s: Seq<Rc<Node>>) -> nat
    decreases s, 0nat,
{
    if s.len() == 0 {
        0
    } else {
        stmt_cost(*s[0]) + body_cost(s.drop_first())
    }
}

/// How many steps a statement takes, nested blocks included.
pub open spec fn stmt_size(s: Node) -> nat
    decreases s, 2nat,
{
    match s {
        Node::Else(i, b) => 3 + stmt_size(*i) + block_size(*b),
        Node::If(_, b) => 2 + block_size(*b),
        Node::While(_, b) => 2 + block_size(*b),
        _ => 1,
    }
}

/// How many steps a block's statements take.
pub open spec fn block_size(b: Node) -> nat
    decreases b, 1nat,
{
    match b {
        Node::Block(v) => body_size(v@),
        _ => 0,
    }
}

/// How many steps a sequence of statements takes.
pub open spec fn body_size(s: Seq<Rc<Node>>) -> nat
    decreases s, 0nat,
{
    if s.len() == 0 {
        0
    } else {
        stmt_size(*s[0]) + body_size(s.drop_first())
    }
}

/// A block being generated: the next statement, the statements, the
/// variables it declared, the instruction that closes it, and how it was
/// entered.
pub struct BodyFrame {
    pub index: usize,
    pub body: Rc<Vec<Rc<Node>>>,
    pub vars: Vec<String>,
    pub trail: Option<Instruction>,
    pub mode: CodegenBodyStackMode,
}

/// Whether a statement returns a value.
pub open spec fn returns_value(n: Node) -> bool {
    n matches Node::Return(v) && !(*v is Empty)
}

/// Whether the statements up to `upto` of a function that returns nothing
/// return no value.
pub open spec fn no_value_returned(body: Seq<Rc<Node>>, upto: int) -> bool {
    forall|k: int| 0 <= k < upto ==> !returns_value(*#[trigger] body[k])
}

/// Whether a context's body returns as its type declares: a function that
/// returns a value has a return at the top level of its body; one that
/// returns nothing returns no value there. Other contexts have no such
/// rule.
pub open spec fn returns_as_declared(c: Context) -> bool {
    match c.context_type {
        ContextType::Function(t) => if t == ValueType::Primitive(PrimitiveType::Void) {
            no_value_returned((*c.body)@, (*c.body)@.len() as int)
        } else {
            exists|k: int| 0 <= k < (*c.body)@.len() && (*#[trigger] (*c.body)@[k]) is Return
        },
        _ => true,
    }
}

/// Whether a frame is a fresh one over `body`, closed by `trail`, in
/// `mode`.
pub open spec fn fresh_frame(
    f: BodyFrame,
    body: Seq<Rc<Node>>,
    trail: Option<InstructionView>,
    mode: CodegenBodyStackMode,
) -> bool {
    &&& (*f.body)@ == body
    &&& f.index == 0
    &&& f.vars@.len() == 0
    &&& f.mode == mode
    &&& match f.trail {
        Some(t) => trail == Some(t@),
        None => trail is None,
    }
}

/// The frames a statement opens on top of `old`, giving `new`: an if opens
/// its block, closed by an end of if, or by an else when it is the if that
/// an else follows; a while opens its block, closed by an end of repeat; an
/// else opens its block, closed by an end of if, and on top of it its if,
/// in else mode. Other statements open none.
pub open spec fn opens_frames(n: Node, mode: CodegenBodyStackMode, old: Seq<BodyFrame>, new: Seq<BodyFrame>) -> bool {
    match n {
        Node::If(_, b) => *b matches Node::Block(v) && new.len() == old.len() + 1 && new.take(old.len() as int) == old
            && fresh_frame(
            new.last(),
            v@,
            Some(bare(if mode == CodegenBodyStackMode::Plain { act(Parent::EndIf, 0) } else { act(Parent::Else, 0) })),
            mode,
        ),
        Node::While(_, b) => *b matches Node::Block(v) && new.len() == old.len() + 1 && new.take(old.len() as int)
            == old && fresh_frame(new.last(), v@, Some(bare(act(Parent::EndRep, 0))), mode),
        Node::Else(i, b) => *b matches Node::Block(v) && new.len() == old.len() + 2 && new.take(old.len() as int)
            == old && fresh_frame(new[old.len() as int], v@, Some(bare(act(Parent::EndIf, 0))), mode) && fresh_frame(
            new.last(),
            seq![i],
            None,
            CodegenBodyStackMode::Else,
        ),
        _ => new == old,
    }
}

/// Whether generating a context's code cannot fail: it is no function, or
/// a function that returns nothing and has no statements.
pub open spec fn code_free(c: Context) -> bool {
    match c.context_type {
        ContextType::Function(t) => t == ValueType::Primitive(PrimitiveType::Void) && (*c.body)@.len() == 0,
        _ => true,
    }
}

/// Whether a type still named by its syntax names a primitive type, as
/// seen from context `c`.
pub open spec fn named_simply(g: CodeGen, c: int, t: ValueType) -> bool {
    match t {
        ValueType::Ident(n) => primitive_type_name(g, c, *n) is Some,
        _ => true,
    }
}

/// Whether resolving the types of the program cannot fail: every field
/// type and every function's return type names a primitive type (or, for
/// a return, nothing), as seen from its context.
pub open spec fn fill_free(g: CodeGen) -> bool {
    forall|c: int| 0 <= c < g.contexts@.len() ==> {
        &&& forall|j: int| 0 <= j < g.contexts@[c].fields@.len() ==> named_simply(
            g,
            c,
            #[trigger] g.contexts@[c].fields@[j].field_type,
        )
        &&& match (#[trigger] g.contexts@[c]).context_type {
            ContextType::Function(ValueType::Ident(n)) => *n is Empty || primitive_type_name(g, c, *n) is Some,
            _ => true,
        }
    }
}

/// Resolving types keeps what a name is seen as from each context.
proof fn lemma_primitive_name_kept(a: CodeGen, b: CodeGen, c: int, n: Rc<Node>)
    requires
        gen_ok(a),
        kept_but_types(a, b),
        0 <= c < a.contexts@.len(),
    ensures
        primitive_type_name(a, c, *n) == primitive_type_name(b, c, *n),
{
    let p = a.parents@[c] as int;
    assert(a.parents@[c] == a.contexts@[c].parent_id);
    assert(p <= c);
    assert(same_but_types(a.contexts@[p], b.contexts@[p]));
}

/// Whether the code holds, at `i`, a function header for `func_id` with
/// `n` parameters: the function's identifier, then those the function is
/// called with.
pub open spec fn header_at(code: Seq<InstructionView>, i: int, func_id: u32, n: nat) -> bool {
    &&& 0 <= i < code.len()
    &&& code[i].action == act(Parent::Func, 0)
    &&& code[i].params.len() == n
    &&& n > 0
    &&& code[i].params[0] == slotless(ValueView::Ident(func_id))
}

/// How many parameters the header of function context `c`, which returns
/// `t`, has: the function's identifier, `self` inside a struct, the
/// register for the returned value unless it returns nothing, and one per
/// field.
pub open spec fn header_size(g: CodeGen, c: int, t: ValueType) -> nat {
    (1 + (if g.contexts@[g.parents@[c] as int].context_type is Struct {
        1int
    } else {
        0
    }) + (if t == ValueType::Primitive(PrimitiveType::Void) { 0int } else { 1 }) + g.contexts@[c].fields@.len()) as nat
}

/// Whether, when context `c` of `g` is a function, `code` holds its header
/// at `i`, naming it by the identifier `functions` gives its full name.
pub open spec fn function_header(
    g: CodeGen,
    code: Seq<InstructionView>,
    functions: Map<Seq<char>, u32>,
    c: int,
    i: int,
) -> bool {
    match g.contexts@[c].context_type {
        ContextType::Function(t) => {
            &&& functions.dom().contains(g.context_full_names@[c]@)
            &&& header_at(code, i, functions[g.context_full_names@[c]@], header_size(g, c, t))
        },
        _ => true,
    }
}

/// Whether `pos` gives, for each of the first `k` contexts of `g`, where
/// `code` holds its header when it is a function, those places increasing
/// with the context and at or after `start`.
pub open spec fn headers_in_order(
    g: CodeGen,
    code: Seq<InstructionView>,
    functions: Map<Seq<char>, u32>,
    pos: Seq<int>,
    k: int,
    start: int,
) -> bool {
    &&& pos.len() == k
    &&& forall|c: int| 0 <= c < k ==> start <= #[trigger] pos[c] && function_header(g, code, functions, c, pos[c])
    &&& forall|c: int, d: int| 0 <= c < d < k && g.contexts@[c].context_type is Function && g.contexts@[d].context_type is Function
        ==> #[trigger] pos[c] < #[trigger] pos[d]
}

/// Whether a statement declares nothing: no struct, function, domain or
/// field.
pub open spec fn declares_nothing(n: Node) -> bool {
    !(n is Struct || n is Func || n is Domain || n is Declaration)
}

/// Whether a program is a block whose statements declare nothing.
pub open spec fn plain_program(n: &Rc<Node>) -> bool {
    **n matches Node::Block(v) && forall|k: int| 0 <= k < v@.len() ==> declares_nothing(*#[trigger] v@[k])
}

/// A block whose statements declare nothing scans without error.
proof fn lemma_plain_outline(n: &Rc<Node>)
    requires
        plain_program(n),
    ensures
        outline_ok(**n, ContextType::Domain),
{
    if let Node::Block(v) = **n {
        crate::codegen::codegen::lemma_statements_ok(v@, ContextType::Domain);
        assert forall|k: int| 0 <= k < v@.len() implies crate::codegen::codegen::statement_ok(*#[trigger] v@[k], ContextType::Domain) by {
            assert(declares_nothing(*v@[k]));
        }
    }
}

/// The statements of a frame still to generate.
pub open spec fn remaining(f: BodyFrame) -> Seq<Rc<Node>> {
    (*f.body)@.skip(f.index as int)
}

/// The cost of the statements the frames still hold.
pub open spec fn pending_cost(fs: Seq<BodyFrame>) -> nat
    decreases fs.len(),
{
    if fs.len() == 0 {
        0
    } else {
        pending_cost(fs.drop_last()) + body_cost(remaining(fs.last()))
    }
}

/// The steps the frames still take, one more for closing each.
pub open spec fn pending_size(fs: Seq<BodyFrame>) -> nat
    decreases fs.len(),
{
    if fs.len() == 0 {
        0
    } else {
        pending_size(fs.drop_last()) + 1 + body_size(remaining(fs.last()))
    }
}

/// The cost of generating a function: its header and its body.
pub open spec fn function_cost(body: Seq<Rc<Node>>, fields: nat) -> nat {
    5 + 2 * fields + body_cost(body)
}

/// The cost of the expression a reference points to.
pub open spec fn cost_at(n: &Rc<Node>) -> nat {
    expr_cost(**n)
}

/// The cost of the statement a pointer points to.
pub open spec fn stmt_cost_of(n: Rc<Node>) -> nat {
    stmt_cost(*n)
}

/// A statement and the rest follow each other.
pub proof fn lemma_body_skip(s: Seq<Rc<Node>>, j: int)
    requires
        0 <= j < s.len(),
    ensures
        body_cost(s.skip(j)) == stmt_cost(*s[j]) + body_cost(s.skip(j + 1)),
        body_size(s.skip(j)) == stmt_size(*s[j]) + body_size(s.skip(j + 1)),
{
    assert(s.skip(j)[0] == s[j]);
    assert(s.skip(j).drop_first() =~= s.skip(j + 1));
}

/// One statement costs its own.
proof fn lemma_single_body(n: Rc<Node>)
    ensures
        body_cost(seq![n]) == stmt_cost(*n),
        body_size(seq![n]) == stmt_size(*n),
{
    assert(seq![n].drop_first() =~= Seq::<Rc<Node>>::empty());
    assert(body_cost(Seq::<Rc<Node>>::empty()) == 0);
    assert(body_size(Seq::<Rc<Node>>::empty()) == 0);
}

/// Pushing a frame adds its pending cost and size.
proof fn lemma_frames_push(fs: Seq<BodyFrame>, f: BodyFrame)
    ensures
        pending_cost(fs.push(f)) == pending_cost(fs) + body_cost(remaining(f)),
        pending_size(fs.push(f)) == pending_size(fs) + 1 + body_size(remaining(f)),
{
    assert(fs.push(f).drop_last() =~= fs);
}

/// The prefix of a sequence of fields costs its items in order.
pub proof fn lemma_fields_prefix(fs: Seq<Field>, j: int)
    requires
        0 <= j < fs.len(),
    ensures
        fields_cost(fs.take(j + 1)) == fields_cost(fs.take(j)) + type_cost(fs[j].field_type),
        fields_cost(fs.take(j + 1)) <= fields_cost(fs),
    decreases fs.len() - j,
{
    assert(fs.take(j + 1).drop_last() =~= fs.take(j));
    if j + 1 < fs.len() {
        lemma_fields_prefix(fs, j + 1);
    } else {
        assert(fs.take(j + 1) =~= fs);
    }
}

/// The prefix of a sequence of contexts costs its items in order.
pub proof fn lemma_fill_prefix(cs: Seq<Context>, i: int)
    requires
        0 <= i < cs.len(),
    ensures
        fill_cost(cs.take(i + 1)) == fill_cost(cs.take(i)) + return_cost(cs[i].context_type) + fields_cost(cs[i].fields@),
        fill_cost(cs.take(i + 1)) <= fill_cost(cs),
    decreases cs.len() - i,
{
    assert(cs.take(i + 1).drop_last() =~= cs.take(i));
    if i + 1 < cs.len() {
        lemma_fill_prefix(cs, i + 1);
    } else {
        assert(cs.take(i + 1) =~= cs);
    }
}



/// The cost of generating a context's code: a function's, nothing else.
pub open spec fn code_cost(c: Context) -> nat {
    match c.context_type {
        ContextType::Function(_) => function_cost((*c.body)@, c.fields@.len()),
        _ => 0,
    }
}

/// The cost of generating the code of contexts.
pub open spec fn all_code_cost(cs: Seq<Context>) -> nat
    decreases cs.len(),
{
    if cs.len() == 0 {
        0
    } else {
        all_code_cost(cs.drop_last()) + code_cost(cs.last())
    }
}

/// The prefix of a sequence of contexts costs its items in order.
pub proof fn lemma_code_prefix(cs: Seq<Context>, i: int)
    requires
        0 <= i < cs.len(),
    ensures
        all_code_cost(cs.take(i + 1)) == all_code_cost(cs.take(i)) + code_cost(cs[i]),
        all_code_cost(cs.take(i + 1)) <= all_code_cost(cs),
    decreases cs.len() - i,
{
    assert(cs.take(i + 1).drop_last() =~= cs.take(i));
    if i + 1 < cs.len() {
        lemma_code_prefix(cs, i + 1);
    } else {
        assert(cs.take(i + 1) =~= cs);
    }
}

/// A copy of the fields of a context.
fn clone_fields(v: &Vec<Field>) -> (c: Vec<Field>)
    ensures
        c@ == v@,
{
    let mut c: Vec<Field> = Vec::new();
    for j in 0..v.len()
        invariant
            c@ == v@.take(j as int),
    {
        c.push(v[j].clone());
        proof {
            assert(v@.take(j + 1) =~= v@.take(j as int).push(v@[j as int]));
        }
    }
    proof {
        assert(v@.take(v@.len() as int) =~= v@);
    }
    c
}

/// A copy of a vector of nodes.
fn clone_nodes(v: &Vec<Rc<Node>>) -> (c: Vec<Rc<Node>>)
    ensures
        c@ == v@,
{
    let mut c: Vec<Rc<Node>> = Vec::new();
    for j in 0..v.len()
        invariant
            c@ == v@.take(j as int),
    {
        c.push(v[j].clone());
        proof {
            assert(v@.take(j + 1) =~= v@.take(j as int).push(v@[j as int]));
        }
    }
    proof {
        assert(v@.take(v@.len() as int) =~= v@);
    }
    c
}

/// An instruction with no parameters.
fn bare_op(parent: Parent, code: u16) -> (i: Instruction)
    ensures
        i@ == bare(act(parent, code)),
{
    Instruction::new(Action { parent, code })
}

/// Whether the code, grown past `start`, ends with an if's check: a
/// `Varif::Eq` comparing the condition's identifier with 1, so that the
/// block runs when the condition holds. A condition that names a bool
/// variable is compared by that variable's identifier.
pub open spec fn condition_checked(g: CodeGen, context: int, cond: Rc<Node>, start: int, code: Seq<InstructionView>) -> bool {
    &&& start < code.len()
    &&& code.last().action == act(Parent::Varif, VARIF_EQ)
    &&& code.last().params.len() == 2
    &&& code.last().params[0].value is Ident
    &&& code.last().params[1] == slotless(ValueView::Int(1))
    &&& code.last().tags.len() == 0
    &&& match looked_up(g, context, *cond, IdentifierCategory::RuntimeVariable) {
        Some(x) => traced(x) is Some && type_eq(ValueType::Primitive(PrimitiveType::Bool), x.0.value_type)
            ==> code.last().params[0] == slotless(ValueView::Ident(x.0.ident)),
        None => true,
    }
}

/// Whether the code, grown past `start`, opens a loop at `start` and ends
/// with the loop's exit test: a `Varif::Eq` comparing the condition's
/// identifier with 1 that stops the loop, closed by its `EndIf`.
pub open spec fn loop_checked(start: int, code: Seq<InstructionView>) -> bool {
    &&& 0 <= start && start + 3 < code.len()
    &&& code[start] == bare(act(Parent::Rep, REP_FOREVER))
    &&& code[code.len() - 3].action == act(Parent::Varif, VARIF_EQ)
    &&& code[code.len() - 3].params.len() == 2
    &&& code[code.len() - 3].params[0].value is Ident
    &&& code[code.len() - 3].params[1] == slotless(ValueView::Int(1))
    &&& code[code.len() - 2] == bare(act(Parent::Ctrl, CTRL_STOP_REPEAT))
    &&& code[code.len() - 1] == bare(act(Parent::EndIf, 0))
}

/// A check that an identifier holds 1.
fn is_one_op(ident: u32) -> (i: Instruction)
    ensures
        i@ == (InstructionView {
            params: seq![slotless(ValueView::Ident(ident)), slotless(ValueView::Int(1))],
            ..bare(act(Parent::Varif, VARIF_EQ))
        }),
{
    let mut check = Instruction::new(Action { parent: Parent::Varif, code: VARIF_EQ });
    check.push_param(Parameter::from_ident(ident));
    check.push_param(Parameter::from_value(ParameterValue::Int(1)));
    assert(check@.params =~= seq![slotless(ValueView::Ident(ident)), slotless(ValueView::Int(1))]);
    check
}

impl CodeGen {
    /// Sets the type of a field of a context.
    fn set_field_type(&mut self, context: usize, field: usize, field_type: ValueType)
        requires
            gen_ok(*old(self)),
            fnames_ok(*old(self)),
            context < old(self).contexts@.len(),
            field < old(self).contexts@[context as int].fields@.len(),
            type_ids_ok(field_type, old(self).contexts@.len()),
        ensures
            gen_ok(*final(self)),
            fnames_ok(*final(self)),
            final(self).buffer == old(self).buffer,
            kept_but_types(*old(self), *final(self)),
            final(self).domain_vars == old(self).domain_vars,
            final(self).contexts@ == old(self).contexts@.update(
                context as int,
                Context {
                    fields: final(self).contexts@[context as int].fields,
                    ..old(self).contexts@[context as int]
                },
            ),
            final(self).contexts@[context as int].fields@ == old(self).contexts@[context as int].fields@.update(
                field as int,
                Field { field_type, scope: old(self).contexts@[context as int].fields@[field as int].scope },
            ),
    {
        let ghost g0 = *self;
        let mut ctx = self.contexts.remove(context);
        let scope = ctx.fields[field].scope;
        ctx.fields.set(field, Field { field_type, scope });
        self.contexts.insert(context, ctx);
        proof {
            assert(self.contexts@ =~= g0.contexts@.update(context as int, ctx));
            let n = self.contexts@.len();
            assert(defs(ctx) == defs(g0.contexts@[context as int]));
            assert(contexts_wf(self.contexts@)) by {
                assert forall|i: int| 0 <= i < n implies {
                    &&& (#[trigger] self.contexts@[i]).id == i
                    &&& self.contexts@[i].parent_id <= i
                    &&& defs_in_range(self.contexts@[i], n)
                } by {
                    if i == context {
                        assert(defs_in_range(g0.contexts@[i], n));
                    }
                }
            }
            assert(types_ok(*self)) by {
                assert forall|c: int, j: int| 0 <= c < n && 0 <= j < self.contexts@[c].fields@.len()
                    implies type_ids_ok(#[trigger] self.contexts@[c].fields@[j].field_type, n) by {
                    if c != context {
                        assert(self.contexts@[c] == g0.contexts@[c]);
                    } else if j != field {
                        assert(self.contexts@[c].fields@[j] == g0.contexts@[c].fields@[j]);
                    }
                }
                assert forall|c: int| 0 <= c < n implies (#[trigger] self.contexts@[c].context_type matches ContextType::Function(t)
                    ==> type_ids_ok(t, n)) by {
                    assert(self.contexts@[c].context_type == g0.contexts@[c].context_type);
                }
            }
            assert(domains_ok(*self)) by {
                assert forall|i: int| 0 <= i < self.contexts@.len() && i < self.domain_vars@.len()
                    && (#[trigger] self.contexts@[i]).context_type is Domain
                    implies self.contexts@[i].fields@.len() <= self.domain_vars@[i]@.len() by {
                    assert(self.contexts@[i].fields@.len() == g0.contexts@[i].fields@.len());
                    assert(self.contexts@[i].context_type == g0.contexts@[i].context_type);
                }
            }
            assert(fnames_ok(*self)) by {
                assert forall|c: int| 0 <= c < self.contexts@.len() && c < self.field_names@.len()
                    && (#[trigger] self.contexts@[c]).context_type is Function
                    implies self.contexts@[c].fields@.len() <= self.field_names@[c]@.len() by {
                    assert(self.contexts@[c].fields@.len() == g0.contexts@[c].fields@.len());
                    assert(self.contexts@[c].context_type == g0.contexts@[c].context_type);
                }
            }
            assert forall|i: int| 0 <= i < g0.contexts@.len() implies same_but_types(#[trigger] g0.contexts@[i], self.contexts@[i]) by {
            }
            assert(tables_ok(*self));
        }
    }

    /// Sets the return type of a function.
    fn set_return_type(&mut self, context: usize, return_type: ValueType)
        requires
            gen_ok(*old(self)),
            fnames_ok(*old(self)),
            context < old(self).contexts@.len(),
            old(self).contexts@[context as int].context_type is Function,
            type_ids_ok(return_type, old(self).contexts@.len()),
        ensures
            gen_ok(*final(self)),
            fnames_ok(*final(self)),
            final(self).buffer == old(self).buffer,
            kept_but_types(*old(self), *final(self)),
            final(self).domain_vars == old(self).domain_vars,
            final(self).contexts@ == old(self).contexts@.update(
                context as int,
                Context { context_type: ContextType::Function(return_type), ..old(self).contexts@[context as int] },
            ),
    {
        let ghost g0 = *self;
        let mut ctx = self.contexts.remove(context);
        ctx.context_type = ContextType::Function(return_type);
        self.contexts.insert(context, ctx);
        proof {
            assert(self.contexts@ =~= g0.contexts@.update(context as int, ctx));
            let n = self.contexts@.len();
            assert(defs(ctx) == defs(g0.contexts@[context as int]));
            assert(contexts_wf(self.contexts@)) by {
                assert forall|i: int| 0 <= i < n implies {
                    &&& (#[trigger] self.contexts@[i]).id == i
                    &&& self.contexts@[i].parent_id <= i
                    &&& defs_in_range(self.contexts@[i], n)
                } by {
                    if i == context {
                        assert(defs_in_range(g0.contexts@[i], n));
                    }
                }
            }
            assert(types_ok(*self)) by {
                assert forall|c: int, j: int| 0 <= c < n && 0 <= j < self.contexts@[c].fields@.len()
                    implies type_ids_ok(#[trigger] self.contexts@[c].fields@[j].field_type, n) by {
                    assert(self.contexts@[c].fields == g0.contexts@[c].fields);
                }
                assert forall|c: int| 0 <= c < n implies (#[trigger] self.contexts@[c].context_type matches ContextType::Function(t)
                    ==> type_ids_ok(t, n)) by {
                    if c != context {
                        assert(self.contexts@[c] == g0.contexts@[c]);
                    }
                }
            }
            assert(domains_ok(*self)) by {
                assert forall|i: int| 0 <= i < self.contexts@.len() && i < self.domain_vars@.len()
                    && (#[trigger] self.contexts@[i]).context_type is Domain
                    implies self.contexts@[i].fields@.len() <= self.domain_vars@[i]@.len() by {
                    if i != context {
                        assert(self.contexts@[i] == g0.contexts@[i]);
                    }
                }
            }
            assert(fnames_ok(*self)) by {
                assert forall|c: int| 0 <= c < self.contexts@.len() && c < self.field_names@.len()
                    && (#[trigger] self.contexts@[c]).context_type is Function
                    implies self.contexts@[c].fields@.len() <= self.field_names@[c]@.len() by {
                    assert(self.contexts@[c].fields == g0.contexts@[c].fields);
                }
            }
            assert forall|i: int| 0 <= i < g0.contexts@.len() implies same_but_types(#[trigger] g0.contexts@[i], self.contexts@[i]) by {
            }
            assert(tables_ok(*self));
        }
    }

    /// Sets the type of a domain's variable.
    fn set_domain_var_type(&mut self, context: usize, index: usize, var_type: ValueType)
        requires
            gen_ok(*old(self)),
            fnames_ok(*old(self)),
            context < old(self).contexts@.len(),
            index < old(self).domain_vars@[context as int]@.len(),
            type_ids_ok(var_type, old(self).contexts@.len()),
        ensures
            gen_ok(*final(self)),
            fnames_ok(*final(self)),
            final(self).buffer == old(self).buffer,
            kept_but_types(*old(self), *final(self)),
            final(self).contexts == old(self).contexts,
            final(self).domain_vars@.len() == old(self).domain_vars@.len(),
            forall|c: int| 0 <= c < old(self).domain_vars@.len() && c != context ==> #[trigger] final(self).domain_vars@[c]
                == old(self).domain_vars@[c],
            final(self).domain_vars@[context as int]@ == old(self).domain_vars@[context as int]@.update(
                index as int,
                RuntimeVariable {
                    variable: CodegenValue {
                        value_type: var_type,
                        ..old(self).domain_vars@[context as int]@[index as int].variable
                    },
                    ..old(self).domain_vars@[context as int]@[index as int]
                },
            ),
    {
        let ghost g0 = *self;
        let mut vars = self.domain_vars.remove(context);
        let mut var = vars.remove(index);
        var.variable.value_type = var_type;
        vars.insert(index, var);
        self.domain_vars.insert(context, vars);
        proof {
            let n = self.contexts@.len();
            assert(self.domain_vars@ =~= g0.domain_vars@.update(context as int, vars));
            assert(vars@ =~= g0.domain_vars@[context as int]@.update(index as int, var));
            assert(types_ok(*self)) by {
                assert forall|c: int, j: int| 0 <= c < n && c < self.domain_vars@.len() && 0 <= j < self.domain_vars@[c]@.len()
                    implies type_ids_ok(#[trigger] self.domain_vars@[c]@[j].variable.value_type, n) by {
                    if c != context {
                        assert(self.domain_vars@[c] == g0.domain_vars@[c]);
                    } else if j != index {
                        assert(self.domain_vars@[c]@[j] == g0.domain_vars@[c]@[j]);
                    }
                }
            }
            assert(domains_ok(*self)) by {
                assert forall|i: int| 0 <= i < self.contexts@.len() && i < self.domain_vars@.len()
                    && (#[trigger] self.contexts@[i]).context_type is Domain
                    implies self.contexts@[i].fields@.len() <= self.domain_vars@[i]@.len() by {
                    if i != context {
                        assert(self.domain_vars@[i] == g0.domain_vars@[i]);
                    }
                }
            }
            assert forall|i: int| 0 <= i < g0.domain_vars@.len() implies (#[trigger] g0.domain_vars@[i])@.len()
                == self.domain_vars@[i]@.len() by {
                if i != context {
                    assert(self.domain_vars@[i] == g0.domain_vars@[i]);
                }
            }
            assert(tables_ok(*self));
        }
    }

    /// Resolves the types that fields and function returns name, context
    /// by context in order; a function with no return type returns
    /// nothing. A domain's variables take the types of their fields.
    #[verifier::rlimit(100)]
    #[verifier::spinoff_prover]
    pub fn fill_all_field_types(&mut self) -> (r: Result<(), CodegenError>)
        requires
            gen_ok(*old(self)),
            fnames_ok(*old(self)),
            room(old(self).buffer@, fill_cost(old(self).contexts@)),
            fill_cost(old(self).contexts@) <= usize::MAX,
        ensures
            gen_ok(*final(self)),
            fnames_ok(*final(self)),
            kept_but_types(*old(self), *final(self)),
            grows(old(self).buffer@, final(self).buffer@, fill_cost(old(self).contexts@)),
            r is Ok ==> filled(*final(self)),
            r is Ok ==> forall|c: int| 0 <= c < old(self).contexts@.len() ==> #[trigger] resolved_in(
                *old(self),
                *final(self),
                c,
            ),
            fill_free(*old(self)) ==> r is Ok,
    {
        let ghost g0 = *self;
        let n = self.contexts.len();
        proof {
            assert(g0.contexts@.take(0) =~= Seq::<Context>::empty());
        }
        for context_id in 0..n
            invariant
                gen_ok(*self),
                fnames_ok(*self),
                kept_but_types(g0, *self),
                g0 == *old(self),
                gen_ok(g0),
                n == self.contexts@.len(),
                n == g0.contexts@.len(),
                room(g0.buffer@, fill_cost(g0.contexts@)),
                fill_cost(g0.contexts@) <= usize::MAX,
                grows(g0.buffer@, self.buffer@, fill_cost(g0.contexts@.take(context_id as int))),
                fill_cost(g0.contexts@.take(context_id as int)) <= fill_cost(g0.contexts@),
                forall|k: int| context_id <= k < n ==> #[trigger] self.contexts@[k] == g0.contexts@[k],
                forall|c: int, j: int| 0 <= c < context_id && 0 <= j < self.contexts@[c].fields@.len()
                    ==> !(#[trigger] self.contexts@[c].fields@[j].field_type is Ident),
                forall|c: int| 0 <= c < context_id ==> !(#[trigger] self.contexts@[c].context_type matches ContextType::Function(
                    ValueType::Ident(_),
                )),
                forall|c: int| 0 <= c < context_id ==> #[trigger] resolved_in(g0, *self, c),
                forall|k: int| context_id <= k < n ==> #[trigger] self.domain_vars@[k] == g0.domain_vars@[k],
        {
            proof {
                lemma_fill_prefix(g0.contexts@, context_id as int);
            }
            let ghost c0 = g0.contexts@[context_id as int];
            let ghost base = fill_cost(g0.contexts@.take(context_id as int));
            let return_node: Option<Rc<Node>> = match &self.contexts[context_id].context_type {
                ContextType::Function(ValueType::Ident(node)) => Some(node.clone()),
                _ => None,
            };
            let ghost before_return = *self;
            if let Some(node) = return_node {
                let return_type_set = if !matches!(&*node, Node::Empty) {
                    proof {
                        assert(g0.contexts@[context_id as int] == self.contexts@[context_id as int]);
                        lemma_primitive_name_kept(g0, *self, context_id as int, node);
                    }
                    self.get_type(&node, context_id)?
                } else {
                    ValueType::Primitive(PrimitiveType::Void)
                };
                self.set_return_type(context_id, return_type_set);
            }
            let ghost after_return = *self;
            proof {
                assert forall|c: int| 0 <= c < context_id implies #[trigger] resolved_in(g0, *self, c) by {
                    assert(self.contexts@[c] == before_return.contexts@[c]);
                    assert(self.domain_vars@[c] == before_return.domain_vars@[c]);
                    lemma_resolved_kept(g0, before_return, *self, c);
                }
                assert(return_resolved(g0, *self, context_id as int));
            }
            let fields_len = self.contexts[context_id].fields.len();
            let domain_vars_len = self.domain_vars[context_id].len();
            proof {
                assert(c0.fields@.take(0) =~= Seq::<Field>::empty());
            }
            for field in 0..fields_len
                invariant
                    gen_ok(*self),
                    fnames_ok(*self),
                    kept_but_types(g0, *self),
                    g0 == *old(self),
                    gen_ok(g0),
                    n == self.contexts@.len(),
                    n == g0.contexts@.len(),
                    context_id < n,
                    c0 == g0.contexts@[context_id as int],
                    room(g0.buffer@, fill_cost(g0.contexts@)),
                    fill_cost(g0.contexts@) <= usize::MAX,
                    base + return_cost(c0.context_type) + fields_cost(c0.fields@) <= fill_cost(g0.contexts@),
                    grows(g0.buffer@, self.buffer@, base + return_cost(c0.context_type) + fields_cost(c0.fields@.take(field as int))),
                    fields_len == self.contexts@[context_id as int].fields@.len(),
                    fields_len == c0.fields@.len(),
                    domain_vars_len == self.domain_vars@[context_id as int]@.len(),
                    forall|k: int| context_id < k < n ==> #[trigger] self.contexts@[k] == g0.contexts@[k],
                    forall|j: int| field <= j < fields_len ==> #[trigger] self.contexts@[context_id as int].fields@[j] == c0.fields@[j],
                    forall|j: int| 0 <= j < field ==> !(#[trigger] self.contexts@[context_id as int].fields@[j].field_type is Ident),
                    !(self.contexts@[context_id as int].context_type matches ContextType::Function(ValueType::Ident(_))),
                    forall|c: int, j: int| 0 <= c < context_id && 0 <= j < self.contexts@[c].fields@.len()
                        ==> !(#[trigger] self.contexts@[c].fields@[j].field_type is Ident),
                    forall|c: int| 0 <= c < context_id ==> !(#[trigger] self.contexts@[c].context_type matches ContextType::Function(
                        ValueType::Ident(_),
                    )),
                    forall|c: int| 0 <= c < context_id ==> #[trigger] resolved_in(g0, *self, c),
                    forall|k: int| context_id < k < n ==> #[trigger] self.domain_vars@[k] == g0.domain_vars@[k],
                    forall|j: int| field <= j < domain_vars_len ==> #[trigger] self.domain_vars@[context_id as int]@[j]
                        == g0.domain_vars@[context_id as int]@[j],
                    forall|j: int| 0 <= j < field ==> #[trigger] field_resolved(g0, *self, context_id as int, j),
                    return_resolved(g0, *self, context_id as int),
            {
                let ghost prev = *self;
                proof {
                    lemma_fields_prefix(c0.fields@, field as int);
                }
                let field_node: Option<Rc<Node>> = match &self.contexts[context_id].fields[field].field_type {
                    ValueType::Ident(node) => Some(node.clone()),
                    _ => None,
                };
                if let Some(field_ident) = field_node {
                    proof {
                        if fill_free(g0) {
                            assert(named_simply(g0, context_id as int, g0.contexts@[context_id as int].fields@[field as int].field_type));
                        }
                        lemma_primitive_name_kept(g0, *self, context_id as int, field_ident);
                    }
                    let field_type_set = self.get_type(&field_ident, context_id)?;
                    if field < domain_vars_len {
                        self.set_domain_var_type(context_id, field, field_type_set.clone());
                    }
                    self.set_field_type(context_id, field, field_type_set);
                }
                proof {
                    assert forall|c: int| 0 <= c < context_id implies #[trigger] resolved_in(g0, *self, c) by {
                        assert(self.contexts@[c] == prev.contexts@[c]);
                        assert(self.domain_vars@[c] == prev.domain_vars@[c]);
                        lemma_resolved_kept(g0, prev, *self, c);
                    }
                    assert forall|j: int| 0 <= j < field + 1 implies #[trigger] field_resolved(
                        g0,
                        *self,
                        context_id as int,
                        j,
                    ) by {
                        if j < field {
                            assert(field_resolved(g0, prev, context_id as int, j));
                            assert(self.contexts@[context_id as int].fields@[j] == prev.contexts@[context_id as int].fields@[j]);
                            if j < self.domain_vars@[context_id as int]@.len() {
                                assert(self.domain_vars@[context_id as int]@[j] == prev.domain_vars@[context_id as int]@[j]);
                            }
                        }
                    }
                    assert(self.contexts@[context_id as int].context_type == prev.contexts@[context_id as int].context_type);
                }
            }
            proof {
                assert(c0.fields@.take(fields_len as int) =~= c0.fields@);
                assert(resolved_in(g0, *self, context_id as int));
            }
        }
        proof {
            assert(g0.contexts@.take(n as int) =~= g0.contexts@);
        }
        Ok(())
    }

    /// Adds a run-time variable to a context; a later one of the same
    /// name hides an earlier one.
    fn add_runtime_var(&mut self, context: usize, name: String, variable: RuntimeVariable)
        requires
            gen_ok(*old(self)),
            context < old(self).contexts@.len(),
            type_ids_ok(variable.variable.value_type, old(self).contexts@.len()),
        ensures
            gen_frame(*old(self), *final(self), 0),
            final(self).buffer == old(self).buffer,
            final(self).block_runtime_vars_add == old(self).block_runtime_vars_add,
            str_keyed(final(self).runtime_vars@[context as int]@) == str_keyed(old(self).runtime_vars@[context as int]@).insert(
                name@,
                variable,
            ),
    {
        let ghost g1 = *self;
        let mut vars = self.runtime_vars.remove(context);
        proof {
            crate::table::lemma_str_keyed_push(vars@, name, variable);
        }
        vars.push((name, variable));
        self.runtime_vars.insert(context, vars);
        proof {
            let n = self.contexts@.len();
            assert(self.runtime_vars@ =~= g1.runtime_vars@.update(context as int, vars));
            assert(types_ok(*self)) by {
                assert forall|c: int, j: int| 0 <= c < n && c < self.runtime_vars@.len() && 0 <= j < self.runtime_vars@[c]@.len()
                    implies type_ids_ok(#[trigger] self.runtime_vars@[c]@[j].1.variable.value_type, n) by {
                    if c != context {
                        assert(self.runtime_vars@[c] == g1.runtime_vars@[c]);
                    } else if j < g1.runtime_vars@[c]@.len() {
                        assert(self.runtime_vars@[c]@[j] == g1.runtime_vars@[c]@[j]);
                    }
                }
            }
        }
    }

    /// Removes every run-time variable of a name from a context.
    fn remove_runtime_var(&mut self, context: usize, name: &str)
        requires
            gen_ok(*old(self)),
            context < old(self).contexts@.len(),
        ensures
            gen_frame(*old(self), *final(self), 0),
            final(self).buffer == old(self).buffer,
            final(self).block_runtime_vars_add == old(self).block_runtime_vars_add,
            forall|j: int| 0 <= j < final(self).runtime_vars@[context as int]@.len()
                ==> (#[trigger] final(self).runtime_vars@[context as int]@[j]).0@ != name@,
    {
        let ghost g1 = *self;
        let ghost n = self.contexts@.len();
        let vars = self.runtime_vars.remove(context);
        let mut kept: Vec<(String, RuntimeVariable)> = Vec::new();
        for j in 0..vars.len()
            invariant
                vars@ == g1.runtime_vars@[context as int]@,
                context < g1.runtime_vars@.len(),
                types_ok(g1),
                n == g1.contexts@.len(),
                context < n,
                forall|k: int| 0 <= k < kept@.len() ==> (#[trigger] kept@[k]).0@ != name@,
                forall|k: int| 0 <= k < kept@.len() ==> type_ids_ok((#[trigger] kept@[k]).1.variable.value_type, n),
        {
            if !str_eq(vars[j].0.as_str(), name) {
                proof {
                    assert(type_ids_ok(vars@[j as int].1.variable.value_type, n));
                }
                kept.push((vars[j].0.clone(), vars[j].1.clone()));
            }
        }
        self.runtime_vars.insert(context, kept);
        proof {
            assert(self.runtime_vars@ =~= g1.runtime_vars@.update(context as int, kept));
            assert(types_ok(*self)) by {
                assert forall|c: int, j: int| 0 <= c < n && c < self.runtime_vars@.len() && 0 <= j < self.runtime_vars@[c]@.len()
                    implies type_ids_ok(#[trigger] self.runtime_vars@[c]@[j].1.variable.value_type, n) by {
                    if c != context {
                        assert(self.runtime_vars@[c] == g1.runtime_vars@[c]);
                    }
                }
            }
        }
    }

    /// Generates a function: its header with its parameters (the struct
    /// instance first for a struct's function, then the returned value,
    /// then the declared parameters), then its statements. Blocks are kept
    /// on a stack; each ends with the instruction that closes it and drops
    /// the variables declared in it. Fails when a value is returned from a
    /// function that returns nothing, or when a function that returns a
    /// value does not return one at its top level.
    pub fn generate_function_code(
        &mut self,
        context: usize,
        body: Rc<Vec<Rc<Node>>>,
        fields: Vec<Field>,
        return_type: ValueType,
    ) -> (r: Result<(), CodegenError>)
        requires
            gen_ok(*old(self)),
            context < old(self).contexts@.len(),
            fields@.len() <= old(self).field_names@[context as int]@.len(),
            forall|j: int| 0 <= j < fields@.len() ==> type_ids_ok(#[trigger] fields@[j].field_type, old(self).contexts@.len()),
            type_ids_ok(return_type, old(self).contexts@.len()),
            room(old(self).buffer@, function_cost((*body)@, fields@.len())),
            function_cost((*body)@, fields@.len()) <= usize::MAX,
        ensures
            gen_frame(*old(self), *final(self), function_cost((*body)@, fields@.len())),
            r is Ok && return_type != ValueType::Primitive(PrimitiveType::Void) ==> exists|k: int|
                0 <= k < (*body)@.len() && (*#[trigger] (*body)@[k]) is Return,
            r is Ok && return_type == ValueType::Primitive(PrimitiveType::Void) ==> no_value_returned(
                (*body)@,
                (*body)@.len() as int,
            ),
            header_at(
                final(self).buffer@.code,
                old(self).buffer@.code.len() as int,
                after_function(old(self).buffer@, old(self).context_full_names@[context as int]@).1,
                (1 + (if old(self).contexts@[old(self).parents@[context as int] as int].context_type is Struct {
                    1int
                } else {
                    0
                }) + (if return_type == ValueType::Primitive(PrimitiveType::Void) { 0int } else { 1 }) + fields@.len()) as nat,
            ),
            final(self).buffer@.functions.dom().contains(old(self).context_full_names@[context as int]@),
            final(self).buffer@.functions[old(self).context_full_names@[context as int]@] == after_function(
                old(self).buffer@,
                old(self).context_full_names@[context as int]@,
            ).1,
            return_type == ValueType::Primitive(PrimitiveType::Void) && (*body)@.len() > 0 ==> match *(*body)@[0] {
                Node::Return(v) => !(*v is Empty) ==> (r matches Err(e) && error_at(e, v, ErrorRepr::UnexpectedReturnValue)),
                _ => true,
            },
            (*body)@.len() == 0 ==> if return_type == ValueType::Primitive(PrimitiveType::Void) {
                r is Ok
            } else {
                r matches Err(e) && e.token is None && e.source == ErrorRepr::ExpectedFunctionReturnValue
            },
    {
        let ghost g0 = *self;
        let ghost n = self.contexts@.len();
        let ghost total = function_cost((*body)@, fields@.len());
        let parent = self.parents[context];
        let parent_is_struct = matches!(self.contexts[parent].context_type, ContextType::Struct);
        let func_name = self.context_full_names[context].clone();
        proof {
            lemma_named_costs(self.buffer@, func_name@, VarScope::Line, ValueView::Int(0));
        }
        let func_id = self.buffer.use_function(func_name.as_str());
        let mut header = Instruction::new(Action { parent: Parent::Func, code: 0 });
        header.push_param(Parameter::from_ident(func_id));
        self.buffer.push_code(header);
        let ghost at = g0.buffer@.code.len() as int;
        assert(parent_is_struct == g0.contexts@[g0.parents@[context as int] as int].context_type is Struct);
        assert(func_name@ == g0.context_full_names@[context as int]@);
        let ghost n_params: nat = (1 + (if parent_is_struct { 1int } else { 0 }) + (if return_type
            == ValueType::Primitive(PrimitiveType::Void) { 0int } else { 1 }) + fields@.len()) as nat;
        proof {
            assert(self.buffer@.code[at].params =~= seq![slotless(ValueView::Ident(func_id))]);
        }
        if parent_is_struct {
            proof {
                lemma_named_costs(self.buffer@, "self"@, VarScope::Line, ValueView::Int(0));
            }
            let self_param = self.buffer.use_return_param("self");
            self.buffer.push_code_param(Parameter::from_ident(self_param.0));
        }
        let return_type_ident: Option<u32> = if !matches!(return_type, ValueType::Primitive(PrimitiveType::Void)) {
            proof {
                lemma_named_costs(self.buffer@, "fr"@, VarScope::Line, ValueView::Int(0));
            }
            let ids = self.buffer.use_return_param("fr");
            self.buffer.push_code_param(Parameter::from_ident(ids.0));
            Some(ids.1)
        } else {
            None
        };
        let mut returned_value = false;
        for field_id in 0..fields.len()
            invariant
                gen_ok(*self),
                same_shape(g0, *self),
                g0 == *old(self),
                n == self.contexts@.len(),
                context < n,
                fields@.len() <= self.field_names@[context as int]@.len(),
                forall|j: int| 0 <= j < fields@.len() ==> type_ids_ok(#[trigger] fields@[j].field_type, n),
                room(g0.buffer@, total),
                total == function_cost((*body)@, fields@.len()),
                grows(g0.buffer@, self.buffer@, (5 + 2 * field_id) as nat),
                self.buffer@.code.len() > 0,
                self.buffer@.code.len() == at + 1,
                at == g0.buffer@.code.len(),
                code_kept(g0.buffer@, self.buffer@),
                header_at(self.buffer@.code, at, func_id, (n_params - fields@.len() + field_id) as nat),
                n_params >= fields@.len() + 1,
                func_id == after_function(g0.buffer@, g0.context_full_names@[context as int]@).1,
                self.buffer@.functions.dom().contains(g0.context_full_names@[context as int]@),
                self.buffer@.functions[g0.context_full_names@[context as int]@] == func_id,
        {
            let field_name = self.field_names[context][field_id].clone();
            let var_name = Self::make_var_name(field_name.as_str(), "rvp");
            proof {
                lemma_named_costs(self.buffer@, var_name@, VarScope::Line, ValueView::Int(0));
            }
            let ids = self.buffer.use_param(var_name.as_str());
            let variable = RuntimeVariable::new_param(fields[field_id].field_type.clone(), var_name, ids);
            self.add_runtime_var(context, field_name, variable);
            self.buffer.push_code_param(Parameter::from_ident(ids.0));
        }
        let mut frames: Vec<BodyFrame> = Vec::new();
        frames.push(BodyFrame { index: 0, body: body.clone(), vars: Vec::new(), trail: None, mode: CodegenBodyStackMode::Plain });
        let ghost mut spent: nat = (5 + 2 * fields@.len()) as nat;
        proof {
            lemma_frames_push(Seq::empty(), frames@[0]);
            assert(frames@ =~= Seq::<BodyFrame>::empty().push(frames@[0]));
            assert((*frames@[0].body)@.skip(0) =~= (*frames@[0].body)@);
        }
        while frames.len() > 0
            invariant
                gen_ok(*self),
                same_shape(g0, *self),
                g0 == *old(self),
                n == self.contexts@.len(),
                context < n,
                type_ids_ok(return_type, n),
                room(g0.buffer@, total),
                total <= usize::MAX,
                total == function_cost((*body)@, fields@.len()),
                grows(g0.buffer@, self.buffer@, spent),
                spent + pending_cost(frames@) <= total,
                forall|k: int| 0 <= k < frames@.len() ==> (#[trigger] frames@[k]).index <= (*frames@[k].body)@.len(),
                return_type_ident is Some <==> return_type != ValueType::Primitive(PrimitiveType::Void),
                frames@.len() > 0 ==> frames@[0].body == body,
                return_type == ValueType::Primitive(PrimitiveType::Void) && (*body)@.len() > 0 && returns_value(
                    *(*body)@[0],
                ) ==> frames@.len() == 1 && frames@[0].index == 0,
                code_kept(g0.buffer@, self.buffer@),
                header_at(self.buffer@.code, at, func_id, n_params),
                n_params == (1 + (if g0.contexts@[g0.parents@[context as int] as int].context_type is Struct {
                    1int
                } else {
                    0
                }) + (if return_type == ValueType::Primitive(PrimitiveType::Void) { 0int } else { 1 }) + fields@.len()) as nat,
                at == g0.buffer@.code.len(),
                func_id == after_function(g0.buffer@, g0.context_full_names@[context as int]@).1,
                self.buffer@.functions.dom().contains(g0.context_full_names@[context as int]@),
                self.buffer@.functions[g0.context_full_names@[context as int]@] == func_id,
                (*body)@.len() == 0 ==> frames@.len() <= 1,
                returned_value ==> exists|k: int| 0 <= k < (*body)@.len() && (*#[trigger] (*body)@[k]) is Return,
                return_type == ValueType::Primitive(PrimitiveType::Void) ==> no_value_returned(
                    (*body)@,
                    if frames@.len() > 0 { frames@[0].index as int } else { (*body)@.len() as int },
                ),
            decreases pending_size(frames@),
        {
            let last = frames.len() - 1;
            if frames[last].index >= frames[last].body.len() {
                let ghost before = frames@;
                let frame = frames.pop().unwrap();
                proof {
                    assert(frames@ == before.drop_last());
                    assert(remaining(frame) =~= Seq::<Rc<Node>>::empty());
                    assert(body_cost(Seq::<Rc<Node>>::empty()) == 0);
                    assert(body_size(Seq::<Rc<Node>>::empty()) == 0);
                }
                if let Some(trail) = frame.trail {
                    self.buffer.push_code(trail);
                }
                let ghost g2 = *self;
                for k in 0..frame.vars.len()
                    invariant
                        gen_ok(*self),
                        same_shape(g2, *self),
                        self.buffer == g2.buffer,
                        context < self.contexts@.len(),
                {
                    self.remove_runtime_var(context, frame.vars[k].as_str());
                }
                continue;
            }
            let ghost before = frames@;
            let mut top = frames.pop().unwrap();
            let statement = top.body[top.index].clone();
            proof {
                lemma_body_skip((*top.body)@, top.index as int);
            }
            top.index = top.index + 1;
            let mode = top.mode;
            frames.push(top);
            proof {
                lemma_frames_push(before.drop_last(), top);
                assert(frames@ == before.drop_last().push(top));
                assert(pending_cost(before) == pending_cost(before.drop_last()) + body_cost(remaining(before.last())));
            }
            let ghost g1 = *self;
            let ghost mid_frames = frames@;
            let ghost code_before = self.buffer@.code;
            let stepped = self.generate_statement(context, &statement, mode, &mut frames, &return_type, return_type_ident);
            proof {
                assert(self.buffer@.code[at] == code_before[at]);
            }
            let is_return = stepped?;
            if is_return && frames.len() == 1 {
                returned_value = true;
            }
            proof {
                spent = (spent + stmt_cost_of(statement) + pending_cost(mid_frames) - pending_cost(frames@)) as nat;
            }
            let ghost before_attach = frames@;
            let mut top = frames.pop().unwrap();
            let ghost t0 = top;
            for k in 0..self.block_runtime_vars_add.len()
                invariant
                    top.index == t0.index,
                    top.body == t0.body,
            {
                top.vars.push(self.block_runtime_vars_add[k].clone());
            }
            frames.push(top);
            proof {
                assert(frames@ =~= before_attach.drop_last().push(top));
                lemma_frames_push(before_attach.drop_last(), top);
                assert(remaining(top) == remaining(before_attach.last()));
            }
            self.block_runtime_vars_add.clear();
        }
        if !returned_value && return_type_ident.is_some() {
            return CodegenError::err_headless(ErrorRepr::ExpectedFunctionReturnValue);
        }
        Ok(())
    }

    /// Generates one statement of a function's body; a block it opens is
    /// pushed onto `frames`. Tells whether the statement returns.
    #[verifier::rlimit(100)]
    #[verifier::spinoff_prover]
    fn generate_statement(
        &mut self,
        context: usize,
        statement: &Rc<Node>,
        mode: CodegenBodyStackMode,
        frames: &mut Vec<BodyFrame>,
        return_type: &ValueType,
        return_type_ident: Option<u32>,
    ) -> (r: Result<bool, CodegenError>)
        requires
            gen_ok(*old(self)),
            context < old(self).contexts@.len(),
            type_ids_ok(*return_type, old(self).contexts@.len()),
            room(old(self).buffer@, stmt_cost(**statement)),
            stmt_cost(**statement) <= usize::MAX,
            forall|k: int| 0 <= k < old(frames)@.len() ==> (#[trigger] old(frames)@[k]).index <= (*old(frames)@[k].body)@.len(),
        ensures
            gen_ok(*final(self)),
            same_shape(*old(self), *final(self)),
            pending_cost(old(frames)@) <= pending_cost(final(frames)@),
            pending_cost(final(frames)@) <= pending_cost(old(frames)@) + stmt_cost(**statement),
            grows(
                old(self).buffer@,
                final(self).buffer@,
                (stmt_cost(**statement) + pending_cost(old(frames)@) - pending_cost(final(frames)@)) as nat,
            ),
            pending_size(final(frames)@) < pending_size(old(frames)@) + stmt_size(**statement),
            forall|k: int| 0 <= k < final(frames)@.len() ==> (#[trigger] final(frames)@[k]).index <= (*final(frames)@[k].body)@.len(),
            final(frames)@.len() >= old(frames)@.len(),
            final(frames)@.take(old(frames)@.len() as int) == old(frames)@,
            code_kept(old(self).buffer@, final(self).buffer@),
            r matches Ok(b) ==> (b == (**statement is Return)),
            r matches Ok(b) ==> (b ==> final(frames)@ == old(frames)@),
            r is Ok ==> opens_frames(**statement, mode, old(frames)@, final(frames)@),
            match **statement {
                Node::Return(v) => !(*v is Empty) && return_type_ident is None ==> (r matches Err(e)
                    && crate::codegen::codegen::error_at(e, v, ErrorRepr::UnexpectedReturnValue)),
                _ => true,
            },
            r is Ok ==> match **statement {
                Node::If(c, _) => condition_checked(
                    *old(self),
                    context as int,
                    c,
                    old(self).buffer@.code.len() as int,
                    final(self).buffer@.code,
                ),
                Node::While(..) => loop_checked(old(self).buffer@.code.len() as int, final(self).buffer@.code),
                Node::Return(..) => final(self).buffer@.code.len() > old(self).buffer@.code.len()
                    && final(self).buffer@.code.last() == bare(act(Parent::Ctrl, CTRL_RETURN)),
                _ => true,
            },
    {
        match &**statement {
            Node::Declaration(..) | Node::Assignment(..) => {
                let void_register = self.void_ident();
                self.generate_expression(context, statement, GenerateExpressionSettings::void(void_register))?;
            },
            Node::Else(if_node, else_block) => {
                let else_statements = match &**else_block {
                    Node::Block(v) => v,
                    _ => {
                        return CodegenError::err(else_block.clone(), ErrorRepr::ExpectedBlock);
                    },
                };
                let else_frame = BodyFrame {
                    index: 0,
                    body: Rc::new(clone_nodes(else_statements)),
                    vars: Vec::new(),
                    trail: Some(bare_op(Parent::EndIf, 0)),
                    mode,
                };
                proof {
                    lemma_frames_push(frames@, else_frame);
                    assert(remaining(else_frame) =~= else_statements@);
                    assert(frames@ == old(frames)@);
                    assert(block_cost(**else_block) == body_cost(else_statements@));
                    assert(block_size(**else_block) == body_size(else_statements@));
                }
                frames.push(else_frame);
                let mut just_if: Vec<Rc<Node>> = Vec::new();
                just_if.push(if_node.clone());
                let if_frame = BodyFrame {
                    index: 0,
                    body: Rc::new(just_if),
                    vars: Vec::new(),
                    trail: None,
                    mode: CodegenBodyStackMode::Else,
                };
                proof {
                    lemma_frames_push(frames@, if_frame);
                    assert(remaining(if_frame) =~= seq![*if_node]);
                    lemma_single_body(*if_node);
                }
                frames.push(if_frame);
                proof {
                    assert(frames@.take(old(frames)@.len() as int) =~= old(frames)@);
                    assert(just_if@ =~= seq![*if_node]);
                    assert(opens_frames(**statement, mode, old(frames)@, frames@));
                }
                assert(pending_cost(frames@) <= pending_cost(old(frames)@) + stmt_cost(**statement));
            },
            Node::If(if_condition, if_block) => {
                let ghost g0 = *self;
                let if_allocation = self.new_group();
                proof {
                    lemma_lookup_kinds(g0, *self, context as int, *if_condition, IdentifierCategory::RuntimeVariable);
                }
                let cond_settings = GenerateExpressionSettings::parameter(if_allocation).expect_type(
                    &ValueType::Primitive(PrimitiveType::Bool),
                );
                let expr_id = self.generate_expression(context, if_condition, cond_settings)?;
                self.buffer.push_code(is_one_op(expr_id.value.ident));
                let if_statements = match &**if_block {
                    Node::Block(v) => v,
                    _ => {
                        return CodegenError::err(if_block.clone(), ErrorRepr::ExpectedBlock);
                    },
                };
                let trail = match mode {
                    CodegenBodyStackMode::Plain => bare_op(Parent::EndIf, 0),
                    CodegenBodyStackMode::Else => bare_op(Parent::Else, 0),
                };
                let if_frame = BodyFrame {
                    index: 0,
                    body: Rc::new(clone_nodes(if_statements)),
                    vars: Vec::new(),
                    trail: Some(trail),
                    mode,
                };
                proof {
                    lemma_frames_push(frames@, if_frame);
                    assert(remaining(if_frame) =~= if_statements@);
                    assert(frames@ == old(frames)@);
                    assert(block_cost(**if_block) == body_cost(if_statements@));
                    assert(block_size(**if_block) == body_size(if_statements@));
                    assert(stmt_cost(**statement) == cost_at(if_condition) + 2 + block_cost(**if_block));
                }
                frames.push(if_frame);
                proof {
                    assert(frames@.take(old(frames)@.len() as int) =~= old(frames)@);
                    assert(trail@ == bare(act(Parent::EndIf, 0)) || trail@ == bare(act(Parent::Else, 0)));
                    assert(opens_frames(**statement, mode, old(frames)@, frames@));
                }
                self.release_group(if_allocation);
                assert(pending_cost(frames@) <= pending_cost(old(frames)@) + stmt_cost(**statement));
            },
            Node::Return(return_value) => {
                if !matches!(&**return_value, Node::Empty) {
                    let return_ident = match return_type_ident {
                        Some(i) => i,
                        None => {
                            return CodegenError::err(return_value.clone(), ErrorRepr::UnexpectedReturnValue);
                        },
                    };
                    let value_settings = GenerateExpressionSettings::ident(return_ident).expect_type(return_type);
                    self.generate_expression(context, return_value, value_settings)?;
                }
                self.buffer.push_code(bare_op(Parent::Ctrl, CTRL_RETURN));
                return Ok(true);
            },
            Node::FunctionCall(function_ident, function_parameters) => {
                let void_register = self.void_ident();
                self.call_function(context, function_ident, function_parameters, void_register)?;
            },
            Node::While(while_cond, while_block) => {
                self.buffer.push_code(bare_op(Parent::Rep, REP_FOREVER));
                let while_allocation = self.new_group();
                let cond_settings = GenerateExpressionSettings::parameter(while_allocation).expect_type(
                    &ValueType::Primitive(PrimitiveType::Bool),
                );
                let expr_id = self.generate_expression(context, while_cond, cond_settings)?;
                self.buffer.push_code(is_one_op(expr_id.value.ident));
                self.buffer.push_code(bare_op(Parent::Ctrl, CTRL_STOP_REPEAT));
                self.buffer.push_code(bare_op(Parent::EndIf, 0));
                let while_statements = match &**while_block {
                    Node::Block(v) => v,
                    _ => {
                        return CodegenError::err(while_block.clone(), ErrorRepr::ExpectedBlock);
                    },
                };
                let while_frame = BodyFrame {
                    index: 0,
                    body: Rc::new(clone_nodes(while_statements)),
                    vars: Vec::new(),
                    trail: Some(bare_op(Parent::EndRep, 0)),
                    mode,
                };
                proof {
                    lemma_frames_push(frames@, while_frame);
                    assert(remaining(while_frame) =~= while_statements@);
                    assert(frames@ == old(frames)@);
                    assert(block_cost(**while_block) == body_cost(while_statements@));
                    assert(block_size(**while_block) == body_size(while_statements@));
                    assert(stmt_cost(**statement) == cost_at(while_cond) + 2 + block_cost(**while_block));
                }
                frames.push(while_frame);
                proof {
                    assert(frames@.take(old(frames)@.len() as int) =~= old(frames)@);
                    assert(opens_frames(**statement, mode, old(frames)@, frames@));
                }
                self.release_group(while_allocation);
                assert(pending_cost(frames@) <= pending_cost(old(frames)@) + stmt_cost(**statement));
            },
            _ => {},
        }
        Ok(false)
    }

    /// Generates the code of a context: a function's body; a struct or a
    /// domain has none of its own.
    pub fn generate_code(&mut self, context: usize) -> (r: Result<(), CodegenError>)
        requires
            gen_ok(*old(self)),
            fnames_ok(*old(self)),
            context < old(self).contexts@.len(),
            room(old(self).buffer@, code_cost(old(self).contexts@[context as int])),
            code_cost(old(self).contexts@[context as int]) <= usize::MAX,
        ensures
            gen_frame(*old(self), *final(self), code_cost(old(self).contexts@[context as int])),
            fnames_ok(*final(self)),
            r is Ok ==> returns_as_declared(old(self).contexts@[context as int]),
            code_free(old(self).contexts@[context as int]) ==> r is Ok,
            !(old(self).contexts@[context as int].context_type is Function) ==> *final(self) == *old(self),
            function_header(
                *old(self),
                final(self).buffer@.code,
                final(self).buffer@.functions,
                context as int,
                old(self).buffer@.code.len() as int,
            ),
            match old(self).contexts@[context as int].context_type {
                ContextType::Function(t) => t != ValueType::Primitive(PrimitiveType::Void)
                    && (*old(self).contexts@[context as int].body)@.len() == 0 ==> (r matches Err(e) && e.token is None
                    && e.source == ErrorRepr::ExpectedFunctionReturnValue),
                _ => true,
            },
    {
        let body = self.contexts[context].body.clone();
        let context_type = self.contexts[context].context_type.clone();
        let fields = clone_fields(&self.contexts[context].fields);
        proof {
            let n = self.contexts@.len();
            assert forall|j: int| 0 <= j < fields@.len() implies type_ids_ok(#[trigger] fields@[j].field_type, n) by {
                assert(fields@[j] == self.contexts@[context as int].fields@[j]);
            }
        }
        match context_type {
            ContextType::Function(return_type) => {
                self.generate_function_code(context, body, fields, return_type)?;
            },
            _ => {},
        }
        Ok(())
    }

    /// Generates the code of every context, in order.
    pub fn generate_all_code(&mut self) -> (r: Result<(), CodegenError>)
        requires
            gen_ok(*old(self)),
            fnames_ok(*old(self)),
            room(old(self).buffer@, all_code_cost(old(self).contexts@)),
            all_code_cost(old(self).contexts@) <= usize::MAX,
        ensures
            gen_frame(*old(self), *final(self), all_code_cost(old(self).contexts@)),
            fnames_ok(*final(self)),
            r is Ok ==> forall|c: int| 0 <= c < old(self).contexts@.len() ==> returns_as_declared(
                #[trigger] old(self).contexts@[c],
            ),
            (forall|c: int| 0 <= c < old(self).contexts@.len() ==> code_free(#[trigger] old(self).contexts@[c])) ==> r is Ok,
            r is Ok ==> exists|pos: Seq<int>| #[trigger] headers_in_order(
                *old(self),
                final(self).buffer@.code,
                final(self).buffer@.functions,
                pos,
                old(self).contexts@.len() as int,
                old(self).buffer@.code.len() as int,
            ),
    {
        let ghost g0 = *self;
        let n = self.contexts.len();
        let ghost mut pos: Seq<int> = Seq::empty();
        proof {
            assert(g0.contexts@.take(0) =~= Seq::<Context>::empty());
        }
        for context_id in 0..n
            invariant
                gen_ok(*self),
                fnames_ok(*self),
                same_shape(g0, *self),
                g0 == *old(self),
                n == g0.contexts@.len(),
                room(g0.buffer@, all_code_cost(g0.contexts@)),
                all_code_cost(g0.contexts@) <= usize::MAX,
                grows(g0.buffer@, self.buffer@, all_code_cost(g0.contexts@.take(context_id as int))),
                code_kept(g0.buffer@, self.buffer@),
                forall|c: int| 0 <= c < context_id ==> returns_as_declared(#[trigger] g0.contexts@[c]),
                headers_in_order(g0, self.buffer@.code, self.buffer@.functions, pos, context_id as int, g0.buffer@.code.len() as int),
                forall|c: int| 0 <= c < context_id ==> #[trigger] pos[c] <= self.buffer@.code.len(),
        {
            proof {
                lemma_code_prefix(g0.contexts@, context_id as int);
            }
            let ghost before = *self;
            self.generate_code(context_id)?;
            proof {
                let at = before.buffer@.code.len() as int;
                let next = pos.push(at);
                assert forall|c: int| 0 <= c < context_id + 1 implies g0.buffer@.code.len() <= #[trigger] next[c]
                    && function_header(g0, self.buffer@.code, self.buffer@.functions, c, next[c]) by {
                    if c < context_id {
                        assert(function_header(g0, before.buffer@.code, before.buffer@.functions, c, pos[c]));
                        if g0.contexts@[c].context_type is Function {
                            assert(self.buffer@.code[pos[c]] == before.buffer@.code[pos[c]]);
                        }
                    }
                }
                assert forall|c: int| 0 <= c < context_id + 1 implies #[trigger] next[c] <= self.buffer@.code.len() by {
                    if c < context_id {
                        assert(next[c] == pos[c]);
                    }
                }
                assert forall|c: int, d: int| 0 <= c < d < context_id + 1 && g0.contexts@[c].context_type is Function
                    && g0.contexts@[d].context_type is Function implies #[trigger] next[c] < #[trigger] next[d] by {
                    if d < context_id {
                        assert(next[c] == pos[c] && next[d] == pos[d]);
                    } else {
                        assert(function_header(g0, before.buffer@.code, before.buffer@.functions, c, pos[c]));
                    }
                }
                pos = next;
            }
        }
        proof {
            assert(g0.contexts@.take(n as int) =~= g0.contexts@);
            assert(headers_in_order(g0, self.buffer@.code, self.buffer@.functions, pos, n as int, g0.buffer@.code.len() as int));
        }
        Ok(())
    }

    /// Compiles a program: scans its declarations into contexts under a
    /// root domain `main`, resolves the types they name, then generates the
    /// code of every function. A program whose compilation could overflow
    /// the buffer's counters is refused before its types are resolved or
    /// its code generated.
    pub fn codegen_from_node(&mut self, node: Rc<Node>) -> (r: Result<(), CodegenError>)
        requires
            gen_ok(*old(self)),
            fnames_ok(*old(self)),
            old(self).run + node_size(*node) <= usize::MAX,
            old(self).current_id + node_size(*node) <= usize::MAX,
            node_size(*node) <= u32::MAX,
        ensures
            !(*node is Block) ==> (r matches Err(e) && error_at(e, node, ErrorRepr::ExpectedBlock)),
            r is Ok ==> gen_ok(*final(self)) && fnames_ok(*final(self)) && filled(*final(self))
                && final(self).root_context == 0,
            r is Ok ==> forall|c: int| 0 <= c < final(self).contexts@.len() ==> returns_as_declared(
                #[trigger] final(self).contexts@[c],
            ),
            r is Ok ==> (*node matches Node::Block(v) && forall|k: int| 0 <= k < v@.len()
                ==> misplaced(*#[trigger] v@[k], ContextType::Domain) is None),
            r is Ok ==> (*node matches Node::Block(v) && fields_distinct(v@, ContextType::Domain, v@.len() as int)),
            !outline_ok(*node, ContextType::Domain) ==> r is Err,
            match *node {
                Node::Block(v) => forall|k: int| 0 <= k < v@.len() && prefix_ok(v@, ContextType::Domain, k) ==> {
                    &&& misplaced(*#[trigger] v@[k], ContextType::Domain) matches Some(kind) ==> (r matches Err(e)
                        && error_at(e, v@[k], kind))
                    &&& match *v@[k] {
                        Node::Declaration(_, name) => (field_declared(*v@[k], ContextType::Domain) is Some && exists|i: int|
                            0 <= i < k && field_declared(*v@[i], ContextType::Domain) == field_declared(
                                *v@[k],
                                ContextType::Domain,
                            )) ==> (r matches Err(e) && error_at(e, name, ErrorRepr::FieldAlreadyDefined)),
                        _ => true,
                    }
                },
                _ => true,
            },
            old(self).contexts@.len() == 0 && plain_program(&node) ==> r is Ok,
            r is Ok ==> exists|pos: Seq<int>| #[trigger] headers_in_order(
                *final(self),
                final(self).buffer@.code,
                final(self).buffer@.functions,
                pos,
                final(self).contexts@.len() as int,
                0,
            ),
    {
        let ghost plain = plain_program(&node);
        proof {
            if plain {
                lemma_plain_outline(&node);
            }
        }
        self.buffer.clear();
        let _root_context = self.scan_block_outline(
            node,
            ContextType::Domain,
            0,
            0,
            CodeScope::Public,
            Vec::new(),
            String::from_str("main"),
        )?;
        proof {
            if old(self).contexts@.len() == 0 && plain {
                assert(self.contexts@.len() == 1);
                assert(self.contexts@.drop_last() =~= Seq::<Context>::empty());
                assert(self.contexts@.last() == self.contexts@[0]);
                assert(self.contexts@[0].context_type == ContextType::Domain);
                assert(self.contexts@[0].fields@.len() == 0);
                assert(fill_cost(Seq::<Context>::empty()) == 0);
                assert(all_code_cost(Seq::<Context>::empty()) == 0);
                assert(fields_cost(self.contexts@[0].fields@) == 0);
                assert(fill_cost(self.contexts@) == 0);
                assert(all_code_cost(self.contexts@) == 0);
                assert(fill_free(*self));
            }
        }
        let fill = fill_budget(&self.contexts);
        if !self.buffer.has_room(fill) {
            return CodegenError::err_headless(ErrorRepr::Generic);
        }
        let ghost before_fill = *self;
        self.fill_all_field_types()?;
        self.root_context = 0;
        proof {
            if old(self).contexts@.len() == 0 && plain {
                assert(same_but_types(before_fill.contexts@[0], self.contexts@[0]));
                assert(self.contexts@[0].context_type is Domain);
                assert(self.contexts@.drop_last() =~= Seq::<Context>::empty());
                assert(self.contexts@.last() == self.contexts@[0]);
                assert(all_code_cost(Seq::<Context>::empty()) == 0);
                assert(all_code_cost(self.contexts@) == 0);
                assert(self.buffer@.registers.len() == 0);
            }
        }
        let code = all_code_budget(&self.contexts);
        if !self.buffer.has_room(code) {
            return CodegenError::err_headless(ErrorRepr::Generic);
        }
        let ghost before_code = *self;
        self.generate_all_code()?;
        proof {
            let pos = choose|pos: Seq<int>| #[trigger] headers_in_order(
                before_code,
                self.buffer@.code,
                self.buffer@.functions,
                pos,
                before_code.contexts@.len() as int,
                before_code.buffer@.code.len() as int,
            );
            assert(headers_in_order(*self, self.buffer@.code, self.buffer@.functions, pos, self.contexts@.len() as int, 0));
        }
        Ok(())
    }
}

} // verus!
