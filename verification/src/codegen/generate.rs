//! Generating the code of expressions, of assignments through accesses,
//! and of calls: a recursive walk over an expression's tree that hands out
//! registers from groups and writes instructions to the code buffer.
use vstd::prelude::*;
use std::rc::Rc;

use crate::code::{
    Action, Instruction, Parameter, ParameterValue, Parent, VarScope, VAR_ADD, VAR_APPEND_LIST,
    VAR_CREATE_LIST, VAR_GET_DICT_VALUE, VAR_GET_LIST_VALUE, VAR_MUL, VAR_REPEAT_STRING, VAR_SET,
    VAR_SET_ALL_COORDS, VAR_STRING, VAR_VECTOR,
};
use crate::codegen::buffer::{
    after_allocate_grouped, after_free_all, after_number, after_string, grows, lemma_allocate_cost, lemma_free_all_cost, lemma_named_costs, room, BufferView,
};
use crate::codegen::codegen::{
    def_in_range, defs, primitive_named, walk_variable, get_crumb_instr, parameter_nodes, primary_ident, set_crumb_instr, types_ok, CodeGen,
};
use crate::codegen::context::{CodeDefinition, ContextType};
use crate::codegen::errors::{CodegenError, ErrorRepr};
use crate::codegen::expression::{
    access_candidates, access_walk, after_register, after_void, cast_result, op_instr, gen_frame, gen_ok, ident_instr, idents_op, push_if, traced, ResultView, lemma_definition_context, lemma_first_field_in_range, same_shape, values_op,
};
use crate::code::{act, slotless, InstructionView, ValueView};
use crate::codegen::types::{
    type_eq, type_ids_ok, CodegenExpressionResult, CodegenLocationCoordinate, CodegenTrace, CodegenTraceCrumb,
    CodegenTraceCrumbIdent, CodegenValue, CodegenVectorCoordinate, ComptimeType, GenerateExpressionSettings,
    IdentifierCategory, PrimitiveType, RealtimeValueType, RuntimeVariable, ValueType,
};
use crate::lexer::types::{Keyword, TokenType, ValuedKeyword};
use crate::parser::Node;
use crate::table::str_position;
use crate::text::str_eq;

verus! {

/// An upper bound on how far generating an expression moves the buffer's
/// counters.
pub open spec fn expr_cost(n: Node) -> nat
    decreases n, 1nat,
{
    match n {
        Node::Vector(a, b, c) => 64 + expr_cost(*a) + expr_cost(*b) + expr_cost(*c),
        Node::Location(a, b, c, d, e) => 64 + expr_cost(*a) + expr_cost(*b) + expr_cost(*c) + expr_cost(*d)
            + expr_cost(*e),
        Node::Construct(i, b) => 64 + expr_cost(*i) + expr_cost(*b),
        Node::Block(v) => 64 + items_cost(v@),
        Node::Tuple(v) => 64 + items_cost(v@),
        Node::Declaration(t, _) => 64 + expr_cost(*t),
        Node::Assignment(a, x) => 64 + 2 * expr_cost(*a) + expr_cost(*x),
        Node::FunctionCall(f, p) => 64 + expr_cost(*f) + expr_cost(*p),
        Node::Access(a, _) => 64 + expr_cost(*a),
        Node::ListCall(c, i) => 64 + expr_cost(*c) + expr_cost(*i),
        Node::List(v) => 64 + 2 * items_cost(v@),
        Node::Sum(a, b) => 64 + expr_cost(*a) + expr_cost(*b),
        Node::Product(a, b) => 64 + expr_cost(*a) + expr_cost(*b),
        _ => 64,
    }
}

/// The cost of a sequence of expressions, one more for each.
pub open spec fn items_cost(s: Seq<Rc<Node>>) -> nat
    decreases s, 0nat,
{
    if s.len() == 0 {
        0
    } else {
        items_cost(s.drop_last()) + expr_cost(*s.last()) + 1
    }
}

/// The cost of writing through one access of a trace.
pub open spec fn crumb_cost(c: CodegenTraceCrumb) -> nat {
    match c {
        CodegenTraceCrumb::Ident(_) => 2,
        CodegenTraceCrumb::IndexNode(n) => expr_cost(*n) + 2,
        CodegenTraceCrumb::EntryNode(n) => expr_cost(*n) + 2,
    }
}

/// The cost of writing through a trace.
pub open spec fn crumbs_cost(s: Seq<CodegenTraceCrumb>) -> nat
    decreases s.len(),
{
    if s.len() == 0 {
        1
    } else {
        crumbs_cost(s.drop_last()) + crumb_cost(s.last())
    }
}

/// Settings fit an expression: its depth cannot overflow, and the type it
/// expects names existing contexts.
pub open spec fn settings_ok(s: GenerateExpressionSettings, n: nat, node: Node) -> bool {
    &&& s.depth + expr_cost(node) <= usize::MAX
    &&& s.expected_type matches Some(t) ==> type_ids_ok(t, n)
}

/// A generated value names existing contexts, its trace costs at most
/// `bound` to write through, and it has the expected type unless it is a
/// compile-time value.
pub open spec fn value_ok(x: CodegenExpressionResult, s: GenerateExpressionSettings, bound: nat, n: nat, typed: bool) -> bool {
    &&& type_ids_ok(x.value.value_type, n)
    &&& (x.trace matches Some(t) ==> crumbs_cost(t.crumbs@) <= bound)
    &&& (typed ==> (s.expected_type matches Some(t) ==> (type_eq(t, x.value.value_type) || x.value.value_type == t
        || x.value.value_type is Comptime)))
}

/// The buffer after a literal whose identifier is `id`: at the top of an
/// expression that needs a variable, the literal is copied into the
/// expression's register.
pub open spec fn after_literal(v: BufferView, id: u32, s: GenerateExpressionSettings, group: u64) -> BufferView {
    if s.depth == 0 && s.variable_necessary {
        let (w, reg) = after_register(v, s, group);
        push_if(w, s.generate_codeblocks, ident_instr(act(Parent::Var, VAR_SET), seq![reg, id]))
    } else {
        v
    }
}

/// A string or a number token as an expression, before its cast: the
/// buffer after it and its result; none for other tokens.
pub open spec fn literal_step(v: BufferView, t: TokenType, s: GenerateExpressionSettings, group: u64) -> Option<
    (BufferView, ResultView),
> {
    match t {
        TokenType::String(text) => {
            let (w, id) = after_string(v, text@);
            Some(
                (
                    after_literal(w, id, s, group),
                    (CodegenValue { ident: id, value_type: ValueType::Primitive(PrimitiveType::String) }, None),
                ),
            )
        },
        TokenType::Number(n) => {
            let (w, id) = after_number(v, ValueView::Float(n));
            Some(
                (
                    after_literal(w, id, s, group),
                    (CodegenValue { ident: id, value_type: ValueType::Primitive(PrimitiveType::Number) }, None),
                ),
            )
        },
        _ => None,
    }
}

/// What a primary as a whole expression gives: a string or a number is
/// stored and cast to the expected type, or fails where it cannot be cast;
/// a token that no expression starts with fails unwritten. Other nodes, and
/// identifiers and `self`, are left to the other clauses.
pub open spec fn primary_outcome(
    o: BufferView,
    f: BufferView,
    node: Rc<Node>,
    r: Result<CodegenExpressionResult, CodegenError>,
    s: GenerateExpressionSettings,
    group: u64,
) -> bool {
    match *node {
        Node::Primary(t) => match literal_step(o, t.token_type, s, group) {
            Some((w, x)) => match cast_result(w, x, s, group) {
                Some((w2, x2)) => r matches Ok(y) && y@ == x2 && f == w2,
                None => r matches Err(e) && crate::codegen::codegen::error_at(e, node, ErrorRepr::CantImplicitlyCast)
                    && f == w,
            },
            None => bad_primary(t.token_type) ==> (r matches Err(e) && crate::codegen::codegen::error_at(
                e,
                node,
                ErrorRepr::UnexpectedPrimaryToken,
            ) && f == o),
        },
        _ => true,
    }
}

/// The buffer after handing out a new register group.
pub open spec fn with_new_group(v: BufferView) -> BufferView {
    BufferView { group_count: (v.group_count + 1) as u64, ..v }
}

/// The buffer after freeing the registers of group `g` and forgetting it.
pub open spec fn freed_group(v: BufferView, g: u64) -> BufferView {
    if v.groups.dom().contains(g) {
        BufferView { groups: v.groups.remove(g), ..after_free_all(v, v.groups[g]).0 }
    } else {
        v
    }
}

/// The call that `call_function` writes last: a `Call` instruction naming
/// the function by the identifier it was given, then the register for its
/// result unless the function gives no value, then one identifier per argument.
pub open spec fn call_written(b: BufferView, name: Seq<char>, t: ValueType, nargs: nat, return_ident: u32) -> bool {
    let gives_value = t != ValueType::Primitive(PrimitiveType::Void);
    &&& b.code.len() > 0
    &&& b.code.last().action == act(Parent::Call, 0)
    &&& b.code.last().params.len() == (if gives_value { 2nat } else { 1nat }) + nargs
    &&& b.functions.dom().contains(name)
    &&& b.code.last().params[0] == slotless(ValueView::Ident(b.functions[name]))
    &&& gives_value ==> b.code.last().params[1] == slotless(ValueView::Ident(return_ident))
}

/// What calling function context `f`, which gives_value `t`, with the argument
/// node `params` gives: an error when the arguments are no list or are more
/// or fewer than the function's parameters, else `t` and the call written.
pub open spec fn call_outcome(
    o: CodeGen,
    g: CodeGen,
    r: Result<ValueType, CodegenError>,
    f: usize,
    t: ValueType,
    params: Rc<Node>,
    return_ident: u32,
) -> bool {
    let n = o.contexts@[f as int].fields@.len();
    match crate::codegen::codegen::parameter_nodes(params) {
        None => r matches Err(e) && crate::codegen::codegen::error_at(
            e,
            params,
            ErrorRepr::ExpectedFunctionParamDeclaration,
        ),
        Some(ps) => {
            &&& ps.len() > n ==> (r matches Err(e) && crate::codegen::codegen::error_at(
                e,
                params,
                ErrorRepr::UnexpectedFunctionParameter,
            ))
            &&& ps.len() < n ==> (r matches Err(e) && crate::codegen::codegen::error_at(
                e,
                params,
                ErrorRepr::ExpectedFunctionParameter,
            ))
            &&& r is Ok ==> r == Ok::<ValueType, CodegenError>(t) && call_written(
                g.buffer@,
                o.context_full_names@[f as int]@,
                t,
                ps.len(),
                return_ident,
            )
        },
    }
}

/// What a call of function context `f`, which returns `t`, with arguments
/// that are all names or literals passes: each argument that names a
/// variable of its parameter's type, by the variable's identifier, in the
/// order of the arguments, after the function and its result register.
pub open spec fn arguments_passed(
    o: CodeGen,
    g: CodeGen,
    context: int,
    r: Result<ValueType, CodegenError>,
    f: usize,
    t: ValueType,
    params: Rc<Node>,
) -> bool {
    match crate::codegen::codegen::parameter_nodes(params) {
        Some(ps) => r is Ok && (forall|k: int| 0 <= k < ps.len() ==> (*#[trigger] ps[k]) is Primary) ==> forall|k: int|
            0 <= k < ps.len() ==> argument_passed(
            o,
            g.buffer@.code.last(),
            context,
            #[trigger] ps[k],
            o.contexts@[f as int].fields@[k].field_type,
            (if t != ValueType::Primitive(PrimitiveType::Void) { 2int } else { 1int }) + k,
        ),
        None => true,
    }
}

/// Whether every node of a list is a primary (a name or a literal).
pub open spec fn all_primary_nodes(s: Seq<Rc<Node>>) -> bool {
    forall|k: int| 0 <= k < s.len() ==> (*#[trigger] s[k]) is Primary
}

/// Whether a call passes an argument that names a variable of the
/// parameter's type `t` by the variable's identifier, at parameter `at`.
pub open spec fn argument_passed(o: CodeGen, call: InstructionView, context: int, arg: Rc<Node>, t: ValueType, at: int) -> bool {
    match looked_up(o, context, *arg, IdentifierCategory::RuntimeVariable) {
        Some(x) => traced(x) is Some && type_eq(t, x.0.value_type) ==> call.params[at] == slotless(ValueView::Ident(x.0.ident)),
        None => true,
    }
}

/// A generated expression's result as the result of a call: its type, or
/// the error.
pub open spec fn type_result(r: Result<CodegenExpressionResult, CodegenError>) -> Result<ValueType, CodegenError> {
    match r {
        Ok(y) => Ok(y.value.value_type),
        Err(e) => Err(e),
    }
}

/// What a call expression gives, with no expected type and code generated,
/// when its callee names a function: what [`call_outcome`] says of calling it with the
/// register picked for the expression as the result register, and on
/// success that register, of the function's type, with no trace.
pub open spec fn function_call_outcome(
    o: CodeGen,
    g: CodeGen,
    context: int,
    node: Node,
    s: GenerateExpressionSettings,
    group: u64,
    r: Result<CodegenExpressionResult, CodegenError>,
) -> bool {
    match node {
        Node::FunctionCall(fi, fp) => s.expected_type is None && s.generate_codeblocks ==> match looked_up(
            o,
            context,
            *fi,
            IdentifierCategory::Function,
        ) {
            Some(x) => match x.0.value_type {
                ValueType::Comptime(ComptimeType::Function(f)) => match o.contexts@[f as int].context_type {
                    ContextType::Function(t) => {
                        let reg = after_register(o.buffer@, s, group).1;
                        &&& call_outcome(o, g, type_result(r), f, t, fp, reg)
                        &&& r matches Ok(y) ==> y.value == (CodegenValue { ident: reg, value_type: t }) && y.trace is None
                    },
                    _ => true,
                },
                _ => true,
            },
            None => true,
        },
        _ => true,
    }
}

/// A name is looked up as a value of the same type in two states that
/// differ only in their buffers.
pub proof fn lemma_lookup_kinds(g: CodeGen, h: CodeGen, c: int, n: Rc<Node>, pref: IdentifierCategory)
    requires
        g.contexts == h.contexts,
        g.parents == h.parents,
        g.runtime_vars == h.runtime_vars,
        g.domain_vars == h.domain_vars,
        c >= 0,
    ensures
        looked_up(g, c, *n, pref) matches Some(x) ==> (looked_up(h, c, *n, pref) matches Some(y) && x.0.value_type
            == y.0.value_type),
        looked_up(g, c, *n, pref) matches Some(x) ==> (traced(x) is Some ==> looked_up(h, c, *n, pref) == Some(x)),
{
    if ident_of(n) is Some {
        crate::codegen::expression::lemma_walk_kinds(g, h, c as nat, ident_of(n)->0, pref);
    }
}

/// Whether a node is a string or a number literal.
pub open spec fn is_literal(n: Node) -> bool {
    n matches Node::Primary(t) && (t.token_type is String || t.token_type is Number)
}

/// The accesses of a trace that are generated already, in order.
pub open spec fn ready_crumbs(s: Seq<CodegenTraceCrumb>) -> Seq<CodegenTraceCrumbIdent> {
    s.map_values(|c: CodegenTraceCrumb| match c {
        CodegenTraceCrumb::Ident(i) => i,
        _ => CodegenTraceCrumbIdent::IndexDirect(0),
    })
}

/// The primitive type that a node names, when it is one of the primitive
/// type names (`num`, `string`, `bool`, `vec`, `loc`) used in a context
/// whose parent is no struct (inside a struct's function a name is first
/// tried as a field of `self`).
pub open spec fn primitive_type_name(g: CodeGen, context: int, n: Node) -> Option<PrimitiveType> {
    match primary_ident(n) {
        Some(name) => if g.contexts@[g.parents@[context] as int].context_type is Struct {
            None
        } else {
            primitive_named(name)
        },
        None => None,
    }
}

/// What naming a primitive type as an expression with no expected type
/// gives: the compile-time type, held by the void variable.
pub open spec fn names_primitive(
    g: CodeGen,
    context: int,
    n: Node,
    s: GenerateExpressionSettings,
    r: Result<CodegenExpressionResult, CodegenError>,
) -> bool {
    s.expected_type is None && primitive_type_name(g, context, n) is Some ==> (r matches Ok(y)
        && y.value.value_type == ValueType::Comptime(
        ComptimeType::Type(RealtimeValueType::Primitive(primitive_type_name(g, context, n)->0)),
    ) && y.trace is None)
}

/// The type of a string or a number literal.
pub open spec fn literal_type(n: Node) -> Option<PrimitiveType> {
    match n {
        Node::Primary(t) => match t.token_type {
            TokenType::String(_) => Some(PrimitiveType::String),
            TokenType::Number(_) => Some(PrimitiveType::Number),
            _ => None,
        },
        _ => None,
    }
}

/// The type of a sum (or of a product) of values of types `l` and `r`:
/// numbers add and multiply; a string is joined with a string or a number,
/// and repeated a number of times; nothing else.
pub open spec fn arithmetic_type(is_sum: bool, l: PrimitiveType, r: PrimitiveType) -> Option<PrimitiveType> {
    if l == PrimitiveType::Number && r == PrimitiveType::Number {
        Some(PrimitiveType::Number)
    } else if is_sum && l == PrimitiveType::String && (r == PrimitiveType::String || r == PrimitiveType::Number) {
        Some(PrimitiveType::String)
    } else if !is_sum && l == PrimitiveType::String && r == PrimitiveType::Number {
        Some(PrimitiveType::String)
    } else {
        None
    }
}

/// The type an operand has before anything is generated: a literal's
/// type, or the primitive type of the run-time variable its name looks up.
pub open spec fn operand_type(g: CodeGen, context: int, n: Rc<Node>) -> Option<PrimitiveType> {
    match literal_type(*n) {
        Some(t) => Some(t),
        None => match looked_up(g, context, *n, IdentifierCategory::RuntimeVariable) {
            Some(x) => match x.0.value_type {
                ValueType::Primitive(p) => Some(p),
                _ => None,
            },
            None => None,
        },
    }
}

/// The constant a literal is read from, and the buffer after asking for it:
/// a string's or a number's constant; none for other nodes.
pub open spec fn literal_read(v: BufferView, n: Rc<Node>) -> Option<(BufferView, u32)> {
    match *n {
        Node::Primary(t) => match t.token_type {
            TokenType::String(text) => Some(after_string(v, text@)),
            TokenType::Number(x) => Some(after_number(v, ValueView::Float(x))),
            _ => None,
        },
        _ => None,
    }
}

/// The identifier an operand is read from when that is known before it is
/// generated: a literal's constant, asked for in the buffer `v`, or the
/// identifier of the variable a name looks up.
pub open spec fn operand_ident(g: CodeGen, v: BufferView, context: int, n: Rc<Node>) -> Option<u32> {
    match literal_read(v, n) {
        Some((_, id)) => Some(id),
        None => match looked_up(g, context, *n, IdentifierCategory::RuntimeVariable) {
            Some(x) => if traced(x) is Some {
                Some(x.0.ident)
            } else {
                None
            },
            None => None,
        },
    }
}

/// A sum or a product, when code is generated, ends with its instruction on
/// the result register, then the left operand, then the right one: where an
/// operand's identifier is known before it is generated (see
/// [`operand_ident`]), that identifier is the one in its place.
pub open spec fn operands_in_order(
    g: CodeGen,
    context: int,
    node: Rc<Node>,
    s: GenerateExpressionSettings,
    group: u64,
    f: BufferView,
    r: Result<(CodegenExpressionResult, bool), CodegenError>,
) -> bool {
    let (a, b) = match *node {
        Node::Sum(a, b) => (a, b),
        Node::Product(a, b) => (a, b),
        _ => (node, node),
    };
    let v1 = after_register(g.buffer@, s, group).0;
    let left = operand_ident(g, v1, context, a);
    let right = match literal_read(v1, a) {
        Some((v2, _)) => operand_ident(g, v2, context, b),
        None => if *a is Primary && literal_read(v1, b) is None {
            operand_ident(g, v1, context, b)
        } else {
            None
        },
    };
    (*node is Sum || *node is Product) && s.generate_codeblocks ==> (r matches Ok((x, fin)) ==> {
        &&& f.code.len() > 0
        &&& f.code.last().params.len() == 3
        &&& f.code.last().params[0] == slotless(ValueView::Ident(x.value.ident))
        &&& (left matches Some(la) ==> f.code.last().params[1] == slotless(ValueView::Ident(la)))
        &&& (right matches Some(rb) ==> f.code.last().params[2] == slotless(ValueView::Ident(rb)))
    })
}

/// Joining two string literals that the buffer does not hold yet reads the
/// left one first: the instruction names the result, then the constant
/// made for the left string, then the next constant, made for the right
/// one.
pub proof fn lemma_new_strings_in_order(
    g: CodeGen,
    context: int,
    node: Rc<Node>,
    s: GenerateExpressionSettings,
    group: u64,
    f: BufferView,
    r: Result<(CodegenExpressionResult, bool), CodegenError>,
    left: Seq<char>,
    right: Seq<char>,
)
    requires
        operands_in_order(g, context, node, s, group, f, r),
        s.generate_codeblocks,
        r is Ok,
        *node matches Node::Sum(a, b) && (*a matches Node::Primary(ta) && ta.token_type matches TokenType::String(x)
            && x@ == left) && (*b matches Node::Primary(tb) && tb.token_type matches TokenType::String(y) && y@ == right),
        left != right,
        !after_register(g.buffer@, s, group).0.strings.dom().contains(left),
        !after_register(g.buffer@, s, group).0.strings.dom().contains(right),
        after_register(g.buffer@, s, group).0.ident_count < u32::MAX,
    ensures
        ({
            let first = after_register(g.buffer@, s, group).0.ident_count;
            &&& f.code.last().params[1] == slotless(ValueView::Ident(first))
            &&& f.code.last().params[2] == slotless(ValueView::Ident((first + 1) as u32))
        }),
{
}

/// What a sum or a product of two operands of known types gives: a value
/// of the type [`arithmetic_type`] gives, or an error at the node when
/// there is none.
pub open spec fn operand_arithmetic(
    g: CodeGen,
    context: int,
    node: Rc<Node>,
    r: Result<(CodegenExpressionResult, bool), CodegenError>,
) -> bool {
    let (a, b, is_sum) = match *node {
        Node::Sum(a, b) => (a, b, true),
        Node::Product(a, b) => (a, b, false),
        _ => (node, node, true),
    };
    (*node is Sum || *node is Product) && operand_type(g, context, a) is Some && operand_type(g, context, b) is Some
        ==> match arithmetic_type(is_sum, operand_type(g, context, a)->0, operand_type(g, context, b)->0) {
        Some(t) => r matches Ok((x, fin)) && !fin && x.value.value_type == ValueType::Primitive(t),
        None => r matches Err(e) && crate::codegen::codegen::error_at(e, node, ErrorRepr::InvalidExpressionTypeConversion),
    }
}

/// Whether the code ends with the read of a list item into `reg`: the
/// index plus one (lists count from one) into a register, then the item at
/// that position.
pub open spec fn list_read(code: Seq<InstructionView>, reg: u32) -> bool {
    code.len() >= 2 && exists|k: u32, j: u32, c: u32| {
        &&& code[code.len() - 2] == op_instr(
            act(Parent::Var, VAR_ADD),
            seq![ValueView::Ident(k), ValueView::Ident(j), ValueView::Int(1)],
        )
        &&& code.last() == ident_instr(act(Parent::Var, VAR_GET_LIST_VALUE), seq![reg, c, k])
    }
}

/// Whether the code ends with the read of an item of the list held by
/// `list` into `reg`: its index plus one into a register, then the item at
/// that position.
pub open spec fn list_read_from(code: Seq<InstructionView>, reg: u32, list: u32) -> bool {
    code.len() >= 2 && exists|k: u32, j: u32| {
        &&& code[code.len() - 2] == op_instr(
            act(Parent::Var, VAR_ADD),
            seq![ValueView::Ident(k), ValueView::Ident(j), ValueView::Int(1)],
        )
        &&& code.last() == ident_instr(act(Parent::Var, VAR_GET_LIST_VALUE), seq![reg, list, k])
    }
}

/// What indexing a list variable gives: an item of the list's item type,
/// read, when code is generated, from the variable's list into the
/// result's register, which is the requested identifier at the top of an
/// expression that names one; an index literal that is no number fails.
pub open spec fn list_variable_read(
    g: CodeGen,
    context: int,
    node: Rc<Node>,
    s: GenerateExpressionSettings,
    f: BufferView,
    r: Result<(CodegenExpressionResult, bool), CodegenError>,
) -> bool {
    match *node {
        Node::ListCall(c, i) => match looked_up(g, context, *c, IdentifierCategory::RuntimeVariable) {
            Some(v) => match v.0.value_type {
                ValueType::Primitive(PrimitiveType::List(e)) => {
                    &&& r matches Ok((x, fin)) ==> (!fin && x.value.value_type == *e && (s.generate_codeblocks
                        ==> list_read_from(f.code, x.value.ident, v.0.ident)) && (s.generate_codeblocks && s.depth == 0
                        && s.set_ident == Some(x.value.ident) || !(s.generate_codeblocks && s.depth == 0 && s.set_ident is Some)))
                    &&& (match literal_type(*i) {
                        Some(t) => t != PrimitiveType::Number ==> (r matches Err(er) && crate::codegen::codegen::error_at(
                            er,
                            node,
                            ErrorRepr::InvalidExpressionTypeConversion,
                        )),
                        None => true,
                    })
                },
                _ => true,
            },
            None => true,
        },
        _ => true,
    }
}

/// Whether the code ends with the read of a dictionary entry into `reg`.
pub open spec fn dict_read(code: Seq<InstructionView>, reg: u32) -> bool {
    code.len() >= 1 && exists|k: u32, c: u32| code.last() == ident_instr(
        act(Parent::Var, VAR_GET_DICT_VALUE),
        seq![reg, c, k],
    )
}

/// A finished expression's result as the result of one step that still
/// needs its cast.
pub open spec fn as_step(r: Result<CodegenExpressionResult, CodegenError>) -> Result<(CodegenExpressionResult, bool), CodegenError> {
    match r {
        Ok(x) => Ok((x, false)),
        Err(e) => Err(e),
    }
}

/// What indexing (`c[i]`) gives as an expression with no expected type:
/// indexing a literal fails; a primitive type name indexed by nothing or by
/// another primitive type name is a list or a dictionary type, held by the
/// void variable with no trace; a value that
/// is read writes, when code is generated, the read of a list item (its
/// index plus one) or of a dictionary entry.
pub open spec fn indexing_outcome(
    g: CodeGen,
    context: int,
    node: Rc<Node>,
    s: GenerateExpressionSettings,
    f: BufferView,
    r: Result<CodegenExpressionResult, CodegenError>,
) -> bool {
    match *node {
        Node::ListCall(c, i) => s.expected_type is None ==> {
            &&& literal_type(*c) is Some ==> (r matches Err(e) && crate::codegen::codegen::error_at(
                e,
                node,
                ErrorRepr::InvalidExpressionTypeConversion,
            ))
            &&& primitive_type_name(g, context, *c) is Some && *i is Empty ==> (r matches Ok(x) && (x.value.value_type
                matches ValueType::Comptime(ComptimeType::Type(RealtimeValueType::Primitive(PrimitiveType::List(e))))
                && *e == ValueType::Primitive(primitive_type_name(g, context, *c)->0)) && x.trace is None
                && f.void_variable == Some(x.value.ident))
            &&& primitive_type_name(g, context, *c) is Some && primitive_type_name(g, context, *i) is Some ==> (r matches Ok(
                x,
            ) && (x.value.value_type matches ValueType::Comptime(
                ComptimeType::Type(RealtimeValueType::Primitive(PrimitiveType::Dict(e, k))),
            ) && *e == ValueType::Primitive(primitive_type_name(g, context, *c)->0) && *k == ValueType::Primitive(
                primitive_type_name(g, context, *i)->0,
            )) && x.trace is None && f.void_variable == Some(x.value.ident))
            &&& r matches Ok(x) ==> (x.value.value_type is Comptime || (s.generate_codeblocks ==> list_read(
                f.code,
                x.value.ident,
            ) || dict_read(f.code, x.value.ident)))
        },
        _ => true,
    }
}

/// What a sum or a product gives as an expression with no expected type:
/// on literals, the type [`arithmetic_type`] gives or the error; on
/// success, what [`arithmetic_written`] says.
pub open spec fn arithmetic_outcome(
    node: Rc<Node>,
    s: GenerateExpressionSettings,
    group: u64,
    o: BufferView,
    f: BufferView,
    r: Result<CodegenExpressionResult, CodegenError>,
) -> bool {
    (*node is Sum || *node is Product) && s.expected_type is None ==> {
        &&& literal_arithmetic(node, as_step(r))
        &&& r matches Ok(x) ==> arithmetic_written(*node, s, group, o, f, x)
    }
}

/// The action that a sum (or a product) of type `t` is written with:
/// numbers are added (multiplied); strings are joined (repeated).
pub open spec fn arithmetic_code(is_sum: bool, t: PrimitiveType) -> u16 {
    if t == PrimitiveType::Number {
        if is_sum { VAR_ADD } else { VAR_MUL }
    } else {
        if is_sum { VAR_STRING } else { VAR_REPEAT_STRING }
    }
}

/// What a sum or a product that gave `x` wrote: a number or a string, with
/// no trace, in the register picked for the expression; when code is
/// generated, the last instruction is the one of its type's action, with
/// the result register and the two operands.
pub open spec fn arithmetic_written(
    node: Node,
    s: GenerateExpressionSettings,
    group: u64,
    o: BufferView,
    f: BufferView,
    x: CodegenExpressionResult,
) -> bool {
    &&& x.value.value_type == ValueType::Primitive(PrimitiveType::Number) || x.value.value_type == ValueType::Primitive(
        PrimitiveType::String,
    )
    &&& x.trace is None
    &&& x.value.ident == after_register(o, s, group).1
    &&& s.generate_codeblocks ==> f.code.len() > 0 && exists|a: u32, b: u32| f.code.last() == ident_instr(
        act(Parent::Var, arithmetic_code(node is Sum, x.value.value_type->Primitive_0)),
        seq![x.value.ident, a, b],
    )
}

/// What a sum or a product of two literals gives: a value of the type
/// [`arithmetic_type`] gives, or an error at the node when there is none.
pub open spec fn literal_arithmetic(
    node: Rc<Node>,
    r: Result<(CodegenExpressionResult, bool), CodegenError>,
) -> bool {
    let (a, b, is_sum) = match *node {
        Node::Sum(a, b) => (*a, *b, true),
        Node::Product(a, b) => (*a, *b, false),
        _ => (Node::Empty, Node::Empty, true),
    };
    literal_type(a) is Some && literal_type(b) is Some ==> match arithmetic_type(
        is_sum,
        literal_type(a)->0,
        literal_type(b)->0,
    ) {
        Some(t) => r matches Ok((x, fin)) && !fin && x.value.value_type == ValueType::Primitive(t),
        None => r matches Err(e) && crate::codegen::codegen::error_at(e, node, ErrorRepr::InvalidExpressionTypeConversion),
    }
}

/// Whether a node is a vector of three number literals.
pub open spec fn number_vector(n: Node) -> bool {
    n matches Node::Vector(a, b, c) && number_literal(*a) is Some && number_literal(*b) is Some
        && number_literal(*c) is Some
}

/// The primitive type a declaration declares a new variable of, when its
/// name is an identifier not seen from the context yet and its type names
/// a primitive type.
pub open spec fn fresh_declaration(g: CodeGen, context: int, n: Node) -> Option<PrimitiveType> {
    match n {
        Node::Declaration(t, i) => match primary_ident(*i) {
            Some(name) => if walk_variable(g.runtime_vars@, g.parents@, context as nat, name) is None {
                primitive_type_name(g, context, *t)
            } else {
                None
            },
            None => None,
        },
        _ => None,
    }
}

/// What an identifier that names no primitive type stands for, looked up
/// from a context whose parent is no struct: the value the lookup walk
/// finds first, with the preferred category first.
pub open spec fn looked_up(g: CodeGen, context: int, n: Node, pref: IdentifierCategory) -> Option<ResultView> {
    match primary_ident(n) {
        Some(name) => if g.contexts@[g.parents@[context] as int].context_type is Struct || primitive_named(name) is Some {
            None
        } else {
            match access_walk(g, context as nat, name, pref) {
                Some((_, x)) => Some(x),
                None => None,
            }
        },
        None => None,
    }
}

/// Lookups see only the tables and the void variable, not the rest of the
/// buffer.
pub proof fn lemma_walk_kept(g: CodeGen, h: CodeGen, c: nat, name: Seq<char>, pref: IdentifierCategory)
    requires
        g.contexts == h.contexts,
        g.parents == h.parents,
        g.runtime_vars == h.runtime_vars,
        g.domain_vars == h.domain_vars,
        g.buffer@.void_variable == h.buffer@.void_variable,
        g.buffer@.variables == h.buffer@.variables,
        g.buffer@.ident_count == h.buffer@.ident_count,
    ensures
        access_walk(g, c, name, pref) == access_walk(h, c, name, pref),
    decreases c,
{
    assert(after_void(g.buffer@).1 == after_void(h.buffer@).1);
    assert(access_candidates(g, c as int, name, after_void(g.buffer@).1) == access_candidates(
        h,
        c as int,
        name,
        after_void(h.buffer@).1,
    ));
    if c < g.contexts@.len() && c != 0 && g.parents@[c as int] < c {
        lemma_walk_kept(g, h, g.parents@[c as int] as nat, name, pref);
    }
}

/// What a name is looked up as is kept by buffer changes that leave the
/// void variable and the defined variables alone.
pub proof fn lemma_lookup_kept(g: CodeGen, h: CodeGen, c: int, n: Rc<Node>, pref: IdentifierCategory)
    requires
        g.contexts == h.contexts,
        g.parents == h.parents,
        g.runtime_vars == h.runtime_vars,
        g.domain_vars == h.domain_vars,
        g.buffer@.void_variable == h.buffer@.void_variable,
        g.buffer@.variables == h.buffer@.variables,
        g.buffer@.ident_count == h.buffer@.ident_count,
        c >= 0,
    ensures
        looked_up(g, c, *n, pref) == looked_up(h, c, *n, pref),
{
    if ident_of(n) is Some {
        lemma_walk_kept(g, h, c as nat, ident_of(n)->0, pref);
    }
}

/// The name an identifier node holds.
pub open spec fn ident_of(n: Rc<Node>) -> Option<Seq<char>> {
    primary_ident(*n)
}

/// The bits of the number a node is, when it is a number literal.
pub open spec fn number_literal(n: Node) -> Option<u64> {
    match n {
        Node::Primary(t) => match t.token_type {
            TokenType::Number(b) => Some(b),
            _ => None,
        },
        _ => None,
    }
}

/// Whether a primary's token is one that expressions cannot start with:
/// neither an identifier, a string, a number nor `self`.
pub open spec fn bad_primary(t: TokenType) -> bool {
    !(t is Ident || t is String || t is Number || t == TokenType::Keyword(Keyword::Value(ValuedKeyword::SelfIdentity)))
}

/// What a finished expression promises.
pub open spec fn result_ok(r: Result<CodegenExpressionResult, CodegenError>, s: GenerateExpressionSettings, bound: nat, n: nat) -> bool {
    r matches Ok(x) ==> value_ok(x, s, bound, n, true)
}

/// What one level of an expression promises before its cast; a finished
/// one is returned as it is.
pub open spec fn step_ok(r: Result<(CodegenExpressionResult, bool), CodegenError>, s: GenerateExpressionSettings, bound: nat, n: nat) -> bool {
    r matches Ok((x, fin)) ==> value_ok(x, s, bound, n, fin)
}

/// Whether a node is one of the expressions that generation handles.
pub open spec fn is_expression(n: Node) -> bool {
    n is Primary || n is Vector || n is Location || n is Construct || n is Declaration || n is Assignment
        || n is FunctionCall || n is Access || n is ListCall || n is List || n is Sum || n is Product
}


/// The buffer after writing a value through the accesses of a trace from
/// `depth` on: each access but the last reads the part into a new register
/// of the group, and the parts are written back innermost first.
pub open spec fn after_set_inside(
    v: BufferView,
    t: Seq<CodegenTraceCrumbIdent>,
    set_id: u32,
    final_id: u32,
    depth: nat,
    group: u64,
) -> BufferView
    decreases t.len() - depth,
{
    if depth + 1 < t.len() {
        let (w, reg) = after_allocate_grouped(v, group);
        let w1 = BufferView { code: w.code.push(get_crumb_instr(t[depth as int], reg, set_id)), ..w };
        let w2 = after_set_inside(w1, t, reg, final_id, depth + 1, group);
        BufferView { code: w2.code.push(set_crumb_instr(t[depth as int], reg, set_id)), ..w2 }
    } else {
        BufferView { code: v.code.push(set_crumb_instr(t[depth as int], final_id, set_id)), ..v }
    }
}


/// Writing a value through accesses only adds code at the end.
proof fn lemma_set_inside_keeps(
    v: BufferView,
    t: Seq<CodegenTraceCrumbIdent>,
    set_id: u32,
    final_id: u32,
    depth: nat,
    group: u64,
)
    ensures
        crate::codegen::expression::code_kept(v, after_set_inside(v, t, set_id, final_id, depth, group)),
    decreases t.len() - depth,
{
    if depth + 1 < t.len() {
        let (w, reg) = after_allocate_grouped(v, group);
        assert(w.code == v.code);
        let w1 = BufferView { code: w.code.push(get_crumb_instr(t[depth as int], reg, set_id)), ..w };
        lemma_set_inside_keeps(w1, t, reg, final_id, depth + 1, group);
    }
}

/// The parameters of a call cost no more than their list.
proof fn lemma_parameters_cost(p: Rc<Node>)
    requires
        parameter_nodes(p) is Some,
    ensures
        items_cost(parameter_nodes(p).unwrap()) <= expr_cost(*p) + 1,
{
    match *p {
        Node::Primary(_) => {
            assert(seq![p].drop_last() =~= Seq::<Rc<Node>>::empty());
            assert(items_cost(Seq::<Rc<Node>>::empty()) == 0);
            assert(seq![p].last() == p);
            assert(items_cost(seq![p]) == expr_cost(*p) + 1);
            assert(parameter_nodes(p).unwrap() == seq![p]);
        },
        Node::Tuple(v) => {
            assert(parameter_nodes(p).unwrap() == v@);
        },
        _ => {
            assert(parameter_nodes(p).unwrap() =~= Seq::<Rc<Node>>::empty());
        },
    }
}

/// The cost of an item is within the cost of its sequence.
pub proof fn lemma_item_cost(s: Seq<Rc<Node>>, k: int)
    requires
        0 <= k < s.len(),
    ensures
        items_cost(s.take(k)) + expr_cost(*s[k]) + 1 == items_cost(s.take(k + 1)),
        items_cost(s.take(k + 1)) <= items_cost(s),
        expr_cost(*s[k]) < items_cost(s),
    decreases s.len(),
{
    assert(s.take(k + 1).drop_last() =~= s.take(k));
    assert(s.take(k + 1).last() == s[k]);
    lemma_prefix_cost(s, k + 1);
}

/// A prefix costs no more than the whole.
pub proof fn lemma_prefix_cost(s: Seq<Rc<Node>>, k: int)
    requires
        0 <= k <= s.len(),
    ensures
        items_cost(s.take(k)) <= items_cost(s),
    decreases s.len() - k,
{
    if k < s.len() {
        lemma_prefix_cost(s, k + 1);
        assert(s.take(k + 1).drop_last() =~= s.take(k));
    } else {
        assert(s.take(k) =~= s);
    }
}

/// Appending an access adds its cost.
proof fn lemma_crumbs_push(s: Seq<CodegenTraceCrumb>, c: CodegenTraceCrumb)
    ensures
        crumbs_cost(s.push(c)) == crumbs_cost(s) + crumb_cost(c),
{
    assert(s.push(c).drop_last() =~= s);
}

/// A prefix of a trace costs no more than the whole, each access at
/// least two.
proof fn lemma_crumbs_prefix(s: Seq<CodegenTraceCrumb>, k: int)
    requires
        0 <= k < s.len(),
    ensures
        crumbs_cost(s.take(k)) + crumb_cost(s[k]) == crumbs_cost(s.take(k + 1)),
        crumbs_cost(s.take(k + 1)) <= crumbs_cost(s),
        crumbs_cost(s.take(k)) + 2 * (s.len() - k) <= crumbs_cost(s),
    decreases s.len() - k,
{
    assert(s.take(k + 1).drop_last() =~= s.take(k));
    assert(s.take(k + 1).last() == s[k]);
    if k + 1 < s.len() {
        lemma_crumbs_prefix(s, k + 1);
    } else {
        assert(s.take(k + 1) =~= s);
    }
}


impl CodeGen {
    /// Generates an expression with a register group of its own, freed
    /// afterwards.
    pub fn generate_expression(
        &mut self,
        context: usize,
        root_node: &Rc<Node>,
        settings: GenerateExpressionSettings,
    ) -> (r: Result<CodegenExpressionResult, CodegenError>)
        requires
            gen_ok(*old(self)),
            context < old(self).contexts@.len(),
            room(old(self).buffer@, expr_cost(**root_node) + 1),
            settings_ok(settings, old(self).contexts@.len(), **root_node),
        ensures
            gen_frame(*old(self), *final(self), expr_cost(**root_node) + 1),
            result_ok(r, settings, expr_cost(**root_node), old(self).contexts@.len()),
            exists|f: BufferView| #[trigger] primary_outcome(
                with_new_group(old(self).buffer@),
                f,
                *root_node,
                r,
                settings,
                old(self).buffer@.group_count,
            ),
            names_primitive(*old(self), context as int, **root_node, settings, r),
            match looked_up(*old(self), context as int, **root_node, settings.preferred_category) {
                Some(x) => (settings.expected_type is None || type_eq(settings.expected_type->0, x.0.value_type)) ==> (r matches Ok(
                    y,
                ) && y.value == x.0),
                None => true,
            },
            primitive_type_name(*old(self), context as int, **root_node) is Some ==> crate::codegen::codegen::same_but_buffer(
                *final(self),
                *old(self),
            ),
            **root_node is Primary ==> crate::codegen::codegen::same_but_buffer(*final(self), *old(self)),
        decreases expr_cost(**root_node), 3nat,
    {
        let ghost g0 = *self;
        let register_group = self.buffer.allocate_line_register_group();
        let ghost v1 = self.buffer@;
        proof {
            lemma_lookup_kept(g0, *self, context as int, *root_node, settings.preferred_category);
        }
        let result = self.generate_expression_inside(context, root_node, settings, register_group);
        proof {
            assert(primary_outcome(v1, self.buffer@, *root_node, result, settings, register_group));
        }
        let result = result?;
        let ghost g1 = *self;
        proof {
            lemma_free_all_cost(self.buffer@, if self.buffer@.groups.dom().contains(register_group) {
                self.buffer@.groups[register_group]
            } else {
                Seq::empty()
            });
            if self.buffer@.groups.dom().contains(register_group) {
                crate::codegen::buffer::lemma_free_all_keeps(self.buffer@, self.buffer@.groups[register_group]);
            }
        }
        self.buffer.free_line_register_group(register_group);
        Ok(result)
    }

    /// The type a type expression names; fails at the node when it names
    /// none.
    pub fn get_type(&mut self, node: &Rc<Node>, context: usize) -> (r: Result<ValueType, CodegenError>)
        requires
            gen_ok(*old(self)),
            context < old(self).contexts@.len(),
            room(old(self).buffer@, expr_cost(**node) + 1),
            expr_cost(**node) <= usize::MAX,
        ensures
            gen_frame(*old(self), *final(self), expr_cost(**node) + 1),
            r matches Ok(t) ==> type_ids_ok(t, old(self).contexts@.len()) && (t is Primitive || t is Struct),
            primitive_type_name(*old(self), context as int, **node) matches Some(p) ==> r == Ok::<ValueType, CodegenError>(
                ValueType::Primitive(p),
            ),
            match looked_up(*old(self), context as int, **node, IdentifierCategory::Type) {
                Some(x) => match x.0.value_type {
                    ValueType::Comptime(ComptimeType::Type(RealtimeValueType::Struct(i))) => r == Ok::<ValueType, CodegenError>(
                        ValueType::Struct(i),
                    ),
                    ValueType::Comptime(ComptimeType::Type(RealtimeValueType::Primitive(p))) => r == Ok::<
                        ValueType,
                        CodegenError,
                    >(ValueType::Primitive(p)),
                    _ => r matches Err(e) && crate::codegen::codegen::error_at(e, *node, ErrorRepr::ExpectedType),
                },
                None => true,
            },
            primitive_type_name(*old(self), context as int, **node) is Some ==> crate::codegen::codegen::same_but_buffer(
                *final(self),
                *old(self),
            ),
        decreases expr_cost(**node), 4nat,
    {
        let evaluated = self.generate_expression(
            context,
            node,
            GenerateExpressionSettings::comptime().prefer_category(IdentifierCategory::Type),
        )?;
        match &evaluated.value.value_type {
            ValueType::Comptime(ComptimeType::Type(t)) => Ok(t.normalize()),
            _ => CodegenError::err(node.clone(), ErrorRepr::ExpectedType),
        }
    }

    /// Declares a run-time variable of a type in a context; fails when a
    /// variable of the name is seen from the context already.
    #[verifier::spinoff_prover]
    pub fn declare_runtime_variable(
        &mut self,
        context: usize,
        decl_type: &Rc<Node>,
        decl_ident: &Rc<Node>,
    ) -> (r: Result<(RuntimeVariable, String), CodegenError>)
        requires
            gen_ok(*old(self)),
            context < old(self).contexts@.len(),
            room(old(self).buffer@, expr_cost(**decl_type) + 2),
            expr_cost(**decl_type) <= usize::MAX,
        ensures
            gen_frame(*old(self), *final(self), expr_cost(**decl_type) + 2),
            r matches Ok((v, name)) ==> type_ids_ok(v.variable.value_type, old(self).contexts@.len())
                && primary_ident(**decl_ident) == Some(name@),
            r matches Ok((v, name)) ==> ({
                let last = final(self).runtime_vars@[context as int]@.last();
                &&& final(self).runtime_vars@[context as int]@.len() > 0
                &&& last.0@ == name@
                &&& last.1.variable == v.variable
                &&& last.1.name@ == v.name@
                &&& v.name@ == crate::codegen::codegen::var_name(name@, "rvl"@)
                &&& v.param_ident is None
                &&& final(self).block_runtime_vars_add@.len() > 0
                &&& final(self).block_runtime_vars_add@.last()@ == name@
            }),
            match primary_ident(**decl_ident) {
                Some(name) => primitive_type_name(*old(self), context as int, **decl_type) matches Some(p) ==> match walk_variable(
                    old(self).runtime_vars@,
                    old(self).parents@,
                    context as nat,
                    name,
                ) {
                    None => r matches Ok((v, _)) && v.variable.value_type == ValueType::Primitive(p),
                    Some(_) => r matches Err(e) && crate::codegen::codegen::error_at(
                        e,
                        *decl_ident,
                        ErrorRepr::DeclaringExistingVariable,
                    ),
                },
                None => r matches Err(e) && crate::codegen::codegen::error_at(
                    e,
                    *decl_ident,
                    ErrorRepr::ExpectedVariableIdentifier,
                ),
            },
        decreases expr_cost(**decl_type) + 1, 5nat,
    {
        let decl_ident_str = Self::get_primary_as_ident(decl_ident, ErrorRepr::ExpectedVariableIdentifier)?;
        let decl_type_value = self.get_type(decl_type, context)?;
        let var_name = Self::make_var_name(decl_ident_str.as_str(), "rvl");
        proof {
            lemma_named_costs(self.buffer@, var_name@, VarScope::Line, crate::code::ValueView::Int(0));
        }
        let var_ident = self.buffer.use_variable(var_name.as_str(), VarScope::Line);
        let runtime_str = decl_ident_str.clone();
        if self.find_variable_by_name_full(context, decl_ident_str.as_str(), decl_ident).is_ok() {
            return CodegenError::err(decl_ident.clone(), ErrorRepr::DeclaringExistingVariable);
        }
        let variable = RuntimeVariable::new(CodegenValue::new(var_ident, decl_type_value), var_name);
        let ghost g1 = *self;
        let mut vars = self.runtime_vars.remove(context);
        vars.push((runtime_str.clone(), variable.clone()));
        self.runtime_vars.insert(context, vars);
        self.block_runtime_vars_add.push(runtime_str.clone());
        proof {
            let n = self.contexts@.len();
            assert(types_ok(*self)) by {
                assert forall|c: int, j: int| 0 <= c < n && c < self.runtime_vars@.len() && 0 <= j < self.runtime_vars@[c]@.len()
                    implies type_ids_ok(#[trigger] self.runtime_vars@[c]@[j].1.variable.value_type, n) by {
                    if c != context {
                        assert(self.runtime_vars@[c] == g1.runtime_vars@[c]);
                    } else if j < g1.runtime_vars@[c]@.len() {
                        assert(self.runtime_vars@[c]@[j] == g1.runtime_vars@[c]@[j]);
                    }
                }
            }
        }
        Ok((variable, runtime_str))
    }

    /// A new register group.
    pub(crate) fn new_group(&mut self) -> (group: u64)
        requires
            gen_ok(*old(self)),
            room(old(self).buffer@, 1),
        ensures
            gen_frame(*old(self), *final(self), 1),
            crate::codegen::codegen::same_but_buffer(*final(self), *old(self)),
            group == old(self).buffer@.group_count,
            final(self).buffer@ == with_new_group(old(self).buffer@),
    {
        self.buffer.allocate_line_register_group()
    }

    /// Frees the registers of a group.
    pub(crate) fn release_group(&mut self, group: u64)
        requires
            gen_ok(*old(self)),
        ensures
            gen_frame(*old(self), *final(self), 0),
            crate::codegen::codegen::same_but_buffer(*final(self), *old(self)),
            final(self).buffer@ == freed_group(old(self).buffer@, group),
            final(self).buffer@.code == old(self).buffer@.code,
            final(self).buffer@.functions == old(self).buffer@.functions,
    {
        proof {
            if self.buffer@.groups.dom().contains(group) {
                crate::codegen::buffer::lemma_free_all_keeps(self.buffer@, self.buffer@.groups[group]);
            }
            lemma_free_all_cost(self.buffer@, if self.buffer@.groups.dom().contains(group) {
                self.buffer@.groups[group]
            } else {
                Seq::empty()
            });
        }
        self.buffer.free_line_register_group(group);
    }

    /// A new register of a group.
    fn grouped_register(&mut self, group: u64) -> (id: u32)
        requires
            gen_ok(*old(self)),
            room(old(self).buffer@, 1),
        ensures
            gen_frame(*old(self), *final(self), 1),
            crate::codegen::codegen::same_but_buffer(*final(self), *old(self)),
            (final(self).buffer@, id) == after_allocate_grouped(old(self).buffer@, group),
    {
        proof {
            lemma_allocate_cost(self.buffer@, group);
        }
        self.buffer.allocate_grouped_line_register(group)
    }

    /// Generates one level of an expression and casts it to the type the
    /// settings expect. Fails at the node when it is no expression.
    #[verifier::rlimit(100)]
    #[verifier::spinoff_prover]
    pub fn generate_expression_inside(
        &mut self,
        context: usize,
        node: &Rc<Node>,
        settings: GenerateExpressionSettings,
        register_group: u64,
    ) -> (r: Result<CodegenExpressionResult, CodegenError>)
        requires
            gen_ok(*old(self)),
            context < old(self).contexts@.len(),
            room(old(self).buffer@, expr_cost(**node)),
            settings_ok(settings, old(self).contexts@.len(), **node),
        ensures
            gen_frame(*old(self), *final(self), expr_cost(**node)),
            result_ok(r, settings, expr_cost(**node), old(self).contexts@.len()),
            !is_expression(**node) ==> (r matches Err(e) && crate::codegen::codegen::error_at(
                e,
                *node,
                ErrorRepr::UnexpectedExpressionToken,
            ) && final(self).buffer@ == old(self).buffer@),
            primary_outcome(old(self).buffer@, final(self).buffer@, *node, r, settings, register_group),
            names_primitive(*old(self), context as int, **node, settings, r),
            match looked_up(*old(self), context as int, **node, settings.preferred_category) {
                Some(x) => (settings.expected_type is None || type_eq(settings.expected_type->0, x.0.value_type)) ==> (r matches Ok(
                    y,
                ) && y.value == x.0),
                None => true,
            },
            number_vector(**node) && settings.expected_type is None ==> (r matches Ok(x) && x.value.value_type
                == ValueType::Primitive(PrimitiveType::Vector)),
            indexing_outcome(*old(self), context as int, *node, settings, final(self).buffer@, r),
            settings.expected_type is None ==> list_variable_read(
                *old(self),
                context as int,
                *node,
                settings,
                final(self).buffer@,
                as_step(r),
            ),
            arithmetic_outcome(*node, settings, register_group, old(self).buffer@, final(self).buffer@, r),
            function_call_outcome(*old(self), *final(self), context as int, **node, settings, register_group, r),
            !settings.generate_codeblocks ==> final(self).buffer@.code == old(self).buffer@.code,
            **node is Primary ==> crate::codegen::codegen::same_but_buffer(*final(self), *old(self)),
            settings.expected_type is None ==> operand_arithmetic(*old(self), context as int, *node, as_step(r)),
            settings.expected_type is None ==> operands_in_order(
                *old(self),
                context as int,
                *node,
                settings,
                register_group,
                final(self).buffer@,
                as_step(r),
            ),
            fresh_declaration(*old(self), context as int, **node) is Some && settings.expected_type is None ==> (r matches Ok(
                x,
            ) && x.value.value_type == ValueType::Primitive(fresh_declaration(*old(self), context as int, **node)->0)
                && (x@.1 matches Some(tv) && tv.1.len() == 0)),
            primitive_type_name(*old(self), context as int, **node) is Some ==> crate::codegen::codegen::same_but_buffer(
                *final(self),
                *old(self),
            ),
        decreases expr_cost(**node), 2nat,
    {
        assert(expr_cost(**node) >= 64);
        let code_len = self.buffer.code_len();
        let step = match &**node {
            Node::Primary(..) => {
                let r = self.generate_primary_expression(context, node, &settings, register_group);
                self.drop_code_after(&settings, code_len);
                return r;
            },
            Node::Vector(..) => self.generate_vector(context, node, &settings, register_group),
            Node::Location(..) => self.generate_location(context, node, &settings, register_group),
            Node::Construct(construct_ident, construct_body) => {
                let register = self.generate_expression_allocate_register(&settings, register_group);
                match self.create_struct_instance_from_node(context, construct_ident, construct_body, register) {
                    Ok(created) => Ok((CodegenExpressionResult::value(CodegenValue::new(register, created)), false)),
                    Err(e) => Err(e),
                }
            },
            Node::Declaration(decl_type, decl_ident) => {
                match self.declare_runtime_variable(context, decl_type, decl_ident) {
                    Ok((declared, _)) => {
                        let value = declared.variable;
                        let ident = value.ident;
                        Ok((CodegenExpressionResult::trace(value, CodegenTrace::root(ident)), false))
                    },
                    Err(e) => Err(e),
                }
            },
            Node::Assignment(..) => self.generate_assignment(context, node, &settings, register_group),
            Node::FunctionCall(func_ident, func_params) => {
                let ghost g0 = *self;
                let register = self.generate_expression_allocate_register(&settings, register_group);
                proof {
                    lemma_lookup_kinds(g0, *self, context as int, *func_ident, IdentifierCategory::Function);
                }
                match self.call_function(context, func_ident, func_params, register) {
                    Ok(func_type) => Ok((CodegenExpressionResult::value(CodegenValue::new(register, func_type)), false)),
                    Err(e) => Err(e),
                }
            },
            Node::Access(..) => self.generate_access(context, node, &settings, register_group),
            Node::ListCall(..) => self.generate_list_call(context, node, &settings, register_group),
            Node::List(..) => self.generate_list(context, node, &settings, register_group),
            Node::Sum(..) | Node::Product(..) => self.generate_arithmetic(context, node, &settings, register_group),
            _ => {
                return CodegenError::err(node.clone(), ErrorRepr::UnexpectedExpressionToken);
            },
        };
        assert(!(**node is Primary));
        let (result, finished) = match step {
            Ok(p) => p,
            Err(e) => {
                self.drop_code_after(&settings, code_len);
                return Err(e);
            },
        };
        if finished {
            self.drop_code_after(&settings, code_len);
            return Ok(result);
        }
        let ghost before = result;
        let cast = self.implicitly_cast(context, node, result, &settings, register_group);
        assert(cast matches Ok(y) ==> y@.1 == before@.1);
        self.drop_code_after(&settings, code_len);
        cast
    }

    /// A primary as a whole expression: generated, then cast to the type
    /// the settings expect unless it came out finished.
    fn generate_primary_expression(
        &mut self,
        context: usize,
        node: &Rc<Node>,
        settings: &GenerateExpressionSettings,
        register_group: u64,
    ) -> (r: Result<CodegenExpressionResult, CodegenError>)
        requires
            gen_ok(*old(self)),
            context < old(self).contexts@.len(),
            room(old(self).buffer@, 64),
            settings_ok(*settings, old(self).contexts@.len(), **node),
            **node is Primary,
        ensures
            gen_frame(*old(self), *final(self), 64),
            crate::codegen::codegen::same_but_buffer(*final(self), *old(self)),
            result_ok(r, *settings, 64, old(self).contexts@.len()),
            primary_outcome(old(self).buffer@, final(self).buffer@, *node, r, *settings, register_group),
            names_primitive(*old(self), context as int, **node, *settings, r),
            match looked_up(*old(self), context as int, **node, settings.preferred_category) {
                Some(x) => (settings.expected_type is None || type_eq(settings.expected_type->0, x.0.value_type)) ==> (r matches Ok(
                    y,
                ) && y.value == x.0),
                None => true,
            },
            primitive_type_name(*old(self), context as int, **node) is Some ==> crate::codegen::codegen::same_but_buffer(
                *final(self),
                *old(self),
            ),
    {
        let (result, finished) = self.generate_primary(context, node, settings, register_group)?;
        if finished {
            return Ok(result);
        }
        let ghost before = result;
        let cast = self.implicitly_cast(context, node, result, settings, register_group);
        assert(cast matches Ok(y) ==> y@.1 == before@.1);
        cast
    }

    /// A primary: an identifier, a string, a number or `self`.
    #[verifier::rlimit(100)]
    #[verifier::spinoff_prover]
    fn generate_primary(
        &mut self,
        context: usize,
        node: &Rc<Node>,
        settings: &GenerateExpressionSettings,
        register_group: u64,
    ) -> (r: Result<(CodegenExpressionResult, bool), CodegenError>)
        requires
            gen_ok(*old(self)),
            context < old(self).contexts@.len(),
            room(old(self).buffer@, 62),
            settings_ok(*settings, old(self).contexts@.len(), **node),
            **node is Primary,
        ensures
            gen_frame(*old(self), *final(self), 62),
            crate::codegen::codegen::same_but_buffer(*final(self), *old(self)),
            step_ok(r, *settings, 64, old(self).contexts@.len()),
            match **node {
                Node::Primary(t) => match literal_step(old(self).buffer@, t.token_type, *settings, register_group) {
                    Some((w, x)) => r matches Ok((y, fin)) && !fin && y@ == x && final(self).buffer@ == w,
                    None => bad_primary(t.token_type) ==> (r matches Err(e) && crate::codegen::codegen::error_at(
                        e,
                        *node,
                        ErrorRepr::UnexpectedPrimaryToken,
                    ) && final(self).buffer@ == old(self).buffer@),
                },
                _ => true,
            },
            looked_up(*old(self), context as int, **node, settings.preferred_category) matches Some(x) ==> (r matches Ok((
                y,
                fin,
            )) && !fin && y.value == x.0),
            primitive_type_name(*old(self), context as int, **node) is Some ==> (r matches Ok((y, fin)) && !fin
                && y.value.value_type == ValueType::Comptime(
                ComptimeType::Type(RealtimeValueType::Primitive(primitive_type_name(*old(self), context as int, **node)->0)),
            ) && y.trace is None),
            primitive_type_name(*old(self), context as int, **node) is Some ==> crate::codegen::codegen::same_but_buffer(
                *final(self),
                *old(self),
            ),
    {
        let token = match &**node {
            Node::Primary(t) => t,
            _ => vstd::pervasive::unreached(),
        };
        let set_value = settings.depth == 0 && settings.variable_necessary;
        let mut trace: Option<CodegenTrace> = None;
        let value = match &token.token_type {
            TokenType::Ident(_) => {
                let parent_context = self.parents[context];
                if matches!(self.contexts[parent_context].context_type, ContextType::Struct) {
                    if let Ok(result) = self.self_field_access(context, node, settings) {
                        return Ok((result, true));
                    }
                }
                let get_var = self.get_definition_access_isolated(context, settings, node, register_group)?;
                trace = get_var.trace;
                get_var.value
            },
            TokenType::String(string) => {
                proof {
                    lemma_named_costs(self.buffer@, string@, VarScope::Line, crate::code::ValueView::Int(0));
                }
                CodegenValue::new(self.buffer.use_string(string.as_str()), ValueType::Primitive(PrimitiveType::String))
            },
            TokenType::Number(number) => {
                proof {
                    lemma_named_costs(self.buffer@, Seq::empty(), VarScope::Line, crate::code::ValueView::Float(*number));
                }
                CodegenValue::new(
                    self.buffer.use_number(ParameterValue::Float(*number)),
                    ValueType::Primitive(PrimitiveType::Number),
                )
            },
            TokenType::Keyword(Keyword::Value(ValuedKeyword::SelfIdentity)) => {
                let parent_context = self.parents[context];
                if !matches!(self.contexts[parent_context].context_type, ContextType::Struct) {
                    return CodegenError::err(node.clone(), ErrorRepr::SelfInObjectiveCode);
                }
                proof {
                    lemma_named_costs(self.buffer@, "self"@, VarScope::Line, crate::code::ValueView::Int(0));
                }
                let self_variable = self.buffer.use_variable("self", VarScope::Line);
                trace = Some(CodegenTrace::root(self_variable));
                CodegenValue::new(self_variable, ValueType::Struct(parent_context))
            },
            _ => {
                return CodegenError::err(node.clone(), ErrorRepr::UnexpectedPrimaryToken);
            },
        };
        let ghost mid = self.buffer@;
        if set_value {
            let register = self.generate_expression_allocate_register(settings, register_group);
            let mut ids: Vec<u32> = Vec::new();
            ids.push(register);
            ids.push(value.ident);
            proof {
                assert(ids@ =~= seq![register, value.ident]);
            }
            self.push_expression_instruction(settings, idents_op(Action { parent: Parent::Var, code: VAR_SET }, ids));
        }
        proof {
            assert(self.buffer@ == after_literal(mid, value.ident, *settings, register_group));
        }
        Ok((CodegenExpressionResult { value, trace }, false))
    }

    /// An identifier inside a struct's function, read as a field of `self`
    /// when the struct has one of that name: generated as the expression
    /// `self.name` would be, with a register group of its own.
    #[verifier::rlimit(80)]
    fn self_field_access(
        &mut self,
        context: usize,
        node: &Rc<Node>,
        settings: &GenerateExpressionSettings,
    ) -> (r: Result<CodegenExpressionResult, CodegenError>)
        requires
            gen_ok(*old(self)),
            context < old(self).contexts@.len(),
            room(old(self).buffer@, 8),
            settings_ok(*settings, old(self).contexts@.len(), **node),
        ensures
            gen_frame(*old(self), *final(self), 8),
            crate::codegen::codegen::same_but_buffer(*final(self), *old(self)),
            result_ok(r, *settings, 64, old(self).contexts@.len()),
            match primary_ident(**node) {
                None => r matches Err(e) && crate::codegen::codegen::error_at(
                    e,
                    *node,
                    ErrorRepr::ExpectedAccessableIdentifier,
                ),
                Some(name) => {
                    let c = old(self).contexts@[old(self).parents@[context as int] as int];
                    if !defs(c).dom().contains(name) {
                        r matches Err(e) && crate::codegen::codegen::error_at(e, *node, ErrorRepr::InvalidStructDefinition)
                    } else {
                        match crate::codegen::codegen::definition_field(defs(c)[name]) {
                            Some(f) => settings.expected_type is None ==> (r matches Ok(x) && x.value.value_type
                                == c.fields@[f as int].field_type && (x@.1 matches Some(tv) && tv.1.len() == 1)),
                            None => true,
                        }
                    }
                },
            },
    {
        let register_group = self.new_group();
        let parent_context = self.parents[context];
        proof {
            lemma_named_costs(self.buffer@, "self"@, VarScope::Line, crate::code::ValueView::Int(0));
        }
        let self_variable = self.buffer.use_variable("self", VarScope::Line);
        let access_field_ident = Self::get_primary_as_ident(node, ErrorRepr::ExpectedAccessableIdentifier)?;
        let register = self.generate_expression_allocate_register(settings, register_group);
        let pos = match str_position(&self.contexts[parent_context].definition_lookup, access_field_ident.as_str()) {
            Some(pos) => pos,
            None => {
                return CodegenError::err(node.clone(), ErrorRepr::InvalidStructDefinition);
            },
        };
        proof {
            let c = self.contexts@[parent_context as int];
            let d = defs(c)[access_field_ident@];
            assert(def_in_range(d, self.contexts@.len(), c.fields@.len()));
            if let CodeDefinition::Multiple(v) = d {
                lemma_first_field_in_range(v@, self.contexts@.len(), c.fields@.len());
            }
            lemma_definition_context(self.contexts@, d, crate::codegen::codegen::ContextKind::Function);
        }
        let field = self.extract_definition_field(&self.contexts[parent_context].definition_lookup[pos].1);
        let result = match field {
            Ok(field_id) => {
                let field_type = self.contexts[parent_context].fields[field_id].field_type.clone();
                let fields_len = self.contexts[parent_context].fields.len();
                assert(field_id < fields_len);
                let field_index = field_id + 1;
                let mut values: Vec<ParameterValue> = Vec::new();
                values.push(ParameterValue::Ident(register));
                values.push(ParameterValue::Ident(self_variable));
                values.push(ParameterValue::Int(field_index as i64));
                self.push_expression_instruction(
                    settings,
                    values_op(Action { parent: Parent::Var, code: VAR_GET_LIST_VALUE }, values),
                );
                let mut t = CodegenTrace::root(self_variable);
                t.crumbs.push(CodegenTraceCrumb::Ident(CodegenTraceCrumbIdent::IndexDirect(field_index)));
                proof {
                    assert(t.crumbs@ =~= Seq::<CodegenTraceCrumb>::empty().push(
                        CodegenTraceCrumb::Ident(CodegenTraceCrumbIdent::IndexDirect(field_index)),
                    ));
                    lemma_crumbs_push(Seq::empty(), CodegenTraceCrumb::Ident(CodegenTraceCrumbIdent::IndexDirect(field_index)));
                }
                CodegenExpressionResult { value: CodegenValue::new(register, field_type), trace: Some(t) }
            },
            Err(_) => {
                let function = self.extract_definition_function(&self.contexts[parent_context].definition_lookup[pos].1);
                match function {
                    Ok(func_id) => {
                        let void_id = self.void_ident();
                        self.release_group(register_group);
                        return Ok(CodegenExpressionResult::value(
                            CodegenValue::comptime(void_id, ComptimeType::SelfFunction(func_id, self_variable)),
                        ));
                    },
                    Err(_) => {
                        return CodegenError::err(node.clone(), ErrorRepr::InvalidStructDefinition);
                    },
                }
            },
        };
        let ghost before = result;
        let result = self.implicitly_cast(context, node, result, settings, register_group)?;
        assert(result@.1 == before@.1);
        self.release_group(register_group);
        Ok(result)
    }

    /// A number part of a vector or a location, in a register of `temp_group`.
    fn generate_part(
        &mut self,
        context: usize,
        part: &Rc<Node>,
        temp_group: u64,
        register_group: u64,
    ) -> (r: Result<CodegenValue, CodegenError>)
        requires
            gen_ok(*old(self)),
            context < old(self).contexts@.len(),
            room(old(self).buffer@, expr_cost(**part)),
            expr_cost(**part) <= usize::MAX,
        ensures
            gen_frame(*old(self), *final(self), expr_cost(**part)),
            r matches Ok(v) ==> type_ids_ok(v.value_type, old(self).contexts@.len()) && (v.value_type == ValueType::Primitive(
                PrimitiveType::Number,
            ) || v.value_type is Comptime),
            number_literal(**part) matches Some(b) ==> r == Ok::<CodegenValue, CodegenError>(
                CodegenValue {
                    ident: after_number(old(self).buffer@, ValueView::Float(b)).1,
                    value_type: ValueType::Primitive(PrimitiveType::Number),
                },
            ),
        decreases expr_cost(**part), 3nat,
    {
        let settings = GenerateExpressionSettings::parameter(temp_group).expect_type(
            &ValueType::Primitive(PrimitiveType::Number),
        );
        let result = self.generate_expression_inside(context, part, settings, register_group)?;
        Ok(result.value)
    }

    /// A vector of three numbers.
    fn generate_vector(
        &mut self,
        context: usize,
        node: &Rc<Node>,
        settings: &GenerateExpressionSettings,
        register_group: u64,
    ) -> (r: Result<(CodegenExpressionResult, bool), CodegenError>)
        requires
            gen_ok(*old(self)),
            context < old(self).contexts@.len(),
            room(old(self).buffer@, (expr_cost(**node) - 2) as nat),
            settings_ok(*settings, old(self).contexts@.len(), **node),
            **node is Vector,
        ensures
            gen_frame(*old(self), *final(self), (expr_cost(**node) - 2) as nat),
            step_ok(r, *settings, expr_cost(**node), old(self).contexts@.len()),
            r matches Ok((x, fin)) ==> !fin && x.trace is None && x.value == (CodegenValue {
                ident: after_register(old(self).buffer@, *settings, register_group).1,
                value_type: ValueType::Primitive(PrimitiveType::Vector),
            }),
            match **node {
                Node::Vector(a, b, c) => number_literal(*a) is Some && number_literal(*b) is Some && number_literal(*c) is Some ==> r is Ok,
                _ => true,
            },
        decreases expr_cost(**node), 1nat,
    {
        let (xn, yn, zn) = match &**node {
            Node::Vector(x, y, z) => (x, y, z),
            _ => vstd::pervasive::unreached(),
        };
        let register = self.generate_expression_allocate_register(settings, register_group);
        let temp_group = self.new_group();
        let x = self.generate_part(context, xn, temp_group, register_group)?;
        let y = self.generate_part(context, yn, temp_group, register_group)?;
        let z = self.generate_part(context, zn, temp_group, register_group)?;
        let mut ids: Vec<u32> = Vec::new();
        ids.push(register);
        ids.push(x.ident);
        ids.push(y.ident);
        ids.push(z.ident);
        self.push_expression_instruction(settings, idents_op(Action { parent: Parent::Var, code: VAR_VECTOR }, ids));
        self.release_group(temp_group);
        Ok((CodegenExpressionResult::value(CodegenValue::new(register, ValueType::Primitive(PrimitiveType::Vector))), false))
    }

    /// A location of five numbers.
    fn generate_location(
        &mut self,
        context: usize,
        node: &Rc<Node>,
        settings: &GenerateExpressionSettings,
        register_group: u64,
    ) -> (r: Result<(CodegenExpressionResult, bool), CodegenError>)
        requires
            gen_ok(*old(self)),
            context < old(self).contexts@.len(),
            room(old(self).buffer@, (expr_cost(**node) - 2) as nat),
            settings_ok(*settings, old(self).contexts@.len(), **node),
            **node is Location,
        ensures
            gen_frame(*old(self), *final(self), (expr_cost(**node) - 2) as nat),
            step_ok(r, *settings, expr_cost(**node), old(self).contexts@.len()),
            r matches Ok((x, fin)) ==> !fin && x.trace is None && x.value == (CodegenValue {
                ident: after_register(old(self).buffer@, *settings, register_group).1,
                value_type: ValueType::Primitive(PrimitiveType::Location),
            }),
            match **node {
                Node::Location(a, b, c, d, e) => number_literal(*a) is Some && number_literal(*b) is Some && number_literal(*c) is Some && number_literal(*d) is Some && number_literal(*e) is Some ==> r is Ok,
                _ => true,
            },
        decreases expr_cost(**node), 1nat,
    {
        let (xn, yn, zn, pitchn, yawn) = match &**node {
            Node::Location(x, y, z, p, w) => (x, y, z, p, w),
            _ => vstd::pervasive::unreached(),
        };
        let register = self.generate_expression_allocate_register(settings, register_group);
        let temp_group = self.new_group();
        let x = self.generate_part(context, xn, temp_group, register_group)?;
        let y = self.generate_part(context, yn, temp_group, register_group)?;
        let z = self.generate_part(context, zn, temp_group, register_group)?;
        let pitch = self.generate_part(context, pitchn, temp_group, register_group)?;
        let yaw = self.generate_part(context, yawn, temp_group, register_group)?;
        let mut ids: Vec<u32> = Vec::new();
        ids.push(register);
        ids.push(x.ident);
        ids.push(y.ident);
        ids.push(z.ident);
        ids.push(pitch.ident);
        ids.push(yaw.ident);
        self.push_expression_instruction(settings, idents_op(Action { parent: Parent::Var, code: VAR_SET_ALL_COORDS }, ids));
        self.release_group(temp_group);
        Ok((CodegenExpressionResult::value(CodegenValue::new(register, ValueType::Primitive(PrimitiveType::Location))), false))
    }

    /// An assignment: the target is evaluated without code; a plain
    /// variable gets the value directly, an access is written through.
    fn generate_assignment(
        &mut self,
        context: usize,
        node: &Rc<Node>,
        settings: &GenerateExpressionSettings,
        register_group: u64,
    ) -> (r: Result<(CodegenExpressionResult, bool), CodegenError>)
        requires
            gen_ok(*old(self)),
            context < old(self).contexts@.len(),
            room(old(self).buffer@, (expr_cost(**node) - 2) as nat),
            settings_ok(*settings, old(self).contexts@.len(), **node),
            **node is Assignment,
        ensures
            gen_frame(*old(self), *final(self), (expr_cost(**node) - 2) as nat),
            step_ok(r, *settings, expr_cost(**node), old(self).contexts@.len()),
            match **node {
                Node::Assignment(a, v) => {
                    &&& literal_type(*a) is Some ==> (r matches Err(e) && crate::codegen::codegen::error_at(
                        e,
                        a,
                        ErrorRepr::NoTraceCantAssign,
                    ))
                    &&& fresh_declaration(*old(self), context as int, *a) is Some && literal_type(*v) == fresh_declaration(
                        *old(self),
                        context as int,
                        *a,
                    ) ==> r is Ok
                },
                _ => true,
            },
        decreases expr_cost(**node), 1nat,
    {
        let (assign_var_node, assign_value_node) = match &**node {
            Node::Assignment(a, v) => (a, v),
            _ => vstd::pervasive::unreached(),
        };
        let assign_var = self.generate_expression_inside(
            context,
            assign_var_node,
            GenerateExpressionSettings::comptime(),
            register_group,
        )?;
        let trace_set = match &assign_var.trace {
            Some(t) => t.clone(),
            None => {
                return CodegenError::err(assign_var_node.clone(), ErrorRepr::NoTraceCantAssign);
            },
        };
        if trace_set.crumbs.len() == 0 {
            let value_settings = GenerateExpressionSettings::ident(assign_var.value.ident).expect_type(
                &assign_var.value.value_type,
            );
            self.generate_expression_inside(context, assign_value_node, value_settings, register_group)?;
        } else {
            let param_group = self.new_group();
            let value_settings = GenerateExpressionSettings::parameter(param_group).expect_type(
                &assign_var.value.value_type,
            );
            let assign_value = self.generate_expression_inside(context, assign_value_node, value_settings, register_group)?;
            self.set_trace_to_value(context, trace_set, assign_value.value)?;
            self.release_group(param_group);
        }
        Ok((assign_var, false))
    }

    /// An access `a.b`: a field of a struct, a coordinate of a location or
    /// of a vector, or a definition of a domain.
    #[verifier::rlimit(60)]
    #[verifier::spinoff_prover]
    fn generate_access(
        &mut self,
        context: usize,
        node: &Rc<Node>,
        settings: &GenerateExpressionSettings,
        register_group: u64,
    ) -> (r: Result<(CodegenExpressionResult, bool), CodegenError>)
        requires
            gen_ok(*old(self)),
            context < old(self).contexts@.len(),
            room(old(self).buffer@, (expr_cost(**node) - 2) as nat),
            settings_ok(*settings, old(self).contexts@.len(), **node),
            **node is Access,
        ensures
            gen_frame(*old(self), *final(self), (expr_cost(**node) - 2) as nat),
            step_ok(r, *settings, expr_cost(**node), old(self).contexts@.len()),
            match **node {
                Node::Access(a, f) => number_vector(*a) ==> match primary_ident(*f) {
                    None => r matches Err(e) && crate::codegen::codegen::error_at(
                        e,
                        f,
                        ErrorRepr::ExpectedAccessableIdentifier,
                    ),
                    Some(name) => if name == "x"@ || name == "y"@ || name == "z"@ {
                        r matches Ok((x, fin)) && !fin && x.value.value_type == ValueType::Primitive(PrimitiveType::Number)
                    } else {
                        r matches Err(e) && crate::codegen::codegen::error_at(e, *node, ErrorRepr::InvalidVectorAccess)
                    },
                },
                _ => true,
            },
        decreases expr_cost(**node), 1nat,
    {
        let (accessed, access_field) = match &**node {
            Node::Access(a, f) => (a, f),
            _ => vstd::pervasive::unreached(),
        };
        let accessed_expression = self.generate_expression_inside(context, accessed, settings.pass(), register_group)?;
        let accessed_ident = accessed_expression.value.ident;
        let access_field_ident = Self::get_primary_as_ident(access_field, ErrorRepr::ExpectedAccessableIdentifier)?;
        match &accessed_expression.value.value_type {
            ValueType::Struct(struct_id) => {
                let struct_id = *struct_id;
                let register = self.generate_expression_allocate_register(settings, register_group);
                let pos = match str_position(&self.contexts[struct_id].definition_lookup, access_field_ident.as_str()) {
                    Some(pos) => pos,
                    None => {
                        return CodegenError::err(access_field.clone(), ErrorRepr::InvalidStructDefinition);
                    },
                };
                proof {
                    let c = self.contexts@[struct_id as int];
                    let d = defs(c)[access_field_ident@];
                    assert(def_in_range(d, self.contexts@.len(), c.fields@.len()));
                    if let CodeDefinition::Multiple(v) = d {
                        lemma_first_field_in_range(v@, self.contexts@.len(), c.fields@.len());
                    }
                    lemma_definition_context(self.contexts@, d, crate::codegen::codegen::ContextKind::Function);
                }
                let field = self.extract_definition_field(&self.contexts[struct_id].definition_lookup[pos].1);
                match field {
                    Ok(field_id) => {
                        let field_type = self.contexts[struct_id].fields[field_id].field_type.clone();
                        let fields_len = self.contexts[struct_id].fields.len();
                        assert(field_id < fields_len);
                        let field_index = field_id + 1;
                        let mut values: Vec<ParameterValue> = Vec::new();
                        values.push(ParameterValue::Ident(register));
                        values.push(ParameterValue::Ident(accessed_ident));
                        values.push(ParameterValue::Int(field_index as i64));
                        self.push_expression_instruction(
                            settings,
                            values_op(Action { parent: Parent::Var, code: VAR_GET_LIST_VALUE }, values),
                        );
                        let crumb = CodegenTraceCrumb::Ident(CodegenTraceCrumbIdent::IndexDirect(field_index));
                        let trace = match accessed_expression.trace {
                            Some(t) => {
                                let mut t = t;
                                proof {
                                    lemma_crumbs_push(t.crumbs@, crumb);
                                }
                                t.crumbs.push(crumb);
                                Some(t)
                            },
                            None => None,
                        };
                        Ok((CodegenExpressionResult { value: CodegenValue::new(register, field_type), trace }, false))
                    },
                    Err(_) => {
                        let function = self.extract_definition_function(&self.contexts[struct_id].definition_lookup[pos].1);
                        match function {
                            Ok(func_id) => {
                                let void_id = self.void_ident();
                                Ok((CodegenExpressionResult::value(
                                    CodegenValue::comptime(void_id, ComptimeType::SelfFunction(func_id, accessed_ident)),
                                ), true))
                            },
                            Err(_) => CodegenError::err(access_field.clone(), ErrorRepr::InvalidStructDefinition),
                        }
                    },
                }
            },
            ValueType::Primitive(PrimitiveType::Location) => {
                let register = self.generate_expression_allocate_register(settings, register_group);
                let name = access_field_ident.as_str();
                let coordinate = if str_eq(name, "x") {
                    CodegenLocationCoordinate::X
                } else if str_eq(name, "y") {
                    CodegenLocationCoordinate::Y
                } else if str_eq(name, "z") {
                    CodegenLocationCoordinate::Z
                } else if str_eq(name, "pitch") {
                    CodegenLocationCoordinate::Pitch
                } else if str_eq(name, "yaw") {
                    CodegenLocationCoordinate::Yaw
                } else {
                    return CodegenError::err(node.clone(), ErrorRepr::InvalidLocationAccess);
                };
                let crumb = CodegenTraceCrumbIdent::Location(coordinate);
                if settings.generate_codeblocks {
                    self.get_crumb(crumb, register, accessed_ident);
                }
                let trace = match accessed_expression.trace {
                    Some(t) => {
                        let mut t = t;
                        proof {
                            lemma_crumbs_push(t.crumbs@, CodegenTraceCrumb::Ident(crumb));
                        }
                        t.crumbs.push(CodegenTraceCrumb::Ident(crumb));
                        Some(t)
                    },
                    None => None,
                };
                Ok((CodegenExpressionResult {
                    value: CodegenValue::new(register, ValueType::Primitive(PrimitiveType::Number)),
                    trace,
                }, false))
            },
            ValueType::Primitive(PrimitiveType::Vector) => {
                let register = self.generate_expression_allocate_register(settings, register_group);
                let name = access_field_ident.as_str();
                let component = if str_eq(name, "x") {
                    CodegenVectorCoordinate::X
                } else if str_eq(name, "y") {
                    CodegenVectorCoordinate::Y
                } else if str_eq(name, "z") {
                    CodegenVectorCoordinate::Z
                } else {
                    return CodegenError::err(node.clone(), ErrorRepr::InvalidVectorAccess);
                };
                let crumb = CodegenTraceCrumbIdent::Vector(component);
                if settings.generate_codeblocks {
                    self.get_crumb(crumb, register, accessed_ident);
                }
                let trace = match accessed_expression.trace {
                    Some(t) => {
                        let mut t = t;
                        proof {
                            lemma_crumbs_push(t.crumbs@, CodegenTraceCrumb::Ident(crumb));
                        }
                        t.crumbs.push(CodegenTraceCrumb::Ident(crumb));
                        Some(t)
                    },
                    None => None,
                };
                Ok((CodegenExpressionResult {
                    value: CodegenValue::new(register, ValueType::Primitive(PrimitiveType::Number)),
                    trace,
                }, false))
            },
            ValueType::Comptime(ComptimeType::Domain(domain_cid)) => {
                let mut set_value = settings.depth == 0 && settings.variable_necessary;
                let get_access = self.get_definition_access(*domain_cid, settings, access_field, register_group)?;
                if matches!(get_access.value.value_type, ValueType::Comptime(..)) {
                    set_value = false;
                }
                if set_value {
                    let register = self.generate_expression_allocate_register(settings, register_group);
                    let mut ids: Vec<u32> = Vec::new();
                    ids.push(register);
                    ids.push(get_access.value.ident);
                    self.push_expression_instruction(settings, idents_op(Action { parent: Parent::Var, code: VAR_SET }, ids));
                }
                Ok((get_access, false))
            },
            _ => CodegenError::err(node.clone(), ErrorRepr::InvalidExpressionTypeConversion),
        }
    }

    /// An indexing `a[i]`: an item of a list, an entry of a dictionary, or
    /// from a type the type of its lists (`T[]`) or dictionaries (`T[K]`).
    #[verifier::rlimit(100)]
    #[verifier::spinoff_prover]
    fn generate_list_call(
        &mut self,
        context: usize,
        node: &Rc<Node>,
        settings: &GenerateExpressionSettings,
        register_group: u64,
    ) -> (r: Result<(CodegenExpressionResult, bool), CodegenError>)
        requires
            gen_ok(*old(self)),
            context < old(self).contexts@.len(),
            room(old(self).buffer@, (expr_cost(**node) - 2) as nat),
            settings_ok(*settings, old(self).contexts@.len(), **node),
            **node is ListCall,
        ensures
            gen_frame(*old(self), *final(self), (expr_cost(**node) - 2) as nat),
            step_ok(r, *settings, expr_cost(**node), old(self).contexts@.len()),
            r matches Ok((x, fin)) ==> (!fin && settings.generate_codeblocks ==> list_read(final(self).buffer@.code, x.value.ident)
                || dict_read(final(self).buffer@.code, x.value.ident)),
            r matches Ok((x, fin)) ==> (fin ==> x.value.value_type is Comptime),
            list_variable_read(*old(self), context as int, *node, *settings, final(self).buffer@, r),
            match **node {
                Node::ListCall(c, i) => {
                    &&& literal_type(*c) is Some ==> (r matches Err(e) && crate::codegen::codegen::error_at(
                        e,
                        *node,
                        ErrorRepr::InvalidExpressionTypeConversion,
                    ))
                    &&& primitive_type_name(*old(self), context as int, *c) is Some && *i is Empty ==> (r matches Ok((x, fin))
                        && fin && (x.value.value_type matches ValueType::Comptime(
                        ComptimeType::Type(RealtimeValueType::Primitive(PrimitiveType::List(e))),
                    ) && *e == ValueType::Primitive(primitive_type_name(*old(self), context as int, *c)->0))
                        && x.trace is None && final(self).buffer@.void_variable == Some(x.value.ident))
                    &&& primitive_type_name(*old(self), context as int, *c) is Some && primitive_type_name(
                        *old(self),
                        context as int,
                        *i,
                    ) is Some ==> (r matches Ok((x, fin)) && fin && (x.value.value_type matches ValueType::Comptime(
                        ComptimeType::Type(RealtimeValueType::Primitive(PrimitiveType::Dict(e, k))),
                    ) && *e == ValueType::Primitive(primitive_type_name(*old(self), context as int, *c)->0)
                        && *k == ValueType::Primitive(primitive_type_name(*old(self), context as int, *i)->0))
                        && x.trace is None && final(self).buffer@.void_variable == Some(x.value.ident))
                },
                _ => true,
            },
        decreases expr_cost(**node), 1nat,
    {
        let (called, index_field) = match &**node {
            Node::ListCall(c, i) => (c, i),
            _ => vstd::pervasive::unreached(),
        };
        let called_expression = self.generate_expression_inside(context, called, settings.pass(), register_group)?;
        let called_ident = called_expression.value.ident;
        match &called_expression.value.value_type {
            ValueType::Primitive(PrimitiveType::List(inside_type)) => {
                let register = self.generate_expression_allocate_register(settings, register_group);
                let index_settings = GenerateExpressionSettings::parameter(register_group).keep_comptime(settings);
                let index = self.generate_expression_inside(context, index_field, index_settings, register_group)?.value;
                if !matches!(index.value_type, ValueType::Primitive(PrimitiveType::Number)) {
                    return CodegenError::err(node.clone(), ErrorRepr::InvalidExpressionTypeConversion);
                }
                let index_register = self.grouped_register(register_group);
                let mut add_values: Vec<ParameterValue> = Vec::new();
                add_values.push(ParameterValue::Ident(index_register));
                add_values.push(ParameterValue::Ident(index.ident));
                add_values.push(ParameterValue::Int(1));
                proof {
                    assert(add_values@.map_values(|p: ParameterValue| p@) =~= seq![
                        ValueView::Ident(index_register),
                        ValueView::Ident(index.ident),
                        ValueView::Int(1),
                    ]);
                }
                self.push_expression_instruction(settings, values_op(Action { parent: Parent::Var, code: VAR_ADD }, add_values));
                let mut ids: Vec<u32> = Vec::new();
                ids.push(register);
                ids.push(called_ident);
                ids.push(index_register);
                proof {
                    assert(ids@ =~= seq![register, called_ident, index_register]);
                }
                self.push_expression_instruction(settings, idents_op(Action { parent: Parent::Var, code: VAR_GET_LIST_VALUE }, ids));
                proof {
                    let code = self.buffer@.code;
                    if settings.generate_codeblocks {
                        assert(code[code.len() - 2] == op_instr(
                            act(Parent::Var, VAR_ADD),
                            seq![ValueView::Ident(index_register), ValueView::Ident(index.ident), ValueView::Int(1)],
                        ));
                        assert(list_read(code, register));
                        assert(code.last() == ident_instr(act(Parent::Var, VAR_GET_LIST_VALUE), seq![register, called_ident, index_register]));
                        assert(list_read_from(code, register, called_ident));
                    }
                }
                let crumb = CodegenTraceCrumb::IndexNode(index_field.clone());
                let trace = match called_expression.trace {
                    Some(t) => {
                        let mut t = t;
                        proof {
                            lemma_crumbs_push(t.crumbs@, crumb);
                        }
                        t.crumbs.push(crumb);
                        Some(t)
                    },
                    None => None,
                };
                let item_type = (**inside_type).clone();
                proof {
                    assert(type_ids_ok(called_expression.value.value_type, self.contexts@.len()));
                    assert(type_ids_ok(item_type, self.contexts@.len()));
                }
                Ok((CodegenExpressionResult { value: CodegenValue::new(register, item_type), trace }, false))
            },
            ValueType::Primitive(PrimitiveType::Dict(mapped_type, mapping_type)) => {
                let register = self.generate_expression_allocate_register(settings, register_group);
                let index_settings = GenerateExpressionSettings::parameter(register_group).keep_comptime(settings);
                let index = self.generate_expression_inside(context, index_field, index_settings, register_group)?.value;
                if !index.value_type.same(&**mapping_type) {
                    return CodegenError::err(node.clone(), ErrorRepr::InvalidExpressionTypeConversion);
                }
                let register_index = if !matches!(index.value_type, ValueType::Primitive(PrimitiveType::String)) {
                    let temp_reg = self.grouped_register(register_group);
                    let mut values: Vec<ParameterValue> = Vec::new();
                    values.push(ParameterValue::Ident(temp_reg));
                    values.push(ParameterValue::String(String::from_str(" ")));
                    values.push(ParameterValue::Ident(index.ident));
                    self.push_expression_instruction(settings, values_op(Action { parent: Parent::Var, code: VAR_STRING }, values));
                    temp_reg
                } else {
                    index.ident
                };
                let mut ids: Vec<u32> = Vec::new();
                ids.push(register);
                ids.push(called_ident);
                ids.push(register_index);
                proof {
                    assert(ids@ =~= seq![register, called_ident, register_index]);
                }
                self.push_expression_instruction(settings, idents_op(Action { parent: Parent::Var, code: VAR_GET_DICT_VALUE }, ids));
                proof {
                    if settings.generate_codeblocks {
                        assert(dict_read(self.buffer@.code, register));
                    }
                }
                let crumb = CodegenTraceCrumb::EntryNode(index_field.clone());
                let trace = match called_expression.trace {
                    Some(t) => {
                        let mut t = t;
                        proof {
                            lemma_crumbs_push(t.crumbs@, crumb);
                        }
                        t.crumbs.push(crumb);
                        Some(t)
                    },
                    None => None,
                };
                let item_type = (**mapped_type).clone();
                proof {
                    assert(type_ids_ok(called_expression.value.value_type, self.contexts@.len()));
                    assert(type_ids_ok(item_type, self.contexts@.len()));
                }
                Ok((CodegenExpressionResult { value: CodegenValue::new(register, item_type), trace }, false))
            },
            ValueType::Comptime(ComptimeType::Type(called_type)) => {
                let item = called_type.normalize();
                proof {
                    assert(type_ids_ok(called_expression.value.value_type, self.contexts@.len()));
                    assert(type_ids_ok(item, self.contexts@.len()));
                }
                let value_type = match &**index_field {
                    Node::Empty => PrimitiveType::List(Rc::new(item)),
                    _ => {
                        let key_type = self.get_type(index_field, context)?;
                        PrimitiveType::Dict(Rc::new(item), Rc::new(key_type))
                    },
                };
                assert(crate::codegen::types::primitive_ids_ok(value_type, self.contexts@.len()));
                let void_id = self.void_ident();
                Ok((CodegenExpressionResult::value(
                    CodegenValue::comptime(void_id, ComptimeType::Type(RealtimeValueType::Primitive(value_type))),
                ), true))
            },
            _ => CodegenError::err(node.clone(), ErrorRepr::InvalidExpressionTypeConversion),
        }
    }

    /// A list literal, of the expected list type or of the type of its
    /// first item; a list of more than 26 items is built in chunks.
    fn generate_list(
        &mut self,
        context: usize,
        node: &Rc<Node>,
        settings: &GenerateExpressionSettings,
        register_group: u64,
    ) -> (r: Result<(CodegenExpressionResult, bool), CodegenError>)
        requires
            gen_ok(*old(self)),
            context < old(self).contexts@.len(),
            room(old(self).buffer@, (expr_cost(**node) - 2) as nat),
            settings_ok(*settings, old(self).contexts@.len(), **node),
            **node is List,
        ensures
            gen_frame(*old(self), *final(self), (expr_cost(**node) - 2) as nat),
            step_ok(r, *settings, expr_cost(**node), old(self).contexts@.len()),
            match **node {
                Node::List(items) => {
                    &&& (r matches Ok((x, fin)) ==> !fin && match settings.expected_type {
                        Some(t) => x.value.value_type == t,
                        None => x.value.value_type matches ValueType::Primitive(PrimitiveType::List(_)),
                    })
                    &&& items@.len() == 0 ==> match settings.expected_type {
                        None => (r matches Ok((x, _)) && x.value.value_type matches ValueType::Primitive(
                            PrimitiveType::List(e),
                        ) && *e == ValueType::Primitive(PrimitiveType::Void)),
                        Some(t) => if t matches ValueType::Primitive(PrimitiveType::List(_)) {
                            r is Ok
                        } else {
                            r matches Err(e) && crate::codegen::codegen::error_at(e, *node, ErrorRepr::ExpectedListType)
                        },
                    }
                    &&& items@.len() > 0 && settings.expected_type is None && (forall|k: int|
                        0 <= k < items@.len() ==> number_literal(*#[trigger] items@[k]) is Some) ==> (r matches Ok((x, _))
                        && x.value.value_type matches ValueType::Primitive(PrimitiveType::List(e))
                        && *e == ValueType::Primitive(PrimitiveType::Number))
                },
                _ => true,
            },
        decreases expr_cost(**node), 1nat,
    {
        let tuple = match &**node {
            Node::List(t) => t,
            _ => vstd::pervasive::unreached(),
        };
        let ghost g0 = *self;
        let ghost items = tuple@;
        let ghost n = self.contexts@.len();
        let first_type = if tuple.len() > 0 {
            proof {
                lemma_item_cost(items, 0);
            }
            let first = self.generate_expression_inside(context, &tuple[0], GenerateExpressionSettings::comptime(), register_group)?;
            Some(first.value.value_type)
        } else {
            None
        };
        let ghost g1 = *self;
        let expected_list_type = match &settings.expected_type {
            Some(t) => t.clone(),
            None => match first_type {
                Some(t) => ValueType::Primitive(PrimitiveType::List(Rc::new(t))),
                None => ValueType::Primitive(PrimitiveType::List(Rc::new(ValueType::Primitive(PrimitiveType::Void)))),
            },
        };
        let expected_type = match &expected_list_type {
            ValueType::Primitive(PrimitiveType::List(t)) => (**t).clone(),
            _ => {
                return CodegenError::err(node.clone(), ErrorRepr::ExpectedListType);
            },
        };
        let register = self.generate_expression_allocate_register(settings, register_group);
        let ghost g2 = *self;
        let ghost spent_before = if items.len() > 0 { items_cost(items.take(1)) } else { 1nat };
        let mut values: Vec<CodegenValue> = Vec::new();
        let element_settings = settings.pass().expect_type(&expected_type);
        proof {
            assert(items.take(0) =~= Seq::<Rc<Node>>::empty());
        }
        for j in 0..tuple.len()
            invariant
                gen_ok(*self),
                same_shape(g0, *self),
                crate::codegen::expression::code_kept(g0.buffer@, self.buffer@),
                context < self.contexts@.len(),
                n == self.contexts@.len(),
                items == tuple@,
                g0 == *old(self),
                room(g0.buffer@, (expr_cost(**node) - 2) as nat),
                expr_cost(**node) == 64 + 2 * items_cost(items),
                grows(g0.buffer@, self.buffer@, spent_before + items_cost(items.take(j as int))),
                spent_before <= items_cost(items) + 1,
                element_settings.depth == settings.depth + 1,
                settings.depth + expr_cost(**node) <= usize::MAX,
                element_settings.expected_type matches Some(t) && type_ids_ok(t, n),
                values@.len() == j,
                items.len() > 0 && settings.expected_type is None && (forall|k: int|
                    0 <= k < items.len() ==> number_literal(*#[trigger] items[k]) is Some)
                    ==> element_settings.expected_type == Some(ValueType::Primitive(PrimitiveType::Number)),
                forall|k: int| 0 <= k < items.len() ==> (#[trigger] items[k]) == tuple@[k],
                **node == Node::List(*tuple),
        {
            proof {
                lemma_item_cost(items, j as int);
                lemma_prefix_cost(items, j + 1);
                assert(items[j as int] == tuple@[j as int]);
                if items.len() > 0 && settings.expected_type is None && (forall|k: int|
                    0 <= k < items.len() ==> number_literal(*#[trigger] items[k]) is Some) {
                    assert(number_literal(*items[j as int]) is Some);
                }
            }
            let ghost cond = items.len() > 0 && settings.expected_type is None && (forall|k: int|
                0 <= k < items.len() ==> number_literal(*#[trigger] items[k]) is Some);
            let ghost before = self.buffer@;
            let element = self.generate_expression_inside(context, &tuple[j], element_settings.clone(), register_group);
            proof {
                if cond {
                    assert(element_settings.expected_type == Some(ValueType::Primitive(PrimitiveType::Number)));
                    assert(literal_step(before, tuple@[j as int]->Primary_0.token_type, element_settings, register_group) is Some);
                    assert(element is Ok);
                }
            }
            let value = element?.value;
            values.push(value);
        }
        proof {
            assert(items.take(items.len() as int) =~= items);
        }
        let mut create: Vec<u32> = Vec::new();
        create.push(register);
        self.push_expression_instruction(settings, idents_op(Action { parent: Parent::Var, code: VAR_CREATE_LIST }, create));
        for j in 0..values.len()
            invariant
                gen_ok(*self),
                same_shape(g0, *self),
                crate::codegen::expression::code_kept(g0.buffer@, self.buffer@),
                grows(g0.buffer@, self.buffer@, spent_before + items_cost(items)),
                settings.generate_codeblocks ==> self.buffer@.code.len() > g0.buffer@.code.len(),
        {
            if j % 26 == 0 && j > 0 {
                let mut append: Vec<u32> = Vec::new();
                append.push(register);
                self.push_expression_instruction(settings, idents_op(Action { parent: Parent::Var, code: VAR_APPEND_LIST }, append));
            }
            self.push_expression_parameter(settings, Parameter::from_ident(values[j].ident));
        }
        Ok((CodegenExpressionResult::value(CodegenValue::new(register, expected_list_type)), false))
    }

    /// A sum or a product of numbers, a joining of strings, or a string
    /// repeated a number of times.
    #[verifier::rlimit(100)]
    #[verifier::spinoff_prover]
    fn generate_arithmetic(
        &mut self,
        context: usize,
        node: &Rc<Node>,
        settings: &GenerateExpressionSettings,
        register_group: u64,
    ) -> (r: Result<(CodegenExpressionResult, bool), CodegenError>)
        requires
            gen_ok(*old(self)),
            context < old(self).contexts@.len(),
            room(old(self).buffer@, (expr_cost(**node) - 2) as nat),
            settings_ok(*settings, old(self).contexts@.len(), **node),
            **node is Sum || **node is Product,
        ensures
            gen_frame(*old(self), *final(self), (expr_cost(**node) - 2) as nat),
            step_ok(r, *settings, expr_cost(**node), old(self).contexts@.len()),
            literal_arithmetic(*node, r),
            operand_arithmetic(*old(self), context as int, *node, r),
            operands_in_order(*old(self), context as int, *node, *settings, register_group, final(self).buffer@, r),
            r matches Ok((x, fin)) ==> !fin && arithmetic_written(
                **node,
                *settings,
                register_group,
                old(self).buffer@,
                final(self).buffer@,
                x,
            ),
        decreases expr_cost(**node), 1nat,
    {
        let (left, right, is_sum) = match &**node {
            Node::Sum(l, r) => (l, r, true),
            Node::Product(l, r) => (l, r, false),
            _ => vstd::pervasive::unreached(),
        };
        let ghost g0 = *self;
        let register = self.generate_expression_allocate_register(settings, register_group);
        proof {
            lemma_lookup_kinds(g0, *self, context as int, *left, IdentifierCategory::RuntimeVariable);
            lemma_lookup_kinds(g0, *self, context as int, *right, IdentifierCategory::RuntimeVariable);
        }
        let ghost g1 = *self;
        let l = self.generate_expression_inside(context, left, settings.pass(), register_group)?.value;
        let ghost g2 = *self;
        proof {
            if operand_type(g0, context as int, *left) is Some || all_primary_nodes(seq![*left]) {
                assert(seq![*left][0] == *left);
                lemma_lookup_kinds(g1, *self, context as int, *right, IdentifierCategory::RuntimeVariable);
            }
        }
        let r = self.generate_expression_inside(context, right, settings.pass(), register_group)?.value;
        proof {
            assert(operand_type(g0, context as int, *left) matches Some(ta) ==> l.value_type == ValueType::Primitive(ta));
            if operand_type(g0, context as int, *left) is Some {
                assert(operand_type(g0, context as int, *right) matches Some(tb) ==> r.value_type == ValueType::Primitive(tb));
            }
        }
        let l_number = matches!(l.value_type, ValueType::Primitive(PrimitiveType::Number));
        let l_string = matches!(l.value_type, ValueType::Primitive(PrimitiveType::String));
        let r_number = matches!(r.value_type, ValueType::Primitive(PrimitiveType::Number));
        let r_string = matches!(r.value_type, ValueType::Primitive(PrimitiveType::String));
        let (code, result_type) = if is_sum {
            if l_number && r_number {
                (VAR_ADD, PrimitiveType::Number)
            } else if l_string && (r_string || r_number) {
                (VAR_STRING, PrimitiveType::String)
            } else {
                return CodegenError::err(node.clone(), ErrorRepr::InvalidExpressionTypeConversion);
            }
        } else {
            if l_number && r_number {
                (VAR_MUL, PrimitiveType::Number)
            } else if l_string && r_number {
                (VAR_REPEAT_STRING, PrimitiveType::String)
            } else {
                return CodegenError::err(node.clone(), ErrorRepr::InvalidExpressionTypeConversion);
            }
        };
        let mut ids: Vec<u32> = Vec::new();
        ids.push(register);
        ids.push(l.ident);
        ids.push(r.ident);
        proof {
            assert(ids@ =~= seq![register, l.ident, r.ident]);
            assert(code == arithmetic_code(is_sum, result_type));
        }
        self.push_expression_instruction(settings, idents_op(Action { parent: Parent::Var, code }, ids));
        proof {
            if settings.generate_codeblocks {
                assert(self.buffer@.code.last() == ident_instr(act(Parent::Var, code), seq![register, l.ident, r.ident]));
                assert(self.buffer@.code.last().params =~= seq![
                    slotless(ValueView::Ident(register)),
                    slotless(ValueView::Ident(l.ident)),
                    slotless(ValueView::Ident(r.ident)),
                ]);
            }
            let v1 = g1.buffer@;
            if let Some((v2, la)) = literal_read(v1, *left) {
                assert(g2.buffer@ == v2);
                assert(l.ident == la);
            }
        }
        Ok((CodegenExpressionResult::value(CodegenValue::new(register, ValueType::Primitive(result_type))), false))
    }

    /// Calls a function, or a struct's function on its instance: the
    /// call, its instance, its return register when it returns a value,
    /// and its arguments, each generated for the type of its parameter.
    #[verifier::rlimit(100)]
    #[verifier::spinoff_prover]
    pub fn call_function(
        &mut self,
        context: usize,
        function_ident: &Rc<Node>,
        function_params: &Rc<Node>,
        return_ident: u32,
    ) -> (r: Result<ValueType, CodegenError>)
        requires
            gen_ok(*old(self)),
            context < old(self).contexts@.len(),
            room(old(self).buffer@, expr_cost(**function_ident) + expr_cost(**function_params) + 8),
            expr_cost(**function_ident) + expr_cost(**function_params) + 8 <= usize::MAX,
        ensures
            gen_frame(*old(self), *final(self), expr_cost(**function_ident) + expr_cost(**function_params) + 8),
            r matches Ok(t) ==> type_ids_ok(t, old(self).contexts@.len()),
            r matches Ok(t) ==> exists|f: int| 0 <= f < old(self).contexts@.len()
                && (#[trigger] old(self).contexts@[f]).context_type == ContextType::Function(t)
                && (parameter_nodes(*function_params) matches Some(ps) && ps.len() == old(self).contexts@[f].fields@.len()),
            literal_type(**function_ident) is Some ==> (r matches Err(e) && crate::codegen::codegen::error_at(
                e,
                *function_ident,
                ErrorRepr::ExpectedFunctionIdentifier,
            )),
            match looked_up(*old(self), context as int, **function_ident, IdentifierCategory::Function) {
                Some(x) => match x.0.value_type {
                    ValueType::Comptime(ComptimeType::Function(f)) => match old(self).contexts@[f as int].context_type {
                        ContextType::Function(t) => {
                            &&& old(self).contexts@[f as int].fields@.len() == 0 && **function_params is Empty
                                ==> r == Ok::<ValueType, CodegenError>(t)
                            &&& call_outcome(*old(self), *final(self), r, f, t, *function_params, return_ident)
                            &&& arguments_passed(*old(self), *final(self), context as int, r, f, t, *function_params)
                        },
                        _ => true,
                    },
                    _ => true,
                },
                None => true,
            },
        decreases expr_cost(**function_ident) + expr_cost(**function_params) + 1, 4nat,
    {
        let ghost g0 = *self;
        let ghost n = self.contexts@.len();
        let evaluation = self.generate_expression(
            context,
            function_ident,
            GenerateExpressionSettings::comptime().prefer_category(IdentifierCategory::Function),
        )?;
        let (func_context, struct_func_ident) = match &evaluation.value.value_type {
            ValueType::Comptime(ComptimeType::Function(f)) => (*f, None),
            ValueType::Comptime(ComptimeType::SelfFunction(f, i)) => (*f, Some(*i)),
            _ => {
                return CodegenError::err(function_ident.clone(), ErrorRepr::ExpectedFunctionIdentifier);
            },
        };
        let func_name = self.context_full_names[func_context].clone();
        proof {
            lemma_named_costs(self.buffer@, func_name@, VarScope::Line, crate::code::ValueView::Int(0));
        }
        let func_id = self.buffer.use_function(func_name.as_str());
        let mut call_instruction = Instruction::new(Action { parent: Parent::Call, code: 0 });
        call_instruction.push_param(Parameter::from_ident(func_id));
        let ret_type_field = match &self.contexts[func_context].context_type {
            ContextType::Function(t) => t.clone(),
            _ => {
                return CodegenError::err_headless(ErrorRepr::Generic);
            },
        };
        if let Some(struct_func_ident) = struct_func_ident {
            call_instruction.push_param(Parameter::from_ident(struct_func_ident));
        }
        if !matches!(ret_type_field, ValueType::Primitive(PrimitiveType::Void)) {
            call_instruction.push_param(Parameter::from_ident(return_ident));
        }
        let params = Self::extract_parameter_vec(function_params)?;
        let param_register_group = self.new_group();
        let fields_len = self.contexts[func_context].fields.len();
        if params.len() > fields_len {
            return CodegenError::err(function_params.clone(), ErrorRepr::UnexpectedFunctionParameter);
        }
        if params.len() < fields_len {
            return CodegenError::err(function_params.clone(), ErrorRepr::ExpectedFunctionParameter);
        }
        let ghost g1 = *self;
        let ghost items = params@;
        let ghost all_primary = all_primary_nodes(seq![*function_ident] + items);
        proof {
            if all_primary {
                assert((seq![*function_ident] + items)[0] == *function_ident);
                assert(self.runtime_vars == g0.runtime_vars);
            }
        }
        proof {
            lemma_parameters_cost(*function_params);
            assert(items.take(0) =~= Seq::<Rc<Node>>::empty());
        }
        for j in 0..params.len()
            invariant
                gen_ok(*self),
                same_shape(g0, *self),
                crate::codegen::expression::code_kept(g0.buffer@, self.buffer@),
                g0 == *old(self),
                n == self.contexts@.len(),
                context < n,
                func_context < n,
                items == params@,
                parameter_nodes(*function_params) == Some(items),
                params@.len() == self.contexts@[func_context as int].fields@.len(),
                items_cost(items) <= expr_cost(**function_params) + 1,
                literal_type(**function_ident) is None,
                match looked_up(g0, context as int, **function_ident, IdentifierCategory::Function) {
                    Some(x) => match x.0.value_type {
                        ValueType::Comptime(ComptimeType::Function(f)) => f == func_context && struct_func_ident is None,
                        _ => true,
                    },
                    None => true,
                },
                func_name@ == g0.context_full_names@[func_context as int]@,
                self.buffer@.functions.dom().contains(func_name@),
                self.buffer@.functions[func_name@] == func_id,
                self.contexts@[func_context as int].context_type == ContextType::Function(ret_type_field),
                call_instruction@.action == act(Parent::Call, 0),
                call_instruction@.params.len() == (if struct_func_ident is Some { 1nat } else { 0nat })
                    + (if ret_type_field != ValueType::Primitive(PrimitiveType::Void) { 2nat } else { 1nat }) + j,
                call_instruction@.params[0] == slotless(ValueView::Ident(func_id)),
                struct_func_ident is None && ret_type_field != ValueType::Primitive(PrimitiveType::Void)
                    ==> call_instruction@.params[1] == slotless(ValueView::Ident(return_ident)),
                all_primary == all_primary_nodes(seq![*function_ident] + items),
                all_primary ==> self.runtime_vars == g0.runtime_vars && self.domain_vars == g0.domain_vars,
                all_primary && struct_func_ident is None ==> forall|k: int| 0 <= k < j ==> argument_passed(
                    g0,
                    call_instruction@,
                    context as int,
                    #[trigger] items[k],
                    g0.contexts@[func_context as int].fields@[k].field_type,
                    (if ret_type_field != ValueType::Primitive(PrimitiveType::Void) { 2int } else { 1int }) + k,
                ),
                room(g0.buffer@, expr_cost(**function_ident) + expr_cost(**function_params) + 8),
                grows(g0.buffer@, self.buffer@, expr_cost(**function_ident) + 3 + items_cost(items.take(j as int))),
                type_ids_ok(ret_type_field, n),
        {
            proof {
                lemma_item_cost(items, j as int);
            }
            let field_type = self.contexts[func_context].fields[j].field_type.clone();
            let param_settings = GenerateExpressionSettings::parameter(param_register_group).expect_type(&field_type);
            let ghost before_arg = *self;
            let ghost before_call = call_instruction@;
            proof {
                if all_primary {
                    assert((seq![*function_ident] + items)[j + 1] == items[j as int]);
                    lemma_lookup_kinds(g0, before_arg, context as int, items[j as int], IdentifierCategory::RuntimeVariable);
                }
            }
            let param_expression = self.generate_expression(context, &params[j], param_settings)?;
            call_instruction.push_param(Parameter::from_ident(param_expression.value.ident));
            proof {
                if all_primary && struct_func_ident is None {
                    assert((seq![*function_ident] + items)[j + 1] == items[j as int]);
                    assert forall|k: int| 0 <= k < j + 1 implies argument_passed(
                        g0,
                        call_instruction@,
                        context as int,
                        #[trigger] items[k],
                        g0.contexts@[func_context as int].fields@[k].field_type,
                        (if ret_type_field != ValueType::Primitive(PrimitiveType::Void) { 2int } else { 1int }) + k,
                    ) by {
                        if k < j {
                            assert(argument_passed(
                                g0,
                                before_call,
                                context as int,
                                items[k],
                                g0.contexts@[func_context as int].fields@[k].field_type,
                                (if ret_type_field != ValueType::Primitive(PrimitiveType::Void) { 2int } else { 1int }) + k,
                            ));
                        }
                    }
                }
            }
        }
        proof {
            assert(items.take(items.len() as int) =~= items);
        }
        let ghost written = call_instruction@;
        self.buffer.push_code(call_instruction);
        self.release_group(param_register_group);
        proof {
            assert(self.contexts@[func_context as int] == g0.contexts@[func_context as int]);
            assert(self.buffer@.code.last() == written);
            assert(written.params.len() == (if struct_func_ident is Some { 1nat } else { 0nat })
                + (if ret_type_field != ValueType::Primitive(PrimitiveType::Void) { 2nat } else { 1nat }) + params@.len());
        }
        Ok(ret_type_field)
    }

    /// Builds an instance of a struct from a block of field assignments.
    pub fn create_struct_instance_from_node(
        &mut self,
        context: usize,
        construct_ident: &Rc<Node>,
        construct_body_node: &Rc<Node>,
        set_ident: u32,
    ) -> (r: Result<ValueType, CodegenError>)
        requires
            gen_ok(*old(self)),
            context < old(self).contexts@.len(),
            room(old(self).buffer@, expr_cost(**construct_ident) + expr_cost(**construct_body_node) + 4),
            expr_cost(**construct_ident) + expr_cost(**construct_body_node) + 4 <= usize::MAX,
        ensures
            gen_frame(*old(self), *final(self), expr_cost(**construct_ident) + expr_cost(**construct_body_node) + 4),
            r matches Ok(t) ==> type_ids_ok(t, old(self).contexts@.len()) && t is Struct,
            r is Ok ==> (**construct_body_node matches Node::Block(b) && forall|k: int| 0 <= k < b@.len()
                ==> (*#[trigger] b@[k]) is Assignment),
            match looked_up(*old(self), context as int, **construct_ident, IdentifierCategory::Type) {
                Some(x) => match x.0.value_type {
                    ValueType::Comptime(ComptimeType::Type(RealtimeValueType::Struct(i))) => (**construct_body_node
                        matches Node::Block(b) && b@.len() == 0 && old(self).contexts@[i as int].fields@.len() == 0)
                        ==> r == Ok::<ValueType, CodegenError>(ValueType::Struct(i)),
                    ValueType::Comptime(ComptimeType::Type(RealtimeValueType::Primitive(_))) => r matches Err(e)
                        && crate::codegen::codegen::error_at(e, *construct_ident, ErrorRepr::ExpectedStructIdentifier),
                    _ => r is Err,
                },
                None => true,
            },
        decreases expr_cost(**construct_ident) + expr_cost(**construct_body_node) + 1, 5nat,
    {
        let ghost g0 = *self;
        let ghost n = self.contexts@.len();
        let construct_field_type = self.get_type(construct_ident, context)?;
        let struct_type = match &construct_field_type {
            ValueType::Struct(s) => *s,
            _ => {
                return CodegenError::err(construct_ident.clone(), ErrorRepr::ExpectedStructIdentifier);
            },
        };
        let construct_body = match &**construct_body_node {
            Node::Block(b) => b,
            _ => {
                return CodegenError::err(construct_body_node.clone(), ErrorRepr::ExpectedBlock);
            },
        };
        let mut param_map: Vec<(usize, u32)> = Vec::new();
        let register_group = self.new_group();
        let ghost items = construct_body@;
        proof {
            assert(items.take(0) =~= Seq::<Rc<Node>>::empty());
        }
        for j in 0..construct_body.len()
            invariant
                gen_ok(*self),
                same_shape(g0, *self),
                crate::codegen::expression::code_kept(g0.buffer@, self.buffer@),
                g0 == *old(self),
                n == self.contexts@.len(),
                context < n,
                struct_type < n,
                items == construct_body@,
                **construct_body_node == Node::Block(*construct_body),
                room(g0.buffer@, expr_cost(**construct_ident) + expr_cost(**construct_body_node) + 4),
                grows(g0.buffer@, self.buffer@, expr_cost(**construct_ident) + 2 + items_cost(items.take(j as int))),
                type_ids_ok(construct_field_type, n),
                construct_field_type == ValueType::Struct(struct_type),
                forall|k: int| 0 <= k < j ==> (*#[trigger] items[k]) is Assignment,
                match looked_up(g0, context as int, **construct_ident, IdentifierCategory::Type) {
                    Some(x) => match x.0.value_type {
                        ValueType::Comptime(ComptimeType::Type(RealtimeValueType::Struct(i))) => i == struct_type,
                        ValueType::Comptime(ComptimeType::Type(RealtimeValueType::Primitive(_))) => false,
                        _ => false,
                    },
                    None => true,
                },
        {
            proof {
                lemma_item_cost(items, j as int);
            }
            let statement = &construct_body[j];
            let (assigned_node, assigned_value) = match &**statement {
                Node::Assignment(a, v) => (a, v),
                _ => {
                    return CodegenError::err(construct_body_node.clone(), ErrorRepr::ExpectedFieldAssignment);
                },
            };
            let assigned_ident = Self::get_primary_as_ident(assigned_node, ErrorRepr::ExpectedFieldAssignment)?;
            let pos = match str_position(&self.contexts[struct_type].definition_lookup, assigned_ident.as_str()) {
                Some(pos) => pos,
                None => {
                    return CodegenError::err(construct_body_node.clone(), ErrorRepr::ExpectedFieldAssignment);
                },
            };
            proof {
                let c = self.contexts@[struct_type as int];
                let d = defs(c)[assigned_ident@];
                assert(def_in_range(d, self.contexts@.len(), c.fields@.len()));
                if let CodeDefinition::Multiple(v) = d {
                    lemma_first_field_in_range(v@, self.contexts@.len(), c.fields@.len());
                }
            }
            let field = self.extract_definition_field(&self.contexts[struct_type].definition_lookup[pos].1)?;
            let field_type = self.contexts[struct_type].fields[field].field_type.clone();
            let value_settings = GenerateExpressionSettings::parameter(register_group).expect_type(&field_type);
            let field_expression = self.generate_expression(context, assigned_value, value_settings)?;
            if !field_expression.value.value_type.same(&field_type) {
                return CodegenError::err(assigned_value.clone(), ErrorRepr::UnexpectedStructFieldType);
            }
            param_map.push((field, field_expression.value.ident));
        }
        proof {
            assert(items.take(items.len() as int) =~= items);
        }
        self.create_struct_instance(construct_body_node, struct_type, set_ident, &param_map)?;
        self.release_group(register_group);
        Ok(construct_field_type)
    }

    /// Writes a value through a trace: straight into its root when it has
    /// no accesses, else through each access in turn, with the indices of
    /// the accesses generated first.
    pub fn set_trace_to_value(&mut self, context: usize, trace: CodegenTrace, value: CodegenValue) -> (r: Result<(), CodegenError>)
        requires
            gen_ok(*old(self)),
            context < old(self).contexts@.len(),
            room(old(self).buffer@, crumbs_cost(trace.crumbs@)),
            crumbs_cost(trace.crumbs@) <= usize::MAX,
        ensures
            gen_frame(*old(self), *final(self), crumbs_cost(trace.crumbs@)),
            trace.crumbs@.len() == 0 ==> r is Ok && final(self).buffer@ == (BufferView {
                code: old(self).buffer@.code.push(ident_instr(act(Parent::Var, VAR_SET), seq![trace.root_ident, value.ident])),
                ..old(self).buffer@
            }),
            trace.crumbs@.len() > 0 && (forall|k: int| 0 <= k < trace.crumbs@.len() ==> (#[trigger] trace.crumbs@[k]) is Ident)
                ==> r is Ok && final(self).buffer@ == freed_group(
                after_set_inside(
                    with_new_group(old(self).buffer@),
                    ready_crumbs(trace.crumbs@),
                    trace.root_ident,
                    value.ident,
                    0,
                    old(self).buffer@.group_count,
                ),
                old(self).buffer@.group_count,
            ),
        decreases crumbs_cost(trace.crumbs@), 1nat,
    {
        let ghost g0 = *self;
        let ghost all = trace.crumbs@;
        if trace.crumbs.len() == 0 {
            let mut ids: Vec<u32> = Vec::new();
            ids.push(trace.root_ident);
            ids.push(value.ident);
            proof {
                assert(ids@ =~= seq![trace.root_ident, value.ident]);
            }
            self.buffer.push_code(idents_op(Action { parent: Parent::Var, code: VAR_SET }, ids));
            return Ok(());
        }
        let register_group = self.new_group();
        let trace_ident = trace.root_ident;
        let mut crumbs: Vec<CodegenTraceCrumbIdent> = Vec::new();
        proof {
            assert(all.take(0) =~= Seq::<CodegenTraceCrumb>::empty());
        }
        for crumb_index in 0..trace.crumbs.len()
            invariant
                gen_ok(*self),
                same_shape(g0, *self),
                crate::codegen::expression::code_kept(g0.buffer@, self.buffer@),
                g0 == *old(self),
                context < self.contexts@.len(),
                all == trace.crumbs@,
                all.len() > 0,
                crumbs@.len() == crumb_index,
                room(g0.buffer@, crumbs_cost(all)),
                crumbs_cost(all) <= usize::MAX,
                grows(g0.buffer@, self.buffer@, (crumbs_cost(all.take(crumb_index as int)) - crumb_index) as nat),
                crumbs_cost(all.take(crumb_index as int)) >= crumb_index + 1,
                register_group == g0.buffer@.group_count,
                (forall|k: int| 0 <= k < all.len() ==> (#[trigger] all[k]) is Ident) ==> self.buffer@ == with_new_group(
                    g0.buffer@,
                ) && crumbs@ == ready_crumbs(all.take(crumb_index as int)),
        {
            proof {
                lemma_crumbs_prefix(all, crumb_index as int);
            }
            let crumb = trace.crumbs[crumb_index].clone();
            let ghost before = crumbs@;
            let generated = self.generate_crumb(context, crumb, register_group)?;
            crumbs.push(generated);
            proof {
                if forall|k: int| 0 <= k < all.len() ==> (#[trigger] all[k]) is Ident {
                    assert(all[crumb_index as int] is Ident);
                    assert(ready_crumbs(all.take(crumb_index + 1)) =~= ready_crumbs(all.take(crumb_index as int)).push(
                        generated,
                    ));
                }
            }
        }
        proof {
            assert(all.take(all.len() as int) =~= all);
            lemma_allocate_cost(self.buffer@, register_group);
        }
        proof {
            lemma_set_inside_keeps(self.buffer@, crumbs@, trace_ident, value.ident, 0, register_group);
        }
        self.set_trace_to_value_inside(&crumbs, trace_ident, value.ident, 0, register_group);
        self.release_group(register_group);
        Ok(())
    }

    /// Generates the index of one access of a trace.
    pub fn generate_crumb(&mut self, context: usize, crumb: CodegenTraceCrumb, register_group: u64) -> (r: Result<
        CodegenTraceCrumbIdent,
        CodegenError,
    >)
        requires
            gen_ok(*old(self)),
            context < old(self).contexts@.len(),
            room(old(self).buffer@, (crumb_cost(crumb) - 1) as nat),
            crumb_cost(crumb) <= usize::MAX,
        ensures
            gen_frame(*old(self), *final(self), (crumb_cost(crumb) - 1) as nat),
            match crumb {
                CodegenTraceCrumb::Ident(i) => r == Ok::<CodegenTraceCrumbIdent, CodegenError>(i)
                    && *final(self) == *old(self),
                CodegenTraceCrumb::IndexNode(n) => (r matches Ok(x) ==> x is Index) && (is_literal(*n) ==> r is Ok),
                CodegenTraceCrumb::EntryNode(n) => (r matches Ok(x) ==> x is Entry) && (is_literal(*n) ==> r is Ok)
                    && match *n {
                    Node::Primary(t) => match t.token_type {
                        TokenType::String(text) => r == Ok::<CodegenTraceCrumbIdent, CodegenError>(
                            CodegenTraceCrumbIdent::Entry(after_string(old(self).buffer@, text@).1),
                        ),
                        _ => true,
                    },
                    _ => true,
                },
            },
        decreases crumb_cost(crumb), 0nat,
    {
        match crumb {
            CodegenTraceCrumb::Ident(ident) => Ok(ident),
            CodegenTraceCrumb::IndexNode(node) => {
                let index = self.generate_expression_inside(
                    context,
                    &node,
                    GenerateExpressionSettings::parameter(register_group),
                    register_group,
                )?.value;
                let register_index = self.grouped_register(register_group);
                let mut values: Vec<ParameterValue> = Vec::new();
                values.push(ParameterValue::Ident(register_index));
                values.push(ParameterValue::Ident(index.ident));
                values.push(ParameterValue::Int(1));
                self.buffer.push_code(values_op(Action { parent: Parent::Var, code: VAR_ADD }, values));
                Ok(CodegenTraceCrumbIdent::Index(register_index))
            },
            CodegenTraceCrumb::EntryNode(node) => {
                let index = self.generate_expression_inside(
                    context,
                    &node,
                    GenerateExpressionSettings::parameter(register_group),
                    register_group,
                )?.value;
                let register_index = if !matches!(index.value_type, ValueType::Primitive(PrimitiveType::String)) {
                    let temp_reg = self.grouped_register(register_group);
                    let mut values: Vec<ParameterValue> = Vec::new();
                    values.push(ParameterValue::Ident(index.ident));
                    values.push(ParameterValue::String(String::from_str(" ")));
                    values.push(ParameterValue::Ident(temp_reg));
                    self.buffer.push_code(values_op(Action { parent: Parent::Var, code: VAR_STRING }, values));
                    temp_reg
                } else {
                    index.ident
                };
                Ok(CodegenTraceCrumbIdent::Entry(register_index))
            },
        }
    }

    /// Writes `final_value_ident` through the accesses of a trace from
    /// `depth` on, into `set_value_ident`; see [`after_set_inside`].
    pub fn set_trace_to_value_inside(
        &mut self,
        trace: &Vec<CodegenTraceCrumbIdent>,
        set_value_ident: u32,
        final_value_ident: u32,
        depth: usize,
        register_group: u64,
    )
        requires
            old(self).buffer.wf(),
            depth < trace@.len(),
            room(old(self).buffer@, (trace@.len() - 1 - depth) as nat),
        ensures
            crate::codegen::codegen::same_but_buffer(*final(self), *old(self)),
            final(self).buffer.wf(),
            grows(old(self).buffer@, final(self).buffer@, (trace@.len() - 1 - depth) as nat),
            final(self).buffer@ == after_set_inside(
                old(self).buffer@,
                trace@,
                set_value_ident,
                final_value_ident,
                depth as nat,
                register_group,
            ),
        decreases trace@.len() - depth,
    {
        if depth < trace.len() - 1 {
            proof {
                lemma_allocate_cost(self.buffer@, register_group);
            }
            let register = self.buffer.allocate_grouped_line_register(register_group);
            self.get_crumb(trace[depth], register, set_value_ident);
            self.set_trace_to_value_inside(trace, register, final_value_ident, depth + 1, register_group);
            self.set_crumb(trace[depth], register, set_value_ident);
        } else {
            self.set_crumb(trace[depth], final_value_ident, set_value_ident);
        }
    }
}

} // verus!
