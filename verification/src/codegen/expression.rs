//! Generating expressions: the lookup of what a name stands for, the
//! registers an expression's value goes to, the implicit casts between
//! types, and the instructions each kind of expression compiles to.
use vstd::prelude::*;
use std::rc::Rc;

use crate::code::{
    act, slotless, Action, Instruction, InstructionView, Parameter, ParameterValue, Parent, ValueView,
    VarScope, VAR_SET, VAR_SHIFT_ON_VECTOR, VAR_STRING,
};
use crate::codegen::buffer::{
    after_allocate, after_allocate_grouped, after_location, after_variable, grows, lemma_allocate_cost,
    lemma_location_cost, lemma_named_costs, room, void_name, BufferView,
};
use crate::codegen::codegen::{
    definition_context, definition_field, defs, domains_ok, first_field_of, instruction_of,
    lemma_first_context_of,
    parents_ordered, primary_ident, primitive_named, slotless_all, tables_ok, types_ok, with_params, CodeGen,
    ContextKind, error_at,
};
use crate::codegen::context::{CodeDefinition, ContextType};
use crate::codegen::errors::{CodegenError, ErrorRepr};
use crate::codegen::types::{
    type_eq, type_ids_ok, CodegenExpressionResult, CodegenTrace, CodegenTraceCrumb, CodegenValue, ComptimeType,
    FieldDefinition, GenerateExpressionSettings, IdentifierCategory, PrimitiveType, RealtimeValueType,
    ValueType,
};
use crate::lexer::types::TokenType;
use crate::parser::Node;
use crate::table::{str_keyed, str_position};

verus! {

/// The view of an expression's result: its value and, when it can be
/// assigned to, its root identifier and accesses.
pub type ResultView = (CodegenValue, Option<(u32, Seq<CodegenTraceCrumb>)>);

/// The state that code generation works on: the tables hold together,
/// every domain has a variable per field, and parents come first.
pub open spec fn gen_ok(g: CodeGen) -> bool {
    &&& tables_ok(g)
    &&& domains_ok(g)
    &&& parents_ordered(g.parents@)
    &&& types_ok(g)
}

/// From `o` to `f` the state stayed one that code generation works on,
/// only the buffer and the run-time variables changed, and the counters
/// grew by at most `cost`.
pub open spec fn gen_frame(o: CodeGen, f: CodeGen, cost: nat) -> bool {
    &&& gen_ok(f)
    &&& same_shape(o, f)
    &&& grows(o.buffer@, f.buffer@, cost)
    &&& code_kept(o.buffer@, f.buffer@)
}

/// The code written before stays as it was: generation only adds code at
/// the end, and a function keeps the identifier it was given.
pub open spec fn code_kept(a: BufferView, b: BufferView) -> bool {
    &&& a.code.len() <= b.code.len()
    &&& forall|i: int| 0 <= i < a.code.len() ==> #[trigger] b.code[i] == a.code[i]
    &&& forall|name: Seq<char>| #[trigger] a.functions.dom().contains(name)
        ==> b.functions.dom().contains(name) && b.functions[name] == a.functions[name]
}

/// Nothing changed but the buffer and the run-time variables.
pub open spec fn same_shape(a: CodeGen, b: CodeGen) -> bool {
    &&& a.context_map == b.context_map
    &&& a.root_context == b.root_context
    &&& a.contexts == b.contexts
    &&& a.current_id == b.current_id
    &&& a.parents == b.parents
    &&& a.domain_vars == b.domain_vars
    &&& a.return_runtimes == b.return_runtimes
    &&& a.field_names == b.field_names
    &&& a.context_names == b.context_names
    &&& a.context_full_names == b.context_full_names
    &&& a.run == b.run
    &&& a.runtime_vars@.len() == b.runtime_vars@.len()
}

/// The state after asking for the void variable, and its identifier.
pub open spec fn after_void(v: BufferView) -> (BufferView, u32) {
    match v.void_variable {
        Some(x) => (v, x),
        None => {
            let (w, id) = after_variable(v, void_name(), VarScope::Global);
            (BufferView { void_variable: Some(id), ..w }, id)
        },
    }
}

/// Asking again for the void variable gives the identifier it was given,
/// and changes nothing.
pub proof fn lemma_void_remembered(v: BufferView)
    ensures
        after_void(after_void(v).0) == after_void(v),
{
}

/// The state after picking the register an expression's value goes to,
/// and the register: the void variable when no code is generated; at the
/// top of an expression the requested identifier, else a register of the
/// requested group, else a lone register; inside an expression a register
/// of the expression's group.
pub open spec fn after_register(v: BufferView, s: GenerateExpressionSettings, group: u64) -> (BufferView, u32) {
    if !s.generate_codeblocks {
        after_void(v)
    } else if s.depth == 0 {
        match s.set_ident {
            Some(i) => (v, i),
            None => match s.register_group {
                Some(g) => after_allocate_grouped(v, g),
                None => after_allocate(v),
            },
        }
    } else {
        after_allocate_grouped(v, group)
    }
}

/// The buffer with `i` appended to its code when `emit` holds.
pub open spec fn push_if(v: BufferView, emit: bool, i: InstructionView) -> BufferView {
    if emit {
        BufferView { code: v.code.push(i), ..v }
    } else {
        v
    }
}

/// An instruction of the given action whose parameters are the values.
pub open spec fn op_instr(action: Action, values: Seq<ValueView>) -> InstructionView {
    with_params(action, values.map_values(|x: ValueView| slotless(x)))
}

/// An instruction of the given action whose parameters are identifiers.
pub open spec fn ident_instr(action: Action, ids: Seq<u32>) -> InstructionView {
    op_instr(action, ids.map_values(|x: u32| ValueView::Ident(x)))
}

/// The outcome of casting a result to the expected type: unchanged when no
/// type is expected or the type already matches; a number made a string,
/// or a vector made a location, into a new register; otherwise none.
pub open spec fn cast_result(v: BufferView, r: ResultView, s: GenerateExpressionSettings, group: u64) -> Option<
    (BufferView, ResultView),
> {
    match s.expected_type {
        None => Some((v, r)),
        Some(t) => if type_eq(t, r.0.value_type) {
            Some((v, r))
        } else if r.0.value_type == ValueType::Primitive(PrimitiveType::Number) && t == ValueType::Primitive(
            PrimitiveType::String,
        ) {
            let (w, reg) = after_register(v, s, group);
            let x = push_if(
                w,
                s.generate_codeblocks,
                ident_instr(act(Parent::Var, VAR_STRING), seq![reg, r.0.ident]),
            );
            Some((x, (CodegenValue { ident: reg, value_type: t }, r.1)))
        } else if r.0.value_type == ValueType::Primitive(PrimitiveType::Vector) && t == ValueType::Primitive(
            PrimitiveType::Location,
        ) {
            let (w, reg) = after_register(v, s, group);
            let zero = ValueView::Int(0);
            let (w1, loc) = after_location(w, zero, zero, zero, zero, zero);
            let x = push_if(
                w1,
                s.generate_codeblocks,
                ident_instr(act(Parent::Var, VAR_SHIFT_ON_VECTOR), seq![reg, loc, r.0.ident]),
            );
            Some((x, (CodegenValue { ident: reg, value_type: t }, r.1)))
        } else {
            None
        },
    }
}


/// The result of a compile-time value held by the void variable.
pub open spec fn comptime_result(void: u32, t: ComptimeType) -> ResultView {
    (CodegenValue { ident: void, value_type: ValueType::Comptime(t) }, None)
}

/// The result of a variable, which can be assigned to.
pub open spec fn variable_result(v: CodegenValue) -> ResultView {
    (v, Some((v.ident, Seq::empty())))
}

/// A candidate when the definition names a context of the kind.
pub open spec fn context_candidate(
    g: CodeGen,
    d: CodeDefinition,
    k: ContextKind,
    void: u32,
    cat: IdentifierCategory,
) -> Seq<(ResultView, IdentifierCategory)> {
    match definition_context(g.contexts@, d, k) {
        Ok(i) => seq![(comptime_result(void, match k {
            ContextKind::Domain => ComptimeType::Domain(i as usize),
            ContextKind::Function => ComptimeType::Function(i as usize),
            ContextKind::Struct => ComptimeType::Type(RealtimeValueType::Struct(i as usize)),
        }), cat)],
        Err(_) => Seq::empty(),
    }
}

/// Whether a name of a domain names a domain, a function or a struct.
pub open spec fn names_comptime(g: CodeGen, context: int, name: Seq<char>) -> bool {
    let c = g.contexts@[context];
    &&& c.context_type is Domain
    &&& defs(c).dom().contains(name)
    &&& {
        ||| definition_context(g.contexts@, defs(c)[name], ContextKind::Domain) is Ok
        ||| definition_context(g.contexts@, defs(c)[name], ContextKind::Function) is Ok
        ||| definition_context(g.contexts@, defs(c)[name], ContextKind::Struct) is Ok
    }
}

/// What a name may stand for in one context, in order: a run-time
/// variable; in a domain, a domain, a function, a struct type and a
/// domain variable.
pub open spec fn access_candidates(g: CodeGen, context: int, name: Seq<char>, void: u32) -> Seq<
    (ResultView, IdentifierCategory),
> {
    let rv = str_keyed(g.runtime_vars@[context]@);
    let runtime = if rv.dom().contains(name) {
        seq![(variable_result(rv[name].variable), IdentifierCategory::RuntimeVariable)]
    } else {
        Seq::empty()
    };
    let c = g.contexts@[context];
    if c.context_type is Domain && defs(c).dom().contains(name) {
        let d = defs(c)[name];
        runtime + context_candidate(g, d, ContextKind::Domain, void, IdentifierCategory::Domain)
            + context_candidate(g, d, ContextKind::Function, void, IdentifierCategory::Function)
            + context_candidate(g, d, ContextKind::Struct, void, IdentifierCategory::Type)
            + match definition_field(d) {
            Some(f) => seq![(variable_result(g.domain_vars@[context]@[f as int].variable), IdentifierCategory::Field)],
            None => Seq::empty(),
        }
    } else {
        runtime
    }
}

/// The first candidate of the preferred category.
pub open spec fn first_of(found: Seq<(ResultView, IdentifierCategory)>, pref: IdentifierCategory) -> Option<ResultView>
    decreases found.len(),
{
    if found.len() == 0 {
        None
    } else if found[0].1 == pref {
        Some(found[0].0)
    } else {
        first_of(found.drop_first(), pref)
    }
}

/// The candidate picked: the first of the preferred category, else the
/// first of all.
pub open spec fn pick(found: Seq<(ResultView, IdentifierCategory)>, pref: IdentifierCategory) -> Option<ResultView> {
    match first_of(found, pref) {
        Some(x) => Some(x),
        None => if found.len() > 0 {
            Some(found[0].0)
        } else {
            None
        },
    }
}

/// The buffer after looking a name up in one context: the void variable
/// exists afterwards when the name stands for something known only at
/// compile time.
pub open spec fn after_access(g: CodeGen, context: int, name: Seq<char>) -> BufferView {
    if names_comptime(g, context, name) {
        after_void(g.buffer@).0
    } else {
        g.buffer@
    }
}

/// The context a lookup goes to after `c`: its parent, none after the root.
pub open spec fn access_walk(g: CodeGen, c: nat, name: Seq<char>, pref: IdentifierCategory) -> Option<(nat, ResultView)>
    decreases c,
{
    if c >= g.contexts@.len() {
        None
    } else {
        match pick(access_candidates(g, c as int, name, after_void(g.buffer@).1), pref) {
            Some(x) => Some((c, x)),
            None => if c == 0 || g.parents@[c as int] >= c {
                None
            } else {
                access_walk(g, g.parents@[c as int] as nat, name, pref)
            },
        }
    }
}


/// The type of a result's value.
pub open spec fn value_type_of(r: ResultView) -> ValueType {
    r.0.value_type
}

/// A result that carries a trace (a variable), which does not depend on
/// the void variable.
pub open spec fn traced(r: ResultView) -> Option<ResultView> {
    if r.1 is Some {
        Some(r)
    } else {
        None
    }
}

/// The type and the category of each candidate, and the candidate itself
/// when it is a variable: what does not depend on the identifier the void
/// variable has.
pub open spec fn candidate_kinds(s: Seq<(ResultView, IdentifierCategory)>) -> Seq<
    (ValueType, IdentifierCategory, Option<ResultView>),
> {
    s.map_values(|p: (ResultView, IdentifierCategory)| (value_type_of(p.0), p.1, traced(p.0)))
}

/// A name's candidates have the same types and categories whatever the
/// void variable is.
pub proof fn lemma_candidate_kinds(g: CodeGen, c: int, name: Seq<char>, v1: u32, v2: u32)
    ensures
        candidate_kinds(access_candidates(g, c, name, v1)) == candidate_kinds(access_candidates(g, c, name, v2)),
{
    let a = access_candidates(g, c, name, v1);
    let b = access_candidates(g, c, name, v2);
    assert(a.len() == b.len());
    assert(candidate_kinds(a) =~= candidate_kinds(b));
}

/// Candidates of the same types and categories pick candidates of the same
/// type.
pub proof fn lemma_pick_kinds(a: Seq<(ResultView, IdentifierCategory)>, b: Seq<(ResultView, IdentifierCategory)>, pref: IdentifierCategory)
    requires
        candidate_kinds(a) == candidate_kinds(b),
    ensures
        first_of(a, pref) is Some == first_of(b, pref) is Some,
        first_of(a, pref) is Some ==> value_type_of(first_of(a, pref)->0) == value_type_of(first_of(b, pref)->0),
        pick(a, pref) is Some == pick(b, pref) is Some,
        pick(a, pref) is Some ==> value_type_of(pick(a, pref)->0) == value_type_of(pick(b, pref)->0),
        first_of(a, pref) matches Some(x) ==> (traced(x) is Some ==> first_of(b, pref) == Some(x)),
        pick(a, pref) matches Some(x) ==> (traced(x) is Some ==> pick(b, pref) == Some(x)),
    decreases a.len(),
{
    assert(a.len() == candidate_kinds(a).len());
    assert(b.len() == candidate_kinds(b).len());
    if a.len() > 0 {
        assert(candidate_kinds(a)[0] == candidate_kinds(b)[0]);
        assert(candidate_kinds(a.drop_first()) =~= candidate_kinds(a).drop_first());
        assert(candidate_kinds(b.drop_first()) =~= candidate_kinds(b).drop_first());
        lemma_pick_kinds(a.drop_first(), b.drop_first(), pref);
    }
}

/// A lookup finds a value of the same type in two states that differ only
/// in their buffers.
pub proof fn lemma_walk_kinds(g: CodeGen, h: CodeGen, c: nat, name: Seq<char>, pref: IdentifierCategory)
    requires
        g.contexts == h.contexts,
        g.parents == h.parents,
        g.runtime_vars == h.runtime_vars,
        g.domain_vars == h.domain_vars,
    ensures
        access_walk(g, c, name, pref) is Some == access_walk(h, c, name, pref) is Some,
        access_walk(g, c, name, pref) matches Some(x) ==> (access_walk(h, c, name, pref) matches Some(y)
            && value_type_of(x.1) == value_type_of(y.1)),
        access_walk(g, c, name, pref) matches Some(x) ==> (traced(x.1) is Some ==> access_walk(h, c, name, pref) == Some(x)),
    decreases c,
{
    if c < g.contexts@.len() {
        let v1 = after_void(g.buffer@).1;
        let v2 = after_void(h.buffer@).1;
        assert(access_candidates(h, c as int, name, v2) == access_candidates(g, c as int, name, v2));
        lemma_candidate_kinds(g, c as int, name, v1, v2);
        lemma_pick_kinds(access_candidates(g, c as int, name, v1), access_candidates(g, c as int, name, v2), pref);
        if c != 0 && g.parents@[c as int] < c {
            lemma_walk_kinds(g, h, g.parents@[c as int] as nat, name, pref);
        }
    }
}

/// The views of a list of candidates.
pub open spec fn found_view(s: Seq<(CodegenExpressionResult, IdentifierCategory)>) -> Seq<(ResultView, IdentifierCategory)> {
    s.map_values(|p: (CodegenExpressionResult, IdentifierCategory)| (p.0@, p.1))
}


/// A context a definition names exists and is of the kind asked for.
pub proof fn lemma_definition_context(cs: Seq<crate::codegen::context::Context>, d: CodeDefinition, k: ContextKind)
    ensures
        definition_context(cs, d, k) matches Ok(c) ==> c < cs.len(),
{
    if let CodeDefinition::Multiple(v) = d {
        lemma_first_context_of(cs, v@, k);
    }
}

/// The field that a definition names is one of the context's fields.
pub proof fn lemma_first_field_in_range(v: Seq<CodeDefinition>, n: nat, fields: nat)
    requires
        forall|j: int| 0 <= j < v.len() ==> match #[trigger] v[j] {
            CodeDefinition::Context(i) => i < n,
            CodeDefinition::Field(f) => f < fields,
            _ => true,
        },
    ensures
        first_field_of(v) matches Some(f) ==> f < fields,
    decreases v.len(),
{
    if v.len() > 0 {
        match v[0] {
            CodeDefinition::Field(_) => {},
            _ => {
                assert forall|j: int| 0 <= j < v.drop_first().len() implies match #[trigger] v.drop_first()[j] {
                    CodeDefinition::Context(i) => i < n,
                    CodeDefinition::Field(f) => f < fields,
                    _ => true,
                } by {
                    assert(v.drop_first()[j] == v[j + 1]);
                }
                lemma_first_field_in_range(v.drop_first(), n, fields);
            },
        }
    }
}

/// The instruction whose parameters are the given values.
pub(crate) fn values_op(action: Action, values: Vec<ParameterValue>) -> (i: Instruction)
    ensures
        i@ == op_instr(action, values@.map_values(|p: ParameterValue| p@)),
{
    let ghost vs = values@;
    let i = instruction_of(action, values);
    proof {
        assert(slotless_all(vs) =~= vs.map_values(|p: ParameterValue| p@).map_values(|x: ValueView| slotless(x)));
    }
    i
}

/// The instruction whose parameters are the given identifiers.
pub(crate) fn idents_op(action: Action, ids: Vec<u32>) -> (i: Instruction)
    ensures
        i@ == ident_instr(action, ids@),
{
    let mut values: Vec<ParameterValue> = Vec::new();
    for k in 0..ids.len()
        invariant
            values@.map_values(|p: ParameterValue| p@) == ids@.take(k as int).map_values(|x: u32| ValueView::Ident(x)),
    {
        let ghost before = values@;
        values.push(ParameterValue::Ident(ids[k]));
        proof {
            assert(values@ == before.push(ParameterValue::Ident(ids@[k as int])));
            assert(ids@.take(k + 1) =~= ids@.take(k as int).push(ids@[k as int]));
            assert(values@.map_values(|p: ParameterValue| p@) =~= before.map_values(|p: ParameterValue| p@).push(
                ValueView::Ident(ids@[k as int]),
            ));
            assert(values@.map_values(|p: ParameterValue| p@) =~= ids@.take(k + 1).map_values(|x: u32| ValueView::Ident(x)));
        }
    }
    proof {
        assert(ids@.take(ids@.len() as int) =~= ids@);
    }
    values_op(action, values)
}

impl CodeGen {
    /// Picks the register that the value of one level of an expression goes
    /// to; see [`after_register`].
    pub fn generate_expression_allocate_register(&mut self, settings: &GenerateExpressionSettings, register_group: u64) -> (id: u32)
        requires
            old(self).buffer.wf(),
            room(old(self).buffer@, 1),
        ensures
            crate::codegen::codegen::same_but_buffer(*final(self), *old(self)),
            final(self).buffer.wf(),
            (final(self).buffer@, id) == after_register(old(self).buffer@, *settings, register_group),
            grows(old(self).buffer@, final(self).buffer@, 1),
    {
        proof {
            lemma_named_costs(self.buffer@, void_name(), VarScope::Global, ValueView::Int(0));
            lemma_allocate_cost(self.buffer@, register_group);
            if let Some(g) = settings.register_group {
                lemma_allocate_cost(self.buffer@, g);
            }
        }
        if settings.generate_codeblocks == false {
            return self.buffer.constant_void();
        }
        if settings.depth == 0 {
            if let Some(set_ident) = settings.set_ident {
                return set_ident;
            }
            if let Some(outside_group) = settings.register_group {
                return self.buffer.allocate_grouped_line_register(outside_group);
            }
            return self.buffer.allocate_line_register();
        }
        self.buffer.allocate_grouped_line_register(register_group)
    }

    /// Drops the code written since the code had `len` instructions when
    /// the settings generate no code: an expression evaluated only for its
    /// type leaves no code behind.
    pub fn drop_code_after(&mut self, settings: &GenerateExpressionSettings, len: usize)
        requires
            old(self).buffer.wf(),
            len <= old(self).buffer@.code.len(),
        ensures
            crate::codegen::codegen::same_but_buffer(*final(self), *old(self)),
            final(self).buffer.wf(),
            final(self).buffer@ == (if !settings.generate_codeblocks && len < old(self).buffer@.code.len() {
                BufferView { code: old(self).buffer@.code.take(len as int), ..old(self).buffer@ }
            } else {
                old(self).buffer@
            }),
    {
        if !settings.generate_codeblocks && len < self.buffer.code_len() {
            self.buffer.truncate_code(len);
        }
    }

    /// Appends an instruction to the code when the settings generate code.
    pub fn push_expression_instruction(&mut self, settings: &GenerateExpressionSettings, instruction: Instruction)
        requires
            old(self).buffer.wf(),
        ensures
            crate::codegen::codegen::same_but_buffer(*final(self), *old(self)),
            final(self).buffer.wf(),
            final(self).buffer@ == push_if(old(self).buffer@, settings.generate_codeblocks, instruction@),
    {
        if settings.generate_codeblocks {
            self.buffer.push_code(instruction);
        }
    }

    /// Appends a parameter to the last instruction of the code when the
    /// settings generate code.
    pub fn push_expression_parameter(&mut self, settings: &GenerateExpressionSettings, parameter: Parameter)
        requires
            old(self).buffer.wf(),
            settings.generate_codeblocks ==> old(self).buffer@.code.len() > 0,
        ensures
            crate::codegen::codegen::same_but_buffer(*final(self), *old(self)),
            final(self).buffer.wf(),
            final(self).buffer@.code.len() == old(self).buffer@.code.len(),
            final(self).buffer@ == (if settings.generate_codeblocks {
                BufferView {
                    code: old(self).buffer@.code.update(
                        old(self).buffer@.code.len() - 1,
                        InstructionView {
                            params: old(self).buffer@.code.last().params.push(parameter@),
                            ..old(self).buffer@.code.last()
                        },
                    ),
                    ..old(self).buffer@
                }
            } else {
                old(self).buffer@
            }),
    {
        if settings.generate_codeblocks {
            self.buffer.push_code_param(parameter);
        }
    }

    /// Casts a result to the type the settings expect; see [`cast_result`].
    /// Fails at `root_node` when no cast exists.
    pub fn implicitly_cast(
        &mut self,
        context: usize,
        root_node: &Rc<Node>,
        result: CodegenExpressionResult,
        settings: &GenerateExpressionSettings,
        register_group: u64,
    ) -> (r: Result<CodegenExpressionResult, CodegenError>)
        requires
            old(self).buffer.wf(),
            room(old(self).buffer@, 2),
        ensures
            crate::codegen::codegen::same_but_buffer(*final(self), *old(self)),
            final(self).buffer.wf(),
            grows(old(self).buffer@, final(self).buffer@, 2),
            match cast_result(old(self).buffer@, result@, *settings, register_group) {
                Some((w, x)) => r matches Ok(y) && y@ == x && final(self).buffer@ == w,
                None => r matches Err(e) && error_at(e, *root_node, ErrorRepr::CantImplicitlyCast)
                    && final(self).buffer@ == old(self).buffer@,
            },
    {
        let value_type = match &settings.expected_type {
            None => {
                return Ok(result);
            },
            Some(t) => t,
        };
        if value_type.same(&result.value.value_type) {
            return Ok(result);
        }
        let mut result = result;
        let is_number = matches!(result.value.value_type, ValueType::Primitive(PrimitiveType::Number));
        let is_vector = matches!(result.value.value_type, ValueType::Primitive(PrimitiveType::Vector));
        let wants_string = matches!(value_type, ValueType::Primitive(PrimitiveType::String));
        let wants_location = matches!(value_type, ValueType::Primitive(PrimitiveType::Location));
        if is_number && wants_string {
            let ghost v0 = self.buffer@;
            let register = self.generate_expression_allocate_register(settings, register_group);
            let mut ids: Vec<u32> = Vec::new();
            ids.push(register);
            ids.push(result.value.ident);
            proof {
                assert(ids@ =~= seq![register, result.value.ident]);
            }
            self.push_expression_instruction(settings, idents_op(Action { parent: Parent::Var, code: VAR_STRING }, ids));
            result.value.ident = register;
            result.value.value_type = value_type.clone();
            Ok(result)
        } else if is_vector && wants_location {
            let ghost v0 = self.buffer@;
            let register = self.generate_expression_allocate_register(settings, register_group);
            proof {
                lemma_location_cost(
                    self.buffer@,
                    ValueView::Int(0),
                    ValueView::Int(0),
                    ValueView::Int(0),
                    ValueView::Int(0),
                    ValueView::Int(0),
                );
            }
            let location = self.buffer.use_location(
                ParameterValue::Int(0),
                ParameterValue::Int(0),
                ParameterValue::Int(0),
                ParameterValue::Int(0),
                ParameterValue::Int(0),
            );
            let mut ids: Vec<u32> = Vec::new();
            ids.push(register);
            ids.push(location);
            ids.push(result.value.ident);
            proof {
                assert(ids@ =~= seq![register, location, result.value.ident]);
            }
            self.push_expression_instruction(
                settings,
                idents_op(Action { parent: Parent::Var, code: VAR_SHIFT_ON_VECTOR }, ids),
            );
            result.value.ident = register;
            result.value.value_type = value_type.clone();
            Ok(result)
        } else {
            CodegenError::err(root_node.clone(), ErrorRepr::CantImplicitlyCast)
        }
    }

    /// The field of a context that an identifier names; fails at the
    /// identifier when it is not one, or names no field.
    pub fn find_context_field(&self, context: usize, identifier: &Rc<Node>) -> (r: Result<FieldDefinition, CodegenError>)
        requires
            tables_ok(*self),
            context < self.contexts@.len(),
        ensures
            match primary_ident(**identifier) {
                None => r matches Err(e) && error_at(e, *identifier, ErrorRepr::ExpectedIdentifier),
                Some(name) => if !defs(self.contexts@[context as int]).dom().contains(name) {
                    r matches Err(e) && error_at(e, *identifier, ErrorRepr::InvalidStructField)
                } else {
                    match definition_field(defs(self.contexts@[context as int])[name]) {
                        Some(f) => f < self.contexts@[context as int].fields@.len() && (r matches Ok(fd)
                            && fd.index == f && fd.field == self.contexts@[context as int].fields@[f as int]),
                        None => r matches Err(e) && e.token is None && e.source == ErrorRepr::ExpectedField,
                    }
                },
            },
    {
        let identifier_string = Self::get_primary_as_ident(identifier, ErrorRepr::ExpectedIdentifier)?;
        let struct_context = &self.contexts[context];
        let pos = match str_position(&struct_context.definition_lookup, identifier_string.as_str()) {
            Some(pos) => pos,
            None => {
                return CodegenError::err(identifier.clone(), ErrorRepr::InvalidStructField);
            },
        };
        let definition = &struct_context.definition_lookup[pos].1;
        let field_id = self.extract_definition_field(definition)?;
        proof {
            let c = self.contexts@[context as int];
            let d = defs(c)[identifier_string@];
            assert(crate::codegen::codegen::def_in_range(d, self.contexts@.len(), c.fields@.len()));
            if let CodeDefinition::Multiple(v) = d {
                lemma_first_field_in_range(v@, self.contexts@.len(), c.fields@.len());
            }
        }
        Ok(FieldDefinition { field: struct_context.fields[field_id].clone(), index: field_id })
    }

    /// The domain that a primary identifier names in a context itself;
    /// none for anything else. Fails when the identifier is not defined
    /// there.
    pub fn get_shallow_domain_access(&self, context: usize, access: &Rc<Node>) -> (r: Result<Option<usize>, CodegenError>)
        requires
            tables_ok(*self),
            context < self.contexts@.len(),
        ensures
            match primary_ident(**access) {
                None => r == Ok::<Option<usize>, CodegenError>(None),
                Some(name) => if !defs(self.contexts@[context as int]).dom().contains(name) {
                    r matches Err(e) && error_at(e, *access, ErrorRepr::DefinitionIdentNotRecognized)
                } else {
                    r == Ok::<Option<usize>, CodegenError>(
                        match defs(self.contexts@[context as int])[name] {
                            CodeDefinition::Context(d) => if self.contexts@[d as int].context_type is Domain {
                                Some(d)
                            } else {
                                None
                            },
                            _ => None,
                        },
                    )
                },
            },
    {
        if let Node::Primary(token) = &**access {
            if let TokenType::Ident(_) = &token.token_type {
                let definition = self.find_definition_by_ident(access, context)?;
                if let CodeDefinition::Context(domain_context) = definition {
                    proof {
                        let c = self.contexts@[context as int];
                        assert(crate::codegen::codegen::def_in_range(*definition, self.contexts@.len(), c.fields@.len()));
                    }
                    if matches!(self.contexts[*domain_context].context_type, ContextType::Domain) {
                        return Ok(Some(*domain_context));
                    }
                }
            }
        }
        Ok(None)
    }

    /// The void variable, made on first use.
    pub(crate) fn void_ident(&mut self) -> (id: u32)
        requires
            old(self).buffer.wf(),
            old(self).buffer@.void_variable is Some || room(old(self).buffer@, 1),
        ensures
            crate::codegen::codegen::same_but_buffer(*final(self), *old(self)),
            final(self).buffer.wf(),
            (final(self).buffer@, id) == after_void(old(self).buffer@),
            grows(old(self).buffer@, final(self).buffer@, 1),
    {
        proof {
            lemma_named_costs(self.buffer@, void_name(), VarScope::Global, ValueView::Int(0));
        }
        self.buffer.constant_void()
    }

    /// What a primary identifier stands for in one context, not looking at
    /// its parents; see [`access_candidates`] and [`pick`]. Fails at the
    /// node when it is not an identifier or stands for nothing there.
    #[verifier::rlimit(40)]
    pub fn get_definition_access(
        &mut self,
        context: usize,
        settings: &GenerateExpressionSettings,
        node: &Rc<Node>,
        register_group: u64,
    ) -> (r: Result<CodegenExpressionResult, CodegenError>)
        requires
            gen_ok(*old(self)),
            context < old(self).contexts@.len(),
            room(old(self).buffer@, 1),
        ensures
            crate::codegen::codegen::same_but_buffer(*final(self), *old(self)),
            final(self).buffer.wf(),
            grows(old(self).buffer@, final(self).buffer@, 1),
            r matches Ok(y) ==> type_ids_ok(y.value.value_type, old(self).contexts@.len()),
            r matches Ok(y) ==> (y.trace matches Some(t) ==> t.crumbs@.len() == 0),
            match primary_ident(**node) {
                None => r matches Err(e) && error_at(e, *node, ErrorRepr::ExpectedIdentifier)
                    && final(self).buffer@ == old(self).buffer@,
                Some(name) => final(self).buffer@ == after_access(*old(self), context as int, name) && match pick(
                    access_candidates(*old(self), context as int, name, after_void(old(self).buffer@).1),
                    settings.preferred_category,
                ) {
                    Some(x) => r matches Ok(y) && y@ == x,
                    None => r matches Err(e) && error_at(e, *node, ErrorRepr::DefinitionIdentNotRecognized),
                },
            },
    {
        let ghost g0 = *self;
        let var_name = Self::get_primary_as_ident(node, ErrorRepr::ExpectedIdentifier)?;
        let ghost name = var_name@;
        let ghost void = after_void(g0.buffer@).1;
        let mut found: Vec<(CodegenExpressionResult, IdentifierCategory)> = Vec::new();
        let ghost rv = str_keyed(g0.runtime_vars@[context as int]@);
        if let Some(pos) = str_position(&self.runtime_vars[context], var_name.as_str()) {
            let value = self.runtime_vars[context][pos].1.variable.clone();
            let ident = value.ident;
            found.push((CodegenExpressionResult::trace(value, CodegenTrace::root(ident)), IdentifierCategory::RuntimeVariable));
            proof {
                assert(found_view(found@) =~= seq![(variable_result(rv[name].variable), IdentifierCategory::RuntimeVariable)]);
            }
        } else {
            proof {
                assert(found_view(found@) =~= Seq::<(ResultView, IdentifierCategory)>::empty());
            }
        }
        let ghost runtime = found_view(found@);
        let is_domain = matches!(self.contexts[context].context_type, ContextType::Domain);
        if is_domain {
            let looked = match self.find_definition_by_ident(node, context) {
                Ok(definition) => {
                    proof {
                        let c = self.contexts@[context as int];
                        assert(crate::codegen::codegen::def_in_range(*definition, self.contexts@.len(), c.fields@.len()));
                    }
                    let domain = self.extract_definition_domain(definition);
                    let function = self.extract_definition_function(definition);
                    let structure = self.extract_definition_struct(definition);
                    let field = self.find_context_field(context, node);
                    Some((domain, function, structure, field))
                },
                Err(_) => None,
            };
            if let Some((domain, function, structure, field)) = looked {
                let ghost d = defs(g0.contexts@[context as int])[name];
                let ghost vb = after_void(g0.buffer@).0;
                if let Ok(domain_id) = domain {
                    let void_id = self.void_ident();
                    found.push((
                        CodegenExpressionResult::value(CodegenValue::comptime(void_id, ComptimeType::Domain(domain_id))),
                        IdentifierCategory::Domain,
                    ));
                }
                proof {
                    assert(found_view(found@) =~= runtime + context_candidate(g0, d, ContextKind::Domain, void, IdentifierCategory::Domain));
                }
                assert(self.buffer@ == g0.buffer@ || self.buffer@ == vb);
                assert(self.buffer@ == vb ==> g0.buffer@.void_variable is None || vb == g0.buffer@);
                let ghost f1 = found_view(found@);
                if let Ok(func_id) = function {
                    let void_id = self.void_ident();
                    found.push((
                        CodegenExpressionResult::value(CodegenValue::comptime(void_id, ComptimeType::Function(func_id))),
                        IdentifierCategory::Function,
                    ));
                }
                proof {
                    assert(found_view(found@) =~= f1 + context_candidate(g0, d, ContextKind::Function, void, IdentifierCategory::Function));
                }
                assert(self.buffer@ == g0.buffer@ || self.buffer@ == vb);
                assert(self.buffer@ == vb ==> g0.buffer@.void_variable is None || vb == g0.buffer@);
                let ghost f2 = found_view(found@);
                if let Ok(struct_id) = structure {
                    let void_id = self.void_ident();
                    found.push((
                        CodegenExpressionResult::value(
                            CodegenValue::comptime(void_id, ComptimeType::Type(RealtimeValueType::Struct(struct_id))),
                        ),
                        IdentifierCategory::Type,
                    ));
                }
                proof {
                    assert(found_view(found@) =~= f2 + context_candidate(g0, d, ContextKind::Struct, void, IdentifierCategory::Type));
                }
                assert(self.buffer@ == g0.buffer@ || self.buffer@ == vb);
                assert(self.buffer@ == vb ==> g0.buffer@.void_variable is None || vb == g0.buffer@);
                let ghost f3 = found_view(found@);
                if let Ok(domain_definition) = field {
                    proof {
                        assert(domains_ok(g0));
                        assert(g0.contexts@[context as int].context_type is Domain);
                    }
                    let value = self.domain_vars[context][domain_definition.index].variable.clone();
                    let ident = value.ident;
                    found.push((CodegenExpressionResult::trace(value, CodegenTrace::root(ident)), IdentifierCategory::Field));
                }
                proof {
                    assert(found_view(found@) =~= f3 + match definition_field(d) {
                        Some(f) => seq![(variable_result(g0.domain_vars@[context as int]@[f as int].variable), IdentifierCategory::Field)],
                        None => Seq::<(ResultView, IdentifierCategory)>::empty(),
                    });
                }
            }
        }
        proof {
            assert(found_view(found@) == access_candidates(g0, context as int, name, void));
            assert(self.buffer@ == after_access(g0, context as int, name));
            let n = g0.contexts@.len();
            assert forall|k: int| 0 <= k < found@.len() implies (#[trigger] found@[k].0.trace matches Some(t) ==> t.crumbs@.len() == 0) by {
                let all = found_view(found@);
                assert(all[k] == (found@[k].0@, found@[k].1));
            }
            assert forall|k: int| 0 <= k < found@.len() implies type_ids_ok(#[trigger] found@[k].0.value.value_type, n) by {
                let all = found_view(found@);
                assert(all[k] == (found@[k].0@, found@[k].1));
                let rvs = g0.runtime_vars@[context as int]@;
                if str_keyed(rvs).dom().contains(name) {
                    crate::table::lemma_str_keyed_in(rvs, name);
                }
                let c = g0.contexts@[context as int];
                if c.context_type is Domain && defs(c).dom().contains(name) {
                    let d = defs(c)[name];
                    lemma_definition_context(g0.contexts@, d, ContextKind::Domain);
                    lemma_definition_context(g0.contexts@, d, ContextKind::Function);
                    lemma_definition_context(g0.contexts@, d, ContextKind::Struct);
                    assert(crate::codegen::codegen::def_in_range(d, n, c.fields@.len()));
                    if let CodeDefinition::Multiple(v) = d {
                        lemma_first_field_in_range(v@, n, c.fields@.len());
                    }
                }
            }
        }
        let ghost all = found_view(found@);
        let mut j: usize = 0;
        proof {
            assert(all.skip(0) =~= all);
        }
        while j < found.len()
            invariant
                j <= found@.len(),
                all == found_view(found@),
                g0 == *old(self),
                primary_ident(**node) == Some(name),
                all == access_candidates(*old(self), context as int, name, after_void(old(self).buffer@).1),
                forall|k: int| 0 <= k < found@.len() ==> type_ids_ok(#[trigger] found@[k].0.value.value_type, old(self).contexts@.len()),
                forall|k: int| 0 <= k < found@.len() ==> (#[trigger] found@[k].0.trace matches Some(t) ==> t.crumbs@.len() == 0),
                crate::codegen::codegen::same_but_buffer(*self, *old(self)),
                self.buffer.wf(),
                self.buffer@ == after_access(*old(self), context as int, name),
                grows(old(self).buffer@, self.buffer@, 1),
                first_of(all, settings.preferred_category) == first_of(all.skip(j as int), settings.preferred_category),
            decreases found@.len() - j,
        {
            proof {
                assert(all.skip(j as int).drop_first() =~= all.skip(j + 1));
                assert(all.skip(j as int)[0] == all[j as int]);
                assert(all[j as int] == (found@[j as int].0@, found@[j as int].1));
            }
            if found[j].1 == settings.preferred_category {
                return Ok(found[j].0.clone());
            }
            j = j + 1;
        }
        proof {
            assert(all.skip(j as int) =~= Seq::<(ResultView, IdentifierCategory)>::empty());
        }
        if found.len() > 0 {
            proof {
                assert(all[0] == (found@[0].0@, found@[0].1));
            }
            Ok(found[0].0.clone())
        } else {
            CodegenError::err(node.clone(), ErrorRepr::DefinitionIdentNotRecognized)
        }
    }

    /// What a primary identifier stands for seen from a context: a
    /// primitive type by its name, else the first context, from `context`
    /// up through its parents, where it stands for something; see
    /// [`access_walk`]. Fails at the node when it stands for nothing.
    pub fn get_definition_access_isolated(
        &mut self,
        context: usize,
        settings: &GenerateExpressionSettings,
        node: &Rc<Node>,
        register_group: u64,
    ) -> (r: Result<CodegenExpressionResult, CodegenError>)
        requires
            gen_ok(*old(self)),
            context < old(self).contexts@.len(),
            room(old(self).buffer@, 2),
        ensures
            crate::codegen::codegen::same_but_buffer(*final(self), *old(self)),
            final(self).buffer.wf(),
            grows(old(self).buffer@, final(self).buffer@, 1),
            final(self).buffer@ == old(self).buffer@ || final(self).buffer@ == after_void(old(self).buffer@).0,
            r matches Ok(y) ==> type_ids_ok(y.value.value_type, old(self).contexts@.len()),
            r matches Ok(y) ==> (y.trace matches Some(t) ==> t.crumbs@.len() == 0),
            match primary_ident(**node) {
                None => r matches Err(e) && error_at(e, *node, ErrorRepr::ExpectedVariableIdentifier),
                Some(name) => match primitive_named(name) {
                    Some(p) => r matches Ok(y) && y@ == comptime_result(
                        after_void(old(self).buffer@).1,
                        ComptimeType::Type(RealtimeValueType::Primitive(p)),
                    ),
                    None => match access_walk(*old(self), context as nat, name, settings.preferred_category) {
                        Some((_, x)) => r matches Ok(y) && y@ == x,
                        None => r matches Err(e) && error_at(e, *node, ErrorRepr::DefinitionIdentNotRecognized),
                    },
                },
            },
    {
        let var_name = Self::get_primary_as_ident(node, ErrorRepr::ExpectedVariableIdentifier)?;
        let ghost name = var_name@;
        if let Some(primitive) = Self::is_definition_primitive(var_name.as_str()) {
            let void_id = self.void_ident();
            return Ok(CodegenExpressionResult::value(
                CodegenValue::comptime(void_id, ComptimeType::Type(RealtimeValueType::Primitive(primitive))),
            ));
        }
        let mut current = context;
        loop
            invariant
                gen_ok(*old(self)),
                current < old(self).contexts@.len(),
                primary_ident(**node) == Some(name),
                primitive_named(name) is None,
                crate::codegen::codegen::same_but_buffer(*self, *old(self)),
                self.buffer.wf(),
                room(old(self).buffer@, 2),
                self.buffer@ == old(self).buffer@ || self.buffer@ == after_void(old(self).buffer@).0,
                access_walk(*old(self), context as nat, name, settings.preferred_category)
                    == access_walk(*old(self), current as nat, name, settings.preferred_category),
            decreases current,
        {
            let ghost g = *self;
            proof {
                assert(access_candidates(g, current as int, name, after_void(g.buffer@).1)
                    == access_candidates(*old(self), current as int, name, after_void(old(self).buffer@).1));
            }
            let found = self.get_definition_access(current, settings, node, register_group);
            if let Ok(value) = found {
                return Ok(value);
            }
            proof {
                assert(after_access(g, current as int, name) == g.buffer@ || after_access(g, current as int, name) == after_void(old(self).buffer@).0);
            }
            if current == 0 {
                return CodegenError::err(node.clone(), ErrorRepr::DefinitionIdentNotRecognized);
            }
            current = self.parents[current];
        }
    }
}

} // verus!
