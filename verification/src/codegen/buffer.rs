//! The output buffers of code generation, with the tables that hand out one
//! identifier per distinct number, location, string, variable, parameter and
//! function, and the allocator of line registers.
use vstd::prelude::*;

use crate::code::{
    act, bare, slotless, Action, CodeBin, Instruction, InstructionView, Parameter,
    ParameterValue, ParamType, Parent, Tag, TagView, ValueView, VarScope, DP_LOC, DP_NUM,
    DP_PARAM, DP_STR, DP_VAR, SEG_CODE, SEG_FUNC, SEG_PARAM,
};
use crate::codegen::bitset::{
    bitset_allocate, bitset_deallocate, in_bitset, lemma_allocated_set, lemma_freed_set,
    lemma_lowest_free_is_free, lowest_free, with_allocated, with_freed,
};
use crate::codegen::constants::CodeGenConstants;
use crate::codegen::errors::{CodegenError, ErrorRepr};
use crate::table::{keyed, lemma_keyed_push, str_get, str_keyed, u32_get, u64_position, usize_get};
use crate::text::{decimal, i64_decimal, push_char, signed_decimal, u64_decimal};

verus! {

/// What a [`CodeGenBuffer`] holds, with its tables as maps.
pub struct BufferView {
    pub void_variable: Option<u32>,
    pub code: Seq<InstructionView>,
    pub funcs: Seq<InstructionView>,
    pub params: Seq<InstructionView>,
    pub ident_count: u32,
    pub numbers: Map<Seq<char>, u32>,
    pub locations: Map<Seq<char>, u32>,
    pub strings: Map<Seq<char>, u32>,
    pub variables: Map<Seq<char>, u32>,
    pub param_names: Map<Seq<char>, u32>,
    pub return_params: Map<Seq<char>, u32>,
    pub functions: Map<Seq<char>, u32>,
    pub register_idents: Map<usize, u32>,
    pub register_indices: Map<u32, usize>,
    pub registers: Seq<u64>,
    pub groups: Map<u64, Seq<u32>>,
    pub group_count: u64,
}

/// The buffers that code generation writes: functions, parameters and code.
pub struct CodeGenBuffer {
    pub constants: CodeGenConstants,
    pub code_buffer: CodeBin,
    pub func_buffer: CodeBin,
    pub param_buffer: CodeBin,
    pub ident_count: u32,
    idents_number_hash: Vec<(String, u32)>,
    idents_location_hash: Vec<(String, u32)>,
    idents_string_hash: Vec<(String, u32)>,
    idents_variable_hash: Vec<(String, u32)>,
    idents_param_hash: Vec<(String, u32)>,
    idents_return_param_hash: Vec<(String, u32)>,
    idents_function_hash: Vec<(String, u32)>,
    line_register_idents: Vec<(usize, u32)>,
    line_register_indices: Vec<(u32, usize)>,
    allocated_line_registers: Vec<u64>,
    allocated_line_register_groups: Vec<(u64, Vec<u32>)>,
    line_register_groups: u64,
}

impl View for CodeGenBuffer {
    type V = BufferView;

    closed spec fn view(&self) -> BufferView {
        BufferView {
            void_variable: self.constants.void_variable,
            code: self.code_buffer@,
            funcs: self.func_buffer@,
            params: self.param_buffer@,
            ident_count: self.ident_count,
            numbers: str_keyed(self.idents_number_hash@),
            locations: str_keyed(self.idents_location_hash@),
            strings: str_keyed(self.idents_string_hash@),
            variables: str_keyed(self.idents_variable_hash@),
            param_names: str_keyed(self.idents_param_hash@),
            return_params: str_keyed(self.idents_return_param_hash@),
            functions: str_keyed(self.idents_function_hash@),
            register_idents: keyed(self.line_register_idents@),
            register_indices: keyed(self.line_register_indices@),
            registers: self.allocated_line_registers@,
            groups: group_views(keyed(self.allocated_line_register_groups@)),
            group_count: self.line_register_groups,
        }
    }
}

/// The members of each group, by their views.
pub open spec fn group_views(m: Map<u64, Vec<u32>>) -> Map<u64, Seq<u32>> {
    m.map_values(|v: Vec<u32>| v@)
}

/// Every register known by identifier has its index inside the allocator,
/// and every register reached by index or by group is known by identifier.
pub open spec fn registers_consistent(v: BufferView) -> bool {
    &&& forall|id: u32| #[trigger] v.register_indices.dom().contains(id)
        ==> v.register_indices[id] < 64 * v.registers.len()
    &&& forall|idx: usize| #[trigger] v.register_idents.dom().contains(idx)
        ==> v.register_indices.dom().contains(v.register_idents[idx])
    &&& forall|g: u64, j: int| #[trigger] v.groups.dom().contains(g) && 0 <= j < v.groups[g].len()
        ==> v.register_indices.dom().contains(#[trigger] v.groups[g][j])
}

/// The key under which a value is remembered.
pub open spec fn param_key(v: ValueView) -> Seq<char> {
    match v {
        ValueView::Ident(i) => decimal(i as nat).push('v'),
        ValueView::String(s) => s.push('s'),
        ValueView::Int(i) => signed_decimal(i as int).push('i'),
        ValueView::Float(f) => decimal(f as nat).push('f'),
    }
}

/// The key under which a location is remembered: the keys of its parts,
/// separated by spaces.
pub open spec fn location_key(
    x: ValueView,
    y: ValueView,
    z: ValueView,
    pitch: ValueView,
    yaw: ValueView,
) -> Seq<char> {
    param_key(x) + seq![' '] + param_key(y) + seq![' '] + param_key(z) + seq![' ']
        + param_key(pitch) + seq![' '] + param_key(yaw)
}

/// A definition instruction: an identifier and a name.
pub open spec fn named_definition(action: Action, id: u32, name: Seq<char>, tags: Seq<TagView>) -> InstructionView {
    InstructionView {
        action,
        params: seq![slotless(ValueView::Ident(id)), slotless(ValueView::String(name))],
        tags,
    }
}

/// The name of the variable behind line register `index`: `_xl` and the index.
pub open spec fn register_name(index: usize) -> Seq<char> {
    seq!['_', 'x', 'l'] + decimal(index as nat)
}

/// The name of the variable that holds nothing.
pub open spec fn void_name() -> Seq<char> {
    seq!['_', 'c', '_', 'v', 'o', 'i', 'd']
}

/// The buffer with one more identifier handed out.
pub open spec fn bumped(v: BufferView) -> BufferView {
    BufferView { ident_count: (v.ident_count + 1) as u32, ..v }
}

/// The state after asking for a number, and the identifier returned.
pub open spec fn after_number(v: BufferView, number: ValueView) -> (BufferView, u32) {
    let k = param_key(number);
    if v.numbers.dom().contains(k) {
        (v, v.numbers[k])
    } else {
        let id = v.ident_count;
        let instr = InstructionView {
            action: act(Parent::DP, DP_NUM),
            params: seq![slotless(ValueView::Ident(id)), slotless(number)],
            tags: Seq::empty(),
        };
        (BufferView { params: v.params.push(instr), numbers: v.numbers.insert(k, id), ..bumped(v) }, id)
    }
}

/// The state after asking for a location, and the identifier returned.
///
/// A location is looked up among locations but remembered among numbers,
/// so a second request for the same location makes a new definition.
pub open spec fn after_location(
    v: BufferView,
    x: ValueView,
    y: ValueView,
    z: ValueView,
    pitch: ValueView,
    yaw: ValueView,
) -> (BufferView, u32) {
    let k = location_key(x, y, z, pitch, yaw);
    if v.locations.dom().contains(k) {
        (v, v.locations[k])
    } else {
        let id = v.ident_count;
        let instr = InstructionView {
            action: act(Parent::DP, DP_LOC),
            params: seq![slotless(ValueView::Ident(id)), slotless(x), slotless(y), slotless(z)],
            tags: seq![TagView::Pitch(pitch), TagView::Yaw(yaw)],
        };
        (BufferView { params: v.params.push(instr), numbers: v.numbers.insert(k, id), ..bumped(v) }, id)
    }
}

/// The state after asking for a string, and the identifier returned.
pub open spec fn after_string(v: BufferView, name: Seq<char>) -> (BufferView, u32) {
    if v.strings.dom().contains(name) {
        (v, v.strings[name])
    } else {
        let id = v.ident_count;
        let instr = named_definition(act(Parent::DP, DP_STR), id, name, Seq::empty());
        (BufferView { params: v.params.push(instr), strings: v.strings.insert(name, id), ..bumped(v) }, id)
    }
}

/// The state after asking for a variable, and the identifier returned.
pub open spec fn after_variable(v: BufferView, name: Seq<char>, scope: VarScope) -> (BufferView, u32) {
    if v.variables.dom().contains(name) {
        (v, v.variables[name])
    } else {
        let id = v.ident_count;
        let instr = named_definition(act(Parent::DP, DP_VAR), id, name, seq![TagView::Scope(scope)]);
        (BufferView { params: v.params.push(instr), variables: v.variables.insert(name, id), ..bumped(v) }, id)
    }
}

/// The state after asking for a function parameter, and the identifiers of
/// the parameter and of its line variable.
pub open spec fn after_param(v: BufferView, name: Seq<char>) -> (BufferView, (u32, u32)) {
    let (w, var_id) = after_variable(v, name, VarScope::Line);
    if w.param_names.dom().contains(name) {
        (w, (w.param_names[name], var_id))
    } else {
        let id = w.ident_count;
        let instr = named_definition(act(Parent::DP, DP_PARAM), id, name, Seq::empty());
        (BufferView { params: w.params.push(instr), param_names: w.param_names.insert(name, id), ..bumped(w) }, (id, var_id))
    }
}

/// The state after asking for a returned parameter, and the identifiers of
/// the parameter and of its line variable.
pub open spec fn after_return_param(v: BufferView, name: Seq<char>) -> (BufferView, (u32, u32)) {
    let (w, var_id) = after_variable(v, name, VarScope::Line);
    if w.return_params.dom().contains(name) {
        (w, (w.return_params[name], var_id))
    } else {
        let id = w.ident_count;
        let instr = named_definition(
            act(Parent::DP, DP_PARAM),
            id,
            name,
            seq![TagView::ParamType(ParamType::Var)],
        );
        (BufferView { params: w.params.push(instr), return_params: w.return_params.insert(name, id), ..bumped(w) }, (id, var_id))
    }
}

/// The state after asking for a function, and the identifier returned.
pub open spec fn after_function(v: BufferView, name: Seq<char>) -> (BufferView, u32) {
    if v.functions.dom().contains(name) {
        (v, v.functions[name])
    } else {
        let id = v.ident_count;
        let instr = named_definition(act(Parent::DF, 0), id, name, Seq::empty());
        (BufferView { funcs: v.funcs.push(instr), functions: v.functions.insert(name, id), ..bumped(v) }, id)
    }
}

/// The state after asking for line register `index`, and its identifier.
pub open spec fn after_line_register(v: BufferView, index: usize) -> (BufferView, u32) {
    if v.register_idents.dom().contains(index) {
        (v, v.register_idents[index])
    } else {
        let (w, id) = after_variable(v, register_name(index), VarScope::Line);
        (BufferView {
            register_idents: w.register_idents.insert(index, id),
            register_indices: w.register_indices.insert(id, index),
            ..w
        }, id)
    }
}

/// Whether asking for variable `name` leaves the identifier counter in range.
pub open spec fn variable_fits(v: BufferView, name: Seq<char>) -> bool {
    v.variables.dom().contains(name) || v.ident_count < u32::MAX
}

/// Whether asking for parameter `name` leaves the identifier counter in range.
pub open spec fn param_fits(v: BufferView, name: Seq<char>) -> bool {
    &&& variable_fits(v, name)
    &&& after_variable(v, name, VarScope::Line).0.param_names.dom().contains(name)
        || after_variable(v, name, VarScope::Line).0.ident_count < u32::MAX
}

/// Whether asking for returned parameter `name` leaves the identifier counter in range.
pub open spec fn return_param_fits(v: BufferView, name: Seq<char>) -> bool {
    &&& variable_fits(v, name)
    &&& after_variable(v, name, VarScope::Line).0.return_params.dom().contains(name)
        || after_variable(v, name, VarScope::Line).0.ident_count < u32::MAX
}

/// Whether asking for line register `index` leaves the identifier counter in range.
pub open spec fn line_register_fits(v: BufferView, index: usize) -> bool {
    v.register_idents.dom().contains(index) || variable_fits(v, register_name(index))
}

/// The register index that the next allocation takes.
pub open spec fn next_register(v: BufferView) -> usize {
    lowest_free(v.registers) as usize
}

/// The state after allocating a line register, and its identifier.
pub open spec fn after_allocate(v: BufferView) -> (BufferView, u32) {
    let index = next_register(v);
    after_line_register(BufferView { registers: with_allocated(v.registers, index as nat), ..v }, index)
}

/// Whether allocating a line register keeps every counter in range.
pub open spec fn allocate_fits(v: BufferView) -> bool {
    &&& 64 * (v.registers.len() + 1) <= usize::MAX
    &&& line_register_fits(BufferView { registers: with_allocated(v.registers, next_register(v) as nat), ..v }, next_register(v))
}

/// The state after allocating a line register into `group`, and its identifier.
///
/// The register joins the end of the list kept under `group`, which is
/// started when the group has none yet, so that freeing the group frees it.
pub open spec fn after_allocate_grouped(v: BufferView, group: u64) -> (BufferView, u32) {
    let (w, id) = after_allocate(v);
    if w.groups.dom().contains(group) {
        (BufferView { groups: w.groups.insert(group, w.groups[group].push(id)), ..w }, id)
    } else {
        (BufferView { groups: w.groups.insert(group, seq![id]), ..w }, id)
    }
}

/// The state after freeing the registers `ids` in order, and whether every
/// one of them was known; freeing stops at the first unknown one.
pub open spec fn after_free_all(v: BufferView, ids: Seq<u32>) -> (BufferView, bool)
    decreases ids.len(),
{
    if ids.len() == 0 {
        (v, true)
    } else if !v.register_indices.dom().contains(ids[0]) {
        (v, false)
    } else {
        after_free_all(
            BufferView { registers: with_freed(v.registers, v.register_indices[ids[0]] as nat), ..v },
            ids.drop_first(),
        )
    }
}

/// The buffer with every table, register and counter reset, its output kept.
pub open spec fn cleared(v: BufferView) -> BufferView {
    BufferView {
        ident_count: 0,
        numbers: Map::empty(),
        locations: Map::empty(),
        strings: Map::empty(),
        variables: Map::empty(),
        param_names: Map::empty(),
        return_params: Map::empty(),
        functions: Map::empty(),
        register_idents: Map::empty(),
        register_indices: Map::empty(),
        registers: Seq::empty(),
        groups: Map::empty(),
        group_count: 0,
        ..v
    }
}

/// The bin that a flush hands out: the function, parameter and code
/// segments, each behind its marker.
pub open spec fn flushed(v: BufferView) -> Seq<InstructionView> {
    seq![bare(act(Parent::Seg, SEG_FUNC))] + v.funcs + seq![bare(act(Parent::Seg, SEG_PARAM))] + v.params
        + seq![bare(act(Parent::Seg, SEG_CODE))] + v.code
}

proof fn lemma_str_push(t: Seq<(String, u32)>, k: String, id: u32)
    ensures
        str_keyed(t.push((k, id))) == str_keyed(t).insert(k@, id),
{
    assert(t.push((k, id)).drop_last() =~= t);
}

/// Freeing known registers never stops early, and leaves the registers known.
pub proof fn lemma_free_all_known(v: BufferView, ids: Seq<u32>)
    requires
        registers_consistent(v),
        forall|j: int| 0 <= j < ids.len() ==> v.register_indices.dom().contains(#[trigger] ids[j]),
    ensures
        after_free_all(v, ids).1,
        registers_consistent(after_free_all(v, ids).0),
        after_free_all(v, ids).0 == (BufferView { registers: after_free_all(v, ids).0.registers, ..v }),
        after_free_all(v, ids).0.registers.len() == v.registers.len(),
    decreases ids.len(),
{
    if ids.len() > 0 {
        let w = BufferView { registers: with_freed(v.registers, v.register_indices[ids[0]] as nat), ..v };
        assert(ids.drop_first().len() == ids.len() - 1);
        assert forall|j: int| 0 <= j < ids.drop_first().len() implies w.register_indices.dom().contains(
            #[trigger] ids.drop_first()[j],
        ) by {
            assert(ids.drop_first()[j] == ids[j + 1]);
        }
        lemma_free_all_known(w, ids.drop_first());
    }
}

/// Asking again for a number already asked for gives the same identifier
/// and changes nothing.
pub proof fn lemma_number_idempotent(v: BufferView, number: ValueView)
    ensures
        after_number(after_number(v, number).0, number) == after_number(v, number),
{
}

/// Asking again for a string already asked for gives the same identifier
/// and changes nothing.
pub proof fn lemma_string_idempotent(v: BufferView, name: Seq<char>)
    ensures
        after_string(after_string(v, name).0, name) == after_string(v, name),
{
}

/// Asking again for a variable already asked for gives the same identifier
/// and changes nothing, whatever scope the second request names.
pub proof fn lemma_variable_idempotent(v: BufferView, name: Seq<char>, scope: VarScope, again: VarScope)
    ensures
        after_variable(after_variable(v, name, scope).0, name, again) == after_variable(v, name, scope),
{
}

/// Asking again for a function parameter gives the same identifiers and
/// changes nothing.
pub proof fn lemma_param_idempotent(v: BufferView, name: Seq<char>)
    ensures
        after_param(after_param(v, name).0, name) == after_param(v, name),
{
}

/// Asking again for a returned parameter gives the same identifiers and
/// changes nothing.
pub proof fn lemma_return_param_idempotent(v: BufferView, name: Seq<char>)
    ensures
        after_return_param(after_return_param(v, name).0, name) == after_return_param(v, name),
{
}

/// Asking again for a function gives the same identifier and changes nothing.
pub proof fn lemma_function_idempotent(v: BufferView, name: Seq<char>)
    ensures
        after_function(after_function(v, name).0, name) == after_function(v, name),
{
}

/// Asking again for a line register gives the same identifier and changes
/// nothing.
pub proof fn lemma_line_register_idempotent(v: BufferView, index: usize)
    ensures
        after_line_register(after_line_register(v, index).0, index) == after_line_register(v, index),
{
}

/// A new definition takes the counter's value, so it differs from every
/// identifier handed out before while the counter stays ahead of them.
pub proof fn lemma_variable_fresh(v: BufferView, name: Seq<char>, scope: VarScope, other: Seq<char>)
    requires
        !v.variables.dom().contains(name),
        v.variables.dom().contains(other),
        v.variables[other] < v.ident_count,
    ensures
        after_variable(v, name, scope).1 != v.variables[other],
        after_variable(v, name, scope).0.variables[other] == v.variables[other],
{
}

/// From `a` to `b`, the identifier counter, the register words and the
/// group counter each grew by at most `k`.
pub open spec fn grows(a: BufferView, b: BufferView, k: nat) -> bool {
    &&& b.ident_count <= a.ident_count + k
    &&& b.registers.len() <= a.registers.len() + k
    &&& b.group_count <= a.group_count + k
}

/// Each counter of `a` can grow by `k` and stay in range.
pub open spec fn room(a: BufferView, k: nat) -> bool {
    &&& a.ident_count + k <= u32::MAX
    &&& 64 * (a.registers.len() + k + 1) <= usize::MAX
    &&& a.group_count + k < u64::MAX
}

/// Asking again for a variable gives the identifier it was given, and
/// changes nothing.
pub proof fn lemma_variable_remembered(v: BufferView, name: Seq<char>, first: VarScope, again: VarScope)
    ensures
        after_variable(after_variable(v, name, first).0, name, again) == after_variable(v, name, first),
{
}

/// Asking again for a number gives the identifier it was given, and
/// changes nothing.
pub proof fn lemma_number_remembered(v: BufferView, number: ValueView)
    ensures
        after_number(after_number(v, number).0, number) == after_number(v, number),
{
}

/// Asking again for a string gives the identifier it was given, and
/// changes nothing.
pub proof fn lemma_string_remembered(v: BufferView, text: Seq<char>)
    ensures
        after_string(after_string(v, text).0, text) == after_string(v, text),
{
}

/// Asking again for a function gives the identifier it was given, and
/// changes nothing.
pub proof fn lemma_function_remembered(v: BufferView, name: Seq<char>)
    ensures
        after_function(after_function(v, name).0, name) == after_function(v, name),
{
}

/// A new function parameter and its line variable get different
/// identifiers.
pub proof fn lemma_param_and_variable_differ(v: BufferView, name: Seq<char>)
    requires
        forall|k: Seq<char>| #[trigger] v.variables.dom().contains(k) ==> v.variables[k] < v.ident_count,
        !v.param_names.dom().contains(name),
        v.ident_count < u32::MAX,
    ensures
        ({
            let (_, (param_id, var_id)) = after_param(v, name);
            param_id != var_id
        }),
{
}

/// A definition by name uses one identifier.
pub proof fn lemma_named_costs(v: BufferView, name: Seq<char>, scope: VarScope, number: ValueView)
    ensures
        grows(v, after_variable(v, name, scope).0, 1),
        grows(v, after_string(v, name).0, 1),
        grows(v, after_function(v, name).0, 1),
        grows(v, after_number(v, number).0, 1),
        grows(v, after_param(v, name).0, 2),
        grows(v, after_return_param(v, name).0, 2),
        room(v, 1) ==> variable_fits(v, name),
        room(v, 2) ==> param_fits(v, name) && return_param_fits(v, name),
{
}

/// A location definition uses one identifier.
pub proof fn lemma_location_cost(v: BufferView, x: ValueView, y: ValueView, z: ValueView, pitch: ValueView, yaw: ValueView)
    ensures
        grows(v, after_location(v, x, y, z, pitch, yaw).0, 1),
{
}

/// Allocating a register uses one identifier and at most one word.
pub proof fn lemma_allocate_cost(v: BufferView, group: u64)
    ensures
        grows(v, after_allocate(v).0, 1),
        grows(v, after_allocate_grouped(v, group).0, 1),
        room(v, 1) ==> allocate_fits(v),
{
    let index = next_register(v);
    let w = BufferView { registers: with_allocated(v.registers, index as nat), ..v };
    assert(w.registers.len() <= v.registers.len() + 1);
    let u = after_line_register(w, index).0;
    assert(u.registers == w.registers);
    assert(u.ident_count <= w.ident_count + 1);
    assert(u.group_count == w.group_count);
    assert(after_allocate(v).0 == u);
}

/// Freeing registers leaves everything but the registers as it was.
pub proof fn lemma_free_all_keeps(v: BufferView, ids: Seq<u32>)
    ensures
        after_free_all(v, ids).0 == (BufferView { registers: after_free_all(v, ids).0.registers, ..v }),
    decreases ids.len(),
{
    if ids.len() > 0 && v.register_indices.dom().contains(ids[0]) {
        let w = BufferView { registers: with_freed(v.registers, v.register_indices[ids[0]] as nat), ..v };
        lemma_free_all_keeps(w, ids.drop_first());
    }
}

/// Freeing registers changes no counter.
pub proof fn lemma_free_all_cost(v: BufferView, ids: Seq<u32>)
    requires
        registers_consistent(v),
    ensures
        grows(v, after_free_all(v, ids).0, 0),
        after_free_all(v, ids).0.registers.len() == v.registers.len(),
    decreases ids.len(),
{
    if ids.len() > 0 && v.register_indices.dom().contains(ids[0]) {
        let w = BufferView { registers: with_freed(v.registers, v.register_indices[ids[0]] as nat), ..v };
        assert(w.registers.len() == v.registers.len());
        lemma_free_all_cost(w, ids.drop_first());
    }
}

impl CodeGenBuffer {
    /// The buffer and its tables hold together.
    pub open spec fn wf(&self) -> bool {
        registers_consistent(self@)
    }

    /// An empty buffer.
    pub fn new() -> (b: CodeGenBuffer)
        ensures
            b.wf(),
            b@ == cleared(b@),
            b@.void_variable is None,
            b@.code.len() == 0,
            b@.funcs.len() == 0,
            b@.params.len() == 0,
    {
        let b = Self {
            constants: CodeGenConstants::new(),
            code_buffer: CodeBin::new(),
            func_buffer: CodeBin::new(),
            param_buffer: CodeBin::new(),
            ident_count: 0,
            idents_number_hash: Vec::new(),
            idents_location_hash: Vec::new(),
            idents_string_hash: Vec::new(),
            idents_variable_hash: Vec::new(),
            idents_param_hash: Vec::new(),
            idents_return_param_hash: Vec::new(),
            idents_function_hash: Vec::new(),
            line_register_idents: Vec::new(),
            line_register_indices: Vec::new(),
            allocated_line_registers: Vec::new(),
            allocated_line_register_groups: Vec::new(),
            line_register_groups: 0,
        };
        proof {
            assert(b@.groups =~= Map::empty());
        }
        b
    }

    fn clear_variables(&mut self)
        ensures
            final(self)@ == cleared(old(self)@),
            final(self).wf(),
    {
        self.ident_count = 0;
        self.idents_variable_hash.clear();
        self.idents_param_hash.clear();
        self.idents_number_hash.clear();
        self.idents_location_hash.clear();
        self.idents_function_hash.clear();
        self.idents_return_param_hash.clear();
        self.idents_string_hash.clear();
        self.line_register_idents.clear();
        self.line_register_indices.clear();
        self.allocated_line_registers.clear();
        self.allocated_line_register_groups.clear();
        self.line_register_groups = 0;
        proof {
            assert(self@.groups =~= Map::empty());
            assert(self@ == cleared(old(self)@));
        }
    }

    /// Empties the three buffers and resets every table.
    pub fn clear(&mut self)
        ensures
            final(self)@ == (BufferView {
                code: Seq::empty(),
                funcs: Seq::empty(),
                params: Seq::empty(),
                ..cleared(old(self)@)
            }),
            final(self).wf(),
    {
        self.code_buffer.clear();
        self.func_buffer.clear();
        self.param_buffer.clear();
        self.clear_variables();
    }

    /// Hands out the function, parameter and code segments, each behind its
    /// marker, and resets the buffer.
    pub fn flush(&mut self) -> (flushed_bin: CodeBin)
        ensures
            flushed_bin@ == flushed(old(self)@),
            final(self)@ == (BufferView {
                code: Seq::empty(),
                funcs: Seq::empty(),
                params: Seq::empty(),
                ..cleared(old(self)@)
            }),
            final(self).wf(),
    {
        let mut out = CodeBin::new();
        out.push_instruction(Instruction::new(Action { parent: Parent::Seg, code: SEG_FUNC }));
        out.append_bin_mut(&mut self.func_buffer);
        out.push_instruction(Instruction::new(Action { parent: Parent::Seg, code: SEG_PARAM }));
        out.append_bin_mut(&mut self.param_buffer);
        out.push_instruction(Instruction::new(Action { parent: Parent::Seg, code: SEG_CODE }));
        out.append_bin_mut(&mut self.code_buffer);
        self.clear_variables();
        proof {
            assert(out@ =~= flushed(old(self)@));
        }
        out
    }

    /// The key under which a value is remembered.
    pub fn get_param_key(param: &ParameterValue) -> (key: String)
        ensures
            key@ == param_key(param@),
    {
        let mut key = match param {
            ParameterValue::Ident(v) => u64_decimal(*v as u64),
            ParameterValue::String(v) => v.clone(),
            ParameterValue::Int(v) => i64_decimal(*v),
            ParameterValue::Float(v) => u64_decimal(*v),
        };
        let suffix = match param {
            ParameterValue::Ident(_) => 'v',
            ParameterValue::String(_) => 's',
            ParameterValue::Int(_) => 'i',
            ParameterValue::Float(_) => 'f',
        };
        push_char(&mut key, suffix);
        key
    }

    /// The number of instructions of the code.
    pub fn code_len(&self) -> (n: usize)
        ensures
            n == self@.code.len(),
    {
        self.code_buffer.len()
    }

    /// Drops the code written after the first `n` instructions.
    pub fn truncate_code(&mut self, n: usize)
        requires
            old(self).wf(),
            n <= old(self)@.code.len(),
        ensures
            final(self).wf(),
            final(self)@ == (BufferView { code: old(self)@.code.take(n as int), ..old(self)@ }),
    {
        self.code_buffer.truncate_to(n);
    }

    /// Appends an instruction to the code.
    pub fn push_code(&mut self, i: Instruction)
        requires
            old(self).wf(),
        ensures
            final(self).wf(),
            final(self)@ == (BufferView { code: old(self)@.code.push(i@), ..old(self)@ }),
    {
        self.code_buffer.push_instruction(i);
    }

    /// Whether each counter can grow by `k` and stay in range.
    pub fn has_room(&self, k: u64) -> (b: bool)
        ensures
            b == room(self@, k as nat),
    {
        let ident_fits = (self.ident_count as u128) + (k as u128) <= (u32::MAX as u128);
        let words = self.allocated_line_registers.len() as u128;
        let registers_fit = 64u128 * (words + (k as u128) + 1u128) <= (usize::MAX as u128);
        let groups_fit = (self.line_register_groups as u128) + (k as u128) < (u64::MAX as u128);
        ident_fits && registers_fit && groups_fit
    }

    /// Appends a parameter to the last instruction of the code.
    pub fn push_code_param(&mut self, p: Parameter)
        requires
            old(self).wf(),
            old(self)@.code.len() > 0,
        ensures
            final(self).wf(),
            final(self)@ == (BufferView {
                code: old(self)@.code.update(
                    old(self)@.code.len() - 1,
                    InstructionView { params: old(self)@.code.last().params.push(p@), ..old(self)@.code.last() },
                ),
                ..old(self)@
            }),
    {
        self.code_buffer.push_parameter(p);
    }

    /// The identifier of a number, defining it on first use.
    pub fn use_number(&mut self, number: ParameterValue) -> (id: u32)
        requires
            old(self).wf(),
            old(self)@.numbers.dom().contains(param_key(number@)) || old(self)@.ident_count < u32::MAX,
        ensures
            final(self).wf(),
            (final(self)@, id) == after_number(old(self)@, number@),
    {
        let key = Self::get_param_key(&number);
        if let Some(id) = str_get(&self.idents_number_hash, key.as_str()) {
            return id;
        }
        let param_id = self.ident_count;
        self.ident_count = self.ident_count + 1;
        let mut instr = Instruction::new(Action { parent: Parent::DP, code: DP_NUM });
        instr.push_param(Parameter::from_ident(param_id));
        let ghost value = number@;
        instr.push_param(Parameter::from_value(number));
        self.param_buffer.push_instruction(instr);
        proof {
            lemma_str_push(self.idents_number_hash@, key, param_id);
        }
        self.idents_number_hash.push((key, param_id));
        proof {
            assert(instr@.params =~= seq![slotless(ValueView::Ident(param_id)), slotless(value)]);
            assert(self@ == after_number(old(self)@, value).0);
        }
        param_id
    }

    /// The identifier of a location, defining a new one on every call.
    pub fn use_location(
        &mut self,
        x: ParameterValue,
        y: ParameterValue,
        z: ParameterValue,
        pitch: ParameterValue,
        yaw: ParameterValue,
    ) -> (id: u32)
        requires
            old(self).wf(),
            old(self)@.locations.dom().contains(location_key(x@, y@, z@, pitch@, yaw@))
                || old(self)@.ident_count < u32::MAX,
        ensures
            final(self).wf(),
            (final(self)@, id) == after_location(old(self)@, x@, y@, z@, pitch@, yaw@),
    {
        let mut key = Self::get_param_key(&x);
        push_char(&mut key, ' ');
        key.append(Self::get_param_key(&y).as_str());
        push_char(&mut key, ' ');
        key.append(Self::get_param_key(&z).as_str());
        push_char(&mut key, ' ');
        key.append(Self::get_param_key(&pitch).as_str());
        push_char(&mut key, ' ');
        key.append(Self::get_param_key(&yaw).as_str());
        proof {
            assert(key@ =~= location_key(x@, y@, z@, pitch@, yaw@));
        }
        if let Some(id) = str_get(&self.idents_location_hash, key.as_str()) {
            return id;
        }
        let param_id = self.ident_count;
        self.ident_count = self.ident_count + 1;
        let ghost views = (x@, y@, z@, pitch@, yaw@);
        let mut instr = Instruction::new(Action { parent: Parent::DP, code: DP_LOC });
        instr.push_param(Parameter::from_ident(param_id));
        instr.push_param(Parameter::from_value(x));
        instr.push_param(Parameter::from_value(y));
        instr.push_param(Parameter::from_value(z));
        instr.push_tag(Tag::Pitch(pitch));
        instr.push_tag(Tag::Yaw(yaw));
        self.param_buffer.push_instruction(instr);
        proof {
            lemma_str_push(self.idents_number_hash@, key, param_id);
        }
        self.idents_number_hash.push((key, param_id));
        proof {
            assert(instr@.params =~= seq![
                slotless(ValueView::Ident(param_id)),
                slotless(views.0),
                slotless(views.1),
                slotless(views.2),
            ]);
            assert(instr@.tags =~= seq![TagView::Pitch(views.3), TagView::Yaw(views.4)]);
            assert(self@ == after_location(old(self)@, views.0, views.1, views.2, views.3, views.4).0);
        }
        param_id
    }

    /// A definition instruction with an identifier and a name.
    fn named(action: Action, id: u32, name: &str) -> (i: Instruction)
        ensures
            i@ == named_definition(action, id, name@, Seq::empty()),
    {
        let mut i = Instruction::new(action);
        i.push_param(Parameter::from_ident(id));
        i.push_param(Parameter::from_str(name));
        proof {
            assert(i@.params =~= named_definition(action, id, name@, Seq::empty()).params);
        }
        i
    }

    /// The identifier of a string, defining it on first use.
    pub fn use_string(&mut self, name: &str) -> (id: u32)
        requires
            old(self).wf(),
            old(self)@.strings.dom().contains(name@) || old(self)@.ident_count < u32::MAX,
        ensures
            final(self).wf(),
            (final(self)@, id) == after_string(old(self)@, name@),
    {
        if let Some(id) = str_get(&self.idents_string_hash, name) {
            return id;
        }
        let param_id = self.ident_count;
        self.ident_count = self.ident_count + 1;
        self.param_buffer.push_instruction(Self::named(Action { parent: Parent::DP, code: DP_STR }, param_id, name));
        let key = name.to_string();
        proof {
            lemma_str_push(self.idents_string_hash@, key, param_id);
        }
        self.idents_string_hash.push((key, param_id));
        proof {
            assert(self@ == after_string(old(self)@, name@).0);
        }
        param_id
    }

    /// The identifier of a variable, defining it with `scope` on first use.
    pub fn use_variable(&mut self, name: &str, scope: VarScope) -> (id: u32)
        requires
            old(self).wf(),
            variable_fits(old(self)@, name@),
        ensures
            final(self).wf(),
            (final(self)@, id) == after_variable(old(self)@, name@, scope),
    {
        if let Some(id) = str_get(&self.idents_variable_hash, name) {
            return id;
        }
        let param_id = self.ident_count;
        self.ident_count = self.ident_count + 1;
        let mut instr = Self::named(Action { parent: Parent::DP, code: DP_VAR }, param_id, name);
        instr.push_tag(Tag::Scope(scope));
        self.param_buffer.push_instruction(instr);
        let key = name.to_string();
        proof {
            lemma_str_push(self.idents_variable_hash@, key, param_id);
        }
        self.idents_variable_hash.push((key, param_id));
        proof {
            assert(instr@.tags =~= seq![TagView::Scope(scope)]);
            assert(self@ == after_variable(old(self)@, name@, scope).0);
        }
        param_id
    }

    /// The identifiers of a function parameter and of its line variable,
    /// defining them on first use.
    pub fn use_param(&mut self, name: &str) -> (ids: (u32, u32))
        requires
            old(self).wf(),
            param_fits(old(self)@, name@),
        ensures
            final(self).wf(),
            (final(self)@, ids) == after_param(old(self)@, name@),
    {
        let var_id = self.use_variable(name, VarScope::Line);
        if let Some(id) = str_get(&self.idents_param_hash, name) {
            return (id, var_id);
        }
        let ghost mid = self@;
        let param_id = self.ident_count;
        self.ident_count = self.ident_count + 1;
        self.param_buffer.push_instruction(Self::named(Action { parent: Parent::DP, code: DP_PARAM }, param_id, name));
        let key = name.to_string();
        proof {
            lemma_str_push(self.idents_param_hash@, key, param_id);
        }
        self.idents_param_hash.push((key, param_id));
        proof {
            assert(self@ == after_param(old(self)@, name@).0);
        }
        (param_id, var_id)
    }

    /// The identifiers of a returned parameter and of its line variable,
    /// defining them on first use.
    pub fn use_return_param(&mut self, name: &str) -> (ids: (u32, u32))
        requires
            old(self).wf(),
            return_param_fits(old(self)@, name@),
        ensures
            final(self).wf(),
            (final(self)@, ids) == after_return_param(old(self)@, name@),
    {
        let var_id = self.use_variable(name, VarScope::Line);
        if let Some(id) = str_get(&self.idents_return_param_hash, name) {
            return (id, var_id);
        }
        let param_id = self.ident_count;
        self.ident_count = self.ident_count + 1;
        let mut instr = Self::named(Action { parent: Parent::DP, code: DP_PARAM }, param_id, name);
        instr.push_tag(Tag::ParamType(ParamType::Var));
        self.param_buffer.push_instruction(instr);
        let key = name.to_string();
        proof {
            lemma_str_push(self.idents_return_param_hash@, key, param_id);
        }
        self.idents_return_param_hash.push((key, param_id));
        proof {
            assert(instr@.tags =~= seq![TagView::ParamType(ParamType::Var)]);
            assert(self@ == after_return_param(old(self)@, name@).0);
        }
        (param_id, var_id)
    }

    /// The identifier of a function, defining it on first use.
    pub fn use_function(&mut self, name: &str) -> (id: u32)
        requires
            old(self).wf(),
            old(self)@.functions.dom().contains(name@) || old(self)@.ident_count < u32::MAX,
        ensures
            final(self).wf(),
            (final(self)@, id) == after_function(old(self)@, name@),
    {
        if let Some(id) = str_get(&self.idents_function_hash, name) {
            return id;
        }
        let func_id = self.ident_count;
        self.ident_count = self.ident_count + 1;
        self.func_buffer.push_instruction(Self::named(Action { parent: Parent::DF, code: 0 }, func_id, name));
        let key = name.to_string();
        proof {
            lemma_str_push(self.idents_function_hash@, key, func_id);
        }
        self.idents_function_hash.push((key, func_id));
        proof {
            assert(self@ == after_function(old(self)@, name@).0);
        }
        func_id
    }

    /// The identifier of line register `index`, defining its variable on
    /// first use. A register not yet known must lie within the allocation
    /// bit set, where freeing it later clears its bit.
    pub fn use_line_register(&mut self, index: usize) -> (id: u32)
        requires
            old(self).wf(),
            line_register_fits(old(self)@, index),
            old(self)@.register_idents.dom().contains(index) || index < 64 * old(self)@.registers.len(),
        ensures
            final(self).wf(),
            (final(self)@, id) == after_line_register(old(self)@, index),
    {
        if let Some(id) = usize_get(&self.line_register_idents, index) {
            return id;
        }
        let mut name = String::new();
        push_char(&mut name, '_');
        push_char(&mut name, 'x');
        push_char(&mut name, 'l');
        let digits = u64_decimal(index as u64);
        name.append(digits.as_str());
        proof {
            assert(name@ =~= register_name(index));
        }
        let register_id = self.use_variable(name.as_str(), VarScope::Line);
        proof {
            lemma_keyed_push(self.line_register_idents@, index, register_id);
            lemma_keyed_push(self.line_register_indices@, register_id, index);
        }
        self.line_register_idents.push((index, register_id));
        self.line_register_indices.push((register_id, index));
        proof {
            assert(self@ == after_line_register(old(self)@, index).0);
        }
        register_id
    }

    /// Allocates the lowest free line register and returns its identifier.
    pub fn allocate_line_register(&mut self) -> (id: u32)
        requires
            old(self).wf(),
            allocate_fits(old(self)@),
        ensures
            final(self).wf(),
            (final(self)@, id) == after_allocate(old(self)@),
    {
        proof {
            lemma_lowest_free_is_free(self@.registers);
            lemma_allocated_set(self@.registers);
        }
        let index = bitset_allocate(&mut self.allocated_line_registers);
        proof {
            assert(self@ == (BufferView { registers: with_allocated(old(self)@.registers, index as nat), ..old(self)@ }));
            assert(in_bitset(self@.registers, index as nat));
        }
        self.use_line_register(index)
    }

    /// Opens a new register group and returns its number.
    pub fn allocate_line_register_group(&mut self) -> (group: u64)
        requires
            old(self)@.group_count < u64::MAX,
        ensures
            group == old(self)@.group_count,
            final(self)@ == (BufferView { group_count: (old(self)@.group_count + 1) as u64, ..old(self)@ }),
            old(self).wf() ==> final(self).wf(),
    {
        self.line_register_groups = self.line_register_groups + 1;
        proof {
            assert(self@ == (BufferView { group_count: (old(self)@.group_count + 1) as u64, ..old(self)@ }));
        }
        self.line_register_groups - 1
    }

    /// Allocates a line register and files it under a group.
    pub fn allocate_grouped_line_register(&mut self, group: u64) -> (id: u32)
        requires
            old(self).wf(),
            allocate_fits(old(self)@),
        ensures
            final(self).wf(),
            (final(self)@, id) == after_allocate_grouped(old(self)@, group),
    {
        let register_ident = self.allocate_line_register();
        let ghost mid = self@;
        let counter = group;
        match u64_position(&self.allocated_line_register_groups, counter) {
            Some(pos) => {
                let mut members = clone_u32s(&self.allocated_line_register_groups[pos].1);
                members.push(register_ident);
                let ghost members_view = members@;
                proof {
                    lemma_set_keeps(self.allocated_line_register_groups@, pos as int, (counter, members));
                }
                self.allocated_line_register_groups.set(pos, (counter, members));
                proof {
                    assert(self@.groups =~= mid.groups.insert(counter, mid.groups[counter].push(register_ident)));
                    assert(self@ == after_allocate_grouped(old(self)@, group).0);
                }
            },
            None => {
                let mut members: Vec<u32> = Vec::new();
                members.push(register_ident);
                proof {
                    lemma_keyed_push(self.allocated_line_register_groups@, group, members);
                }
                self.allocated_line_register_groups.push((group, members));
                proof {
                    assert(members@ =~= seq![register_ident]);
                    assert(self@.groups =~= mid.groups.insert(group, seq![register_ident]));
                    assert(self@ == after_allocate_grouped(old(self)@, group).0);
                }
            },
        }
        register_ident
    }

    /// Frees the line register with the given identifier; fails when no
    /// line register has that identifier.
    pub fn free_line_register(&mut self, register_ident: u32) -> (r: Result<(), CodegenError>)
        requires
            old(self).wf(),
        ensures
            final(self).wf(),
            (final(self)@, r is Ok) == after_free_all(old(self)@, seq![register_ident]),
            r matches Err(e) ==> e.token is None && e.source == ErrorRepr::RegisterDeallocationError,
    {
        proof {
            assert(seq![register_ident].drop_first() =~= Seq::<u32>::empty());
        }
        let Some(ind) = u32_get(&self.line_register_indices, register_ident) else {
            return CodegenError::err_headless(ErrorRepr::RegisterDeallocationError);
        };
        proof {
            assert(self@.register_indices.dom().contains(register_ident));
            assert(self@.register_indices[register_ident] == ind);
        }
        bitset_deallocate(&mut self.allocated_line_registers, ind);
        proof {
            lemma_freed_set(old(self)@.registers, ind as nat);
            let freed = BufferView { registers: with_freed(old(self)@.registers, ind as nat), ..old(self)@ };
            assert(self@ == freed);
            assert(seq![register_ident][0] == register_ident);
            assert(after_free_all(old(self)@, seq![register_ident]) == after_free_all(freed, Seq::<u32>::empty()));
        }
        Ok(())
    }

    /// Frees line registers in order, stopping at the first unknown one.
    pub fn free_line_registers(&mut self, register_idents: Vec<u32>) -> (r: Result<(), CodegenError>)
        requires
            old(self).wf(),
        ensures
            final(self).wf(),
            (final(self)@, r is Ok) == after_free_all(old(self)@, register_idents@),
            r matches Err(e) ==> e.token is None && e.source == ErrorRepr::RegisterDeallocationError,
    {
        let mut i: usize = 0;
        proof {
            assert(register_idents@.skip(0) =~= register_idents@);
        }
        while i < register_idents.len()
            invariant
                i <= register_idents@.len(),
                self.wf(),
                after_free_all(old(self)@, register_idents@) == after_free_all(self@, register_idents@.skip(i as int)),
            decreases register_idents@.len() - i,
        {
            let ghost before = self@;
            let id = register_idents[i];
            let r = self.free_line_register(id);
            proof {
                let rest = register_idents@.skip(i as int);
                assert(rest.drop_first() =~= register_idents@.skip(i + 1));
                assert(rest[0] == id);
                assert(seq![id].drop_first() =~= Seq::<u32>::empty());
                assert(seq![id][0] == id);
                if before.register_indices.dom().contains(id) {
                    let freed = BufferView {
                        registers: with_freed(before.registers, before.register_indices[id] as nat),
                        ..before
                    };
                    assert(after_free_all(before, seq![id]) == after_free_all(freed, Seq::<u32>::empty()));
                    assert(after_free_all(before, rest) == after_free_all(freed, rest.drop_first()));
                } else {
                    assert(after_free_all(before, rest) == (before, false));
                }
            }
            if r.is_err() {
                return r;
            }
            i = i + 1;
        }
        proof {
            assert(register_idents@.skip(i as int) =~= Seq::<u32>::empty());
        }
        Ok(())
    }

    /// Frees every register of a group and forgets the group.
    pub fn free_line_register_group(&mut self, group: u64)
        requires
            old(self).wf(),
        ensures
            final(self).wf(),
            final(self)@ == (if old(self)@.groups.dom().contains(group) {
                BufferView {
                    groups: old(self)@.groups.remove(group),
                    ..after_free_all(old(self)@, old(self)@.groups[group]).0
                }
            } else {
                old(self)@
            }),
    {
        match u64_position(&self.allocated_line_register_groups, group) {
            Some(pos) => {
                let members = clone_u32s(&self.allocated_line_register_groups[pos].1);
                proof {
                    assert(self@.groups.dom().contains(group));
                    assert(self@.groups[group] == members@);
                    assert forall|j: int| 0 <= j < members@.len() implies self@.register_indices.dom().contains(
                        #[trigger] members@[j],
                    ) by {
                        assert(self@.groups[group][j] == members@[j]);
                    }
                    lemma_free_all_known(self@, members@);
                }
                let freed = self.free_line_registers(members);
                match freed {
                    Ok(()) => {},
                    Err(_) => {
                        proof {
                            assert(false);
                        }
                    },
                }
                let ghost mid = self@;
                remove_u64_key(&mut self.allocated_line_register_groups, group);
                proof {
                    assert(self@.groups =~= mid.groups.remove(group));
                    assert(self@ == (BufferView { groups: mid.groups.remove(group), ..mid }));
                }
            },
            None => {},
        }
    }

    /// The identifier of the variable that holds nothing, defining it on
    /// first use.
    pub fn constant_void(&mut self) -> (id: u32)
        requires
            old(self).wf(),
            old(self)@.void_variable is Some || variable_fits(old(self)@, void_name()),
        ensures
            final(self).wf(),
            old(self)@.void_variable matches Some(v) ==> id == v && final(self)@ == old(self)@,
            old(self)@.void_variable is None ==> final(self)@ == (BufferView {
                void_variable: Some(id),
                ..after_variable(old(self)@, void_name(), VarScope::Global).0
            }) && id == after_variable(old(self)@, void_name(), VarScope::Global).1,
    {
        match self.constants.void_variable {
            Some(value) => value,
            None => {
                let mut name = String::new();
                push_char(&mut name, '_');
                push_char(&mut name, 'c');
                push_char(&mut name, '_');
                push_char(&mut name, 'v');
                push_char(&mut name, 'o');
                push_char(&mut name, 'i');
                push_char(&mut name, 'd');
                proof {
                    assert(name@ =~= void_name());
                }
                let value = self.use_variable(name.as_str(), VarScope::Global);
                self.constants.void_variable = Some(value);
                value
            },
        }
    }
}

/// Copies a vector of identifiers.
fn clone_u32s(v: &Vec<u32>) -> (c: Vec<u32>)
    ensures
        c@ == v@,
{
    let mut c: Vec<u32> = Vec::new();
    for i in 0..v.len()
        invariant
            c@ == v@.take(i as int),
    {
        c.push(v[i]);
        assert(v@.take(i + 1) =~= v@.take(i as int).push(v@[i as int]));
    }
    assert(v@.take(v.len() as int) =~= v@);
    c
}

/// Replacing the last entry of a key replaces the key's value.
proof fn lemma_set_keeps(t: Seq<(u64, Vec<u32>)>, pos: int, e: (u64, Vec<u32>))
    requires
        0 <= pos < t.len(),
        t[pos].0 == e.0,
        forall|j: int| pos < j < t.len() ==> (#[trigger] t[j]).0 != e.0,
    ensures
        keyed(t.update(pos, e)) == keyed(t).insert(e.0, e.1),
    decreases t.len(),
{
    if pos == t.len() - 1 {
        assert(t.update(pos, e).drop_last() =~= t.drop_last());
    } else {
        lemma_set_keeps(t.drop_last(), pos, e);
        assert(t.update(pos, e).drop_last() =~= t.drop_last().update(pos, e));
        assert(keyed(t.update(pos, e)) =~= keyed(t).insert(e.0, e.1));
    }
}

/// Removes every entry with the given key.
fn remove_u64_key(t: &mut Vec<(u64, Vec<u32>)>, k: u64)
    ensures
        group_views(keyed(final(t)@)) == group_views(keyed(old(t)@).remove(k)),
{
    let mut kept: Vec<(u64, Vec<u32>)> = Vec::new();
    let ghost all = t@;
    let n = t.len();
    for i in 0..n
        invariant
            n == all.len(),
            t@ == all,
            group_views(keyed(kept@)) == group_views(keyed(all.take(i as int)).remove(k)),
    {
        let key = t[i].0;
        proof {
            assert(all.take(i + 1).drop_last() =~= all.take(i as int));
            assert(all.take(i + 1).last() == all[i as int]);
            assert(keyed(all.take(i + 1)) == keyed(all.take(i as int)).insert(key, all[i as int].1));
        }
        if key != k {
            let members = clone_u32s(&t[i].1);
            let ghost before = kept@;
            proof {
                lemma_keyed_push(kept@, key, members);
                assert(members@ == all[i as int].1@);
            }
            kept.push((key, members));
            proof {
                let m0 = keyed(all.take(i as int));
                assert(keyed(kept@) == keyed(before).insert(key, members));
                assert(group_views(keyed(kept@)) =~= group_views(keyed(before)).insert(key, members@));
                assert(group_views(m0.insert(key, all[i as int].1).remove(k)) =~= group_views(m0.remove(k)).insert(
                    key,
                    all[i as int].1@,
                ));
                assert(group_views(keyed(kept@)) =~= group_views(keyed(all.take(i + 1)).remove(k)));
            }
        } else {
            proof {
                assert(group_views(keyed(kept@)) =~= group_views(keyed(all.take(i + 1)).remove(k)));
            }
        }
    }
    proof {
        assert(all.take(n as int) =~= all);
    }
    *t = kept;
}

} // verus!
