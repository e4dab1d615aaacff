//! The instruction set that the compiler emits and the optimiser rewrites:
//! instructions with typed parameters and tags, and bins (sequences of
//! instructions).
use vstd::prelude::*;

verus! {

/// The category an action belongs to.
#[derive(Clone, Copy, Debug, PartialEq, Eq, Structural)]
pub enum Parent {
    /// Segment markers (function, parameter and code segments).
    Seg,
    /// Parameter (value) definitions.
    DP,
    /// Function definitions.
    DF,
    /// A function line starter.
    Func,
    /// An asynchronous function line starter.
    FuncA,
    /// A player event line starter.
    Plev,
    /// An entity event line starter.
    Enev,
    /// A function call.
    Call,
    /// Control actions.
    Ctrl,
    /// Variable actions.
    Var,
    /// Repeats.
    Rep,
    /// Conditions on variables.
    Varif,
    /// Conditions on entities.
    Enif,
    /// Conditions on players.
    Plif,
    /// Conditions on the game.
    Gmif,
    /// The else of a condition.
    Else,
    /// The end of a condition.
    EndIf,
    /// The end of a repeat.
    EndRep,
    /// Any other category, by number.
    Other(u16),
}

/// An action: its category and its number inside the category.
#[derive(Clone, Copy, Debug, PartialEq, Eq, Structural)]
pub struct Action {
    pub parent: Parent,
    pub code: u16,
}

/// Action numbers inside their category.
pub const SEG_FUNC: u16 = 0;
pub const SEG_PARAM: u16 = 1;
pub const SEG_CODE: u16 = 2;
pub const DP_NUM: u16 = 0;
pub const DP_LOC: u16 = 1;
pub const DP_STR: u16 = 2;
pub const DP_VAR: u16 = 3;
pub const DP_PARAM: u16 = 4;
pub const CTRL_RETURN: u16 = 0;
pub const CTRL_STOP_REPEAT: u16 = 1;
pub const VAR_SET: u16 = 0;
pub const VAR_CREATE_LIST: u16 = 1;
pub const VAR_CREATE_DICT: u16 = 2;
pub const VAR_APPEND_VALUE: u16 = 3;
pub const VAR_SPLIT_STRING: u16 = 4;
pub const VAR_GET_LIST_VALUE: u16 = 5;
pub const VAR_VECTOR: u16 = 6;
pub const VAR_SET_ALL_COORDS: u16 = 7;
pub const VAR_GET_DICT_VALUE: u16 = 8;
pub const VAR_GET_COORD: u16 = 9;
pub const VAR_GET_VECTOR_COMP: u16 = 10;
pub const VAR_SET_LIST_VALUE: u16 = 11;
pub const VAR_SET_DICT_VALUE: u16 = 12;
pub const VAR_SET_COORD: u16 = 13;
pub const VAR_SET_VECTOR_COMP: u16 = 14;
pub const VAR_STRING: u16 = 15;
pub const VAR_SHIFT_ON_VECTOR: u16 = 16;
pub const VAR_ADD: u16 = 17;
pub const VAR_APPEND_LIST: u16 = 18;
pub const VAR_MUL: u16 = 19;
pub const VAR_REPEAT_STRING: u16 = 20;
pub const VARIF_EQ: u16 = 0;
pub const REP_FOREVER: u16 = 0;
pub const REP_FOR_EACH: u16 = 1;
pub const REP_MULTIPLE: u16 = 2;

/// The action of the given category with number `code`.
pub open spec fn act(parent: Parent, code: u16) -> Action {
    Action { parent, code }
}

/// The scope of a variable.
#[derive(Clone, Copy, Debug, PartialEq, Eq, Structural)]
pub enum VarScope {
    Global,
    Saved,
    Local,
    Line,
}

/// The kind of a function parameter.
#[derive(Clone, Copy, Debug, PartialEq, Eq, Structural)]
pub enum ParamType {
    Any,
    Var,
    Other(u16),
}

/// The value a parameter carries. A float carries the IEEE-754 bit pattern
/// of its `f64` value.
#[derive(Debug, PartialEq)]
pub enum ParameterValue {
    Ident(u32),
    String(String),
    Int(i64),
    Float(u64),
}

/// [`ParameterValue`] with its string as a sequence of characters.
pub enum ValueView {
    Ident(u32),
    String(Seq<char>),
    Int(i64),
    Float(u64),
}

impl View for ParameterValue {
    type V = ValueView;

    open spec fn view(&self) -> ValueView {
        match self {
            ParameterValue::Ident(i) => ValueView::Ident(*i),
            ParameterValue::String(s) => ValueView::String(s@),
            ParameterValue::Int(i) => ValueView::Int(*i),
            ParameterValue::Float(f) => ValueView::Float(*f),
        }
    }
}

impl Clone for ParameterValue {
    fn clone(&self) -> (c: Self)
        ensures
            c@ == self@,
    {
        match self {
            ParameterValue::Ident(i) => ParameterValue::Ident(*i),
            ParameterValue::String(s) => ParameterValue::String(s.clone()),
            ParameterValue::Int(i) => ParameterValue::Int(*i),
            ParameterValue::Float(f) => ParameterValue::Float(*f),
        }
    }
}

/// A parameter: a value and the slot it goes in, if fixed.
#[derive(Debug, PartialEq)]
pub struct Parameter {
    pub value: ParameterValue,
    pub slot: Option<u8>,
}

/// [`Parameter`] by its view.
pub struct ParameterView {
    pub value: ValueView,
    pub slot: Option<u8>,
}

impl View for Parameter {
    type V = ParameterView;

    open spec fn view(&self) -> ParameterView {
        ParameterView { value: self.value@, slot: self.slot }
    }
}

impl Clone for Parameter {
    fn clone(&self) -> (c: Self)
        ensures
            c@ == self@,
    {
        Parameter { value: self.value.clone(), slot: self.slot }
    }
}

/// The parameter of a value with no fixed slot.
pub open spec fn slotless(value: ValueView) -> ParameterView {
    ParameterView { value, slot: None }
}

impl Parameter {
    /// A parameter with no fixed slot.
    pub fn from_value(value: ParameterValue) -> (p: Parameter)
        ensures
            p@ == slotless(value@),
    {
        Parameter { value, slot: None }
    }

    /// A parameter naming an identifier.
    pub fn from_ident(ident: u32) -> (p: Parameter)
        ensures
            p@ == slotless(ValueView::Ident(ident)),
    {
        Parameter { value: ParameterValue::Ident(ident), slot: None }
    }

    /// A parameter holding a string.
    pub fn from_str(s: &str) -> (p: Parameter)
        ensures
            p@ == slotless(ValueView::String(s@)),
    {
        Parameter { value: ParameterValue::String(s.to_string()), slot: None }
    }
}

/// A coordinate of a location or a component of a vector.
#[derive(Clone, Copy, Debug, PartialEq, Eq, Structural)]
pub enum Coordinate {
    X,
    Y,
    Z,
    Pitch,
    Yaw,
}

/// A tag of an instruction.
#[derive(Debug, PartialEq)]
pub enum Tag {
    Scope(VarScope),
    ParamType(ParamType),
    /// The coordinate of a location that is read or written.
    Coordinate(Coordinate),
    /// The component of a vector that is read or written.
    Component(Coordinate),
    Pitch(ParameterValue),
    Yaw(ParameterValue),
    Other(u16, u16),
}

/// [`Tag`] by its view.
pub enum TagView {
    Scope(VarScope),
    ParamType(ParamType),
    Coordinate(Coordinate),
    Component(Coordinate),
    Pitch(ValueView),
    Yaw(ValueView),
    Other(u16, u16),
}

impl View for Tag {
    type V = TagView;

    open spec fn view(&self) -> TagView {
        match self {
            Tag::Scope(s) => TagView::Scope(*s),
            Tag::ParamType(t) => TagView::ParamType(*t),
            Tag::Coordinate(c) => TagView::Coordinate(*c),
            Tag::Component(c) => TagView::Component(*c),
            Tag::Pitch(v) => TagView::Pitch(v@),
            Tag::Yaw(v) => TagView::Yaw(v@),
            Tag::Other(a, b) => TagView::Other(*a, *b),
        }
    }
}

impl Clone for Tag {
    fn clone(&self) -> (c: Self)
        ensures
            c@ == self@,
    {
        match self {
            Tag::Scope(s) => Tag::Scope(*s),
            Tag::ParamType(t) => Tag::ParamType(*t),
            Tag::Coordinate(c) => Tag::Coordinate(*c),
            Tag::Component(c) => Tag::Component(*c),
            Tag::Pitch(v) => Tag::Pitch(v.clone()),
            Tag::Yaw(v) => Tag::Yaw(v.clone()),
            Tag::Other(a, b) => Tag::Other(*a, *b),
        }
    }
}

/// The views of a vector's items.
pub open spec fn params_view(v: Seq<Parameter>) -> Seq<ParameterView> {
    v.map_values(|p: Parameter| p@)
}

/// The views of a vector's items.
pub open spec fn tags_view(v: Seq<Tag>) -> Seq<TagView> {
    v.map_values(|t: Tag| t@)
}

/// An instruction: an action with its parameters and tags.
#[derive(Debug, PartialEq)]
pub struct Instruction {
    pub action: Action,
    pub params: Vec<Parameter>,
    pub tags: Vec<Tag>,
}

/// [`Instruction`] by its view.
#[verifier::ext_equal]
pub struct InstructionView {
    pub action: Action,
    pub params: Seq<ParameterView>,
    pub tags: Seq<TagView>,
}

impl View for Instruction {
    type V = InstructionView;

    open spec fn view(&self) -> InstructionView {
        InstructionView {
            action: self.action,
            params: params_view(self.params@),
            tags: tags_view(self.tags@),
        }
    }
}

/// The values of a sequence of parameters.
pub open spec fn param_values(ps: Seq<ParameterView>) -> Seq<ValueView> {
    ps.map_values(|p: ParameterView| p.value)
}

/// An instruction with no parameters and no tags.
pub open spec fn bare(action: Action) -> InstructionView {
    InstructionView { action, params: Seq::empty(), tags: Seq::empty() }
}

/// Clones a vector of parameters item by item.
pub fn clone_params(v: &Vec<Parameter>) -> (c: Vec<Parameter>)
    ensures
        params_view(c@) == params_view(v@),
{
    let mut c: Vec<Parameter> = Vec::new();
    for i in 0..v.len()
        invariant
            c@.len() == i,
            forall|k: int| 0 <= k < i ==> (#[trigger] c@[k])@ == v@[k]@,
    {
        c.push(v[i].clone());
    }
    assert(params_view(c@) =~= params_view(v@));
    c
}

/// Clones a vector of tags item by item.
pub fn clone_tags(v: &Vec<Tag>) -> (c: Vec<Tag>)
    ensures
        tags_view(c@) == tags_view(v@),
{
    let mut c: Vec<Tag> = Vec::new();
    for i in 0..v.len()
        invariant
            c@.len() == i,
            forall|k: int| 0 <= k < i ==> (#[trigger] c@[k])@ == v@[k]@,
    {
        c.push(v[i].clone());
    }
    assert(tags_view(c@) =~= tags_view(v@));
    c
}

impl Clone for Instruction {
    fn clone(&self) -> (c: Self)
        ensures
            c@ == self@,
    {
        Instruction {
            action: self.action,
            params: clone_params(&self.params),
            tags: clone_tags(&self.tags),
        }
    }
}

impl Instruction {
    /// An instruction with no parameters and no tags.
    pub fn new(action: Action) -> (i: Instruction)
        ensures
            i@ == bare(action),
    {
        let i = Instruction { action, params: Vec::new(), tags: Vec::new() };
        assert(i@.params =~= Seq::<ParameterView>::empty());
        assert(i@.tags =~= Seq::<TagView>::empty());
        i
    }

    /// Appends a parameter.
    pub fn push_param(&mut self, p: Parameter)
        ensures
            final(self)@ == (InstructionView { params: old(self)@.params.push(p@), ..old(self)@ }),
    {
        self.params.push(p);
        assert(params_view(self.params@) =~= params_view(old(self).params@).push(p@));
    }

    /// Appends a tag.
    pub fn push_tag(&mut self, t: Tag)
        ensures
            final(self)@ == (InstructionView { tags: old(self)@.tags.push(t@), ..old(self)@ }),
    {
        self.tags.push(t);
        assert(tags_view(self.tags@) =~= tags_view(old(self).tags@).push(t@));
    }
}

/// The views of a vector of instructions.
pub open spec fn instrs_view(v: Seq<Instruction>) -> Seq<InstructionView> {
    v.map_values(|i: Instruction| i@)
}

/// A bin: a sequence of instructions.
#[derive(Debug, PartialEq)]
pub struct CodeBin {
    pub instructions: Vec<Instruction>,
}

impl View for CodeBin {
    type V = Seq<InstructionView>;

    open spec fn view(&self) -> Seq<InstructionView> {
        instrs_view(self.instructions@)
    }
}

/// Clones a vector of instructions item by item.
pub fn clone_instructions(v: &Vec<Instruction>) -> (c: Vec<Instruction>)
    ensures
        instrs_view(c@) == instrs_view(v@),
{
    let mut c: Vec<Instruction> = Vec::new();
    for i in 0..v.len()
        invariant
            c@.len() == i,
            forall|k: int| 0 <= k < i ==> (#[trigger] c@[k])@ == v@[k]@,
    {
        c.push(v[i].clone());
    }
    assert(instrs_view(c@) =~= instrs_view(v@));
    c
}

impl Clone for CodeBin {
    fn clone(&self) -> (c: Self)
        ensures
            c@ == self@,
    {
        CodeBin { instructions: clone_instructions(&self.instructions) }
    }
}

impl CodeBin {
    /// An empty bin.
    pub fn new() -> (b: CodeBin)
        ensures
            b@ == Seq::<InstructionView>::empty(),
    {
        let b = CodeBin { instructions: Vec::new() };
        assert(b@ =~= Seq::<InstructionView>::empty());
        b
    }

    /// A bin holding the given instructions.
    pub fn from_instructions(instructions: Vec<Instruction>) -> (b: CodeBin)
        ensures
            b@ == instrs_view(instructions@),
    {
        CodeBin { instructions }
    }

    /// The number of instructions.
    pub fn len(&self) -> (n: usize)
        ensures
            n == self@.len(),
    {
        self.instructions.len()
    }

    /// Keeps the first `n` instructions and drops the rest.
    pub fn truncate_to(&mut self, n: usize)
        requires
            n <= old(self)@.len(),
        ensures
            final(self)@ == old(self)@.take(n as int),
    {
        self.instructions.truncate(n);
        assert(final(self)@ =~= old(self)@.take(n as int));
    }

    /// Appends an instruction.
    pub fn push_instruction(&mut self, i: Instruction)
        ensures
            final(self)@ == old(self)@.push(i@),
    {
        self.instructions.push(i);
        assert(final(self)@ =~= old(self)@.push(i@));
    }

    /// Appends the instructions of a vector, in order.
    pub fn append_instructions(&mut self, v: Vec<Instruction>)
        ensures
            final(self)@ == old(self)@ + instrs_view(v@),
    {
        let ghost added = v@;
        let mut v = v;
        self.instructions.append(&mut v);
        assert(self@ =~= old(self)@ + instrs_view(added));
    }

    /// Appends the instructions of another bin, in order.
    pub fn append_bin(&mut self, other: &CodeBin)
        ensures
            final(self)@ == old(self)@ + other@,
    {
        self.append_instructions(clone_instructions(&other.instructions));
    }

    /// Moves the instructions of another bin to the end of this one,
    /// leaving the other bin empty.
    pub fn append_bin_mut(&mut self, other: &mut CodeBin)
        ensures
            final(self)@ == old(self)@ + old(other)@,
            final(other)@ == Seq::<InstructionView>::empty(),
    {
        let mut moved: Vec<Instruction> = Vec::new();
        std::mem::swap(&mut moved, &mut other.instructions);
        self.append_instructions(moved);
        assert(other@ =~= Seq::<InstructionView>::empty());
    }

    /// Appends a parameter to the last instruction.
    pub fn push_parameter(&mut self, p: Parameter)
        requires
            old(self)@.len() > 0,
        ensures
            final(self)@ == old(self)@.update(
                old(self)@.len() - 1,
                InstructionView { params: old(self)@.last().params.push(p@), ..old(self)@.last() },
            ),
    {
        let last = self.instructions.len() - 1;
        let mut i = self.instructions.remove(last);
        i.push_param(p);
        self.instructions.push(i);
        assert(final(self)@ =~= old(self)@.update(
            old(self)@.len() - 1,
            InstructionView { params: old(self)@.last().params.push(p@), ..old(self)@.last() },
        ));
    }

    /// Removes every instruction.
    pub fn clear(&mut self)
        ensures
            final(self)@ == Seq::<InstructionView>::empty(),
    {
        self.instructions.clear();
        assert(final(self)@ =~= Seq::<InstructionView>::empty());
    }
}

} // verus!
