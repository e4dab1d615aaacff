use vstd::prelude::*;
use std::rc::Rc;

use crate::parser::Node;
use crate::parser::node::node_eq;
use super::context::CodeScope;

verus! {

/// A field of a struct, a domain or a function's parameters.
#[derive(PartialEq, Debug)]
pub struct Field {
    pub field_type: ValueType,
    pub scope: CodeScope,
}

impl Clone for Field {
    fn clone(&self) -> (c: Self)
        ensures
            c == *self,
    {
        Field { field_type: self.field_type.clone(), scope: self.scope }
    }
}

/// A field with its index among the fields of its context.
#[derive(Clone, PartialEq, Debug)]
pub struct FieldDefinition {
    pub field: Field,
    pub index: usize,
}

/// A variable that exists at run time.
#[derive(PartialEq, Debug)]
pub struct RuntimeVariable {
    pub variable: CodegenValue,
    pub name: String,
    pub param_ident: Option<u32>,
}

/// How a run-time variable is identified.
#[derive(Clone, PartialEq, Debug)]
pub enum RuntimeVariableIdent {
    Normal(u32),
    Field(usize, usize),
}

impl RuntimeVariable {
    /// A variable that is not a parameter.
    pub fn new(variable: CodegenValue, name: String) -> (v: Self)
        ensures
            v.variable == variable,
            v.name == name,
            v.param_ident is None,
    {
        Self { variable, name, param_ident: None }
    }

    /// A parameter: `param_and_var` holds the parameter's identifier and the
    /// identifier of the line variable it is read into.
    pub fn new_param(field_type: ValueType, name: String, param_and_var: (u32, u32)) -> (v: Self)
        ensures
            v.variable == (CodegenValue { ident: param_and_var.1, value_type: field_type }),
            v.name == name,
            v.param_ident == Some(param_and_var.0),
    {
        Self { variable: CodegenValue::new(param_and_var.1, field_type), name, param_ident: Some(param_and_var.0) }
    }
}

/// The type of a value.
#[derive(Debug, PartialEq)]
pub enum ValueType {
    Primitive(PrimitiveType),
    Comptime(ComptimeType),
    Struct(usize),
    /// A type still named by its syntax; only present while scanning.
    Ident(Rc<Node>),
}

/// The kinds of definitions an identifier may resolve to.
#[derive(Clone, Copy, Debug, PartialEq, Eq, Structural)]
pub enum IdentifierCategory {
    Field,
    RuntimeVariable,
    Domain,
    Function,
    Type,
    SelfFunction,
}

impl ValueType {
    /// Whether values of the type exist at run time.
    pub fn is_realtime(&self) -> (b: bool)
        requires
            !(self is Ident),
        ensures
            b == (self is Primitive || self is Struct),
    {
        match self {
            Self::Primitive(..) => true,
            Self::Comptime(..) => false,
            Self::Struct(..) => true,
            Self::Ident(..) => vstd::pervasive::unreached(),
        }
    }

    /// Whether values of the type exist only at compile time.
    pub fn is_comptime(&self) -> (b: bool)
        requires
            !(self is Ident),
        ensures
            b == (self is Comptime),
    {
        match self {
            Self::Primitive(..) => false,
            Self::Comptime(..) => true,
            Self::Struct(..) => false,
            Self::Ident(..) => vstd::pervasive::unreached(),
        }
    }
}

impl Clone for ValueType {
    fn clone(&self) -> (c: Self)
        ensures
            c == *self,
    {
        match self {
            Self::Primitive(p) => Self::Primitive(p.clone()),
            Self::Comptime(c) => Self::Comptime(c.clone()),
            Self::Struct(s) => Self::Struct(*s),
            Self::Ident(n) => Self::Ident(Rc::clone(n)),
        }
    }
}

/// The types of values that exist at run time.
#[derive(Debug, PartialEq)]
pub enum RealtimeValueType {
    Primitive(PrimitiveType),
    Struct(usize),
}

impl Clone for RealtimeValueType {
    fn clone(&self) -> (c: Self)
        ensures
            c == *self,
    {
        match self {
            Self::Primitive(p) => Self::Primitive(p.clone()),
            Self::Struct(s) => Self::Struct(*s),
        }
    }
}

impl RealtimeValueType {
    /// The same type as a [ValueType].
    pub fn normalize(&self) -> (v: ValueType)
        ensures
            v == match *self {
                RealtimeValueType::Primitive(p) => ValueType::Primitive(p),
                RealtimeValueType::Struct(s) => ValueType::Struct(s),
            },
    {
        match self {
            RealtimeValueType::Primitive(primitive) => ValueType::Primitive(primitive.clone()),
            RealtimeValueType::Struct(struct_id) => ValueType::Struct(*struct_id),
        }
    }
}

/// Types with a run-time representation of their own.
#[derive(Debug, PartialEq)]
pub enum PrimitiveType {
    Void,
    Number,
    String,
    Bool,
    List(Rc<ValueType>),
    Dict(Rc<ValueType>, Rc<ValueType>),
    Vector,
    Location,
    Sound,
    Particle,
    Potion,
    Item,
}

impl Clone for PrimitiveType {
    fn clone(&self) -> (c: Self)
        ensures
            c == *self,
    {
        match self {
            Self::Void => Self::Void,
            Self::Number => Self::Number,
            Self::String => Self::String,
            Self::Bool => Self::Bool,
            Self::List(t) => Self::List(Rc::clone(t)),
            Self::Dict(k, v) => Self::Dict(Rc::clone(k), Rc::clone(v)),
            Self::Vector => Self::Vector,
            Self::Location => Self::Location,
            Self::Sound => Self::Sound,
            Self::Particle => Self::Particle,
            Self::Potion => Self::Potion,
            Self::Item => Self::Item,
        }
    }
}

/// Types whose values exist only at compile time.
#[derive(Debug, PartialEq)]
pub enum ComptimeType {
    Domain(usize),
    Function(usize),
    Type(RealtimeValueType),
    SelfFunction(usize, u32),
}

impl Clone for ComptimeType {
    fn clone(&self) -> (c: Self)
        ensures
            c == *self,
    {
        match self {
            Self::Domain(d) => Self::Domain(*d),
            Self::Function(f) => Self::Function(*f),
            Self::Type(t) => Self::Type(t.clone()),
            Self::SelfFunction(f, i) => Self::SelfFunction(*f, *i),
        }
    }
}

/// A pending step of expression generation.
#[derive(Debug)]
pub enum CodegenExpressionStack<'a> {
    Node(&'a Rc<Node>),
    Calculate(CodegenExpressionType, u32, usize),
}

/// The operations of expressions.
#[derive(Debug, Clone, Copy, PartialEq, Eq, Structural)]
pub enum CodegenExpressionType {
    Add,
    Sub,
    Mul,
    Div,
    Eq,
    NotEq,
    Not,
    Or,
    And,
    Greater,
    Lesser,
    GreaterEq,
    LesserEq,
    Access,
}

/// How the body on top of the body stack was entered.
#[derive(Debug, Clone, Copy, PartialEq, Eq, Structural)]
pub enum CodegenBodyStackMode {
    Plain,
    Else,
}

/// A generated value: the identifier that holds it and its type.
#[derive(Debug, PartialEq)]
pub struct CodegenValue {
    pub ident: u32,
    pub value_type: ValueType,
}

/// Where a value was read from: a root identifier and the accesses into it.
#[derive(Debug, PartialEq)]
pub struct CodegenTrace {
    pub root_ident: u32,
    pub crumbs: Vec<CodegenTraceCrumb>,
}

impl CodegenTrace {
    /// The trace of the identifier itself.
    pub fn root(ident: u32) -> (t: Self)
        ensures
            t.root_ident == ident,
            t.crumbs@.len() == 0,
            t@ == (ident, Seq::<CodegenTraceCrumb>::empty()),
    {
        let t = Self { root_ident: ident, crumbs: Vec::new() };
        assert(t.crumbs@ =~= Seq::<CodegenTraceCrumb>::empty());
        t
    }
}

impl View for CodegenTrace {
    type V = (u32, Seq<CodegenTraceCrumb>);

    open spec fn view(&self) -> (u32, Seq<CodegenTraceCrumb>) {
        (self.root_ident, self.crumbs@)
    }
}

/// One access of a trace.
#[derive(Debug, PartialEq)]
pub enum CodegenTraceCrumb {
    Ident(CodegenTraceCrumbIdent),
    IndexNode(Rc<Node>),
    EntryNode(Rc<Node>),
}

/// One access of a trace, with its index already generated.
#[derive(Clone, Copy, Debug, PartialEq, Eq, Structural)]
pub enum CodegenTraceCrumbIdent {
    Index(u32),
    Entry(u32),
    IndexDirect(usize),
    Location(CodegenLocationCoordinate),
    Vector(CodegenVectorCoordinate),
}

/// The coordinates of a location.
#[derive(Clone, Copy, Debug, PartialEq, Eq, Structural)]
pub enum CodegenLocationCoordinate {
    X,
    Y,
    Z,
    Pitch,
    Yaw,
}

/// The components of a vector.
#[derive(Clone, Copy, Debug, PartialEq, Eq, Structural)]
pub enum CodegenVectorCoordinate {
    X,
    Y,
    Z,
}

/// The result of generating an expression: its value, and where it was read
/// from when it can be assigned to.
#[derive(Debug, PartialEq)]
pub struct CodegenExpressionResult {
    pub value: CodegenValue,
    pub trace: Option<CodegenTrace>,
}

impl View for CodegenExpressionResult {
    type V = (CodegenValue, Option<(u32, Seq<CodegenTraceCrumb>)>);

    open spec fn view(&self) -> (CodegenValue, Option<(u32, Seq<CodegenTraceCrumb>)>) {
        (self.value, match self.trace {
            Some(t) => Some(t@),
            None => None,
        })
    }
}

impl CodegenExpressionResult {
    /// A result that cannot be assigned to.
    pub fn value(value: CodegenValue) -> (r: Self)
        ensures
            r.value == value,
            r.trace is None,
    {
        Self { value, trace: None }
    }

    /// A result read from `trace`.
    pub fn trace(value: CodegenValue, trace: CodegenTrace) -> (r: Self)
        ensures
            r.value == value,
            r.trace == Some(trace),
    {
        Self { value, trace: Some(trace) }
    }
}

impl CodegenValue {
    pub fn new(ident: u32, value_type: ValueType) -> (v: Self)
        ensures
            v.ident == ident,
            v.value_type == value_type,
    {
        Self { ident, value_type }
    }

    /// A compile-time value, held by the void identifier.
    pub fn comptime(void_ident: u32, value: ComptimeType) -> (v: Self)
        ensures
            v.ident == void_ident,
            v.value_type == ValueType::Comptime(value),
    {
        Self { ident: void_ident, value_type: ValueType::Comptime(value) }
    }

    /// Identifier 0, of no type.
    pub fn default() -> (v: Self)
        ensures
            v.ident == 0,
            v.value_type == ValueType::Primitive(PrimitiveType::Void),
    {
        Self::new(0, ValueType::Primitive(PrimitiveType::Void))
    }
}

/// A named group of line registers.
#[derive(Clone, Debug, PartialEq)]
pub struct CodegenRegisterGroup {
    pub name: String,
}

/// Settings for generating an expression.
///
/// If neither `set_ident` nor `register_group` is given, and the expression
/// needs a variable, generation allocates a register that lasts until it is
/// freed by hand.
#[derive(Debug, PartialEq)]
pub struct GenerateExpressionSettings {
    /// Whether code blocks are generated; when false, only the type of the
    /// expression is evaluated and its identifier is the void constant.
    pub generate_codeblocks: bool,

    /// The identifier the expression's result ends up in.
    pub set_ident: Option<u32>,

    /// A register group from which a register that outlasts the expression may
    /// be allocated. Not used when `set_ident` is given.
    pub register_group: Option<u64>,

    /// Whether the expression must end in a variable, rather than in an
    /// identifier of a value.
    pub variable_necessary: bool,

    /// The depth of the expression layer being generated.
    pub depth: usize,

    /// The type the result is implicitly cast to, when given.
    pub expected_type: Option<ValueType>,

    pub preferred_category: IdentifierCategory,
}

impl Clone for GenerateExpressionSettings {
    fn clone(&self) -> (c: Self)
        ensures
            c == *self,
    {
        Self {
            generate_codeblocks: self.generate_codeblocks,
            set_ident: self.set_ident,
            register_group: self.register_group,
            variable_necessary: self.variable_necessary,
            depth: self.depth,
            expected_type: match &self.expected_type {
                Some(t) => Some(t.clone()),
                None => None,
            },
            preferred_category: self.preferred_category,
        }
    }
}

impl GenerateExpressionSettings {
    /// Generates code whose result ends up in `ident`.
    pub fn ident(ident: u32) -> (s: Self)
        ensures
            s == (GenerateExpressionSettings {
                generate_codeblocks: true,
                set_ident: Some(ident),
                register_group: None,
                variable_necessary: true,
                depth: 0,
                expected_type: None,
                preferred_category: IdentifierCategory::RuntimeVariable,
            }),
    {
        Self {
            generate_codeblocks: true,
            set_ident: Some(ident),
            register_group: None,
            variable_necessary: true,
            expected_type: None,
            preferred_category: IdentifierCategory::RuntimeVariable,
            depth: 0,
        }
    }

    /// Generates code whose result ends up in a register of `group`.
    pub fn group(group: u64) -> (s: Self)
        ensures
            s == (GenerateExpressionSettings {
                generate_codeblocks: true,
                set_ident: None,
                register_group: Some(group),
                variable_necessary: true,
                depth: 0,
                expected_type: None,
                preferred_category: IdentifierCategory::RuntimeVariable,
            }),
    {
        Self {
            generate_codeblocks: true,
            set_ident: None,
            register_group: Some(group),
            variable_necessary: true,
            expected_type: None,
            preferred_category: IdentifierCategory::RuntimeVariable,
            depth: 0,
        }
    }

    /// Evaluates the type of the expression without generating code.
    pub fn comptime() -> (s: Self)
        ensures
            s == (GenerateExpressionSettings {
                generate_codeblocks: false,
                set_ident: None,
                register_group: None,
                variable_necessary: false,
                depth: 0,
                expected_type: None,
                preferred_category: IdentifierCategory::RuntimeVariable,
            }),
    {
        Self {
            generate_codeblocks: false,
            set_ident: None,
            register_group: None,
            variable_necessary: false,
            expected_type: None,
            preferred_category: IdentifierCategory::RuntimeVariable,
            depth: 0,
        }
    }

    /// Like [Self::group], for a value handed on as a parameter: the
    /// expression need not end in a variable.
    pub fn parameter(group: u64) -> (s: Self)
        ensures
            s == (GenerateExpressionSettings {
                generate_codeblocks: true,
                set_ident: None,
                register_group: Some(group),
                variable_necessary: false,
                depth: 0,
                expected_type: None,
                preferred_category: IdentifierCategory::RuntimeVariable,
            }),
    {
        Self {
            generate_codeblocks: true,
            set_ident: None,
            register_group: Some(group),
            variable_necessary: false,
            expected_type: None,
            preferred_category: IdentifierCategory::RuntimeVariable,
            depth: 0,
        }
    }

    /// Runs an expression for its effect, with `ident` (the void constant)
    /// as its target.
    pub fn void(ident: u32) -> (s: Self)
        ensures
            s == (GenerateExpressionSettings {
                generate_codeblocks: true,
                set_ident: Some(ident),
                register_group: None,
                variable_necessary: false,
                depth: 0,
                expected_type: None,
                preferred_category: IdentifierCategory::RuntimeVariable,
            }),
    {
        Self {
            generate_codeblocks: true,
            set_ident: Some(ident),
            register_group: None,
            variable_necessary: false,
            expected_type: None,
            preferred_category: IdentifierCategory::RuntimeVariable,
            depth: 0,
        }
    }

    /// The settings for a sub-expression: one level deeper, with no expected
    /// type and the default category.
    pub fn pass(&self) -> (s: Self)
        requires
            self.depth < usize::MAX,
        ensures
            s == (GenerateExpressionSettings {
                depth: (self.depth + 1) as usize,
                expected_type: None,
                preferred_category: IdentifierCategory::RuntimeVariable,
                ..*self
            }),
    {
        let mut passed = self.clone();
        passed.depth = passed.depth + 1;
        passed.expected_type = None;
        passed.preferred_category = IdentifierCategory::RuntimeVariable;
        passed
    }

    /// [Self::pass], preferring `category`.
    pub fn pass_prefer(&self, category: IdentifierCategory) -> (s: Self)
        requires
            self.depth < usize::MAX,
        ensures
            s == (GenerateExpressionSettings {
                depth: (self.depth + 1) as usize,
                expected_type: None,
                preferred_category: category,
                ..*self
            }),
    {
        let mut passed = self.clone();
        passed.depth = passed.depth + 1;
        passed.expected_type = None;
        passed.preferred_category = category;
        passed
    }

    /// These settings with `generate_codeblocks` taken from `settings`.
    pub fn keep_comptime(&self, settings: &GenerateExpressionSettings) -> (s: Self)
        ensures
            s == (GenerateExpressionSettings { generate_codeblocks: settings.generate_codeblocks, ..*self }),
    {
        let mut changed = self.clone();
        changed.generate_codeblocks = settings.generate_codeblocks;
        changed
    }

    /// These settings, expecting `value_type`.
    pub fn expect_type(&self, value_type: &ValueType) -> (s: Self)
        ensures
            s == (GenerateExpressionSettings { expected_type: Some(*value_type), ..*self }),
    {
        let mut changed = self.clone();
        changed.expected_type = Some(value_type.clone());
        changed
    }

    /// These settings, preferring `category` (a domain, a function, ...).
    pub fn prefer_category(&self, category: IdentifierCategory) -> (s: Self)
        ensures
            s == (GenerateExpressionSettings { preferred_category: category, ..*self }),
    {
        let mut changed = self.clone();
        changed.preferred_category = category;
        changed
    }
}


/// Whether two types are the same, syntax compared as trees.
pub open spec fn type_eq(a: ValueType, b: ValueType) -> bool
    decreases a,
{
    match a {
        ValueType::Primitive(p) => b matches ValueType::Primitive(q) && primitive_eq(p, q),
        ValueType::Comptime(c) => b matches ValueType::Comptime(d) && comptime_eq(c, d),
        ValueType::Struct(i) => b matches ValueType::Struct(j) && i == j,
        ValueType::Ident(n) => b matches ValueType::Ident(m) && node_eq(*n, *m),
    }
}

/// Whether two primitive types are the same.
pub open spec fn primitive_eq(a: PrimitiveType, b: PrimitiveType) -> bool
    decreases a,
{
    match a {
        PrimitiveType::List(x) => b matches PrimitiveType::List(y) && type_eq(*x, *y),
        PrimitiveType::Dict(k, v) => b matches PrimitiveType::Dict(l, w) && type_eq(*k, *l) && type_eq(*v, *w),
        _ => a == b,
    }
}

/// Whether two compile-time types are the same.
pub open spec fn comptime_eq(a: ComptimeType, b: ComptimeType) -> bool
    decreases a,
{
    match a {
        ComptimeType::Type(r) => b matches ComptimeType::Type(t) && realtime_eq(r, t),
        _ => a == b,
    }
}

/// Whether two run-time types are the same.
pub open spec fn realtime_eq(a: RealtimeValueType, b: RealtimeValueType) -> bool
    decreases a,
{
    match a {
        RealtimeValueType::Primitive(p) => b matches RealtimeValueType::Primitive(q) && primitive_eq(p, q),
        RealtimeValueType::Struct(i) => b matches RealtimeValueType::Struct(j) && i == j,
    }
}

impl ValueType {
    /// Whether two types are the same.
    pub fn same(&self, other: &ValueType) -> (r: bool)
        ensures
            r == type_eq(*self, *other),
        decreases *self,
    {
        match self {
            ValueType::Primitive(p) => match other {
                ValueType::Primitive(q) => p.same(q),
                _ => false,
            },
            ValueType::Comptime(c) => match other {
                ValueType::Comptime(d) => c.same(d),
                _ => false,
            },
            ValueType::Struct(i) => match other {
                ValueType::Struct(j) => *i == *j,
                _ => false,
            },
            ValueType::Ident(n) => match other {
                ValueType::Ident(m) => n.same(m),
                _ => false,
            },
        }
    }
}

impl PrimitiveType {
    /// Whether two primitive types are the same.
    pub fn same(&self, other: &PrimitiveType) -> (r: bool)
        ensures
            r == primitive_eq(*self, *other),
        decreases *self,
    {
        match self {
            PrimitiveType::List(x) => match other {
                PrimitiveType::List(y) => x.same(y),
                _ => false,
            },
            PrimitiveType::Dict(k, v) => match other {
                PrimitiveType::Dict(l, w) => k.same(l) && v.same(w),
                _ => false,
            },
            PrimitiveType::Void => matches!(other, PrimitiveType::Void),
            PrimitiveType::Number => matches!(other, PrimitiveType::Number),
            PrimitiveType::String => matches!(other, PrimitiveType::String),
            PrimitiveType::Bool => matches!(other, PrimitiveType::Bool),
            PrimitiveType::Vector => matches!(other, PrimitiveType::Vector),
            PrimitiveType::Location => matches!(other, PrimitiveType::Location),
            PrimitiveType::Sound => matches!(other, PrimitiveType::Sound),
            PrimitiveType::Particle => matches!(other, PrimitiveType::Particle),
            PrimitiveType::Potion => matches!(other, PrimitiveType::Potion),
            PrimitiveType::Item => matches!(other, PrimitiveType::Item),
        }
    }
}

impl ComptimeType {
    /// Whether two compile-time types are the same.
    pub fn same(&self, other: &ComptimeType) -> (r: bool)
        ensures
            r == comptime_eq(*self, *other),
        decreases *self,
    {
        match self {
            ComptimeType::Type(r) => match other {
                ComptimeType::Type(t) => r.same(t),
                _ => false,
            },
            ComptimeType::Domain(i) => match other {
                ComptimeType::Domain(j) => *i == *j,
                _ => false,
            },
            ComptimeType::Function(i) => match other {
                ComptimeType::Function(j) => *i == *j,
                _ => false,
            },
            ComptimeType::SelfFunction(i, x) => match other {
                ComptimeType::SelfFunction(j, y) => *i == *j && *x == *y,
                _ => false,
            },
        }
    }
}

impl RealtimeValueType {
    /// Whether two run-time types are the same.
    pub fn same(&self, other: &RealtimeValueType) -> (r: bool)
        ensures
            r == realtime_eq(*self, *other),
        decreases *self,
    {
        match self {
            RealtimeValueType::Primitive(p) => match other {
                RealtimeValueType::Primitive(q) => p.same(q),
                _ => false,
            },
            RealtimeValueType::Struct(i) => match other {
                RealtimeValueType::Struct(j) => *i == *j,
                _ => false,
            },
        }
    }
}


impl Clone for CodegenValue {
    fn clone(&self) -> (c: Self)
        ensures
            c == *self,
    {
        CodegenValue { ident: self.ident, value_type: self.value_type.clone() }
    }
}

impl Clone for CodegenTraceCrumb {
    fn clone(&self) -> (c: Self)
        ensures
            c == *self,
    {
        match self {
            CodegenTraceCrumb::Ident(i) => CodegenTraceCrumb::Ident(*i),
            CodegenTraceCrumb::IndexNode(n) => CodegenTraceCrumb::IndexNode(Rc::clone(n)),
            CodegenTraceCrumb::EntryNode(n) => CodegenTraceCrumb::EntryNode(Rc::clone(n)),
        }
    }
}

impl Clone for CodegenTrace {
    fn clone(&self) -> (c: Self)
        ensures
            c@ == self@,
    {
        let mut crumbs: Vec<CodegenTraceCrumb> = Vec::new();
        for j in 0..self.crumbs.len()
            invariant
                crumbs@ == self.crumbs@.take(j as int),
        {
            crumbs.push(self.crumbs[j].clone());
            proof {
                assert(self.crumbs@.take(j + 1) =~= self.crumbs@.take(j as int).push(self.crumbs@[j as int]));
            }
        }
        proof {
            assert(self.crumbs@.take(self.crumbs@.len() as int) =~= self.crumbs@);
        }
        CodegenTrace { root_ident: self.root_ident, crumbs }
    }
}

impl Clone for CodegenExpressionResult {
    fn clone(&self) -> (c: Self)
        ensures
            c@ == self@,
    {
        CodegenExpressionResult {
            value: self.value.clone(),
            trace: match &self.trace {
                Some(t) => Some(t.clone()),
                None => None,
            },
        }
    }
}


/// Every context a type names is among the first `n`.
pub open spec fn type_ids_ok(t: ValueType, n: nat) -> bool
    decreases t,
{
    match t {
        ValueType::Primitive(p) => primitive_ids_ok(p, n),
        ValueType::Comptime(c) => match c {
            ComptimeType::Domain(i) => i < n,
            ComptimeType::Function(i) => i < n,
            ComptimeType::SelfFunction(i, _) => i < n,
            ComptimeType::Type(r) => match r {
                RealtimeValueType::Primitive(p) => primitive_ids_ok(p, n),
                RealtimeValueType::Struct(i) => i < n,
            },
        },
        ValueType::Struct(i) => i < n,
        ValueType::Ident(_) => true,
    }
}

/// Every context a primitive type names is among the first `n`.
pub open spec fn primitive_ids_ok(p: PrimitiveType, n: nat) -> bool
    decreases p,
{
    match p {
        PrimitiveType::List(x) => type_ids_ok(*x, n),
        PrimitiveType::Dict(k, v) => type_ids_ok(*k, n) && type_ids_ok(*v, n),
        _ => true,
    }
}

/// Naming contexts among the first `n` names them among more.
pub proof fn lemma_type_ids_grow(t: ValueType, n: nat, m: nat)
    requires
        type_ids_ok(t, n),
        n <= m,
    ensures
        type_ids_ok(t, m),
    decreases t,
{
    match t {
        ValueType::Primitive(p) => lemma_primitive_ids_grow(p, n, m),
        ValueType::Comptime(c) => match c {
            ComptimeType::Type(r) => match r {
                RealtimeValueType::Primitive(p) => lemma_primitive_ids_grow(p, n, m),
                _ => {},
            },
            _ => {},
        },
        _ => {},
    }
}

/// The type a shared pointer points to.
pub open spec fn inner(x: Rc<ValueType>) -> ValueType {
    *x
}

/// Naming contexts among the first `n` names them among more.
pub proof fn lemma_primitive_ids_grow(p: PrimitiveType, n: nat, m: nat)
    requires
        primitive_ids_ok(p, n),
        n <= m,
    ensures
        primitive_ids_ok(p, m),
    decreases p,
{
    if p is List {
        lemma_type_ids_grow(inner(p->List_0), n, m);
    } else if p is Dict {
        lemma_type_ids_grow(inner(p->Dict_0), n, m);
        lemma_type_ids_grow(inner(p->Dict_1), n, m);
    }
}


impl Clone for RuntimeVariable {
    fn clone(&self) -> (c: Self)
        ensures
            c.variable == self.variable,
            c.name@ == self.name@,
            c.param_ident == self.param_ident,
    {
        RuntimeVariable { variable: self.variable.clone(), name: self.name.clone(), param_ident: self.param_ident }
    }
}

} // verus!
