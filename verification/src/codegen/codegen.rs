//! Code generation: the tree of contexts (structs, functions, domains) that
//! a program declares, the lookup of definitions through it, and the
//! instructions that values and accesses compile to.
use vstd::prelude::*;
use std::rc::Rc;

use crate::codegen::buffer::CodeGenBuffer;
use crate::codegen::context::{CodeDefinition, CodeScope, Context, ContextType};
use crate::codegen::errors::{CodegenError, ErrorRepr, ErrorToken};
use crate::code::{
    act, slotless, Action, Coordinate, Tag, VarScope, Instruction, InstructionView, Parameter, ParameterValue,
    ParameterView, Parent, TagView, ValueView, VAR_CREATE_DICT, VAR_CREATE_LIST, VAR_GET_COORD,
    VAR_GET_DICT_VALUE, VAR_GET_LIST_VALUE, VAR_GET_VECTOR_COMP, VAR_SET, VAR_SET_ALL_COORDS,
    VAR_SET_COORD, VAR_SET_DICT_VALUE, VAR_SET_LIST_VALUE, VAR_SET_VECTOR_COMP, VAR_VECTOR,
};
use crate::codegen::types::{
    CodegenValue, Field, CodegenLocationCoordinate, CodegenTraceCrumbIdent, CodegenVectorCoordinate, PrimitiveType,
    lemma_type_ids_grow, type_ids_ok, RuntimeVariable, ValueType,
};
use crate::lexer::types::TokenType;
use crate::parser::Node;
use crate::table::{lemma_str_keyed_push, lemma_str_set_keeps, str_keyed, str_position};
use crate::text::{decimal, find_char, chars_from, position_of, push_char, str_eq, u64_decimal};

verus! {

/// The identifier a node names, when it is a primary identifier.
pub open spec fn primary_ident(n: Node) -> Option<Seq<char>> {
    match n {
        Node::Primary(t) => match t.token_type {
            TokenType::Ident(s) => Some(s@),
            _ => None,
        },
        _ => None,
    }
}

/// Whether `e` is the error `source` at node `n`.
pub open spec fn error_at(e: CodegenError, n: Rc<Node>, source: ErrorRepr) -> bool {
    e.token == Some(ErrorToken { token: n, position: 0 }) && e.source == source
}

/// The definitions of a context, by name.
pub open spec fn defs(c: Context) -> Map<Seq<char>, CodeDefinition> {
    str_keyed(c.definition_lookup@)
}

/// Every context a definition names is among the first `n`, and every
/// field among the first `fields`.
pub open spec fn def_in_range(d: CodeDefinition, n: nat, fields: nat) -> bool {
    match d {
        CodeDefinition::Context(i) => i < n,
        CodeDefinition::Field(f) => f < fields,
        CodeDefinition::Multiple(v) => forall|j: int| 0 <= j < v@.len() ==> match #[trigger] v@[j] {
            CodeDefinition::Context(i) => i < n,
            CodeDefinition::Field(f) => f < fields,
            _ => true,
        },
    }
}

/// Every definition of a context names one of the first `n` contexts and
/// one of its own fields.
pub open spec fn defs_in_range(c: Context, n: nat) -> bool {
    forall|k: Seq<char>| #[trigger] defs(c).dom().contains(k) ==> def_in_range(defs(c)[k], n, c.fields@.len())
}

/// The contexts form a tree rooted where a context is its own parent: each
/// knows its index, its parent comes no later, and its definitions name
/// contexts of the tree.
pub open spec fn contexts_wf(cs: Seq<Context>) -> bool {
    forall|i: int| 0 <= i < cs.len() ==> {
        &&& (#[trigger] cs[i]).id == i
        &&& cs[i].parent_id <= i
        &&& defs_in_range(cs[i], cs.len())
    }
}

/// Definitions in range stay in range as contexts and fields are added.
pub proof fn lemma_defs_grow(c: Context, d: Context, n: nat, m: nat)
    requires
        defs_in_range(c, n),
        n <= m,
        defs(d) == defs(c),
        c.fields@.len() <= d.fields@.len(),
    ensures
        defs_in_range(d, m),
{
    assert forall|k: Seq<char>| #[trigger] defs(d).dom().contains(k) implies def_in_range(defs(d)[k], m, d.fields@.len()) by {
        assert(def_in_range(defs(c)[k], n, c.fields@.len()));
    }
}

/// The definition of `name` seen from context `c`: in `c`, else in its
/// parent, and so on up to the root.
pub open spec fn walk_definition(cs: Seq<Context>, c: nat, name: Seq<char>) -> Option<CodeDefinition>
    decreases c,
{
    if c >= cs.len() {
        None
    } else if defs(cs[c as int]).dom().contains(name) {
        Some(defs(cs[c as int])[name])
    } else if cs[c as int].parent_id < c {
        walk_definition(cs, cs[c as int].parent_id as nat, name)
    } else {
        None
    }
}

/// The domain named `name` seen from context `c`, looking up through at
/// most `max` parents (no limit when `None`); `depth` parents were passed.
pub open spec fn walk_domain(cs: Seq<Context>, c: nat, name: Seq<char>, max: Option<usize>, depth: nat) -> Option<nat>
    decreases c,
{
    if c >= cs.len() {
        None
    } else if defs(cs[c as int]).dom().contains(name) && (defs(cs[c as int])[name] matches CodeDefinition::Context(d)
        && d < cs.len() && cs[d as int].context_type is Domain) {
        match defs(cs[c as int])[name] {
            CodeDefinition::Context(d) => Some(d as nat),
            _ => None,
        }
    } else if cs[c as int].parent_id < c {
        match max {
            Some(m) => if depth + 1 >= m {
                None
            } else {
                walk_domain(cs, cs[c as int].parent_id as nat, name, max, depth + 1)
            },
            None => walk_domain(cs, cs[c as int].parent_id as nat, name, max, depth + 1),
        }
    } else {
        None
    }
}

/// The context that an access path names, seen from context `c`: an
/// identifier is a domain seen from `c`; `a.b` is the domain `b` defined
/// directly in the context that `a` names.
pub open spec fn full_context(cs: Seq<Context>, n: Rc<Node>, c: nat) -> Result<nat, (Rc<Node>, ErrorRepr)>
    decreases n,
{
    match *n {
        Node::Primary(_) => match primary_ident(*n) {
            None => Err((n, ErrorRepr::ExpectedDefinitionIdent)),
            Some(name) => match walk_domain(cs, c, name, None, 0) {
                Some(d) => Ok(d),
                None => Err((n, ErrorRepr::DomainIdentNotRecognized)),
            },
        },
        Node::Access(parent, field) => match full_context(cs, parent, c) {
            Err(e) => Err(e),
            Ok(pc) => match primary_ident(*field) {
                None => Err((field, ErrorRepr::ExpectedDefinitionIdent)),
                Some(name) => match walk_domain(cs, pc, name, Some(1), 0) {
                    Some(d) => Ok(d),
                    None => Err((field, ErrorRepr::DomainIdentNotRecognized)),
                },
            },
        },
        _ => Err((n, ErrorRepr::ExpectedAccessableNode)),
    }
}

/// The kinds of contexts a definition may be asked for.
#[derive(Clone, Copy, Debug, PartialEq, Eq, Structural)]
pub enum ContextKind {
    Struct,
    Function,
    Domain,
}

/// Whether a context type is of the given kind.
pub open spec fn kind_matches(t: ContextType, k: ContextKind) -> bool {
    match k {
        ContextKind::Struct => t is Struct,
        ContextKind::Function => t is Function,
        ContextKind::Domain => t is Domain,
    }
}

/// The context of the given kind that a definition names: the context
/// itself, or among several definitions the first context, provided it is
/// of that kind.
pub open spec fn definition_context(cs: Seq<Context>, d: CodeDefinition, k: ContextKind) -> Result<nat, ErrorRepr> {
    match d {
        CodeDefinition::Context(c) => if c < cs.len() && kind_matches(cs[c as int].context_type, k) {
            Ok(c as nat)
        } else {
            Err(ErrorRepr::UnexpectedContextType)
        },
        CodeDefinition::Multiple(v) => match first_context_of(cs, v@, k) {
            Some(c) => Ok(c),
            None => Err(ErrorRepr::UnexpectedContextType),
        },
        CodeDefinition::Field(_) => Err(ErrorRepr::ExpectedContext),
    }
}

/// The first context of the given kind among definitions.
pub open spec fn first_context_of(cs: Seq<Context>, v: Seq<CodeDefinition>, k: ContextKind) -> Option<nat>
    decreases v.len(),
{
    if v.len() == 0 {
        None
    } else {
        match v[0] {
            CodeDefinition::Context(c) => if c < cs.len() && kind_matches(cs[c as int].context_type, k) {
                Some(c as nat)
            } else {
                first_context_of(cs, v.drop_first(), k)
            },
            _ => first_context_of(cs, v.drop_first(), k),
        }
    }
}

/// A context found among definitions is of the kind asked for.
pub proof fn lemma_first_context_of(cs: Seq<Context>, v: Seq<CodeDefinition>, k: ContextKind)
    ensures
        first_context_of(cs, v, k) matches Some(c) ==> c < cs.len() && kind_matches(cs[c as int].context_type, k),
    decreases v.len(),
{
    if v.len() > 0 {
        lemma_first_context_of(cs, v.drop_first(), k);
    }
}

/// The first field among definitions.
pub open spec fn first_field_of(v: Seq<CodeDefinition>) -> Option<usize>
    decreases v.len(),
{
    if v.len() == 0 {
        None
    } else {
        match v[0] {
            CodeDefinition::Field(f) => Some(f),
            _ => first_field_of(v.drop_first()),
        }
    }
}

/// The name of a variable made from a base: `_`, the base, `_`, the name.
pub open spec fn var_name(name: Seq<char>, base: Seq<char>) -> Seq<char> {
    seq!['_'] + base + seq!['_'] + name
}

/// The primitive type a name stands for, if any.
pub open spec fn primitive_named(name: Seq<char>) -> Option<PrimitiveType> {
    if name == seq!['n', 'u', 'm'] {
        Some(PrimitiveType::Number)
    } else if name == seq!['s', 't', 'r', 'i', 'n', 'g'] {
        Some(PrimitiveType::String)
    } else if name == seq!['b', 'o', 'o', 'l'] {
        Some(PrimitiveType::Bool)
    } else if name == seq!['v', 'e', 'c'] {
        Some(PrimitiveType::Vector)
    } else if name == seq!['l', 'o', 'c'] {
        Some(PrimitiveType::Location)
    } else {
        None
    }
}

/// The compiler: the contexts of a program and the buffer it writes to.
pub struct CodeGen {
    pub context_map: Vec<(String, usize)>,
    pub root_context: usize,
    pub contexts: Vec<Context>,
    pub current_id: usize,
    pub buffer: CodeGenBuffer,
    pub parents: Vec<usize>,
    pub runtime_vars: Vec<Vec<(String, RuntimeVariable)>>,
    pub domain_vars: Vec<Vec<RuntimeVariable>>,
    pub return_runtimes: Vec<Option<RuntimeVariable>>,
    pub field_names: Vec<Vec<String>>,
    pub context_names: Vec<String>,
    pub context_full_names: Vec<String>,
    pub block_runtime_vars_add: Vec<String>,
    pub run: usize,
}

impl CodeGen {
    /// A compiler with no contexts yet.
    pub fn new() -> (g: CodeGen)
        ensures
            g.contexts@.len() == 0,
            g.current_id == 0,
            g.root_context == 0,
            g.buffer.wf(),
            g.buffer@.ident_count == 0,
            g.parents@.len() == 0,
            g.run == 0,
            crate::codegen::expression::gen_ok(g),
            fnames_ok(g),
    {
        Self {
            context_map: Vec::new(),
            root_context: 0,
            contexts: Vec::new(),
            current_id: 0,
            buffer: CodeGenBuffer::new(),
            parents: Vec::new(),
            runtime_vars: Vec::new(),
            domain_vars: Vec::new(),
            return_runtimes: Vec::new(),
            field_names: Vec::new(),
            context_names: Vec::new(),
            context_full_names: Vec::new(),
            block_runtime_vars_add: Vec::new(),
            run: 0,
        }
    }

    /// The identifier a node names; fails with `err` at the node when it is
    /// not a primary identifier.
    pub fn get_primary_as_ident(node: &Rc<Node>, err: ErrorRepr) -> (r: Result<&String, CodegenError>)
        ensures
            match r {
                Ok(s) => primary_ident(**node) == Some(s@),
                Err(e) => primary_ident(**node) is None && error_at(e, *node, err),
            },
    {
        match &**node {
            Node::Primary(token) => match &token.token_type {
                TokenType::Ident(s) => Ok(s),
                _ => CodegenError::err(node.clone(), err),
            },
            _ => CodegenError::err(node.clone(), err),
        }
    }

    /// Adds a definition to a context; a name defined before now names
    /// several definitions, in the order they were added.
    pub fn add_definition(context: &mut Context, ident: String, definition: CodeDefinition) -> (r: Result<(), CodegenError>)
        ensures
            r is Ok,
            defs(*final(context)).dom() == defs(*old(context)).dom().insert(ident@),
            forall|k: Seq<char>| k != ident@ && #[trigger] defs(*old(context)).dom().contains(k)
                ==> defs(*final(context))[k] == defs(*old(context))[k],
            !defs(*old(context)).dom().contains(ident@) ==> defs(*final(context))[ident@] == definition,
            defs(*old(context)).dom().contains(ident@) ==> (defs(*final(context))[ident@] matches CodeDefinition::Multiple(v)
                && v@ == match defs(*old(context))[ident@] {
                    CodeDefinition::Multiple(w) => w@.push(definition),
                    other => seq![other, definition],
                }),
            final(context).context_type == old(context).context_type,
            final(context).parent_id == old(context).parent_id,
            final(context).id == old(context).id,
            final(context).depth == old(context).depth,
            final(context).fields == old(context).fields,
            final(context).body == old(context).body,
            final(context).scope == old(context).scope,
            final(context).children == old(context).children,
    {
        match str_position(&context.definition_lookup, ident.as_str()) {
            Some(pos) => {
                let ghost before = context.definition_lookup@;
                let (key, existing) = context.definition_lookup.remove(pos);
                let merged = match existing {
                    CodeDefinition::Multiple(mut mult) => {
                        mult.push(definition);
                        CodeDefinition::Multiple(mult)
                    },
                    other => {
                        let mut mult_vec = Vec::new();
                        mult_vec.push(other);
                        mult_vec.push(definition);
                        CodeDefinition::Multiple(mult_vec)
                    },
                };
                let ghost entry = (key, merged);
                context.definition_lookup.insert(pos, (key, merged));
                proof {
                    assert(context.definition_lookup@ =~= before.update(pos as int, entry));
                    lemma_str_set_keeps(before, pos as int, entry);
                }
            },
            None => {
                proof {
                    lemma_str_keyed_push(context.definition_lookup@, ident, definition);
                }
                context.definition_lookup.push((ident, definition));
            },
        }
        Ok(())
    }

    /// The name of a variable made from a base: `_`, the base, `_`, the name.
    pub fn make_var_name(name: &str, base_char: &str) -> (r: String)
        ensures
            r@ == var_name(name@, base_char@),
    {
        let mut result = String::new();
        push_char(&mut result, '_');
        result.append(base_char);
        push_char(&mut result, '_');
        result.append(name);
        proof {
            assert(result@ =~= var_name(name@, base_char@));
        }
        result
    }

    /// The primitive type a name stands for: `num`, `string`, `bool`, `vec`
    /// or `loc`.
    pub fn is_definition_primitive(ident_string: &str) -> (r: Option<PrimitiveType>)
        ensures
            r == primitive_named(ident_string@),
    {
        proof {
            reveal_strlit("num");
            reveal_strlit("string");
            reveal_strlit("bool");
            reveal_strlit("vec");
            reveal_strlit("loc");
            assert("num"@ =~= seq!['n', 'u', 'm']);
            assert("string"@ =~= seq!['s', 't', 'r', 'i', 'n', 'g']);
            assert("bool"@ =~= seq!['b', 'o', 'o', 'l']);
            assert("vec"@ =~= seq!['v', 'e', 'c']);
            assert("loc"@ =~= seq!['l', 'o', 'c']);
        }
        if str_eq(ident_string, "num") {
            Some(PrimitiveType::Number)
        } else if str_eq(ident_string, "string") {
            Some(PrimitiveType::String)
        } else if str_eq(ident_string, "bool") {
            Some(PrimitiveType::Bool)
        } else if str_eq(ident_string, "vec") {
            Some(PrimitiveType::Vector)
        } else if str_eq(ident_string, "loc") {
            Some(PrimitiveType::Location)
        } else {
            None
        }
    }

    /// The contexts hold together.
    pub open spec fn wf(&self) -> bool {
        &&& contexts_wf(self.contexts@)
        &&& self.buffer.wf()
    }

    /// The definition of the name `ident` in context `context` itself.
    pub fn find_definition_by_ident(&self, ident: &Rc<Node>, context: usize) -> (r: Result<&CodeDefinition, CodegenError>)
        requires
            context < self.contexts@.len(),
        ensures
            match primary_ident(**ident) {
                None => r matches Err(e) && error_at(e, *ident, ErrorRepr::ExpectedDefinitionIdent),
                Some(name) => if defs(self.contexts@[context as int]).dom().contains(name) {
                    r == Ok::<&CodeDefinition, CodegenError>(&defs(self.contexts@[context as int])[name])
                } else {
                    r matches Err(e) && error_at(e, *ident, ErrorRepr::DefinitionIdentNotRecognized)
                },
            },
    {
        let ident_string = Self::get_primary_as_ident(ident, ErrorRepr::ExpectedDefinitionIdent)?;
        let lookup = &self.contexts[context].definition_lookup;
        match str_position(lookup, ident_string.as_str()) {
            Some(pos) => Ok(&lookup[pos].1),
            None => CodegenError::err(ident.clone(), ErrorRepr::DefinitionIdentNotRecognized),
        }
    }

    /// The definition of a name seen from a context, looking up through the
    /// parents; for `a.b`, the definition of `b` in the context that `a`
    /// names, and there only.
    pub fn find_definition_by_node(&self, node: &Rc<Node>, context: usize) -> (r: Result<&CodeDefinition, CodegenError>)
        requires
            self.wf(),
            context < self.contexts@.len(),
        ensures
            match **node {
                Node::Access(parent, child) => match full_context(self.contexts@, parent, context as nat) {
                    Err((n, source)) => r matches Err(e) && error_at(e, n, source),
                    Ok(c) => match primary_ident(*child) {
                        None => r matches Err(e) && error_at(e, child, ErrorRepr::ExpectedDefinitionIdent),
                        Some(name) => if defs(self.contexts@[c as int]).dom().contains(name) {
                            r == Ok::<&CodeDefinition, CodegenError>(&defs(self.contexts@[c as int])[name])
                        } else {
                            r matches Err(e) && error_at(e, child, ErrorRepr::DefinitionIdentNotRecognized)
                        },
                    },
                },
                _ => match primary_ident(**node) {
                    None => r matches Err(e) && error_at(e, *node, ErrorRepr::ExpectedDefinitionIdent),
                    Some(name) => match walk_definition(self.contexts@, context as nat, name) {
                        Some(d) => r == Ok::<&CodeDefinition, CodegenError>(&d),
                        None => r matches Err(e) && error_at(e, *node, ErrorRepr::DefinitionIdentNotRecognized),
                    },
                },
            },
    {
        if let Node::Access(access_parent, access_child) = &**node {
            let found = self.find_full_context_by_ident(access_parent, context)?;
            return self.find_definition_by_ident(access_child, found);
        }
        let ident_string = Self::get_primary_as_ident(node, ErrorRepr::ExpectedDefinitionIdent)?;
        let mut current = context;
        loop
            invariant
                self.wf(),
                current < self.contexts@.len(),
                primary_ident(**node) == Some(ident_string@),
                walk_definition(self.contexts@, context as nat, ident_string@)
                    == walk_definition(self.contexts@, current as nat, ident_string@),
            decreases current,
        {
            let c = &self.contexts[current];
            proof {
                assert(self.contexts@[current as int].id == current);
            }
            match str_position(&c.definition_lookup, ident_string.as_str()) {
                Some(pos) => {
                    return Ok(&c.definition_lookup[pos].1);
                },
                None => {
                    if c.id == c.parent_id {
                        return CodegenError::err(node.clone(), ErrorRepr::DefinitionIdentNotRecognized);
                    }
                    current = c.parent_id;
                },
            }
        }
    }

    /// The context that an access path names, seen from a context; see
    /// [`full_context`].
    pub fn find_full_context_by_ident(&self, ident: &Rc<Node>, context: usize) -> (r: Result<usize, CodegenError>)
        requires
            self.wf(),
            context < self.contexts@.len(),
        ensures
            match full_context(self.contexts@, *ident, context as nat) {
                Ok(c) => r == Ok::<usize, CodegenError>(c as usize) && c < self.contexts@.len(),
                Err((n, source)) => r matches Err(e) && error_at(e, n, source),
            },
        decreases *ident,
    {
        match &**ident {
            Node::Primary(_token) => self.find_domain_by_ident(ident, context, None),
            Node::Access(access_parent, access_field) => {
                let found = self.find_full_context_by_ident(access_parent, context)?;
                self.find_domain_by_ident(access_field, found, Some(1))
            },
            _ => CodegenError::err(ident.clone(), ErrorRepr::ExpectedAccessableNode),
        }
    }

    /// The domain a name stands for seen from a context, looking up through
    /// at most `max_depth` parents; see [`walk_domain`].
    pub fn find_domain_by_ident(&self, ident: &Rc<Node>, context: usize, max_depth: Option<usize>) -> (r: Result<usize, CodegenError>)
        requires
            self.wf(),
            context < self.contexts@.len(),
        ensures
            match primary_ident(**ident) {
                None => r matches Err(e) && error_at(e, *ident, ErrorRepr::ExpectedDefinitionIdent),
                Some(name) => match walk_domain(self.contexts@, context as nat, name, max_depth, 0) {
                    Some(d) => r == Ok::<usize, CodegenError>(d as usize) && d < self.contexts@.len(),
                    None => r matches Err(e) && error_at(e, *ident, ErrorRepr::DomainIdentNotRecognized),
                },
            },
    {
        let ident_string = Self::get_primary_as_ident(ident, ErrorRepr::ExpectedDefinitionIdent)?;
        let mut current = context;
        let mut depth: usize = 0;
        loop
            invariant
                self.wf(),
                current < self.contexts@.len(),
                depth <= context,
                primary_ident(**ident) == Some(ident_string@),
                walk_domain(self.contexts@, context as nat, ident_string@, max_depth, 0)
                    == walk_domain(self.contexts@, current as nat, ident_string@, max_depth, depth as nat),
                depth + current <= context,
            decreases current,
        {
            let c = &self.contexts[current];
            proof {
                assert(self.contexts@[current as int].id == current);
            }
            match str_position(&c.definition_lookup, ident_string.as_str()) {
                Some(pos) => {
                    if let CodeDefinition::Context(def_context) = &c.definition_lookup[pos].1 {
                        proof {
                            assert(defs(self.contexts@[current as int]).dom().contains(ident_string@));
                            assert(defs_in_range(self.contexts@[current as int], self.contexts@.len()));
                            assert(def_in_range(defs(self.contexts@[current as int])[ident_string@], self.contexts@.len(), self.contexts@[current as int].fields@.len()));
                        }
                        if let ContextType::Domain = self.contexts[*def_context].context_type {
                            return Ok(*def_context);
                        }
                    }
                },
                None => {},
            }
            if c.id == c.parent_id {
                return CodegenError::err(ident.clone(), ErrorRepr::DomainIdentNotRecognized);
            }
            current = c.parent_id;
            depth = depth + 1;
            if let Some(max_depth_value) = max_depth {
                if depth >= max_depth_value {
                    return CodegenError::err(ident.clone(), ErrorRepr::DomainIdentNotRecognized);
                }
            }
        }
    }
}


/// The declarations a parameter list holds: none, one, or one per item of
/// a tuple.
pub open spec fn declarations(n: Node) -> Option<Seq<(Rc<Node>, Rc<Node>)>> {
    match n {
        Node::Empty => Some(Seq::empty()),
        Node::Declaration(t, i) => Some(seq![(t, i)]),
        Node::Tuple(children) => if forall|j: int| 0 <= j < children@.len() ==> (#[trigger] *children@[j]) is Declaration {
            Some(Seq::new(children@.len(), |j: int| decl_pair(children@[j])))
        } else {
            None
        },
        _ => None,
    }
}

/// The type and name of a declaration node.
pub open spec fn decl_pair(n: Rc<Node>) -> (Rc<Node>, Rc<Node>) {
    match *n {
        Node::Declaration(t, i) => (t, i),
        _ => (n, n),
    }
}

/// The value an instruction that sets a fresh value of a type starts with.
pub open spec fn default_value(t: ValueType, set_ident: u32) -> Option<InstructionView> {
    let id = slotless(ValueView::Ident(set_ident));
    let zero = slotless(ValueView::Int(0));
    match t {
        ValueType::Struct(_) => Some(with_params(act(Parent::Var, VAR_SET), seq![id, zero])),
        ValueType::Primitive(p) => match p {
            PrimitiveType::Bool | PrimitiveType::Number | PrimitiveType::Void => Some(
                with_params(act(Parent::Var, VAR_SET), seq![id, zero]),
            ),
            PrimitiveType::String => Some(
                with_params(act(Parent::Var, VAR_SET), seq![id, slotless(ValueView::String(Seq::empty()))]),
            ),
            PrimitiveType::List(_) => Some(with_params(act(Parent::Var, VAR_CREATE_LIST), seq![id])),
            PrimitiveType::Dict(_, _) => Some(with_params(act(Parent::Var, VAR_CREATE_DICT), seq![id])),
            PrimitiveType::Vector => Some(with_params(act(Parent::Var, VAR_VECTOR), seq![id, zero, zero, zero])),
            PrimitiveType::Location => Some(
                with_params(act(Parent::Var, VAR_SET_ALL_COORDS), seq![id, zero, zero, zero, zero, zero]),
            ),
            _ => None,
        },
        _ => None,
    }
}

/// An instruction with the given parameters and no tags.
pub open spec fn with_params(action: Action, params: Seq<ParameterView>) -> InstructionView {
    InstructionView { action, params, tags: Seq::empty() }
}

/// The tag that names a location coordinate.
pub open spec fn coordinate_of(c: CodegenLocationCoordinate) -> Coordinate {
    match c {
        CodegenLocationCoordinate::X => Coordinate::X,
        CodegenLocationCoordinate::Y => Coordinate::Y,
        CodegenLocationCoordinate::Z => Coordinate::Z,
        CodegenLocationCoordinate::Pitch => Coordinate::Pitch,
        CodegenLocationCoordinate::Yaw => Coordinate::Yaw,
    }
}

/// The tag that names a vector component.
pub open spec fn component_of(c: CodegenVectorCoordinate) -> Coordinate {
    match c {
        CodegenVectorCoordinate::X => Coordinate::X,
        CodegenVectorCoordinate::Y => Coordinate::Y,
        CodegenVectorCoordinate::Z => Coordinate::Z,
    }
}

/// The instruction that reads the part `crumb` of `accessed` into `value`.
pub open spec fn get_crumb_instr(crumb: CodegenTraceCrumbIdent, value: u32, accessed: u32) -> InstructionView {
    let v = slotless(ValueView::Ident(value));
    let a = slotless(ValueView::Ident(accessed));
    match crumb {
        CodegenTraceCrumbIdent::IndexDirect(index) => with_params(
            act(Parent::Var, VAR_GET_LIST_VALUE),
            seq![v, a, slotless(ValueView::Int(index as i64))],
        ),
        CodegenTraceCrumbIdent::Index(ident) => with_params(
            act(Parent::Var, VAR_GET_LIST_VALUE),
            seq![v, a, slotless(ValueView::Ident(ident))],
        ),
        CodegenTraceCrumbIdent::Entry(ident) => with_params(
            act(Parent::Var, VAR_GET_DICT_VALUE),
            seq![v, a, slotless(ValueView::Ident(ident))],
        ),
        CodegenTraceCrumbIdent::Location(coord) => InstructionView {
            action: act(Parent::Var, VAR_GET_COORD),
            params: seq![v, a],
            tags: seq![TagView::Coordinate(coordinate_of(coord))],
        },
        CodegenTraceCrumbIdent::Vector(coord) => InstructionView {
            action: act(Parent::Var, VAR_GET_VECTOR_COMP),
            params: seq![v, a],
            tags: seq![TagView::Component(component_of(coord))],
        },
    }
}

/// The instruction that writes `value` into the part `crumb` of `accessed`.
pub open spec fn set_crumb_instr(crumb: CodegenTraceCrumbIdent, value: u32, accessed: u32) -> InstructionView {
    let v = slotless(ValueView::Ident(value));
    let a = slotless(ValueView::Ident(accessed));
    match crumb {
        CodegenTraceCrumbIdent::IndexDirect(index) => with_params(
            act(Parent::Var, VAR_SET_LIST_VALUE),
            seq![a, slotless(ValueView::Int(index as i64)), v],
        ),
        CodegenTraceCrumbIdent::Index(ident) => with_params(
            act(Parent::Var, VAR_SET_LIST_VALUE),
            seq![a, slotless(ValueView::Ident(ident)), v],
        ),
        CodegenTraceCrumbIdent::Entry(ident) => with_params(
            act(Parent::Var, VAR_SET_DICT_VALUE),
            seq![a, slotless(ValueView::Ident(ident)), v],
        ),
        CodegenTraceCrumbIdent::Location(coord) => InstructionView {
            action: act(Parent::Var, VAR_SET_COORD),
            params: seq![a, a, v],
            tags: seq![TagView::Coordinate(coordinate_of(coord))],
        },
        CodegenTraceCrumbIdent::Vector(coord) => InstructionView {
            action: act(Parent::Var, VAR_SET_VECTOR_COMP),
            params: seq![a, a, v],
            tags: seq![TagView::Component(component_of(coord))],
        },
    }
}

/// The run-time variable `name` seen from context `c`: in `c`, else in its
/// parent, and so on up to context 0.
pub open spec fn walk_variable(
    vars: Seq<Vec<(String, RuntimeVariable)>>,
    parents: Seq<usize>,
    c: nat,
    name: Seq<char>,
) -> Option<RuntimeVariable>
    decreases c,
{
    if c >= vars.len() {
        None
    } else if str_keyed(vars[c as int]@).dom().contains(name) {
        Some(str_keyed(vars[c as int]@)[name])
    } else if c == 0 || c >= parents.len() || parents[c as int] >= c {
        None
    } else {
        walk_variable(vars, parents, parents[c as int] as nat, name)
    }
}

/// The parents of the contexts come before them, context 0 being the root.
pub open spec fn parents_ordered(parents: Seq<usize>) -> bool {
    forall|i: int| 0 < i < parents.len() ==> #[trigger] parents[i] < i
}

/// The parameters of a list of values, none with a fixed slot.
pub open spec fn slotless_all(values: Seq<ParameterValue>) -> Seq<ParameterView> {
    values.map_values(|v: ParameterValue| slotless(v@))
}

/// An instruction built from an action and parameter values.
pub(crate) fn instruction_of(action: Action, values: Vec<ParameterValue>) -> (i: Instruction)
    ensures
        i@ == with_params(action, slotless_all(values@)),
{
    let mut i = Instruction::new(action);
    proof {
        assert(slotless_all(values@.take(0)) =~= Seq::<ParameterView>::empty());
    }
    for k in 0..values.len()
        invariant
            i@ == with_params(action, slotless_all(values@.take(k as int))),
    {
        let ghost before = i@;
        i.push_param(Parameter::from_value(values[k].clone()));
        proof {
            assert(slotless_all(values@.take(k + 1)) =~= slotless_all(values@.take(k as int)).push(slotless(values@[k as int]@)));
        }
    }
    proof {
        assert(values@.take(values@.len() as int) =~= values@);
    }
    i
}

impl CodeGen {
    /// The declarations of a parameter list; fails at the list, or at the
    /// first item of a tuple that is not a declaration.
    pub fn extract_declaration_vec(node: &Rc<Node>) -> (r: Result<Vec<(&Rc<Node>, &Rc<Node>)>, CodegenError>)
        ensures
            match declarations(**node) {
                Some(d) => r matches Ok(v) && v@.len() == d.len()
                    && forall|j: int| 0 <= j < d.len() ==> (*v@[j].0, *v@[j].1) == d[j],
                None => r matches Err(e) && e.source == ErrorRepr::ExpectedFunctionParamDeclaration && match **node {
                    Node::Tuple(children) => exists|j: int| 0 <= j < children@.len() && !((*children@[j]) is Declaration)
                        && (forall|k: int| 0 <= k < j ==> (#[trigger] *children@[k]) is Declaration)
                        && error_at(e, children@[j], ErrorRepr::ExpectedFunctionParamDeclaration),
                    _ => error_at(e, *node, ErrorRepr::ExpectedFunctionParamDeclaration),
                },
            },
    {
        match &**node {
            Node::Empty => Ok(Vec::new()),
            Node::Declaration(node_type, node_ident) => {
                let mut v = Vec::new();
                v.push((node_type, node_ident));
                Ok(v)
            },
            Node::Tuple(node_children) => {
                let mut found: Vec<(&Rc<Node>, &Rc<Node>)> = Vec::new();
                for j in 0..node_children.len()
                    invariant
                        **node == Node::Tuple(*node_children),
                        found@.len() == j,
                        forall|k: int| 0 <= k < j ==> (#[trigger] *node_children@[k]) is Declaration,
                        forall|k: int| 0 <= k < j ==> (*(#[trigger] found@[k]).0, *found@[k].1) == decl_pair(node_children@[k]),
                {
                    let node_child = &node_children[j];
                    match &**node_child {
                        Node::Declaration(node_child_type, node_child_ident) => {
                            found.push((node_child_type, node_child_ident));
                        },
                        _ => {
                            let r = CodegenError::err(node_child.clone(), ErrorRepr::ExpectedFunctionParamDeclaration);
                            proof {
                                assert(!((*node_children@[j as int]) is Declaration));
                                assert(!(forall|k: int| 0 <= k < node_children@.len() ==> (#[trigger] *node_children@[k]) is Declaration));
                                assert(declarations(**node) is None);
                                let jj = j as int;
                                assert(0 <= jj < node_children@.len() && !((*node_children@[jj]) is Declaration)
                                    && (forall|k: int| 0 <= k < jj ==> (#[trigger] *node_children@[k]) is Declaration));
                            }
                            return r;
                        },
                    }
                }
                Ok(found)
            },
            _ => CodegenError::err(node.clone(), ErrorRepr::ExpectedFunctionParamDeclaration),
        }
    }
}


/// The number of nodes a declaration tree holds.
pub open spec fn node_size(n: Node) -> nat
    decreases n, 1nat,
{
    match n {
        Node::Block(v) => 1 + seq_size(v@),
        Node::Func(_, _, _, b) => 1 + node_size(*b),
        Node::Struct(_, b) => 1 + node_size(*b),
        Node::Domain(_, b) => 1 + node_size(*b),
        _ => 1,
    }
}

/// The number of nodes a sequence of declaration trees holds.
pub open spec fn seq_size(s: Seq<Rc<Node>>) -> nat
    decreases s, 0nat,
{
    if s.len() == 0 {
        0
    } else {
        node_size(*s[0]) + seq_size(s.drop_first())
    }
}

/// Everything but the buffer is as it was.
pub open spec fn same_but_buffer(a: CodeGen, b: CodeGen) -> bool {
    &&& a.context_map == b.context_map
    &&& a.root_context == b.root_context
    &&& a.contexts == b.contexts
    &&& a.current_id == b.current_id
    &&& a.parents == b.parents
    &&& a.runtime_vars == b.runtime_vars
    &&& a.domain_vars == b.domain_vars
    &&& a.return_runtimes == b.return_runtimes
    &&& a.field_names == b.field_names
    &&& a.context_names == b.context_names
    &&& a.context_full_names == b.context_full_names
    &&& a.block_runtime_vars_add == b.block_runtime_vars_add
    &&& a.run == b.run
}

/// The parameters that a list of parameter nodes stands for: none, the
/// node itself, or the items of a tuple.
pub open spec fn parameter_nodes(n: Rc<Node>) -> Option<Seq<Rc<Node>>> {
    match *n {
        Node::Empty => Some(Seq::empty()),
        Node::Primary(_) => Some(seq![n]),
        Node::Tuple(children) => Some(children@),
        _ => None,
    }
}

/// The field a definition names: the field itself, or among several
/// definitions the first field.
pub open spec fn definition_field(d: CodeDefinition) -> Option<usize> {
    match d {
        CodeDefinition::Field(f) => Some(f),
        CodeDefinition::Multiple(v) => first_field_of(v@),
        CodeDefinition::Context(_) => None,
    }
}

/// The instruction that builds a struct instance in `set_ident` from the
/// values of its `n` fields, if every field has one.
pub open spec fn struct_instance(set_ident: u32, values: Map<usize, u32>, n: nat) -> Option<InstructionView> {
    if forall|f: usize| f < n ==> #[trigger] values.dom().contains(f) {
        Some(with_params(
            act(Parent::Var, VAR_CREATE_LIST),
            seq![slotless(ValueView::Ident(set_ident))] + Seq::new(n, |f: int| slotless(ValueView::Ident(values[f as usize]))),
        ))
    } else {
        None
    }
}

impl CodeGen {
    /// The parameter nodes of a call's argument list; fails at anything but
    /// nothing, a primary or a tuple.
    pub fn extract_parameter_vec(node: &Rc<Node>) -> (r: Result<Vec<Rc<Node>>, CodegenError>)
        ensures
            match parameter_nodes(*node) {
                Some(v) => r matches Ok(w) && w@ == v,
                None => r matches Err(e) && error_at(e, *node, ErrorRepr::ExpectedFunctionParamDeclaration),
            },
    {
        match &**node {
            Node::Empty => Ok(Vec::new()),
            Node::Primary(..) => {
                let mut v = Vec::new();
                v.push(node.clone());
                Ok(v)
            },
            Node::Tuple(node_children) => {
                let mut v: Vec<Rc<Node>> = Vec::new();
                for j in 0..node_children.len()
                    invariant
                        v@ == node_children@.take(j as int),
                {
                    v.push(node_children[j].clone());
                    proof {
                        assert(node_children@.take(j + 1) =~= node_children@.take(j as int).push(node_children@[j as int]));
                    }
                }
                proof {
                    assert(node_children@.take(node_children@.len() as int) =~= node_children@);
                }
                Ok(v)
            },
            _ => CodegenError::err(node.clone(), ErrorRepr::ExpectedFunctionParamDeclaration),
        }
    }

    /// The context of kind `filter` that a definition names; see
    /// [`definition_context`].
    pub fn extract_definition_context(&self, definition: &CodeDefinition, filter: ContextKind) -> (r: Result<usize, CodegenError>)
        requires
            match *definition {
                CodeDefinition::Context(c) => c < self.contexts@.len(),
                CodeDefinition::Multiple(v) => forall|j: int| 0 <= j < v@.len() ==> (#[trigger] v@[j] matches CodeDefinition::Context(c) ==> c < self.contexts@.len()),
                CodeDefinition::Field(_) => true,
            },
        ensures
            match definition_context(self.contexts@, *definition, filter) {
                Ok(c) => r == Ok::<usize, CodegenError>(c as usize),
                Err(source) => r matches Err(e) && e.token is None && e.source == source,
            },
            r matches Ok(c) ==> c < self.contexts@.len() && kind_matches(self.contexts@[c as int].context_type, filter),
    {
        proof {
            if let CodeDefinition::Multiple(v) = definition {
                lemma_first_context_of(self.contexts@, v@, filter);
            }
        }
        match definition {
            CodeDefinition::Context(context) => {
                if Self::kind_is(&self.contexts[*context].context_type, filter) {
                    Ok(*context)
                } else {
                    CodegenError::err_headless(ErrorRepr::UnexpectedContextType)
                }
            },
            CodeDefinition::Multiple(definitions) => {
                let mut j: usize = 0;
                let ghost all = definitions@;
                proof {
                    assert(all.skip(0) =~= all);
                }
                while j < definitions.len()
                    invariant
                        j <= all.len(),
                        all == definitions@,
                        *definition == CodeDefinition::Multiple(*definitions),
                        forall|k: int| 0 <= k < all.len() ==> (#[trigger] all[k] matches CodeDefinition::Context(c) ==> c < self.contexts@.len()),
                        first_context_of(self.contexts@, all, filter) == first_context_of(self.contexts@, all.skip(j as int), filter),
                    decreases all.len() - j,
                {
                    proof {
                        assert(all.skip(j as int).drop_first() =~= all.skip(j + 1));
                        assert(all.skip(j as int)[0] == all[j as int]);
                    }
                    if let CodeDefinition::Context(context) = &definitions[j] {
                        if Self::kind_is(&self.contexts[*context].context_type, filter) {
                            return Ok(*context);
                        }
                    }
                    j = j + 1;
                }
                CodegenError::err_headless(ErrorRepr::UnexpectedContextType)
            },
            _ => CodegenError::err_headless(ErrorRepr::ExpectedContext),
        }
    }

    /// Whether a context type is of the given kind.
    pub fn kind_is(t: &ContextType, k: ContextKind) -> (b: bool)
        ensures
            b == kind_matches(*t, k),
    {
        match k {
            ContextKind::Struct => matches!(t, ContextType::Struct),
            ContextKind::Function => matches!(t, ContextType::Function(..)),
            ContextKind::Domain => matches!(t, ContextType::Domain),
        }
    }

    /// The field a definition names; see [`definition_field`].
    pub fn extract_definition_field(&self, definition: &CodeDefinition) -> (r: Result<usize, CodegenError>)
        ensures
            match definition_field(*definition) {
                Some(f) => r == Ok::<usize, CodegenError>(f),
                None => r matches Err(e) && e.token is None && e.source == ErrorRepr::ExpectedField,
            },
    {
        match definition {
            CodeDefinition::Field(field) => Ok(*field),
            CodeDefinition::Multiple(definitions) => {
                let ghost all = definitions@;
                let mut j: usize = 0;
                proof {
                    assert(all.skip(0) =~= all);
                }
                while j < definitions.len()
                    invariant
                        j <= all.len(),
                        all == definitions@,
                        *definition == CodeDefinition::Multiple(*definitions),
                        first_field_of(all) == first_field_of(all.skip(j as int)),
                    decreases all.len() - j,
                {
                    proof {
                        assert(all.skip(j as int).drop_first() =~= all.skip(j + 1));
                        assert(all.skip(j as int)[0] == all[j as int]);
                    }
                    if let CodeDefinition::Field(field) = &definitions[j] {
                        return Ok(*field);
                    }
                    j = j + 1;
                }
                CodegenError::err_headless(ErrorRepr::ExpectedField)
            },
            _ => CodegenError::err_headless(ErrorRepr::ExpectedField),
        }
    }

    /// The struct a definition names.
    pub fn extract_definition_struct(&self, definition: &CodeDefinition) -> (r: Result<usize, CodegenError>)
        requires
            match *definition {
                CodeDefinition::Context(c) => c < self.contexts@.len(),
                CodeDefinition::Multiple(v) => forall|j: int| 0 <= j < v@.len() ==> (#[trigger] v@[j] matches CodeDefinition::Context(c) ==> c < self.contexts@.len()),
                CodeDefinition::Field(_) => true,
            },
        ensures
            match definition_context(self.contexts@, *definition, ContextKind::Struct) {
                Ok(c) => r == Ok::<usize, CodegenError>(c as usize),
                Err(source) => r matches Err(e) && e.token is None && e.source == source,
            },
    {
        let context = self.extract_definition_context(definition, ContextKind::Struct)?;
        if !matches!(self.contexts[context].context_type, ContextType::Struct) {
            return CodegenError::err_headless(ErrorRepr::ExpectedStruct);
        }
        Ok(context)
    }

    /// The domain a definition names.
    pub fn extract_definition_domain(&self, definition: &CodeDefinition) -> (r: Result<usize, CodegenError>)
        requires
            match *definition {
                CodeDefinition::Context(c) => c < self.contexts@.len(),
                CodeDefinition::Multiple(v) => forall|j: int| 0 <= j < v@.len() ==> (#[trigger] v@[j] matches CodeDefinition::Context(c) ==> c < self.contexts@.len()),
                CodeDefinition::Field(_) => true,
            },
        ensures
            match definition_context(self.contexts@, *definition, ContextKind::Domain) {
                Ok(c) => r == Ok::<usize, CodegenError>(c as usize),
                Err(source) => r matches Err(e) && e.token is None && e.source == source,
            },
    {
        let context = self.extract_definition_context(definition, ContextKind::Domain)?;
        if !matches!(self.contexts[context].context_type, ContextType::Domain) {
            return CodegenError::err_headless(ErrorRepr::ExpectedDomain);
        }
        Ok(context)
    }

    /// The function a definition names.
    pub fn extract_definition_function(&self, definition: &CodeDefinition) -> (r: Result<usize, CodegenError>)
        requires
            match *definition {
                CodeDefinition::Context(c) => c < self.contexts@.len(),
                CodeDefinition::Multiple(v) => forall|j: int| 0 <= j < v@.len() ==> (#[trigger] v@[j] matches CodeDefinition::Context(c) ==> c < self.contexts@.len()),
                CodeDefinition::Field(_) => true,
            },
        ensures
            match definition_context(self.contexts@, *definition, ContextKind::Function) {
                Ok(c) => r == Ok::<usize, CodegenError>(c as usize),
                Err(source) => r matches Err(e) && e.token is None && e.source == source,
            },
    {
        let context = self.extract_definition_context(definition, ContextKind::Function)?;
        if !matches!(self.contexts[context].context_type, ContextType::Function(..)) {
            return CodegenError::err_headless(ErrorRepr::ExpectedFunction);
        }
        Ok(context)
    }

    /// The run-time variable a name stands for seen from a context; see
    /// [`walk_variable`].
    pub fn find_variable_by_name_full(&self, context: usize, var_name: &str, node: &Rc<Node>) -> (r: Result<&RuntimeVariable, CodegenError>)
        requires
            context < self.runtime_vars@.len(),
            self.parents@.len() == self.runtime_vars@.len(),
            parents_ordered(self.parents@),
        ensures
            match walk_variable(self.runtime_vars@, self.parents@, context as nat, var_name@) {
                Some(v) => r == Ok::<&RuntimeVariable, CodegenError>(&v),
                None => r matches Err(e) && error_at(e, *node, ErrorRepr::InvalidVariableName),
            },
    {
        let mut current = context;
        loop
            invariant
                current < self.runtime_vars@.len(),
                self.parents@.len() == self.runtime_vars@.len(),
                parents_ordered(self.parents@),
                walk_variable(self.runtime_vars@, self.parents@, context as nat, var_name@)
                    == walk_variable(self.runtime_vars@, self.parents@, current as nat, var_name@),
            decreases current,
        {
            let vars = &self.runtime_vars[current];
            if let Some(pos) = str_position(vars, var_name) {
                return Ok(&vars[pos].1);
            }
            if current == 0 {
                return CodegenError::err(node.clone(), ErrorRepr::InvalidVariableName);
            }
            current = self.parents[current];
        }
    }

    /// The run-time variable a primary identifier names, seen from a context.
    pub fn find_variable_by_name(&self, context: usize, node: &Rc<Node>) -> (r: Result<&RuntimeVariable, CodegenError>)
        requires
            context < self.runtime_vars@.len(),
            self.parents@.len() == self.runtime_vars@.len(),
            parents_ordered(self.parents@),
        ensures
            match primary_ident(**node) {
                None => r matches Err(e) && error_at(e, *node, ErrorRepr::ExpectedVariableIdentifier),
                Some(name) => match walk_variable(self.runtime_vars@, self.parents@, context as nat, name) {
                    Some(v) => r == Ok::<&RuntimeVariable, CodegenError>(&v),
                    None => r matches Err(e) && error_at(e, *node, ErrorRepr::InvalidVariableName),
                },
            },
    {
        let var_name = Self::get_primary_as_ident(node, ErrorRepr::ExpectedVariableIdentifier)?;
        self.find_variable_by_name_full(context, var_name.as_str(), node)
    }

    /// The run-time variable a primary identifier names, seen from a context.
    pub fn find_variable_by_node(&self, context: usize, node: &Rc<Node>) -> (r: Result<&RuntimeVariable, CodegenError>)
        requires
            context < self.runtime_vars@.len(),
            self.parents@.len() == self.runtime_vars@.len(),
            parents_ordered(self.parents@),
        ensures
            match primary_ident(**node) {
                None => r matches Err(e) && error_at(e, *node, ErrorRepr::ExpectedVariableIdentifier),
                Some(name) => match walk_variable(self.runtime_vars@, self.parents@, context as nat, name) {
                    Some(v) => r == Ok::<&RuntimeVariable, CodegenError>(&v),
                    None => r matches Err(e) && error_at(e, *node, ErrorRepr::InvalidVariableName),
                },
            },
    {
        self.find_variable_by_name(context, node)
    }

    /// The name of a context.
    pub fn get_context_name(&self, context: usize) -> (r: &String)
        requires
            context < self.context_names@.len(),
        ensures
            *r == self.context_names@[context as int],
    {
        &self.context_names[context]
    }

    /// The full name of a context: its number and its path of names.
    pub fn get_context_full_name(&self, context: usize) -> (r: &String)
        requires
            context < self.context_full_names@.len(),
        ensures
            *r == self.context_full_names@[context as int],
    {
        &self.context_full_names[context]
    }

    /// The type of a context.
    pub fn get_context_type(&self, context: usize) -> (r: Result<ContextType, CodegenError>)
        requires
            context < self.contexts@.len(),
        ensures
            r == Ok::<ContextType, CodegenError>(self.contexts@[context as int].context_type),
    {
        Ok(self.contexts[context].context_type.clone())
    }

    /// Writes the instruction that gives `set_ident` the starting value of a
    /// type; fails for a type still named by its syntax.
    pub fn get_default_type_value(&mut self, field_type: &ValueType, set_ident: u32) -> (r: Result<(), CodegenError>)
        requires
            old(self).buffer.wf(),
            !(*field_type is Comptime),
            *field_type is Ident || default_value(*field_type, set_ident) is Some,
        ensures
            same_but_buffer(*final(self), *old(self)),
            final(self).buffer.wf(),
            match default_value(*field_type, set_ident) {
                Some(i) => r is Ok && final(self).buffer@ == (crate::codegen::buffer::BufferView {
                    code: old(self).buffer@.code.push(i),
                    ..old(self).buffer@
                }),
                None => r matches Err(e) && e.token is None && e.source == ErrorRepr::UnexpectedValueTypeIdent
                    && final(self).buffer@ == old(self).buffer@,
            },
    {
        let id = ParameterValue::Ident(set_ident);
        let mut values: Vec<ParameterValue> = Vec::new();
        values.push(id);
        let action = match field_type {
            ValueType::Ident(..) => {
                return CodegenError::err_headless(ErrorRepr::UnexpectedValueTypeIdent);
            },
            ValueType::Struct(..) => {
                values.push(ParameterValue::Int(0));
                Action { parent: Parent::Var, code: VAR_SET }
            },
            ValueType::Primitive(p) => match p {
                PrimitiveType::Bool | PrimitiveType::Number | PrimitiveType::Void => {
                    values.push(ParameterValue::Int(0));
                    Action { parent: Parent::Var, code: VAR_SET }
                },
                PrimitiveType::String => {
                    values.push(ParameterValue::String(String::new()));
                    Action { parent: Parent::Var, code: VAR_SET }
                },
                PrimitiveType::List(..) => Action { parent: Parent::Var, code: VAR_CREATE_LIST },
                PrimitiveType::Dict(..) => Action { parent: Parent::Var, code: VAR_CREATE_DICT },
                PrimitiveType::Vector => {
                    values.push(ParameterValue::Int(0));
                    values.push(ParameterValue::Int(0));
                    values.push(ParameterValue::Int(0));
                    Action { parent: Parent::Var, code: VAR_VECTOR }
                },
                PrimitiveType::Location => {
                    values.push(ParameterValue::Int(0));
                    values.push(ParameterValue::Int(0));
                    values.push(ParameterValue::Int(0));
                    values.push(ParameterValue::Int(0));
                    values.push(ParameterValue::Int(0));
                    Action { parent: Parent::Var, code: VAR_SET_ALL_COORDS }
                },
                _ => vstd::pervasive::unreached(),
            },
            ValueType::Comptime(..) => vstd::pervasive::unreached(),
        };
        let instruction = instruction_of(action, values);
        proof {
            assert(instruction@ =~= default_value(*field_type, set_ident).unwrap());
        }
        self.buffer.push_code(instruction);
        Ok(())
    }

    /// Writes the instruction that builds a struct instance in `set_ident`
    /// from the values of its fields; fails at `node` when a field has no
    /// value.
    pub fn create_struct_instance(&mut self, node: &Rc<Node>, struct_type: usize, set_ident: u32, field_map: &Vec<(usize, u32)>) -> (r: Result<(), CodegenError>)
        requires
            old(self).buffer.wf(),
            struct_type < old(self).contexts@.len(),
        ensures
            same_but_buffer(*final(self), *old(self)),
            final(self).buffer.wf(),
            match struct_instance(set_ident, crate::table::keyed(field_map@), old(self).contexts@[struct_type as int].fields@.len()) {
                Some(i) => r is Ok && final(self).buffer@ == (crate::codegen::buffer::BufferView {
                    code: old(self).buffer@.code.push(i),
                    ..old(self).buffer@
                }),
                None => r matches Err(e) && error_at(e, *node, ErrorRepr::ConstructFieldsMissing)
                    && final(self).buffer@ == old(self).buffer@,
            },
    {
        let ghost values = crate::table::keyed(field_map@);
        let mut instruction_push = Instruction::new(Action { parent: Parent::Var, code: VAR_CREATE_LIST });
        instruction_push.push_param(Parameter::from_ident(set_ident));
        let fields_len = self.contexts[struct_type].fields.len();
        for field_id in 0..fields_len
            invariant
                fields_len == self.contexts@[struct_type as int].fields@.len(),
                struct_type < self.contexts@.len(),
                *self == *old(self),
                self.buffer.wf(),
                values == crate::table::keyed(field_map@),
                forall|f: usize| f < field_id ==> #[trigger] values.dom().contains(f),
                instruction_push@ == with_params(
                    act(Parent::Var, VAR_CREATE_LIST),
                    seq![slotless(ValueView::Ident(set_ident))] + Seq::new(field_id as nat, |f: int| slotless(ValueView::Ident(values[f as usize]))),
                ),
        {
            match crate::table::usize_get(field_map, field_id) {
                Some(ident) => {
                    let ghost before = instruction_push@;
                    instruction_push.push_param(Parameter::from_ident(ident));
                    proof {
                        assert(instruction_push@.params =~= seq![slotless(ValueView::Ident(set_ident))] + Seq::new(
                            (field_id + 1) as nat,
                            |f: int| slotless(ValueView::Ident(values[f as usize])),
                        ));
                    }
                },
                None => {
                    proof {
                        assert(!values.dom().contains(field_id));
                    }
                    return CodegenError::err(node.clone(), ErrorRepr::ConstructFieldsMissing);
                },
            }
        }
        self.buffer.push_code(instruction_push);
        Ok(())
    }

    /// Writes the instruction that reads the part `crumb` of
    /// `accesed_ident` into `value_ident`.
    pub fn get_crumb(&mut self, crumb: CodegenTraceCrumbIdent, value_ident: u32, accesed_ident: u32)
        requires
            old(self).buffer.wf(),
        ensures
            same_but_buffer(*final(self), *old(self)),
            final(self).buffer.wf(),
            final(self).buffer@ == (crate::codegen::buffer::BufferView {
                code: old(self).buffer@.code.push(get_crumb_instr(crumb, value_ident, accesed_ident)),
                ..old(self).buffer@
            }),
    {
        let i = match crumb {
            CodegenTraceCrumbIdent::IndexDirect(index) => {
                let mut i = Instruction::new(Action { parent: Parent::Var, code: VAR_GET_LIST_VALUE });
                i.push_param(Parameter::from_ident(value_ident));
                i.push_param(Parameter::from_ident(accesed_ident));
                i.push_param(Parameter::from_value(ParameterValue::Int(index as i64)));
                proof {
                    assert(i@ =~= get_crumb_instr(crumb, value_ident, accesed_ident));
                }
                i
            },
            CodegenTraceCrumbIdent::Index(ident) => {
                let mut i = Instruction::new(Action { parent: Parent::Var, code: VAR_GET_LIST_VALUE });
                i.push_param(Parameter::from_ident(value_ident));
                i.push_param(Parameter::from_ident(accesed_ident));
                i.push_param(Parameter::from_ident(ident));
                proof {
                    assert(i@ =~= get_crumb_instr(crumb, value_ident, accesed_ident));
                }
                i
            },
            CodegenTraceCrumbIdent::Entry(ident) => {
                let mut i = Instruction::new(Action { parent: Parent::Var, code: VAR_GET_DICT_VALUE });
                i.push_param(Parameter::from_ident(value_ident));
                i.push_param(Parameter::from_ident(accesed_ident));
                i.push_param(Parameter::from_ident(ident));
                proof {
                    assert(i@ =~= get_crumb_instr(crumb, value_ident, accesed_ident));
                }
                i
            },
            CodegenTraceCrumbIdent::Location(coord) => {
                let mut i = Instruction::new(Action { parent: Parent::Var, code: VAR_GET_COORD });
                i.push_param(Parameter::from_ident(value_ident));
                i.push_param(Parameter::from_ident(accesed_ident));
                i.push_tag(Tag::Coordinate(Self::coordinate(coord)));
                proof {
                    assert(i@ =~= get_crumb_instr(crumb, value_ident, accesed_ident));
                }
                i
            },
            CodegenTraceCrumbIdent::Vector(coord) => {
                let mut i = Instruction::new(Action { parent: Parent::Var, code: VAR_GET_VECTOR_COMP });
                i.push_param(Parameter::from_ident(value_ident));
                i.push_param(Parameter::from_ident(accesed_ident));
                i.push_tag(Tag::Component(Self::component(coord)));
                proof {
                    assert(i@ =~= get_crumb_instr(crumb, value_ident, accesed_ident));
                }
                i
            },
        };
        self.buffer.push_code(i);
    }

    /// Writes the instruction that writes `value_ident` into the part
    /// `crumb` of `accessed_ident`.
    pub fn set_crumb(&mut self, crumb: CodegenTraceCrumbIdent, value_ident: u32, accessed_ident: u32)
        requires
            old(self).buffer.wf(),
        ensures
            same_but_buffer(*final(self), *old(self)),
            final(self).buffer.wf(),
            final(self).buffer@ == (crate::codegen::buffer::BufferView {
                code: old(self).buffer@.code.push(set_crumb_instr(crumb, value_ident, accessed_ident)),
                ..old(self).buffer@
            }),
    {
        let i = match crumb {
            CodegenTraceCrumbIdent::IndexDirect(index) => {
                let mut i = Instruction::new(Action { parent: Parent::Var, code: VAR_SET_LIST_VALUE });
                i.push_param(Parameter::from_ident(accessed_ident));
                i.push_param(Parameter::from_value(ParameterValue::Int(index as i64)));
                i.push_param(Parameter::from_ident(value_ident));
                proof {
                    assert(i@ =~= set_crumb_instr(crumb, value_ident, accessed_ident));
                }
                i
            },
            CodegenTraceCrumbIdent::Index(ident) => {
                let mut i = Instruction::new(Action { parent: Parent::Var, code: VAR_SET_LIST_VALUE });
                i.push_param(Parameter::from_ident(accessed_ident));
                i.push_param(Parameter::from_ident(ident));
                i.push_param(Parameter::from_ident(value_ident));
                proof {
                    assert(i@ =~= set_crumb_instr(crumb, value_ident, accessed_ident));
                }
                i
            },
            CodegenTraceCrumbIdent::Entry(ident) => {
                let mut i = Instruction::new(Action { parent: Parent::Var, code: VAR_SET_DICT_VALUE });
                i.push_param(Parameter::from_ident(accessed_ident));
                i.push_param(Parameter::from_ident(ident));
                i.push_param(Parameter::from_ident(value_ident));
                proof {
                    assert(i@ =~= set_crumb_instr(crumb, value_ident, accessed_ident));
                }
                i
            },
            CodegenTraceCrumbIdent::Location(coord) => {
                let mut i = Instruction::new(Action { parent: Parent::Var, code: VAR_SET_COORD });
                i.push_param(Parameter::from_ident(accessed_ident));
                i.push_param(Parameter::from_ident(accessed_ident));
                i.push_param(Parameter::from_ident(value_ident));
                i.push_tag(Tag::Coordinate(Self::coordinate(coord)));
                proof {
                    assert(i@ =~= set_crumb_instr(crumb, value_ident, accessed_ident));
                }
                i
            },
            CodegenTraceCrumbIdent::Vector(coord) => {
                let mut i = Instruction::new(Action { parent: Parent::Var, code: VAR_SET_VECTOR_COMP });
                i.push_param(Parameter::from_ident(accessed_ident));
                i.push_param(Parameter::from_ident(accessed_ident));
                i.push_param(Parameter::from_ident(value_ident));
                i.push_tag(Tag::Component(Self::component(coord)));
                proof {
                    assert(i@ =~= set_crumb_instr(crumb, value_ident, accessed_ident));
                }
                i
            },
        };
        self.buffer.push_code(i);
    }

    /// The tag coordinate of a location coordinate.
    fn coordinate(c: CodegenLocationCoordinate) -> (r: Coordinate)
        ensures
            r == coordinate_of(c),
    {
        match c {
            CodegenLocationCoordinate::X => Coordinate::X,
            CodegenLocationCoordinate::Y => Coordinate::Y,
            CodegenLocationCoordinate::Z => Coordinate::Z,
            CodegenLocationCoordinate::Pitch => Coordinate::Pitch,
            CodegenLocationCoordinate::Yaw => Coordinate::Yaw,
        }
    }

    /// The tag coordinate of a vector component.
    fn component(c: CodegenVectorCoordinate) -> (r: Coordinate)
        ensures
            r == component_of(c),
    {
        match c {
            CodegenVectorCoordinate::X => Coordinate::X,
            CodegenVectorCoordinate::Y => Coordinate::Y,
            CodegenVectorCoordinate::Z => Coordinate::Z,
        }
    }
}


/// The full name of a context: `__`, its number, `#`, then its name for a
/// root, or else its parent's path (after the parent's `#`), `.` and its
/// name.
pub open spec fn full_name(id: usize, parent_id: usize, parent_full: Seq<char>, name: Seq<char>) -> Seq<char> {
    let head = seq!['_', '_'] + decimal(id as nat) + seq!['#'];
    if parent_id == id {
        head + name
    } else {
        head + parent_full.skip((position_of(parent_full, '#') + 1) as int) + seq!['.'] + name
    }
}

/// Whether a statement of a block of the given kind is kept as code of
/// the block, rather than declaring something.
pub open spec fn is_plain(n: Node, t: ContextType) -> bool {
    match t {
        ContextType::Function(_) => !(n is Struct || n is Func || n is Domain),
        ContextType::Struct => false,
        ContextType::Domain => !(n is Func || n is Struct || n is Declaration || n is Domain),
    }
}

/// The error a statement of an outline fails with by its kind alone, where
/// it cannot stand in a context of type `t`: a struct, function or domain
/// inside a function, a domain inside a struct, or code other than field
/// declarations inside a struct.
pub open spec fn misplaced(n: Node, t: ContextType) -> Option<ErrorRepr> {
    match n {
        Node::Struct(..) => if t is Function { Some(ErrorRepr::StructNestedInFunction) } else { None },
        Node::Func(..) => if t is Function { Some(ErrorRepr::FunctionNestedInFunction) } else { None },
        Node::Domain(..) => if t is Function {
            Some(ErrorRepr::DomainNestedInFunction)
        } else if t is Struct {
            Some(ErrorRepr::DomainNestedInStruct)
        } else {
            None
        },
        Node::Declaration(..) => None,
        _ => if t is Struct { Some(ErrorRepr::UnstructuredStructCode) } else { None },
    }
}

/// The name a statement declares as a field, in a struct or a domain.
pub open spec fn field_declared(n: Node, t: ContextType) -> Option<Seq<char>> {
    if t is Struct || t is Domain {
        match n {
            Node::Declaration(_, name) => primary_ident(*name),
            _ => None,
        }
    } else {
        None
    }
}

/// The fields that the statements of a struct or a domain declare, in
/// order: one of the named type per declaration; none in other contexts.
pub open spec fn declared_fields(v: Seq<Rc<Node>>, t: ContextType) -> Seq<Field>
    decreases v.len(),
{
    if v.len() == 0 {
        Seq::empty()
    } else {
        let rest = declared_fields(v.drop_last(), t);
        match *v.last() {
            Node::Declaration(ty, _) => if t is Struct || t is Domain {
                rest.push(Field { field_type: ValueType::Ident(ty), scope: CodeScope::Public })
            } else {
                rest
            },
            _ => rest,
        }
    }
}

/// The names of the fields that the statements of a struct or a domain
/// declare, in order; none in other contexts.
pub open spec fn declared_names(v: Seq<Rc<Node>>, t: ContextType) -> Seq<Seq<char>>
    decreases v.len(),
{
    if v.len() == 0 {
        Seq::empty()
    } else {
        let rest = declared_names(v.drop_last(), t);
        match field_declared(*v.last(), t) {
            Some(x) => rest.push(x),
            None => rest,
        }
    }
}

/// The texts of a list of names.
pub open spec fn name_texts(v: Seq<String>) -> Seq<Seq<char>> {
    v.map_values(|s: String| s@)
}

/// Whether a list of names holds `x`.
pub open spec fn has_name(v: Seq<String>, x: Seq<char>) -> bool {
    exists|j: int| 0 <= j < v.len() && (#[trigger] v[j])@ == x
}

/// Whether no two of the first `upto` statements of a block declare the
/// same field.
pub open spec fn fields_distinct(v: Seq<Rc<Node>>, t: ContextType, upto: int) -> bool {
    forall|a: int, b: int|
        0 <= a < b < upto && (#[trigger] field_declared(*v[a], t)) is Some ==> #[trigger] field_declared(*v[b], t)
            != field_declared(*v[a], t)
}

/// Whether a block scans without error as the body of a context of type
/// `t`: each statement stands where it may, names what it declares with an
/// identifier, and has a well-formed block of its own; no field is declared
/// twice.
pub open spec fn outline_ok(n: Node, t: ContextType) -> bool
    decreases n, 2nat,
{
    match n {
        Node::Block(v) => statements_ok(v@, t) && fields_distinct(v@, t, v@.len() as int),
        _ => false,
    }
}

/// Whether every statement of a sequence scans without error.
pub open spec fn statements_ok(s: Seq<Rc<Node>>, t: ContextType) -> bool
    decreases s, 1nat,
{
    if s.len() == 0 {
        true
    } else {
        statement_ok(*s[0], t) && statements_ok(s.drop_first(), t)
    }
}

/// Whether one statement scans without error in a context of type `t`.
pub open spec fn statement_ok(n: Node, t: ContextType) -> bool
    decreases n, 0nat,
{
    &&& misplaced(n, t) is None
    &&& match n {
        Node::Struct(i, b) => primary_ident(*i) is Some && outline_ok(*b, ContextType::Struct),
        Node::Func(i, p, r, b) => primary_ident(*i) is Some && (declarations(*p) matches Some(d) && forall|j: int|
            0 <= j < d.len() ==> primary_ident(*(#[trigger] d[j]).1) is Some) && outline_ok(
            *b,
            ContextType::Function(ValueType::Ident(r)),
        ),
        Node::Domain(i, b) => primary_ident(*i) is Some && outline_ok(*b, ContextType::Domain),
        Node::Declaration(_, name) => (t is Struct || t is Domain) ==> primary_ident(*name) is Some,
        _ => true,
    }
}

/// [`statements_ok`] holds exactly when each statement scans.
pub proof fn lemma_statements_ok(s: Seq<Rc<Node>>, t: ContextType)
    ensures
        statements_ok(s, t) <==> forall|k: int| 0 <= k < s.len() ==> statement_ok(*#[trigger] s[k], t),
    decreases s.len(),
{
    if s.len() > 0 {
        lemma_statements_ok(s.drop_first(), t);
        if forall|k: int| 0 <= k < s.len() ==> statement_ok(*#[trigger] s[k], t) {
            assert forall|k: int| 0 <= k < s.drop_first().len() implies statement_ok(*#[trigger] s.drop_first()[k], t) by {
                assert(s.drop_first()[k] == s[k + 1]);
            }
        }
        if statements_ok(s, t) {
            assert forall|k: int| 0 <= k < s.len() implies statement_ok(*#[trigger] s[k], t) by {
                if k > 0 {
                    assert(s[k] == s.drop_first()[k - 1]);
                }
            }
        }
    }
}

/// Whether the first `k` statements of a block scan without error and
/// declare no field twice.
pub open spec fn prefix_ok(v: Seq<Rc<Node>>, t: ContextType, k: int) -> bool {
    &&& forall|i: int| 0 <= i < k ==> statement_ok(*#[trigger] v[i], t)
    &&& fields_distinct(v, t, k)
}

/// [`declarations`] of a node behind a reference.
pub open spec fn declarations_of(n: &Rc<Node>) -> Option<Seq<(Rc<Node>, Rc<Node>)>> {
    declarations(**n)
}

/// [`statement_ok`] of a node behind a reference.
pub open spec fn statement_ok_of(n: &Rc<Node>, t: &ContextType) -> bool {
    statement_ok(**n, *t)
}

/// The field the statement at `j` declares.
pub open spec fn declared_at(s: Seq<Rc<Node>>, j: int, t: ContextType) -> Option<Seq<char>> {
    field_declared(*s[j], t)
}

/// A pair of references to nodes, as the pair of nodes.
pub open spec fn pair_of(p: (&Rc<Node>, &Rc<Node>)) -> (Rc<Node>, Rc<Node>) {
    (*p.0, *p.1)
}

/// The statements of a block kept as its code, in order.
pub open spec fn plain_of(v: Seq<Rc<Node>>, t: ContextType) -> Seq<Rc<Node>>
    decreases v.len(),
{
    if v.len() == 0 {
        Seq::empty()
    } else if is_plain(*v.last(), t) {
        plain_of(v.drop_last(), t).push(v.last())
    } else {
        plain_of(v.drop_last(), t)
    }
}

/// The tables of the compiler have one entry per context, each full name
/// has a `#` after its leading `__`, and the contexts form a tree.
pub open spec fn tables_ok(g: CodeGen) -> bool {
    let n = g.current_id as int;
    &&& g.contexts@.len() == n
    &&& g.parents@.len() == n
    &&& g.runtime_vars@.len() == n
    &&& g.domain_vars@.len() == n
    &&& g.return_runtimes@.len() == n
    &&& g.field_names@.len() == n
    &&& g.context_names@.len() == n
    &&& g.context_full_names@.len() == n
    &&& forall|i: int| 0 <= i < n ==> #[trigger] g.parents@[i] == g.contexts@[i].parent_id
    &&& forall|i: int| 0 <= i < n ==> {
        &&& (#[trigger] g.context_full_names@[i])@.len() >= 2
        &&& position_of(g.context_full_names@[i]@, '#') < g.context_full_names@[i]@.len()
    }
    &&& contexts_wf(g.contexts@)
    &&& g.buffer.wf()
}

impl CodeGen {
    /// The full name of a new context.
    fn make_full_name(&self, current_id: usize, parent_id: usize, context_name: &str) -> (r: String)
        requires
            tables_ok(*self),
            parent_id < self.current_id || parent_id == current_id,
        ensures
            parent_id != current_id ==> r@ == full_name(current_id, parent_id, self.context_full_names@[parent_id as int]@, context_name@),
            parent_id == current_id ==> r@ == full_name(current_id, parent_id, Seq::empty(), context_name@),
            r@.len() >= 2,
            position_of(r@, '#') < r@.len(),
    {
        let mut name = String::new();
        push_char(&mut name, '_');
        push_char(&mut name, '_');
        let digits = u64_decimal(current_id as u64);
        name.append(digits.as_str());
        push_char(&mut name, '#');
        let ghost head = name@;
        proof {
            assert(head =~= seq!['_', '_'] + decimal(current_id as nat) + seq!['#']);
            lemma_position_head(current_id as nat);
        }
        if parent_id == current_id {
            name.append(context_name);
        } else {
            let parent_full = &self.context_full_names[parent_id];
            let hash = find_char(parent_full.as_str(), '#');
            let at = match hash {
                Some(i) => i,
                None => {
                    proof {
                        assert(false);
                    }
                    0
                },
            };
            let len = parent_full.as_str().unicode_len();
            proof {
                assert(at < len);
            }
            let rest = chars_from(parent_full.as_str(), at + 1);
            name.append(rest.as_str());
            push_char(&mut name, '.');
            name.append(context_name);
        }
        proof {
            lemma_position_prefix(head, name@.skip(head.len() as int));
            assert(head + name@.skip(head.len() as int) =~= name@);
        }
        name
    }
}

/// A decimal rendering holds no `#`.
proof fn lemma_decimal_no_hash(n: nat)
    ensures
        forall|i: int| 0 <= i < decimal(n).len() ==> #[trigger] decimal(n)[i] != '#',
    decreases n,
{
    if n >= 10 {
        lemma_decimal_no_hash(n / 10);
        assert forall|i: int| 0 <= i < decimal(n).len() implies #[trigger] decimal(n)[i] != '#' by {
            if i < decimal(n / 10).len() {
                assert(decimal(n)[i] == decimal(n / 10)[i]);
            }
        }
    }
}

/// Where `a` holds no `#`, the first `#` of `a + b` is the first of `b`,
/// past `a`.
proof fn lemma_position_no_hash(a: Seq<char>, b: Seq<char>)
    requires
        forall|i: int| 0 <= i < a.len() ==> #[trigger] a[i] != '#',
    ensures
        position_of(a + b, '#') == a.len() + position_of(b, '#'),
    decreases a.len(),
{
    if a.len() > 0 {
        assert((a + b).drop_first() =~= a.drop_first() + b);
        assert forall|i: int| 0 <= i < a.drop_first().len() implies #[trigger] a.drop_first()[i] != '#' by {
            assert(a.drop_first()[i] == a[i + 1]);
        }
        lemma_position_no_hash(a.drop_first(), b);
    }
}

/// In `__`, the decimal digits of `n` and `#`, the first `#` is the last
/// character.
proof fn lemma_position_head(n: nat)
    ensures
        position_of(seq!['_', '_'] + decimal(n) + seq!['#'], '#') == decimal(n).len() + 2,
{
    lemma_decimal_no_hash(n);
    let a = seq!['_', '_'] + decimal(n);
    assert forall|i: int| 0 <= i < a.len() implies #[trigger] a[i] != '#' by {
        if i >= 2 {
            assert(a[i] == decimal(n)[i - 2]);
        }
    }
    lemma_position_no_hash(a, seq!['#']);
}

/// The first `#` of a string that starts with a prefix holding one is the
/// prefix's.
proof fn lemma_position_prefix(head: Seq<char>, rest: Seq<char>)
    requires
        position_of(head, '#') < head.len(),
    ensures
        position_of(head + rest, '#') == position_of(head, '#'),
    decreases head.len(),
{
    if head[0] != '#' {
        lemma_position_prefix(head.drop_first(), rest);
        assert((head + rest).drop_first() =~= head.drop_first() + rest);
    }
}

/// A definition added to a context whose definitions are in range keeps
/// them in range.
proof fn lemma_add_in_range(before: Context, after: Context, ident: Seq<char>, definition: CodeDefinition, n: nat)
    requires
        defs_in_range(before, n),
        before.fields@.len() <= after.fields@.len(),
        def_in_range(definition, n, after.fields@.len()),
        !(definition is Multiple),
        defs(after).dom() == defs(before).dom().insert(ident),
        forall|k: Seq<char>| k != ident && #[trigger] defs(before).dom().contains(k) ==> defs(after)[k] == defs(before)[k],
        !defs(before).dom().contains(ident) ==> defs(after)[ident] == definition,
        defs(before).dom().contains(ident) ==> (defs(after)[ident] matches CodeDefinition::Multiple(v)
            && v@ == match defs(before)[ident] {
                CodeDefinition::Multiple(w) => w@.push(definition),
                other => seq![other, definition],
            }),
    ensures
        defs_in_range(after, n),
{
    assert forall|k: Seq<char>| #[trigger] defs(after).dom().contains(k) implies def_in_range(defs(after)[k], n, after.fields@.len()) by {
        if k != ident {
            assert(def_in_range(defs(before)[k], n, before.fields@.len()));
        } else if defs(before).dom().contains(ident) {
            assert(def_in_range(defs(before)[k], n, before.fields@.len()));
            if let CodeDefinition::Multiple(v) = defs(after)[ident] {
                match defs(before)[ident] {
                    CodeDefinition::Multiple(w) => {
                        assert forall|j: int| 0 <= j < v@.len() implies match #[trigger] v@[j] {
                            CodeDefinition::Context(i) => i < n,
                            CodeDefinition::Field(f) => f < after.fields@.len(),
                            _ => true,
                        } by {
                            if j < w@.len() {
                                assert(v@[j] == w@[j]);
                            }
                        }
                    },
                    other => {
                        assert forall|j: int| 0 <= j < v@.len() implies match #[trigger] v@[j] {
                            CodeDefinition::Context(i) => i < n,
                            CodeDefinition::Field(f) => f < after.fields@.len(),
                            _ => true,
                        } by {
                            if j == 0 {
                                assert(v@[j] == other);
                            }
                        }
                    },
                }
            }
        }
    }
}

impl CodeGen {
    /// Declares a field of a context: its name defines the next field.
    fn declare_field(current: &mut Context, name: String, field_type: Rc<Node>, Ghost(n): Ghost<nat>)
        requires
            defs_in_range(*old(current), n),
        ensures
            defs_in_range(*final(current), n),
            final(current).fields@ == old(current).fields@.push(Field {
                field_type: ValueType::Ident(field_type),
                scope: CodeScope::Public,
            }),
            final(current).context_type == old(current).context_type,
            final(current).parent_id == old(current).parent_id,
            final(current).id == old(current).id,
            final(current).depth == old(current).depth,
            final(current).body == old(current).body,
            final(current).scope == old(current).scope,
            final(current).children == old(current).children,
            defs(*final(current)).dom() == defs(*old(current)).dom().insert(name@),
    {
        let ghost before = *current;
        let field_id = current.fields.len();
        let _ = Self::add_definition(current, name, CodeDefinition::Field(field_id));
        current.fields.push(Field { field_type: ValueType::Ident(field_type), scope: CodeScope::Public });
        proof {
            lemma_add_in_range(before, *current, name@, CodeDefinition::Field(field_id), n);
        }
    }

    /// Declares a nested context of a context under a name.
    fn declare_context(current: &mut Context, name: String, child: usize, Ghost(n): Ghost<nat>)
        requires
            defs_in_range(*old(current), n),
            child < n,
        ensures
            defs_in_range(*final(current), n),
            final(current).fields == old(current).fields,
            final(current).context_type == old(current).context_type,
            final(current).parent_id == old(current).parent_id,
            final(current).id == old(current).id,
            final(current).depth == old(current).depth,
            final(current).body == old(current).body,
            final(current).scope == old(current).scope,
            final(current).children@ == old(current).children@.push(child),
            defs(*final(current)).dom() == defs(*old(current)).dom().insert(name@),
    {
        let ghost before = *current;
        let _ = Self::add_definition(current, name, CodeDefinition::Context(child));
        current.children.push(child);
        proof {
            lemma_add_in_range(before, *current, name@, CodeDefinition::Context(child), n);
        }
    }
}

/// The entries of the first `n` contexts are as they were.
pub open spec fn kept_before(o: CodeGen, f: CodeGen, n: int) -> bool {
    forall|i: int| 0 <= i < n ==> {
        &&& #[trigger] f.contexts@[i] == o.contexts@[i]
        &&& f.parents@[i] == o.parents@[i]
        &&& f.runtime_vars@[i] == o.runtime_vars@[i]
        &&& f.domain_vars@[i] == o.domain_vars@[i]
        &&& f.return_runtimes@[i] == o.return_runtimes@[i]
        &&& f.field_names@[i] == o.field_names@[i]
        &&& f.context_names@[i] == o.context_names@[i]
        &&& f.context_full_names@[i] == o.context_full_names@[i]
    }
}

/// Keeping the first `m` contexts, then the first `n <= m`, keeps the
/// first `n`.
proof fn lemma_kept_before_trans(a: CodeGen, b: CodeGen, c: CodeGen, n: int, m: int)
    requires
        kept_before(a, b, n),
        kept_before(b, c, m),
        n <= m,
    ensures
        kept_before(a, c, n),
{
    assert forall|i: int| 0 <= i < n implies {
        &&& #[trigger] c.contexts@[i] == a.contexts@[i]
        &&& c.parents@[i] == a.parents@[i]
        &&& c.runtime_vars@[i] == a.runtime_vars@[i]
        &&& c.domain_vars@[i] == a.domain_vars@[i]
        &&& c.return_runtimes@[i] == a.return_runtimes@[i]
        &&& c.field_names@[i] == a.field_names@[i]
        &&& c.context_names@[i] == a.context_names@[i]
        &&& c.context_full_names@[i] == a.context_full_names@[i]
    } by {
        assert(b.contexts@[i] == a.contexts@[i]);
        assert(c.contexts@[i] == b.contexts@[i]);
    }
}

/// Every domain has a global variable for each of its fields.
pub open spec fn domains_ok(g: CodeGen) -> bool {
    forall|i: int| 0 <= i < g.contexts@.len() && i < g.domain_vars@.len()
        && (#[trigger] g.contexts@[i]).context_type is Domain
        ==> g.contexts@[i].fields@.len() <= g.domain_vars@[i]@.len()
}

/// Every context a field, a function's return, a run-time variable or a
/// domain variable names by its type exists.
pub open spec fn types_ok(g: CodeGen) -> bool {
    let n = g.contexts@.len();
    &&& forall|c: int, j: int| 0 <= c < n && 0 <= j < g.contexts@[c].fields@.len()
        ==> type_ids_ok(#[trigger] g.contexts@[c].fields@[j].field_type, n)
    &&& forall|c: int| 0 <= c < n ==> (#[trigger] g.contexts@[c].context_type matches ContextType::Function(t)
        ==> type_ids_ok(t, n))
    &&& forall|c: int, j: int| 0 <= c < n && c < g.runtime_vars@.len() && 0 <= j < g.runtime_vars@[c]@.len()
        ==> type_ids_ok(#[trigger] g.runtime_vars@[c]@[j].1.variable.value_type, n)
    &&& forall|c: int, j: int| 0 <= c < n && c < g.domain_vars@.len() && 0 <= j < g.domain_vars@[c]@.len()
        ==> type_ids_ok(#[trigger] g.domain_vars@[c]@[j].variable.value_type, n)
}

/// Every function has a name for each of its parameters.
pub open spec fn fnames_ok(g: CodeGen) -> bool {
    forall|c: int| 0 <= c < g.contexts@.len() && c < g.field_names@.len()
        && (#[trigger] g.contexts@[c]).context_type is Function
        ==> g.contexts@[c].fields@.len() <= g.field_names@[c]@.len()
}

/// Scanning used no more than `size` of each counter.
pub open spec fn within(o: CodeGen, f: CodeGen, size: nat) -> bool {
    &&& o.current_id <= f.current_id <= o.current_id + size
    &&& o.run <= f.run <= o.run + size
    &&& f.buffer@.ident_count <= o.buffer@.ident_count + size
    &&& f.buffer@.registers == o.buffer@.registers
    &&& f.buffer@.group_count == o.buffer@.group_count
}

/// The counters leave room for scanning a tree of `size` nodes at `depth`.
pub open spec fn room_for(g: CodeGen, depth: u32, size: nat) -> bool {
    &&& g.run + size <= usize::MAX
    &&& g.current_id + size <= usize::MAX
    &&& depth + size <= u32::MAX
    &&& g.buffer@.ident_count + size <= u32::MAX
}

/// Whether a list of names holds `name`.
fn contains_name(v: &Vec<String>, name: &str) -> (r: bool)
    ensures
        r == exists|j: int| 0 <= j < v@.len() && (#[trigger] v@[j])@ == name@,
{
    for j in 0..v.len()
        invariant
            forall|k: int| 0 <= k < j ==> (#[trigger] v@[k])@ != name@,
    {
        if str_eq(v[j].as_str(), name) {
            return true;
        }
    }
    false
}

/// The size of a sequence counts its first item and the rest.
proof fn lemma_seq_size_skip(s: Seq<Rc<Node>>, j: int)
    requires
        0 <= j < s.len(),
    ensures
        seq_size(s.skip(j)) == node_size(*s[j]) + seq_size(s.skip(j + 1)),
{
    assert(s.skip(j)[0] == s[j]);
    assert(s.skip(j).drop_first() =~= s.skip(j + 1));
}

impl CodeGen {
    /// Scans one statement of a block of the given kind into the block's
    /// context, its code, its field names and its domain variables.
    fn scan_statement(
        &mut self,
        node: &Rc<Node>,
        current: &mut Context,
        body: &mut Vec<Rc<Node>>,
        field_names: &mut Vec<String>,
        declared: &mut Vec<String>,
        domain_vars: &mut Vec<RuntimeVariable>,
        context_type: &ContextType,
        child_depth: u32,
        current_id: usize,
    ) -> (r: Result<(), CodegenError>)
        requires
            tables_ok(*old(self)),
            current_id < old(self).current_id,
            old(current).id == current_id,
            old(current).parent_id <= current_id,
            old(current).context_type == *context_type,
            defs_in_range(*old(current), old(self).contexts@.len()),
            room_for(*old(self), child_depth, node_size(**node)),
            domains_ok(*old(self)),
            parents_ordered(old(self).parents@),
            types_ok(*old(self)),
            fnames_ok(*old(self)),
            forall|j: int| 0 <= j < old(current).fields@.len() ==> (#[trigger] old(current).fields@[j]).field_type is Ident,
            forall|j: int| 0 <= j < old(domain_vars)@.len() ==> (#[trigger] old(domain_vars)@[j]).variable.value_type is Ident,
        ensures
            tables_ok(*final(self)),
            r is Ok ==> domains_ok(*final(self)),
            r is Ok ==> types_ok(*final(self)),
            r is Ok ==> fnames_ok(*final(self)),
            *context_type is Function ==> final(current).fields@.len() == old(current).fields@.len(),
            *context_type is Function ==> final(field_names)@.len() == old(field_names)@.len(),
            parents_ordered(final(self).parents@),
            forall|j: int| 0 <= j < final(current).fields@.len() ==> (#[trigger] final(current).fields@[j]).field_type is Ident,
            forall|j: int| 0 <= j < final(domain_vars)@.len() ==> (#[trigger] final(domain_vars)@[j]).variable.value_type is Ident,
            (*context_type is Domain && old(current).fields@.len() <= old(domain_vars)@.len())
                ==> final(current).fields@.len() <= final(domain_vars)@.len(),
            kept_before(*old(self), *final(self), old(self).current_id as int),
            within(*old(self), *final(self), node_size(**node)),
            final(current).id == old(current).id,
            final(current).parent_id == old(current).parent_id,
            final(current).context_type == old(current).context_type,
            final(current).depth == old(current).depth,
            final(current).scope == old(current).scope,
            final(current).body == old(current).body,
            defs_in_range(*final(current), final(self).contexts@.len()),
            r is Ok ==> final(body)@ == (if is_plain(**node, *context_type) {
                old(body)@.push(*node)
            } else {
                old(body)@
            }),
            misplaced(**node, *context_type) matches Some(k) ==> (r matches Err(e) && error_at(e, *node, k)),
            r is Ok ==> forall|x: Seq<char>| #[trigger] has_name(old(declared)@, x) ==> has_name(final(declared)@, x),
            r is Ok ==> (field_declared(**node, *context_type) matches Some(x) ==> !has_name(old(declared)@, x)
                && has_name(final(declared)@, x)),
            r is Ok ==> statement_ok(**node, *context_type),
            !(**node is Struct || **node is Func || **node is Domain) ==> final(self).current_id == old(self).current_id,
            !(**node is Declaration) ==> final(current).fields == old(current).fields,
            r is Ok ==> name_texts(final(field_names)@) == match field_declared(**node, *context_type) {
                Some(x) => name_texts(old(field_names)@).push(x),
                None => name_texts(old(field_names)@),
            },
            r is Ok ==> final(current).fields@ == match **node {
                Node::Declaration(ty, _) => if *context_type is Struct || *context_type is Domain {
                    old(current).fields@.push(Field { field_type: ValueType::Ident(ty), scope: CodeScope::Public })
                } else {
                    old(current).fields@
                },
                _ => old(current).fields@,
            },
            r is Ok ==> forall|x: Seq<char>| #[trigger] has_name(final(declared)@, x) ==> has_name(old(declared)@, x)
                || field_declared(**node, *context_type) == Some(x),
            statement_ok(**node, *context_type) && !(field_declared(**node, *context_type) matches Some(x) && has_name(
                old(declared)@,
                x,
            )) ==> r is Ok,
            match **node {
                Node::Declaration(_, name) => (field_declared(**node, *context_type) matches Some(x) && has_name(
                    old(declared)@,
                    x,
                )) ==> (r matches Err(e) && error_at(e, name, ErrorRepr::FieldAlreadyDefined)),
                _ => true,
            },
        decreases **node, 0nat,
    {
        let is_function = matches!(context_type, ContextType::Function(..));
        let is_struct = matches!(context_type, ContextType::Struct);
        let is_domain = matches!(context_type, ContextType::Domain);
        let ghost n0 = self.contexts@.len();
        match &**node {
            Node::Struct(ident, struct_body) => {
                if is_function {
                    return CodegenError::err(node.clone(), ErrorRepr::StructNestedInFunction);
                }
                let name = Self::get_primary_as_ident(ident, ErrorRepr::ExpectedStructIdentifier)?;
                let child = self.scan_block_outline(
                    struct_body.clone(),
                    ContextType::Struct,
                    child_depth,
                    current_id,
                    CodeScope::Public,
                    Vec::new(),
                    name.clone(),
                )?;
                proof {
                    lemma_defs_grow(*current, *current, n0, self.contexts@.len());
                }
                Self::declare_context(current, name.clone(), child, Ghost(self.contexts@.len() as nat));
                Ok(())
            },
            Node::Func(ident, params, return_type, func_body) => {
                if is_function {
                    return CodegenError::err(node.clone(), ErrorRepr::FunctionNestedInFunction);
                }
                let return_type_field = ValueType::Ident(return_type.clone());
                let ghost decl_view = declarations_of(params);
                let params = Self::extract_declaration_vec(params)?;
                proof {
                    if statement_ok_of(node, context_type) {
                        assert forall|i: int| 0 <= i < params@.len() implies primary_ident(**(#[trigger] params@[i]).1) is Some by {
                            assert(pair_of(params@[i]) == decl_view->0[i]);
                        }
                    }
                }
                let mut func_fields_base: Vec<String> = Vec::new();
                for k in 0..params.len()
                    invariant
                        forall|i: int| 0 <= i < k ==> primary_ident(**(#[trigger] params@[i]).1) is Some,
                        func_fields_base@.len() == k,
                        *self == *old(self),
                        *current == *old(current),
                        *body == *old(body),
                        *domain_vars == *old(domain_vars),
                        tables_ok(*old(self)),
                        parents_ordered(old(self).parents@),
                        forall|j: int| 0 <= j < old(current).fields@.len() ==> (#[trigger] old(current).fields@[j]).field_type is Ident,
                        forall|j: int| 0 <= j < old(domain_vars)@.len() ==> (#[trigger] old(domain_vars)@[j]).variable.value_type is Ident,
                        defs_in_range(*old(current), old(self).contexts@.len()),
                        !(*context_type is Function),
                        **node is Func,
                        statement_ok(**node, *context_type) ==> forall|i: int| 0 <= i < params@.len() ==> primary_ident(
                            **(#[trigger] params@[i]).1,
                        ) is Some,
                        !(field_declared(**node, *context_type) is Some),
                {
                    let param_name_ident = Self::get_primary_as_ident(params[k].1, ErrorRepr::ExpectedFunctionParamIdent)?;
                    func_fields_base.push(param_name_ident.clone());
                }
                let ident_string = Self::get_primary_as_ident(ident, ErrorRepr::ExpectedFunctionIdentifier)?;
                let child_id = self.scan_block_outline(
                    func_body.clone(),
                    ContextType::Function(return_type_field),
                    child_depth,
                    current_id,
                    CodeScope::Public,
                    func_fields_base,
                    ident_string.clone(),
                )?;
                let ghost mid = *self;
                let mut child = self.contexts.remove(child_id);
                let ghost child_before = child;
                let ghost removed = *self;
                proof {
                    assert(mid.contexts@[child_id as int] == child);
                    assert(defs_in_range(child, mid.contexts@.len()));
                    assert forall|j: int| 0 <= j < child.fields@.len() implies type_ids_ok(#[trigger] child.fields@[j].field_type, mid.contexts@.len()) by {
                        assert(mid.contexts@[child_id as int].fields@[j] == child.fields@[j]);
                    }
                }
                for k in 0..params.len()
                    invariant
                        forall|i: int| 0 <= i < params@.len() ==> primary_ident(**(#[trigger] params@[i]).1) is Some,
                        child.id == child_before.id,
                        child.parent_id == child_before.parent_id,
                        child.context_type == child_before.context_type,
                        child.fields@.len() == k,
                        defs_in_range(child, mid.contexts@.len()),
                        *self == removed,
                        forall|j: int| 0 <= j < child.fields@.len() ==> type_ids_ok(#[trigger] child.fields@[j].field_type, mid.contexts@.len()),
                {
                    match Self::get_primary_as_ident(params[k].1, ErrorRepr::ExpectedFunctionParamIdent) {
                        Ok(param_name) => {
                            Self::declare_field(&mut child, param_name.clone(), params[k].0.clone(), Ghost(mid.contexts@.len() as nat));
                        },
                        Err(_) => {
                            proof {
                                assert(primary_ident(**params@[k as int].1) is Some);
                            }
                        },
                    }
                }
                self.contexts.insert(child_id, child);
                proof {
                    assert(self.contexts@ =~= mid.contexts@.update(child_id as int, child));
                    assert(contexts_wf(self.contexts@)) by {
                        assert forall|i: int| 0 <= i < self.contexts@.len() implies {
                            &&& (#[trigger] self.contexts@[i]).id == i
                            &&& self.contexts@[i].parent_id <= i
                            &&& defs_in_range(self.contexts@[i], self.contexts@.len())
                        } by {
                            if i != child_id {
                                assert(self.contexts@[i] == mid.contexts@[i]);
                            } else {
                                assert(child_before.context_type is Function);
                            }
                        }
                    }
                    assert(fnames_ok(*self)) by {
                        assert forall|c: int| 0 <= c < self.contexts@.len() && c < self.field_names@.len()
                            && (#[trigger] self.contexts@[c]).context_type is Function
                            implies self.contexts@[c].fields@.len() <= self.field_names@[c]@.len() by {
                            if c != child_id {
                                assert(self.contexts@[c] == mid.contexts@[c]);
                            }
                        }
                    }
                    assert(types_ok(*self)) by {
                        let n1 = self.contexts@.len();
                        assert forall|c: int, j: int| 0 <= c < n1 && 0 <= j < self.contexts@[c].fields@.len()
                            implies type_ids_ok(#[trigger] self.contexts@[c].fields@[j].field_type, n1) by {
                            if c != child_id {
                                assert(self.contexts@[c] == mid.contexts@[c]);
                            }
                        }
                        assert forall|c: int| 0 <= c < n1 implies (#[trigger] self.contexts@[c].context_type matches ContextType::Function(t)
                            ==> type_ids_ok(t, n1)) by {
                            if c != child_id {
                                assert(self.contexts@[c] == mid.contexts@[c]);
                            } else {
                                assert(mid.contexts@[child_id as int].context_type == child.context_type);
                            }
                        }
                    }
                    lemma_defs_grow(*current, *current, n0, self.contexts@.len());
                    assert(child_id == old(self).current_id);
                    assert forall|i: int| 0 <= i < old(self).current_id implies #[trigger] self.contexts@[i] == old(self).contexts@[i] by {
                        assert(self.contexts@[i] == mid.contexts@[i]);
                        assert(mid.contexts@[i] == old(self).contexts@[i]);
                    }
                    assert(kept_before(*old(self), *self, old(self).current_id as int));
                    assert(domains_ok(*self)) by {
                        assert forall|i: int| 0 <= i < self.contexts@.len() && i < self.domain_vars@.len()
                            && (#[trigger] self.contexts@[i]).context_type is Domain
                            implies self.contexts@[i].fields@.len() <= self.domain_vars@[i]@.len() by {
                            if i != child_id {
                                assert(self.contexts@[i] == mid.contexts@[i]);
                            }
                        }
                    }
                    assert forall|i: int| 0 <= i < self.current_id implies #[trigger] self.parents@[i] == self.contexts@[i].parent_id by {
                        if i != child_id {
                            assert(self.contexts@[i] == mid.contexts@[i]);
                        }
                    }
                    assert(tables_ok(*self));
                }
                Self::declare_context(current, ident_string.clone(), child_id, Ghost(self.contexts@.len() as nat));
                Ok(())
            },
            Node::Domain(ident, domain_body) => {
                if is_function {
                    return CodegenError::err(node.clone(), ErrorRepr::DomainNestedInFunction);
                }
                if is_struct {
                    return CodegenError::err(node.clone(), ErrorRepr::DomainNestedInStruct);
                }
                let name = Self::get_primary_as_ident(ident, ErrorRepr::ExpectedDomainIdentifier)?;
                let child = self.scan_block_outline(
                    domain_body.clone(),
                    ContextType::Domain,
                    child_depth,
                    current_id,
                    CodeScope::Public,
                    Vec::new(),
                    name.clone(),
                )?;
                proof {
                    lemma_defs_grow(*current, *current, n0, self.contexts@.len());
                }
                Self::declare_context(current, name.clone(), child, Ghost(self.contexts@.len() as nat));
                Ok(())
            },
            Node::Declaration(field_type, field_name) => {
                if !is_struct && !is_domain {
                    body.push(node.clone());
                    return Ok(());
                }
                let name = Self::get_primary_as_ident(field_name, ErrorRepr::ExpectedStructFieldIdentifier)?;
                if contains_name(declared, name.as_str()) {
                    return CodegenError::err(field_name.clone(), ErrorRepr::FieldAlreadyDefined);
                }
                field_names.push(name.clone());
                let ghost declared_before = declared@;
                declared.push(name.clone());
                proof {
                    assert(declared@[declared_before.len() as int]@ == name@);
                    assert forall|x: Seq<char>| #[trigger] has_name(declared_before, x) implies has_name(declared@, x) by {
                        let j = choose|j: int| 0 <= j < declared_before.len() && (#[trigger] declared_before[j])@ == x;
                        assert(declared@[j] == declared_before[j]);
                    }
                }
                Self::declare_field(current, name.clone(), field_type.clone(), Ghost(self.contexts@.len() as nat));
                if is_domain {
                    let full = &self.context_full_names[current_id];
                    let mut format = chars_from(full.as_str(), 2);
                    push_char(&mut format, '.');
                    format.append(name.as_str());
                    let var_name = Self::make_var_name(format.as_str(), "dvg");
                    let var_ident = self.buffer.use_variable(var_name.as_str(), VarScope::Global);
                    domain_vars.push(RuntimeVariable::new(
                        CodegenValue::new(var_ident, ValueType::Ident(field_type.clone())),
                        var_name,
                    ));
                }
                Ok(())
            },
            _ => {
                if is_struct {
                    return CodegenError::err(node.clone(), ErrorRepr::UnstructuredStructCode);
                }
                body.push(node.clone());
                Ok(())
            },
        }
    }

    /// Scans a block into a new context of the given kind and, recursively,
    /// the structs, functions and domains it declares; returns the new
    /// context's number. A function's parameters become the fields of its
    /// context; a domain's fields get a global variable each.
    #[verifier::rlimit(80)]
    #[verifier::spinoff_prover]
    pub fn scan_block_outline(
        &mut self,
        node_block: Rc<Node>,
        context_type: ContextType,
        depth: u32,
        parent_id: usize,
        scope: CodeScope,
        fields_base: Vec<String>,
        context_name: String,
    ) -> (r: Result<usize, CodegenError>)
        requires
            tables_ok(*old(self)),
            parent_id <= old(self).current_id,
            room_for(*old(self), depth, node_size(*node_block)),
            domains_ok(*old(self)),
            parents_ordered(old(self).parents@),
            parent_id < old(self).current_id || old(self).current_id == 0,
            types_ok(*old(self)),
            fnames_ok(*old(self)),
            context_type matches ContextType::Function(t) ==> t is Ident,
        ensures
            tables_ok(*final(self)),
            r is Ok ==> domains_ok(*final(self)),
            r is Ok ==> types_ok(*final(self)),
            r is Ok ==> fnames_ok(*final(self)),
            r matches Ok(id) ==> (context_type is Function ==> final(self).contexts@[id as int].fields@.len() == 0
                && final(self).field_names@[id as int]@.len() == fields_base@.len()),
            parents_ordered(final(self).parents@),
            kept_before(*old(self), *final(self), old(self).current_id as int),
            within(*old(self), *final(self), node_size(*node_block)),
            !(*node_block is Block) ==> (r matches Err(e) && error_at(e, node_block, ErrorRepr::ExpectedBlock)),
            r is Ok ==> (*node_block matches Node::Block(v) && forall|k: int| 0 <= k < v@.len()
                ==> misplaced(*#[trigger] v@[k], context_type) is None),
            r is Ok ==> (*node_block matches Node::Block(v) && fields_distinct(v@, context_type, v@.len() as int)),
            r is Ok ==> outline_ok(*node_block, context_type),
            r matches Ok(id) ==> (*node_block matches Node::Block(v) && (forall|k: int| 0 <= k < v@.len() ==> !((*#[trigger] v@[k])
                is Struct || *v@[k] is Func || *v@[k] is Domain)) ==> final(self).current_id == id + 1),
            r matches Ok(id) ==> (*node_block matches Node::Block(v) && (forall|k: int| 0 <= k < v@.len() ==> !((*#[trigger] v@[k])
                is Declaration)) ==> final(self).contexts@[id as int].fields@.len() == 0),
            outline_ok(*node_block, context_type) ==> r is Ok,
            r matches Ok(id) ==> (*node_block matches Node::Block(v) && final(self).contexts@[id as int].fields@
                == declared_fields(v@, context_type) && name_texts(final(self).field_names@[id as int]@) == name_texts(
                fields_base@,
            ) + declared_names(v@, context_type)),
            match *node_block {
                Node::Block(v) => forall|k: int| 0 <= k < v@.len() && prefix_ok(v@, context_type, k) ==> {
                    &&& misplaced(*#[trigger] v@[k], context_type) matches Some(kind) ==> (r matches Err(e) && error_at(
                        e,
                        v@[k],
                        kind,
                    ))
                    &&& match *v@[k] {
                        Node::Declaration(_, name) => (field_declared(*v@[k], context_type) is Some && exists|i: int|
                            0 <= i < k && field_declared(*v@[i], context_type) == field_declared(*v@[k], context_type))
                            ==> (r matches Err(e) && error_at(e, name, ErrorRepr::FieldAlreadyDefined)),
                        _ => true,
                    }
                },
                _ => true,
            },
            r matches Ok(id) ==> (id == old(self).current_id && id < final(self).current_id && ({
                let c = final(self).contexts@[id as int];
                &&& c.context_type == context_type
                &&& c.parent_id == parent_id
                &&& c.depth == depth
                &&& c.scope == scope
                &&& final(self).context_names@[id as int]@ == context_name@
                &&& final(self).context_full_names@[id as int]@ == full_name(
                    id,
                    parent_id,
                    if parent_id == id { Seq::empty() } else { old(self).context_full_names@[parent_id as int]@ },
                    context_name@,
                )
                &&& (*node_block matches Node::Block(v) && (*c.body)@ == plain_of(v@, context_type))
            })),
        decreases *node_block, 1nat,
    {
        self.run = self.run + 1;
        let statements = match &*node_block {
            Node::Block(v) => v,
            _ => {
                return CodegenError::err(node_block.clone(), ErrorRepr::ExpectedBlock);
            },
        };
        let current_id = self.current_id;
        let ghost name_view = context_name@;
        let full = self.make_full_name(current_id, parent_id, context_name.as_str());
        let ghost full_view = full@;
        let empty_body: Rc<Vec<Rc<Node>>> = Rc::new(Vec::new());
        let placeholder = Context::new_empty(context_type.clone(), parent_id, current_id, depth, empty_body.clone(), scope);
        let mut current = Context::new_empty(context_type.clone(), parent_id, current_id, depth, empty_body, scope);
        let child_depth = depth + 1;
        self.contexts.push(placeholder);
        self.parents.push(parent_id);
        self.runtime_vars.push(Vec::new());
        let mut domain_vars: Vec<RuntimeVariable> = Vec::new();
        self.domain_vars.push(Vec::new());
        self.return_runtimes.push(None);
        self.field_names.push(Vec::new());
        let ghost fb_len = fields_base@.len();
        let ghost fields_base_view = fields_base@;
        let mut field_names = fields_base;
        let mut declared: Vec<String> = Vec::new();
        self.context_names.push(context_name);
        self.context_full_names.push(full);
        self.current_id = current_id + 1;
        let mut body: Vec<Rc<Node>> = Vec::new();
        let ghost start = *self;
        proof {
            assert(defs(current) =~= Map::<Seq<char>, CodeDefinition>::empty());
            assert(tables_ok(*self)) by {
                assert forall|i: int| 0 <= i < self.contexts@.len() implies {
                    &&& (#[trigger] self.contexts@[i]).id == i
                    &&& self.contexts@[i].parent_id <= i
                    &&& defs_in_range(self.contexts@[i], self.contexts@.len())
                } by {
                    if i < current_id {
                        assert(self.contexts@[i] == old(self).contexts@[i]);
                        lemma_defs_grow(old(self).contexts@[i], self.contexts@[i], old(self).contexts@.len(), self.contexts@.len());
                    } else {
                        assert(defs(self.contexts@[i]) =~= Map::<Seq<char>, CodeDefinition>::empty());
                    }
                }
            }
            assert(body@ =~= plain_of(statements@.take(0), context_type));
            assert(statements@.skip(0) =~= statements@);
            assert(parents_ordered(self.parents@)) by {
                assert forall|i: int| 0 < i < self.parents@.len() implies #[trigger] self.parents@[i] < i by {
                    if i < current_id {
                        assert(self.parents@[i] == old(self).parents@[i]);
                    }
                }
            }
            assert(fnames_ok(*self)) by {
                assert forall|c: int| 0 <= c < self.contexts@.len() && c < self.field_names@.len()
                    && (#[trigger] self.contexts@[c]).context_type is Function
                    implies self.contexts@[c].fields@.len() <= self.field_names@[c]@.len() by {
                    if c < current_id {
                        assert(self.contexts@[c] == old(self).contexts@[c]);
                        assert(self.field_names@[c] == old(self).field_names@[c]);
                    }
                }
            }
            let n0 = old(self).contexts@.len();
            let n1 = self.contexts@.len();
            assert(types_ok(*self)) by {
                assert forall|c: int, j: int| 0 <= c < n1 && 0 <= j < self.contexts@[c].fields@.len()
                    implies type_ids_ok(#[trigger] self.contexts@[c].fields@[j].field_type, n1) by {
                    if c < current_id {
                        assert(self.contexts@[c] == old(self).contexts@[c]);
                        lemma_type_ids_grow(self.contexts@[c].fields@[j].field_type, n0, n1);
                    }
                }
                assert forall|c: int| 0 <= c < n1 implies (#[trigger] self.contexts@[c].context_type matches ContextType::Function(t)
                    ==> type_ids_ok(t, n1)) by {
                    if c < current_id {
                        assert(self.contexts@[c] == old(self).contexts@[c]);
                        if let ContextType::Function(t) = self.contexts@[c].context_type {
                            lemma_type_ids_grow(t, n0, n1);
                        }
                    }
                }
                assert forall|c: int, j: int| 0 <= c < n1 && c < self.runtime_vars@.len() && 0 <= j < self.runtime_vars@[c]@.len()
                    implies type_ids_ok(#[trigger] self.runtime_vars@[c]@[j].1.variable.value_type, n1) by {
                    if c < current_id {
                        assert(self.runtime_vars@[c] == old(self).runtime_vars@[c]);
                        lemma_type_ids_grow(self.runtime_vars@[c]@[j].1.variable.value_type, n0, n1);
                    }
                }
                assert forall|c: int, j: int| 0 <= c < n1 && c < self.domain_vars@.len() && 0 <= j < self.domain_vars@[c]@.len()
                    implies type_ids_ok(#[trigger] self.domain_vars@[c]@[j].variable.value_type, n1) by {
                    if c < current_id {
                        assert(self.domain_vars@[c] == old(self).domain_vars@[c]);
                        lemma_type_ids_grow(self.domain_vars@[c]@[j].variable.value_type, n0, n1);
                    }
                }
            }
            assert(domains_ok(*self)) by {
                assert forall|i: int| 0 <= i < self.contexts@.len() && i < self.domain_vars@.len()
                    && (#[trigger] self.contexts@[i]).context_type is Domain
                    implies self.contexts@[i].fields@.len() <= self.domain_vars@[i]@.len() by {
                    if i < current_id {
                        assert(self.contexts@[i] == old(self).contexts@[i]);
                        assert(self.domain_vars@[i] == old(self).domain_vars@[i]);
                    }
                }
            }
        }
        let n = statements.len();
        for j in 0..n
            invariant
                n == statements@.len(),
                *node_block == Node::Block(*statements),
                tables_ok(*self),
                current_id == old(self).current_id,
                current_id < self.current_id,
                current.id == current_id,
                current.parent_id == parent_id,
                parent_id <= current_id,
                current.context_type == context_type,
                current.depth == depth,
                current.scope == scope,
                (*current.body)@ == Seq::<Rc<Node>>::empty(),
                defs_in_range(current, self.contexts@.len()),
                kept_before(*old(self), *self, current_id as int),
                self.context_names@[current_id as int]@ == name_view,
                self.context_full_names@[current_id as int]@ == full_view,
                self.parents@[current_id as int] == parent_id,
                body@ == plain_of(statements@.take(j as int), context_type),
                child_depth == depth + 1,
                depth + node_size(*node_block) <= u32::MAX,
                self.current_id + seq_size(statements@.skip(j as int)) <= old(self).current_id + node_size(*node_block),
                self.run + seq_size(statements@.skip(j as int)) <= old(self).run + node_size(*node_block),
                self.buffer@.ident_count + seq_size(statements@.skip(j as int)) <= old(self).buffer@.ident_count + node_size(*node_block),
                seq_size(statements@.skip(j as int)) <= seq_size(statements@),
                old(self).run + node_size(*node_block) <= usize::MAX,
                old(self).current_id + node_size(*node_block) <= usize::MAX,
                old(self).buffer@.ident_count + node_size(*node_block) <= u32::MAX,
                old(self).current_id < self.current_id,
                old(self).run < self.run,
                domains_ok(*self),
                parents_ordered(self.parents@),
                types_ok(*self),
                fnames_ok(*self),
                self.buffer@.registers == old(self).buffer@.registers,
                self.buffer@.group_count == old(self).buffer@.group_count,
                context_type is Function ==> current.fields@.len() == 0,
                context_type is Function ==> field_names@.len() == fb_len,
                context_type matches ContextType::Function(t) ==> t is Ident,
                forall|k: int| 0 <= k < current.fields@.len() ==> (#[trigger] current.fields@[k]).field_type is Ident,
                forall|k: int| 0 <= k < domain_vars@.len() ==> (#[trigger] domain_vars@[k]).variable.value_type is Ident,
                context_type is Domain ==> current.fields@.len() <= domain_vars@.len(),
                self.contexts@[current_id as int].fields@.len() == 0,
                forall|k: int| 0 <= k < j ==> misplaced(*#[trigger] statements@[k], context_type) is None,
                forall|k: int| 0 <= k < j ==> (#[trigger] field_declared(*statements@[k], context_type) matches Some(x)
                    ==> has_name(declared@, x)),
                fields_distinct(statements@, context_type, j as int),
                forall|k: int| 0 <= k < j ==> statement_ok(*#[trigger] statements@[k], context_type),
                (forall|k: int| 0 <= k < j ==> !((*#[trigger] statements@[k]) is Struct || *statements@[k] is Func
                    || *statements@[k] is Domain)) ==> self.current_id == current_id + 1,
                (forall|k: int| 0 <= k < j ==> !((*#[trigger] statements@[k]) is Declaration)) ==> current.fields@.len() == 0,
                current.fields@ == declared_fields(statements@.take(j as int), context_type),
                name_texts(field_names@) == name_texts(fields_base_view) + declared_names(statements@.take(j as int), context_type),
                forall|x: Seq<char>| #[trigger] has_name(declared@, x) ==> exists|k: int| 0 <= k < j && field_declared(
                    *statements@[k],
                    context_type,
                ) == Some(x),
        {
            let ghost before = *self;
            let ghost body_before = body@;
            proof {
                lemma_seq_size_skip(statements@, j as int);
                assert(node_size(*node_block) == 1 + seq_size(statements@));
            }
            let ghost declared_before = declared;
            proof {
                assert(statements@.take(j + 1).drop_last() =~= statements@.take(j as int));
                assert(statements@.take(j + 1).last() == statements@[j as int]);
            }
            let scanned = self.scan_statement(
                &statements[j],
                &mut current,
                &mut body,
                &mut field_names,
                &mut declared,
                &mut domain_vars,
                &context_type,
                child_depth,
                current_id,
            );
            proof {
                lemma_kept_before_trans(*old(self), before, *self, current_id as int, before.current_id as int);
                assert(self.contexts@[current_id as int] == before.contexts@[current_id as int]);
                assert forall|i: int| 0 <= i < current_id implies #[trigger] self.contexts@[i] == old(self).contexts@[i] by {
                    assert(self.contexts@[i] == before.contexts@[i]);
                }
            }
            proof {
                lemma_statements_ok(statements@, context_type);
                if scanned is Err && declared_at(statements@, j as int, context_type) is Some {
                    let x = declared_at(statements@, j as int, context_type)->0;
                    if has_name(declared_before@, x) {
                        let k = choose|k: int| 0 <= k < j && field_declared(*statements@[k], context_type) == Some(x);
                        assert(field_declared(*statements@[k], context_type) is Some);
                    }
                }
            }
            if let Err(e) = scanned {
                let ghost mid = *self;
                self.contexts.set(current_id, current);
                proof {
                    assert(tables_ok(*self)) by {
                        assert forall|i: int| 0 <= i < self.contexts@.len() implies {
                            &&& (#[trigger] self.contexts@[i]).id == i
                            &&& self.contexts@[i].parent_id <= i
                            &&& defs_in_range(self.contexts@[i], self.contexts@.len())
                        } by {
                            if i != current_id {
                                assert(self.contexts@[i] == mid.contexts@[i]);
                            } else {
                                assert(self.contexts@[i] == current);
                            }
                        }
                    }
                }
                return Err(e);
            }
            proof {
                assert(statements@.take(j + 1).drop_last() =~= statements@.take(j as int));
                assert(statements@.take(j + 1).last() == statements@[j as int]);
            }
        }
        let ghost pre = *self;
        self.field_names.set(current_id, field_names);
        let ghost before_vars = *self;
        self.domain_vars.set(current_id, domain_vars);
        let ghost cur0 = current;
        current.body = Rc::new(body);
        proof {
            lemma_defs_grow(cur0, current, self.contexts@.len() as nat, self.contexts@.len() as nat);
        }
        let ghost mid = *self;
        self.contexts.set(current_id, current);
        proof {
            assert(statements@.take(n as int) =~= statements@);
            assert(domains_ok(*self)) by {
                assert forall|i: int| 0 <= i < self.contexts@.len() && i < self.domain_vars@.len()
                    && (#[trigger] self.contexts@[i]).context_type is Domain
                    implies self.contexts@[i].fields@.len() <= self.domain_vars@[i]@.len() by {
                    if i != current_id {
                        assert(self.contexts@[i] == before_vars.contexts@[i]);
                        assert(self.domain_vars@[i] == before_vars.domain_vars@[i]);
                    }
                }
            }
            assert(fnames_ok(*self)) by {
                assert forall|c: int| 0 <= c < self.contexts@.len() && c < self.field_names@.len()
                    && (#[trigger] self.contexts@[c]).context_type is Function
                    implies self.contexts@[c].fields@.len() <= self.field_names@[c]@.len() by {
                    if c != current_id {
                        assert(self.contexts@[c] == pre.contexts@[c]);
                        assert(self.field_names@[c] == pre.field_names@[c]);
                    }
                }
            }
            let n1 = self.contexts@.len();
            assert(types_ok(*self)) by {
                assert forall|c: int, j: int| 0 <= c < n1 && 0 <= j < self.contexts@[c].fields@.len()
                    implies type_ids_ok(#[trigger] self.contexts@[c].fields@[j].field_type, n1) by {
                    if c != current_id {
                        assert(self.contexts@[c] == before_vars.contexts@[c]);
                    } else {
                        assert(current.fields@[j].field_type is Ident);
                    }
                }
                assert forall|c: int| 0 <= c < n1 implies (#[trigger] self.contexts@[c].context_type matches ContextType::Function(t)
                    ==> type_ids_ok(t, n1)) by {
                    if c != current_id {
                        assert(self.contexts@[c] == before_vars.contexts@[c]);
                    }
                }
                assert forall|c: int, j: int| 0 <= c < n1 && c < self.runtime_vars@.len() && 0 <= j < self.runtime_vars@[c]@.len()
                    implies type_ids_ok(#[trigger] self.runtime_vars@[c]@[j].1.variable.value_type, n1) by {
                    assert(self.runtime_vars@[c] == before_vars.runtime_vars@[c]);
                }
                assert forall|c: int, j: int| 0 <= c < n1 && c < self.domain_vars@.len() && 0 <= j < self.domain_vars@[c]@.len()
                    implies type_ids_ok(#[trigger] self.domain_vars@[c]@[j].variable.value_type, n1) by {
                    if c != current_id {
                        assert(self.domain_vars@[c] == before_vars.domain_vars@[c]);
                    } else {
                        assert(domain_vars@[j].variable.value_type is Ident);
                    }
                }
            }
            assert(tables_ok(*self)) by {
                assert forall|i: int| 0 <= i < self.contexts@.len() implies {
                    &&& (#[trigger] self.contexts@[i]).id == i
                    &&& self.contexts@[i].parent_id <= i
                    &&& defs_in_range(self.contexts@[i], self.contexts@.len())
                } by {
                    if i != current_id {
                        assert(self.contexts@[i] == mid.contexts@[i]);
                    } else {
                        assert(self.contexts@[i] == current);
                    }
                }
            }
        }
        proof {
            lemma_statements_ok(statements@, context_type);
        }
        Ok(current_id)
    }
}

} // verus!
