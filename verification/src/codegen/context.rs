use vstd::prelude::*;
use std::rc::Rc;

use crate::parser::Node;
use super::types::{Field, ValueType};

verus! {

/// What an identifier defines in a context.
#[derive(Debug)]
pub enum CodeDefinition {
    Context(usize),
    Field(usize),
    Multiple(Vec<CodeDefinition>),
}

/// The kinds of contexts.
#[derive(Debug, PartialEq)]
pub enum ContextType {
    Struct,
    Function(ValueType),
    Domain,
}

impl Clone for ContextType {
    fn clone(&self) -> (c: Self)
        ensures
            c == *self,
    {
        match self {
            ContextType::Struct => ContextType::Struct,
            ContextType::Function(t) => ContextType::Function(t.clone()),
            ContextType::Domain => ContextType::Domain,
        }
    }
}

/// The visibility of a definition.
#[derive(Debug, Clone, Copy, PartialEq, Eq, Structural)]
pub enum CodeScope {
    Public,
    Private,
}

/// A scope of definitions: a struct, a function or a domain.
#[derive(Debug)]
pub struct Context {
    pub context_type: ContextType,
    pub parent_id: usize,
    pub id: usize,
    pub depth: u32,
    pub fields: Vec<Field>,
    /// The definitions of the context, by identifier.
    pub definition_lookup: Vec<(String, CodeDefinition)>,
    pub body: Rc<Vec<Rc<Node>>>,
    pub scope: CodeScope,
    pub children: Vec<usize>,
}

impl Context {
    /// A context with no fields, definitions or children.
    pub fn new_empty(
        context_type: ContextType,
        parent_id: usize,
        id: usize,
        depth: u32,
        body: Rc<Vec<Rc<Node>>>,
        scope: CodeScope,
    ) -> (c: Context)
        ensures
            c.context_type == context_type,
            c.parent_id == parent_id,
            c.id == id,
            c.depth == depth,
            c.fields@.len() == 0,
            c.definition_lookup@.len() == 0,
            c.body == body,
            c.scope == scope,
            c.children@.len() == 0,
    {
        Self {
            context_type,
            parent_id,
            children: Vec::new(),
            id,
            depth,
            fields: Vec::new(),
            definition_lookup: Vec::new(),
            body,
            scope,
        }
    }
}

} // verus!
