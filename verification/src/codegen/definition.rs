use vstd::prelude::*;

use crate::parser::Node;

verus! {

/// A definition of a struct or a function, with its context.
pub struct CodeDefinition<'a> {
    pub definition_type: CodeDefinitionType,
    pub context: CodeContext<'a>,
}

/// The kinds of definitions.
#[derive(Debug, Clone, Copy, PartialEq, Eq, Structural)]
pub enum CodeDefinitionType {
    Struct,
    Func,
}

/// A context of definitions nested in a parent context.
pub struct CodeContext<'a> {
    pub parent_context: Option<&'a CodeContext<'a>>,
    pub depth: u32,
    pub definition_map: Vec<(String, CodeDefinition<'a>)>,
    pub body: Vec<Node>,
}

impl<'a> CodeContext<'a> {
    /// An empty context one level below `parent_context`.
    pub fn new(parent_context: &'a CodeContext<'a>) -> (c: CodeContext<'a>)
        requires
            parent_context.depth < u32::MAX,
        ensures
            c.parent_context == Some(parent_context),
            c.depth == parent_context.depth + 1,
            c.definition_map@.len() == 0,
            c.body@.len() == 0,
    {
        Self { parent_context: Some(parent_context), depth: parent_context.depth + 1, definition_map: Vec::new(), body: Vec::new() }
    }
}

} // verus!
