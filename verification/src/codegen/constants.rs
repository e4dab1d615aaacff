use vstd::prelude::*;

verus! {

/// Identifiers of constants that code generation creates once and reuses.
pub struct CodeGenConstants {
    pub void_variable: Option<u32>,
}

impl CodeGenConstants {
    /// No constant created yet.
    pub fn new() -> (c: Self)
        ensures
            c.void_variable is None,
    {
        Self { void_variable: None }
    }
}

} // verus!
