use vstd::prelude::*;

verus! {

/// An error of the optimizer, at an instruction.
#[derive(Debug, Clone, Copy, PartialEq, Eq, Structural)]
pub struct OptimizerError {
    pub instruction: usize,
    pub source: ErrorRepr,
}

impl OptimizerError {
    /// An error not tied to an instruction (reported at instruction 0).
    pub fn new_headless(source: ErrorRepr) -> (e: OptimizerError)
        ensures
            e.instruction == 0,
            e.source == source,
    {
        Self { instruction: 0, source }
    }

    /// The result failing with an error not tied to an instruction.
    pub fn err<T>(source: ErrorRepr) -> (r: Result<T, OptimizerError>)
        ensures
            r == Err::<T, OptimizerError>(OptimizerError { instruction: 0, source }),
    {
        Err(Self::new_headless(source))
    }
}

/// What went wrong in the optimizer.
#[derive(Debug, Clone, Copy, PartialEq, Eq, Structural)]
pub enum ErrorRepr {
    Generic,
    ExpectedBlock,
    ExpectedIdentifier,
}

impl ErrorRepr {
    /// The message of the error.
    pub fn message(&self) -> (s: &'static str)
        ensures
            s@ == match *self {
                ErrorRepr::Generic => "Generic Error"@,
                ErrorRepr::ExpectedBlock => "Expected a code block."@,
                ErrorRepr::ExpectedIdentifier => "Expected an identifier."@,
            },
    {
        match self {
            ErrorRepr::Generic => "Generic Error",
            ErrorRepr::ExpectedBlock => "Expected a code block.",
            ErrorRepr::ExpectedIdentifier => "Expected an identifier.",
        }
    }
}

} // verus!
