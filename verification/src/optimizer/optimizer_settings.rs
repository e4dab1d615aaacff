use vstd::prelude::*;

verus! {

/// What the optimizer does.
#[derive(Clone, Copy, Debug, PartialEq, Eq, Structural)]
pub struct OptimizerSettings {
    /// Removes end returns.
    pub remove_end_returns: bool,
    /// Splits the lines of functions and branches to fit a plot's limit of
    /// code blocks per line: 25 on a basic plot, 50 on a large one, 150 on a
    /// massive one.
    pub max_codeblocks_per_line: Option<usize>,
    /// Function inliner.
    pub inline_functions: InlinerOptimizerSetting,
    /// Elimination of dead code (functions, variables, ...).
    pub deadcode_elimination: bool,
}

/// How eagerly functions are inlined.
#[derive(Clone, Copy, Debug, PartialEq, Eq, Structural)]
pub enum InlinerOptimizerSetting {
    /// Never inlines.
    Never,
    /// Inlines only where it is harmless: small functions that are not called
    /// in succession often.
    Conservative,
    /// Inlines more than `Conservative`, avoiding large functions.
    Balanced,
    /// Always inlines, for performance.
    Performance,
}

} // verus!
