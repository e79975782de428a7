use vstd::prelude::*;

verus! {

/// Validation mode controlling strictness.
#[derive(Debug, Clone, Copy, PartialEq, Eq, Structural)]
pub enum ValidationMode {
    /// Lenient mode - only report definite errors
    Lenient,
    /// Strict mode (default) - report all schema violations
    Strict,
}

impl Default for ValidationMode {
    /// The default mode is [`ValidationMode::Strict`].
    fn default() -> (m: Self)
        ensures
            m == ValidationMode::Strict,
    {
        ValidationMode::Strict
    }
}

} // verus!
