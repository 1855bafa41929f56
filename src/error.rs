use vstd::prelude::*;

verus! {

/// Why an operation on a text was refused.
#[derive(Debug, Clone, Copy, PartialEq, Eq, Structural)]
pub enum TextError {
    /// No pattern was given where one is needed.
    PatternRequired,
    /// No replacement was given to a replace.
    ReplacementRequired,
    /// A search found no line holding the pattern.
    NoMatch,
}

} // verus!
