//! Parser configuration.

use vstd::prelude::*;

verus! {

/// Parser configuration options.
#[derive(Debug, Clone, Copy)]
pub struct ParserConfig {
    /// Allow trailing commas in lists
    pub allow_trailing_commas: bool,
    /// Maximum recursion depth to prevent stack overflow
    pub max_recursion_depth: usize,
}

impl ParserConfig {
    /// The configuration that a parser starts from: trailing commas allowed,
    /// at most 1000 nested productions.
    pub open spec fn initial() -> ParserConfig {
        ParserConfig { allow_trailing_commas: true, max_recursion_depth: 1000 }
    }

    /// Whether a list may end in a comma.
    pub fn allow_trailing_commas(&self) -> (r: bool)
        ensures
            r == self.allow_trailing_commas,
    {
        self.allow_trailing_commas
    }

    /// How many guarded productions may be open at once.
    pub fn max_recursion_depth(&self) -> (r: usize)
        ensures
            r == self.max_recursion_depth,
    {
        self.max_recursion_depth
    }
}

impl Default for ParserConfig {
    fn default() -> (r: Self)
        ensures
            r == ParserConfig::initial(),
    {
        Self { allow_trailing_commas: true, max_recursion_depth: 1000 }
    }
}

} // verus!
