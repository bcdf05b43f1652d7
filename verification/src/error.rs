use vstd::prelude::*;

verus! {

/// Why an index could not be built.
#[derive(Clone, Copy, Debug, PartialEq, Eq, Structural)]
pub enum ConfigurationError {
    /// The corpus holds no document, so it has no average document length.
    EmptyCorpus,
}

} // verus!
