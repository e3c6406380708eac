use vstd::prelude::*;

verus! {

/// A request that breaks the rules of the data structure.
#[derive(Debug, Clone, Copy, PartialEq, Eq, Structural)]
pub struct Invalid;

impl Invalid {
    /// The message describing the error.
    pub fn message(&self) -> (r: &'static str)
        ensures
            r@ == "Invalid"@,
    {
        "Invalid"
    }
}

} // verus!
