//! Named contexts for grouping input bindings.
use vstd::prelude::*;

verus! {

/// A named context identifier for organizing input bindings.
pub struct ContextName(String);

impl ContextName {
    /// Wraps a context name.
    pub fn new(name: &str) -> (r: Self)
        ensures
            r@ == name@,
    {
        ContextName(name.to_owned())
    }

    /// The context name as a string slice.
    pub fn get(&self) -> (r: &str)
        ensures
            r@ == self@,
    {
        self.0.as_str()
    }
}

impl View for ContextName {
    type V = Seq<char>;

    /// The name's characters.
    closed spec fn view(&self) -> Seq<char> {
        self.0@
    }
}

} // verus!
