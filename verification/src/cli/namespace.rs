//! The `namespace` command.
use vstd::prelude::*;

verus! {

/// Print the namespace for the current directory
#[derive(Debug)]
pub struct Namespace {}

impl Namespace {
    /// What is printed: the namespace and nothing else, so that the output can stand in another
    /// command.
    pub fn output(&self, namespace: &str) -> (r: String)
        ensures
            r@ == namespace@,
    {
        namespace.to_string()
    }
}

} // verus!
