//! Requests of the sidecar to its host: which methods there are and what they answer.
use vstd::prelude::*;

pub mod handlers;
pub mod protocol;

verus! {

/// What is said of a method that there is not.
pub open spec fn unknown(method: Seq<char>) -> Seq<char> {
    "unknown host method: "@ + method
}

/// What is said of a method that there is not.
pub fn unknown_method(method: &str) -> (r: String)
    ensures
        r@ == unknown(method@),
{
    let mut out = "unknown host method: ".to_string();
    out.append(method);
    out
}

} // verus!
