//! The methods of the host, by the part of the host that they belong to.
use vstd::prelude::*;
use crate::sidecar_host;
use crate::text;

pub mod triage;

verus! {

/// Where the methods of triage begin.
pub const TRIAGE_PREFIX: &'static str = "triage.";

/// The method that a request names, or what is said of one that there is not.
pub open spec fn routed(method: Seq<char>) -> Result<triage::TriageMethod, Seq<char>> {
    match text::after_prefix(method, TRIAGE_PREFIX@) {
        Some(m) => triage::dispatched(m),
        None => Err(sidecar_host::unknown(method)),
    }
}

/// The method that a request names.
pub fn route(method: &str) -> (r: Result<triage::TriageMethod, String>)
    ensures
        match (r, routed(method@)) {
            (Ok(m), Ok(v)) => m == v,
            (Err(e), Err(v)) => e@ == v,
            _ => false,
        },
{
    match text::strip_prefix(method, TRIAGE_PREFIX) {
        Some(m) => triage::dispatch(m.as_str()),
        None => Err(sidecar_host::unknown_method(method)),
    }
}

// ---------------------------------------------------------------------------
// Laws
// ---------------------------------------------------------------------------

/// The three methods are reached under the prefix of the triage, and a method without that
/// prefix is told to be unknown by its whole name.
pub proof fn law_methods_are_reached_by_their_names(method: Seq<char>)
    ensures
        routed("triage."@ + "list_open_candidates"@) == Ok::<_, Seq<char>>(
            triage::TriageMethod::ListOpenCandidates,
        ),
        routed("triage."@ + "read_candidate"@) == Ok::<_, Seq<char>>(
            triage::TriageMethod::ReadCandidate,
        ),
        routed("triage."@ + "record_decision"@) == Ok::<_, Seq<char>>(
            triage::TriageMethod::RecordDecision,
        ),
        routed("triage."@ + method) == triage::dispatched(method),
        !text::begins(method, "triage."@) ==> routed(method) == Err::<triage::TriageMethod, _>(
            "unknown host method: "@ + method,
        ),
{
    reveal_strlit("list_open_candidates");
    reveal_strlit("read_candidate");
    reveal_strlit("record_decision");
    assert("list_open_candidates"@.len() == 20);
    assert("read_candidate"@.len() == 14);
    assert("record_decision"@.len() == 15);
    let p = "triage."@;
    let n = p.len() as int;
    assert((p + method).take(n) =~= p && (p + method).skip(n) =~= method);
    assert((p + "list_open_candidates"@).take(n) =~= p);
    assert((p + "list_open_candidates"@).skip(n) =~= "list_open_candidates"@);
    assert((p + "read_candidate"@).take(n) =~= p);
    assert((p + "read_candidate"@).skip(n) =~= "read_candidate"@);
    assert((p + "record_decision"@).take(n) =~= p);
    assert((p + "record_decision"@).skip(n) =~= "record_decision"@);
}

} // verus!
