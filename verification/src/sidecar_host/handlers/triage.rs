//! The host's methods for triage: listing candidates, reading one and noting a verdict.
use vstd::prelude::*;
use crate::json;
use crate::json::Json;
use crate::sidecar_host;
use crate::sidecar_host::protocol;
use crate::text;
use crate::triage::reading;
use crate::triage::storage;
use crate::triage::storage::CandidateRow;

verus! {

/// A method of triage.
#[derive(Clone, Copy, Debug, PartialEq, Eq, Structural)]
pub enum TriageMethod {
    ListOpenCandidates,
    ReadCandidate,
    RecordDecision,
}

/// The method with the name, or what is said of one that there is not.
pub open spec fn dispatched(method: Seq<char>) -> Result<TriageMethod, Seq<char>> {
    if method == "list_open_candidates"@ {
        Ok(TriageMethod::ListOpenCandidates)
    } else if method == "read_candidate"@ {
        Ok(TriageMethod::ReadCandidate)
    } else if method == "record_decision"@ {
        Ok(TriageMethod::RecordDecision)
    } else {
        Err(sidecar_host::unknown(method))
    }
}

/// The method with the name.
pub fn dispatch(method: &str) -> (r: Result<TriageMethod, String>)
    ensures
        match (r, dispatched(method@)) {
            (Ok(m), Ok(v)) => m == v,
            (Err(e), Err(v)) => e@ == v,
            _ => false,
        },
{
    if text::same(method, "list_open_candidates") {
        Ok(TriageMethod::ListOpenCandidates)
    } else if text::same(method, "read_candidate") {
        Ok(TriageMethod::ReadCandidate)
    } else if text::same(method, "record_decision") {
        Ok(TriageMethod::RecordDecision)
    } else {
        Err(sidecar_host::unknown_method(method))
    }
}

/// The answer with the candidates that were listed.
pub open spec fn listing(rows: Seq<CandidateRow>) -> json::Tree {
    json::Tree::Array(Seq::new(rows.len(), |i: int| storage::row_tree(rows[i]@, None)))
}

/// The answer with the candidates that were listed.
pub fn list_open_candidates(rows: &Vec<CandidateRow>) -> (r: Json)
    ensures
        r@ == listing(rows@),
{
    let mut out: Vec<Json> = Vec::new();
    let mut i: usize = 0;
    while i < rows.len()
        invariant
            i <= rows@.len(),
            out@.len() == i,
            forall|k: int| 0 <= k < i ==> (#[trigger] out@[k])@ == storage::row_tree(rows@[k]@, None),
        decreases rows@.len() - i,
    {
        out.push(storage::row_json(&rows[i], None));
        i += 1;
    }
    let r = Json::array(out);
    assert(r@->Array_0 =~= listing(rows@)->Array_0);
    r
}

/// The answer with what is shown of a candidate. `payload` is its payload, where there is
/// such a candidate.
pub fn read_candidate(
    candidate_id: &str,
    payload: Option<&str>,
    tail: Option<u32>,
    grep: Option<&str>,
) -> (r: Result<Json, String>)
    ensures
        match (r, payload) {
            (Ok(j), Some(raw)) => j@ == protocol::single(
                "body"@,
                json::Tree::Text(reading::reading_of(raw@, tail, text::opt_str(grep))),
            ),
            (Err(e), None) => e@ == "candidate "@ + candidate_id@ + " not found"@,
            _ => false,
        },
{
    match payload {
        Some(raw) => {
            let body = reading::read_candidate_inner(raw, tail, grep);
            Ok(protocol::single_member("body", Json::text(body.as_str())))
        },
        None => Err(reading::candidate_not_found(candidate_id)),
    }
}

/// Notes a verdict on a candidate, and the answer to that.
pub fn record_decision(row: &mut CandidateRow, decision: &str) -> (r: Json)
    ensures
        final(row)@ == (storage::RowView { decision: Some(decision@), ..old(row)@ }),
        r@ == protocol::single("ok"@, json::Tree::Bool(true)),
{
    storage::record_decision(row, decision);
    protocol::single_member("ok", Json::Bool(true))
}

// ---------------------------------------------------------------------------
// Laws
// ---------------------------------------------------------------------------

/// A listing has one value for each row, in the order of the rows, and a method that there is
/// not is told by its name.
pub proof fn law_every_row_is_listed(rows: Seq<CandidateRow>, i: int, method: Seq<char>)
    requires
        0 <= i < rows.len(),
    ensures
        listing(rows) matches json::Tree::Array(a) && a.len() == rows.len() && a[i]
            == storage::row_tree(rows[i]@, None),
        dispatched(method) matches Err(e) ==> e == "unknown host method: "@ + method,
        dispatched(method) is Ok <==> method == "list_open_candidates"@ || method
            == "read_candidate"@ || method == "record_decision"@,
{
}

} // verus!
