//! Requests and responses as they go over the wire.
use vstd::prelude::*;
use crate::json;
use crate::json::Json;
use crate::text;

verus! {

/// A request of the sidecar.
pub struct HostRequest {
    pub callback_id: String,
    pub method: String,
    pub params: Json,
}

/// The answer to a request.
pub struct HostResponse {
    pub event_type: &'static str,
    pub callback_id: String,
    pub ok: Option<Json>,
    pub error: Option<String>,
}

/// The type that a response has on the wire.
pub const RESPONSE_TYPE: &'static str = "hostResponse";

impl HostResponse {
    /// The answer to a request that succeeded.
    pub fn success(callback_id: String, value: Json) -> (r: HostResponse)
        ensures
            r.event_type@ == RESPONSE_TYPE@,
            r.callback_id@ == callback_id@,
            r.ok == Some(value),
            r.error is None,
    {
        HostResponse { event_type: RESPONSE_TYPE, callback_id, ok: Some(value), error: None }
    }

    /// The answer to a request that failed.
    pub fn failure(callback_id: String, message: String) -> (r: HostResponse)
        ensures
            r.event_type@ == RESPONSE_TYPE@,
            r.callback_id@ == callback_id@,
            r.ok is None,
            text::opt_text(r.error) == Some(message@),
    {
        HostResponse {
            event_type: RESPONSE_TYPE,
            callback_id,
            ok: None,
            error: Some(message),
        }
    }

    /// The answer to a request, whatever came of it.
    pub fn answer(callback_id: String, outcome: Result<Json, String>) -> (r: HostResponse)
        ensures
            r.event_type@ == RESPONSE_TYPE@,
            r.callback_id@ == callback_id@,
            match outcome {
                Ok(j) => r.ok == Some(j) && r.error is None,
                Err(e) => r.ok is None && text::opt_text(r.error) == Some(e@),
            },
    {
        match outcome {
            Ok(j) => HostResponse::success(callback_id, j),
            Err(e) => HostResponse::failure(callback_id, e),
        }
    }
}

/// A value with one member.
pub open spec fn single(name: Seq<char>, value: json::Tree) -> json::Tree {
    json::Tree::Object(seq![(name, value)])
}

/// A value with one member.
pub fn single_member(name: &str, value: Json) -> (r: Json)
    ensures
        r@ == single(name@, value@),
{
    let ghost v = value@;
    let mut m: Vec<(String, Json)> = Vec::new();
    m.push((name.to_string(), value));
    let r = Json::object(m);
    assert(r@->Object_0 =~= seq![(name@, v)]);
    r
}

// ---------------------------------------------------------------------------
// Laws
// ---------------------------------------------------------------------------

/// A request is answered under its own id, with its value where it succeeded and with its
/// error where it failed, never with both.
pub proof fn law_requests_are_answered_under_their_id(
    callback_id: String,
    outcome: Result<Json, String>,
    r: HostResponse,
)
    requires
        call_ensures(HostResponse::answer, (callback_id, outcome), r),
    ensures
        r.event_type@ == "hostResponse"@,
        r.callback_id@ == callback_id@,
        outcome matches Ok(j) ==> r.ok == Some(j) && r.error is None,
        outcome matches Err(e) ==> r.ok is None && text::opt_text(r.error) == Some(e@),
{
}

/// A value with one member has it under its name, and no other.
pub proof fn law_single_members_are_found(name: Seq<char>, value: json::Tree, other: Seq<char>)
    ensures
        single(name, value).get(name) == Some(value),
        other != name ==> single(name, value).get(other) is None,
{
    let m = seq![(name, value)];
    json::lemma_member_at(m, 0);
    assert(m.drop_first() =~= Seq::<(Seq<char>, json::Tree)>::empty());
    reveal_with_fuel(json::member, 2);
}

} // verus!
