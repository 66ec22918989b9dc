use helmor_triage::json::{self, Json};
use helmor_triage::sidecar_host::handlers::route;
use helmor_triage::sidecar_host::handlers::triage::{
    dispatch, list_open_candidates, read_candidate, record_decision, TriageMethod,
};
use helmor_triage::sidecar_host::protocol::HostResponse;
use helmor_triage::sidecar_host::unknown_method;
use helmor_triage::triage::storage::CandidateRow;

fn row() -> CandidateRow {
    CandidateRow {
        id: "c".into(),
        source: "s".into(),
        source_kind: "k".into(),
        source_ref: "r".into(),
        source_time: "t".into(),
        sender: None,
        title: Some("ti".into()),
        preview: None,
        external_url: None,
        payload_path: "p".into(),
        payload_bytes: 1,
        decision: None,
    }
}

#[test]
fn methods_are_routed_by_their_names() {
    assert!(matches!(route("triage.read_candidate"), Ok(TriageMethod::ReadCandidate)));
    assert!(matches!(dispatch("list_open_candidates"), Ok(TriageMethod::ListOpenCandidates)));
    assert!(matches!(dispatch("record_decision"), Ok(TriageMethod::RecordDecision)));
    assert_eq!(route("files.read").err().as_deref(), Some("unknown host method: files.read"));
    assert_eq!(route("triage.nope").err().as_deref(), Some("unknown host method: nope"));
    assert_eq!(unknown_method("x"), "unknown host method: x");
}

#[test]
fn responses_carry_a_value_or_an_error() {
    let ok = HostResponse::success("1".into(), Json::Bool(true));
    assert_eq!(ok.event_type, "hostResponse");
    assert!(ok.ok.is_some() && ok.error.is_none());
    let failed = HostResponse::failure("1".into(), "no".into());
    assert_eq!(failed.callback_id, "1");
    assert!(failed.ok.is_none());
    assert_eq!(failed.error.as_deref(), Some("no"));
    assert!(HostResponse::answer("1".into(), Err("e".into())).error.is_some());
    assert!(HostResponse::answer("1".into(), Ok(Json::Null)).ok.is_some());
}

#[test]
fn handlers_answer_in_json() {
    assert_eq!(
        json::write(&list_open_candidates(&vec![row()])),
        r#"[{"decision":null,"externalUrl":null,"id":"c","payloadBytes":1,"payloadPath":"p","preview":null,"sender":null,"source":"s","sourceKind":"k","sourceRef":"r","sourceTime":"t","title":"ti"}]"#
    );
    let body = read_candidate("c", Some("a\nb\n"), None, Some("b")).ok().unwrap();
    assert_eq!(json::write(&body), r#"{"body":"a\nb\n"}"#);
    assert_eq!(
        read_candidate("c", None, None, None).err().as_deref(),
        Some("candidate c not found")
    );
    let mut r = row();
    assert_eq!(json::write(&record_decision(&mut r, "skip")), r#"{"ok":true}"#);
    assert_eq!(r.decision.as_deref(), Some("skip"));
}
