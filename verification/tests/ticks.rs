use helmor_triage::json::{self, parse, Json};
use helmor_triage::triage::attachments::InlinePreview;
use helmor_triage::triage::im::ingest::AttachmentEntry;
use helmor_triage::triage::scheduler::{
    batch_result, enrich_one_candidate, proposed_reason, read_proposal, resolve_proposal, run_call,
    stop_call, tick_outcome, wants_attachments, BatchNext, BatchRun, ExecuteOk, Inliner,
    LocalModel, ProposalEvent, TickConfig, TickGate, TickOutcome, TickRun,
    PER_TICK_INLINE_BUDGET,
};
use helmor_triage::triage::storage::CandidateRow;

fn json(s: &str) -> Json {
    parse(s).expect("a JSON text")
}

fn row(source: &str) -> CandidateRow {
    CandidateRow {
        id: "c1".into(),
        source: source.into(),
        source_kind: "channel".into(),
        source_ref: "oc_1".into(),
        source_time: "2026-05-26T10:00:00Z".into(),
        sender: None,
        title: None,
        preview: None,
        external_url: None,
        payload_path: "p".into(),
        payload_bytes: -3,
        decision: None,
    }
}

fn entry(id: &str) -> AttachmentEntry {
    AttachmentEntry {
        message_id: id.into(),
        filename: format!("{id}.png"),
        local_path: format!("/s/{id}.png"),
        mime_type: None,
        bytes: 1,
        alt: Some("shot".into()),
    }
}

fn preview(n: usize) -> Option<InlinePreview> {
    Some(InlinePreview {
        data_base64: "A".repeat(n),
        mime_type: "image/png".into(),
    })
}

#[test]
fn one_tick_runs_at_a_time() {
    let mut gate = TickGate::new();
    assert_eq!(gate.trigger_tick_now(false, true).err().as_deref(), Some("Triage is disabled"));
    assert_eq!(
        gate.trigger_tick_now(true, false).err().as_deref(),
        Some("Local LLM is not enabled")
    );
    assert!(gate.cancel_tick_in_flight().is_none());
    assert!(gate.trigger_tick_now(true, true).is_ok());
    assert_eq!(
        gate.trigger_tick_now(true, true).err().as_deref(),
        Some("Another triage tick is in flight")
    );
    let stop = gate.cancel_tick_in_flight().unwrap();
    assert_eq!(stop.method, "stopTriageTick");
    assert_eq!(json::write(&stop.params), "{}");
    gate.release();
    assert!(gate.trigger_tick_now(true, true).is_ok());
}

#[test]
fn images_stay_within_the_budget() {
    let mut budget = Inliner::new();
    assert_eq!(budget.remaining, 12 * 1024 * 1024);
    budget.remaining = 10;
    assert!(budget.offer(&entry("a"), None).is_none());
    let a = budget.offer(&entry("a"), preview(6)).unwrap();
    assert_eq!(a.message_id, "a");
    assert_eq!(a.filename, "a.png");
    assert_eq!(a.alt.as_deref(), Some("shot"));
    assert!(budget.offer(&entry("b"), preview(5)).is_none(), "too large for what is left");
    assert!(budget.offer(&entry("c"), preview(4)).is_some());
    assert!(!budget.reads_more());
    assert!(budget.offer(&entry("d"), preview(0)).is_none());
}

#[test]
fn the_batches_of_a_tick_share_one_budget() {
    let mut tick = TickRun::new();
    assert_eq!(tick.images.remaining, PER_TICK_INLINE_BUDGET);
    let third = (PER_TICK_INLINE_BUDGET / 3) as usize;
    for n in 1..=3 {
        assert_eq!(tick.next_batch(1), Some(n));
        assert!(tick.reads_more());
        assert!(tick.offer(&entry("a"), preview(third)).is_some());
        tick.batch_done(done(0, None, false));
    }
    assert_eq!(tick.next_batch(1), Some(4));
    assert!(!tick.reads_more());
    assert!(tick.offer(&entry("a"), preview(1)).is_none());
}

#[test]
fn candidates_carry_their_images() {
    assert!(wants_attachments(&row("lark")));
    assert!(wants_attachments(&row("slack")));
    assert!(!wants_attachments(&row("gitlab")));
    let mut budget = Inliner::new();
    let image = budget.offer(&entry("a"), preview(2)).unwrap();
    let text = json::write(&enrich_one_candidate(&row("lark"), &vec![image]));
    assert!(text.starts_with(
        r#"{"attachments":[{"alt":"shot","dataBase64":"AA","filename":"a.png","messageId":"a","mimeType":"image/png"}],"decision":null"#
    ));
    assert!(text.contains(r#""payloadBytes":-3"#));
    assert!(!json::write(&enrich_one_candidate(&row("lark"), &vec![])).contains("attachments"));
}

#[test]
fn calls_tell_the_sidecar_what_to_do() {
    let call = run_call(
        "t1",
        &TickConfig { system_prompt: "be brief".into(), max_per_tick: 3 },
        vec![Json::Null],
        &Json::Bool(true),
        &LocalModel { base_url: "u".into(), token: "k".into(), model: "m".into() },
    );
    assert_eq!(call.method, "runTriageTick");
    assert_eq!(
        json::write(&call.params),
        r#"{"candidates":[null],"localModel":{"baseUrl":"u","model":"m","token":"k"},"maxPerTick":3,"repos":true,"systemPrompt":"be brief","tickId":"t1"}"#
    );
    assert_eq!(json::write(&stop_call("t1").params), r#"{"tickId":"t1"}"#);
}

const PROPOSAL: &str = r#"{ "params": { "candidateId": "c1", "taskAnchor": " om_1 ", "repoId": "r",
    "title": "t", "branchName": "b", "planMessage": "p", "extra": 1 } }"#;

#[test]
fn events_are_taken_in_until_the_end() {
    let mut batch = BatchRun::new();
    assert_eq!(batch.on_event("triageProposal", &json(PROPOSAL)).next, BatchNext::Listen);
    batch.on_event("triageProposal", &json(r#"{ "params": { "candidateId": "c1" } }"#));
    batch.on_event("triageProposal", &json("{}"));
    batch.on_event("triageSummary", &json(r#"{ "message": "done" }"#));
    let step = batch.on_event(
        "triageProgress",
        &json(r#"{ "turn": 4294967298, "tool": "grep", "argsPreview": "x" }"#),
    );
    let progress = step.progress.unwrap();
    assert_eq!(progress.turn, Some(2));
    assert_eq!(progress.tool, Some(("grep".to_string(), "x".to_string())));
    assert!(!batch.cancelled);
    batch.on_event("triageCancelled", &json("{}"));
    assert!(batch.cancelled);
    assert_eq!(batch.on_event("other", &json("{}")).next, BatchNext::Listen);
    assert_eq!(batch.on_event("end", &json("{}")).next, BatchNext::Finish);
    assert!(batch.outcome().is_ok());
    assert_eq!(batch.proposals.len(), 1);
    assert_eq!(batch.summary.as_deref(), Some("done"));
}

#[test]
fn errors_and_silence_fail_a_batch() {
    let mut batch = BatchRun::new();
    batch.on_event("error", &json(r#"{ "message": "boom" }"#));
    assert_eq!(batch.outcome().err().as_deref(), Some("boom"));
    let mut batch = BatchRun::new();
    batch.on_event("error", &json("{}"));
    assert_eq!(batch.outcome().err().as_deref(), Some("sidecar error"));
    let mut batch = BatchRun::new();
    assert_eq!(batch.on_silence().next, BatchNext::StopAndListen);
    assert_eq!(batch.on_event("triageProposal", &json(PROPOSAL)).next, BatchNext::ListenForEnd);
    assert_eq!(batch.on_silence().next, BatchNext::Finish);
    assert_eq!(batch.outcome().err().as_deref(), Some("triage sidecar tick timed out"));
    assert!(batch.proposals.is_empty());
}

#[test]
fn what_was_proposed_before_a_stop_counts_where_the_sidecar_ends() {
    let mut batch = BatchRun::new();
    batch.on_event("triageProposal", &json(PROPOSAL));
    batch.on_silence();
    assert_eq!(batch.on_event("error", &json(r#"{ "message": "late" }"#)).next, BatchNext::Finish);
    assert!(batch.outcome().is_ok());
    assert_eq!(batch.proposals.len(), 1);
}

#[test]
fn proposals_may_be_lists() {
    assert!(read_proposal(&json(r#"["c","a","r","t","b","p"]"#)).is_some());
    assert!(read_proposal(&json(r#"["c","a","r","t","b"]"#)).is_none());
    assert!(read_proposal(&json(r#""c""#)).is_none());
}

fn proposal(anchor: &str) -> ProposalEvent {
    ProposalEvent {
        candidate_id: "c1".into(),
        task_anchor: anchor.into(),
        repo_id: "r".into(),
        title: "t".into(),
        branch_name: "b".into(),
        plan_message: "p".into(),
    }
}

#[test]
fn proposals_are_resolved_against_their_candidates() {
    let p = resolve_proposal(&Some(row("lark")), &proposal(" om_1 ")).ok().unwrap();
    assert_eq!(p.source_ref, "oc_1:om_1");
    assert_eq!(p.candidate_source_ref, "oc_1");
    assert_eq!(p.task_anchor, "om_1");
    assert_eq!(
        resolve_proposal(&None, &proposal("a")).err().as_deref(),
        Some("candidate c1 not found")
    );
    assert_eq!(
        resolve_proposal(&Some(row("lark")), &proposal("  ")).err().as_deref(),
        Some("proposal for candidate c1 missing task_anchor")
    );
    let q = resolve_proposal(&Some(row("lark")), &proposal("om_2")).ok().unwrap();
    assert_ne!(p.source_ref, q.source_ref);
    assert_eq!(proposed_reason("w"), "workspace w");
}

fn done(created: u32, summary: Option<&str>, cancelled: bool) -> ExecuteOk {
    ExecuteOk {
        created,
        summary: summary.map(|s| s.to_string()),
        cancelled,
        workspace_failures: 0,
    }
}

#[test]
fn batches_add_up_to_a_tick() {
    let b = batch_result(Some("s".into()), false, &vec![true, false, true]);
    assert_eq!((b.created, b.workspace_failures), (2, 1));
    let mut tick = TickRun::new();
    assert_eq!(tick.next_batch(20), Some(1));
    tick.batch_done(b);
    assert_eq!(tick.next_batch(20), Some(2));
    tick.batch_done(done(1, None, false));
    assert_eq!(tick.total.summary.as_deref(), Some("s"));
    assert_eq!(tick.total.created, 3);
    tick.batch_done(done(0, Some(""), false));
    assert_eq!(tick.total.summary.as_deref(), Some("s"), "an empty summary says nothing");
    tick.batch_done(done(0, Some("t"), false));
    assert_eq!(tick.total.summary.as_deref(), Some("t"));
    assert_eq!(tick.next_batch(0), None);
    assert!(!tick.wants_batch());
    let mut tick = TickRun::new();
    for n in 1..=5 {
        assert_eq!(tick.next_batch(1), Some(n));
        tick.batch_done(done(0, None, false));
    }
    assert_eq!(tick.next_batch(1), None);
    let mut tick = TickRun::new();
    tick.next_batch(1);
    tick.batch_done(done(1, None, true));
    assert!(!tick.wants_batch());
}

#[test]
fn ticks_end_in_one_of_four_ways() {
    assert!(matches!(
        tick_outcome(&Ok(done(2, Some("s"), true))),
        (TickOutcome::Cancelled, Some(ref s)) if s == "s"
    ));
    assert!(matches!(
        tick_outcome(&Ok(done(0, None, false))),
        (TickOutcome::NoActionableItems, None)
    ));
    assert!(matches!(
        tick_outcome(&Ok(done(2, None, false))),
        (TickOutcome::CreatedWorkspaces { count: 2 }, None)
    ));
    assert!(matches!(
        tick_outcome(&Err("boom".to_string())),
        (TickOutcome::Failed { ref message }, None) if message == "boom"
    ));
}
