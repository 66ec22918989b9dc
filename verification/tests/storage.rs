use helmor_triage::json;
use helmor_triage::time::Timestamp;
use helmor_triage::triage::storage::{
    anchor_pattern, count_open_candidates, fmt_ts, now_iso, proposed_anchors_for_chat,
    record_decision, reset_decision, row_json, upsert_candidate, write_cursor, FetchCursor,
    NewCandidate, UpsertOutcome,
};

fn make(id: &str, source_ref: &str) -> NewCandidate {
    NewCandidate {
        id: id.into(),
        source: "github".into(),
        source_kind: "issue".into(),
        source_ref: source_ref.into(),
        // 2026-05-26T10:00:00Z
        source_time: Timestamp { secs: 1_779_789_600, nanos: 0 },
        sender: Some("alice".into()),
        title: Some("Bug: pipeline drops deltas".into()),
        preview: Some("repro: ...".into()),
        external_url: Some("https://example.com/issue/1".into()),
        payload_path: format!("github/{id}.md"),
        payload_bytes: 100,
    }
}

#[test]
fn insert_then_update_preserves_open_row() {
    let c1 = make("gh:1", "1");
    let (row, r1) = upsert_candidate(None, &c1);
    assert_eq!(r1, UpsertOutcome::Inserted);

    let mut c2 = make("gh:1", "1");
    c2.title = Some("Bug: pipeline drops deltas (updated)".into());
    let (row, r2) = upsert_candidate(Some(row), &c2);
    assert_eq!(r2, UpsertOutcome::UpdatedUnchanged);

    let open = vec![row];
    assert_eq!(count_open_candidates(&open), 1);
    assert_eq!(
        open[0].title.as_deref(),
        Some("Bug: pipeline drops deltas (updated)")
    );
}

#[test]
fn decided_candidate_is_not_resurrected() {
    let c = make("gh:1", "1");
    let (mut row, _) = upsert_candidate(None, &c);
    record_decision(&mut row, "skip");

    let (row, again) = upsert_candidate(Some(row), &c);
    assert_eq!(again, UpsertOutcome::SkippedDecided);
    assert_eq!(count_open_candidates(&vec![row]), 0);
}

#[test]
fn reset_decision_reopens_a_decided_row() {
    let c = make("gh:1", "1");
    let (mut row, _) = upsert_candidate(None, &c);
    record_decision(&mut row, "skip");
    let mut rows = vec![row];
    assert_eq!(count_open_candidates(&rows), 0);
    reset_decision(&mut rows[0]);
    assert_eq!(count_open_candidates(&rows), 1);
}

#[test]
fn cursor_round_trips() {
    let cursor = FetchCursor {
        last_source_time: Some("2026-05-26T09:00:00Z".into()),
    };
    let got = write_cursor(&FetchCursor::default(), &cursor);
    assert_eq!(
        got.last_source_time.as_deref(),
        Some("2026-05-26T09:00:00Z")
    );
    let kept = write_cursor(&got, &FetchCursor { last_source_time: None });
    assert_eq!(
        kept.last_source_time.as_deref(),
        Some("2026-05-26T09:00:00Z")
    );
}

#[test]
fn rows_keep_times_to_the_second() {
    let t = Timestamp { secs: 1_779_789_600, nanos: 999_999_999 };
    assert_eq!(fmt_ts(t), "2026-05-26T10:00:00Z");
    assert_eq!(now_iso(t), "2026-05-26T10:00:00Z");
    let (row, _) = upsert_candidate(None, &make("gh:1", "1"));
    assert_eq!(row.source_time, "2026-05-26T10:00:00Z");
    assert_eq!(row.payload_bytes, 100);
    let mut huge = make("gh:1", "1");
    huge.payload_bytes = u64::MAX;
    assert_eq!(upsert_candidate(None, &huge).0.payload_bytes, -1);
}

#[test]
fn anchors_are_what_follows_the_conversation() {
    assert_eq!(anchor_pattern("oc_1"), "oc_1:%");
    let refs = vec![
        "oc_1:om_a".to_string(),
        "oc_1:".to_string(),
        "oc_10:om_b".to_string(),
        "oc_1:om_c:d".to_string(),
    ];
    assert_eq!(proposed_anchors_for_chat(&refs, "oc_1"), vec!["om_a", "om_c:d"]);
}

#[test]
fn rows_are_told_in_camel_case() {
    let (row, _) = upsert_candidate(None, &make("gh:1", "1"));
    let text = json::write(&row_json(&row, None));
    assert!(text.starts_with(r#"{"decision":null,"externalUrl":"https://example.com/issue/1","id":"gh:1""#));
    assert!(text.contains(r#""payloadBytes":100"#));
    assert!(!text.contains("attachments"));
}
