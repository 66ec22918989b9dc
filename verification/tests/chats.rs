use helmor_triage::json::{parse, Json};
use helmor_triage::time::Timestamp;
use helmor_triage::triage::fetcher::{
    cold_start_cutoff, cold_start_cutoff_ms, fires_after_fetch, wait_after, worth_a_warning,
    FetchSummary, Fetcher, COLD_START_DAYS,
};
use helmor_triage::triage::im::blocks::{default_message_block, parse_message_block};
use helmor_triage::triage::im::ingest::{
    attachment_entries, build_attachments_sidecar_path, build_candidate_summary,
    build_payload_path, candidate_id, conversations_to_scan, count_ingest, effective_since,
    kept_filenames, plan_ingest,
    truncate, ImFetcher,
};
use helmor_triage::triage::im::payload::{
    parse_chat_payload, render_chat_payload, ImBackend, MessageMap, PlainBackend, WINDOW_DAYS,
};
use helmor_triage::triage::im::types::{ImAttachment, ImConversation, ImConversationKind, ImMessage};
use helmor_triage::triage::im::window::{in_order, merge_messages, trim_window};
use helmor_triage::triage::storage::{CandidateRow, UpsertOutcome};

// 2026-05-26T10:00:00Z
const BASE: i64 = 1_779_789_600;

fn at(secs: i64) -> Timestamp {
    Timestamp { secs, nanos: 0 }
}

fn msg(id: &str, ts_secs_offset: i64, sender: &str, text: &str) -> ImMessage {
    ImMessage {
        id: id.into(),
        timestamp: at(BASE + ts_secs_offset),
        sender: Some(sender.into()),
        text: text.into(),
        external_url: None,
        deleted: false,
        attachments: Vec::new(),
        raw: Json::Null,
    }
}

fn conv(id: &str, label: Option<&str>) -> ImConversation {
    ImConversation {
        id: id.into(),
        label: label.map(|l| l.to_string()),
        kind: ImConversationKind::Channel,
        raw: Json::Null,
    }
}

fn slack() -> PlainBackend {
    PlainBackend {
        source: "slack".into(),
    }
}

#[test]
fn cold_start_returns_cold_start_floor() {
    let now = at(BASE);
    let dt = effective_since(None, now).unwrap();
    let diff = now.secs - dt.secs;
    assert!(diff <= COLD_START_DAYS * 86_400 + 60);
    assert!(diff >= COLD_START_DAYS * 86_400 - 60);
}

#[test]
fn a_known_time_is_taken_up_again_with_some_overlap() {
    let now = at(BASE);
    let dt = effective_since(Some("2026-05-26T09:00:00Z"), now).unwrap();
    assert_eq!(dt, at(BASE - 3_600 - 6 * 3_600));
    assert_eq!(effective_since(Some("nonsense"), now), effective_since(None, now));
}

#[test]
fn payload_path_for_chat() {
    let p = build_payload_path("slack", "C99/team-eng");
    assert_eq!(p, "slack/C99_team-eng.md");
}

#[test]
fn sidecar_path_and_id_for_chat() {
    assert_eq!(
        build_attachments_sidecar_path("slack", "C99/team-eng"),
        "slack/C99_team-eng.attachments.json"
    );
    assert_eq!(candidate_id("lark", "oc_1"), "lark:oc_1");
}

#[test]
fn default_block_round_trips_through_parser() {
    let conv = conv("C1", Some("eng"));
    let original = msg("om_1", 0, "Alice", "Hello\nworld");
    let block = default_message_block(&conv, &original);
    let map = parse_chat_payload(&format!("# header\n\n{block}"));
    let recovered = map.get("om_1").expect("message recovered");
    assert_eq!(recovered.sender.as_deref(), Some("Alice"));
    assert_eq!(recovered.text, "Hello\nworld");
    assert_eq!(recovered.timestamp, original.timestamp);
}

#[test]
fn a_block_tells_time_sender_and_id() {
    let block = default_message_block(&conv("C1", None), &msg("om_1", 0, "Alice", "Hi"));
    assert!(block.starts_with("## 2026-05-26T10:00:00Z — Alice"));
    assert!(block.contains("id:om_1"));
    assert!(parse_message_block("## broken").is_none());
}

#[test]
fn a_note_behind_the_id_is_no_part_of_it() {
    let map = parse_chat_payload(
        "# h\n\n## 2026-05-26T10:00:00Z — Bob · id:om_1 · post\n```\nsee attached\n```\n",
    );
    assert_eq!(map.by_id.entries.len(), 1);
    let read = map.get("om_1").expect("message recovered");
    assert_eq!(read.id, "om_1");
    assert_eq!(read.sender.as_deref(), Some("Bob"));
    assert_eq!(read.text, "see attached");
    let block = parse_message_block("## 2026-05-26T10:00:00Z — Bob · id: · post\n```\nx\n```\n");
    assert!(block.is_none(), "a note is no id");
}

#[test]
fn build_summary_picks_recent_senders() {
    let conv = conv("C1", Some("eng-frontend"));
    let messages = vec![
        msg("a", 0, "Dave", "old"),
        msg("b", 60, "Alice", "newer"),
        msg("c", 120, "Bob", "newest"),
        msg("d", 180, "Alice", "very newest"),
    ];
    let (title, _preview, sender) = build_candidate_summary(&conv, &messages);
    assert!(title.starts_with("eng-frontend · 4 messages"));
    assert_eq!(sender.as_deref(), Some("Alice, Bob, Dave"));
}

#[test]
fn previews_show_the_last_three_messages() {
    let messages = vec![
        msg("a", 0, "Dave", "old"),
        msg("b", 60, "Alice", "new\ner"),
        msg("c", 120, "Bob", "newest"),
        msg("d", 180, "Alice", "very newest"),
    ];
    let (_, preview, _) = build_candidate_summary(&conv("C1", None), &messages);
    assert_eq!(preview, "Alice: new er | Bob: newest | Alice: very newest");
    let (title, _, _) = build_candidate_summary(&conv("C1", None), &vec![msg("a", 0, "D", "x")]);
    assert_eq!(title, "C1 · 1 message");
    assert_eq!(truncate("äbc", 3), "äbc");
    assert_eq!(truncate("äbcd", 3).chars().count() <= 4, true);
}

#[test]
fn render_chat_payload_includes_anchors_when_present() {
    let conv = conv("C1", Some("eng"));
    let messages = vec![msg("a", 0, "Alice", "hi")];
    let rendered = render_chat_payload(
        &slack(),
        &conv,
        &messages,
        &vec!["om_aa".into(), "om_bb".into()],
    );
    assert!(rendered.contains("# slack chat — eng"));
    assert!(rendered.contains("- last_proposed_anchors: om_aa, om_bb"));
}

#[test]
fn a_rendered_file_is_read_back() {
    let conv = conv("C1", None);
    let messages = vec![msg("a", 0, "Alice", "hi"), msg("b", 5, "Bob", "there")];
    let rendered = render_chat_payload(&slack(), &conv, &messages, &vec![]);
    assert!(!rendered.contains("last_proposed_anchors"));
    let map = parse_chat_payload(&rendered);
    assert_eq!(map.get("a").unwrap().text, "hi");
    assert_eq!(map.get("b").unwrap().sender.as_deref(), Some("Bob"));
    assert!(map.get("c").is_none());
}

#[test]
fn trim_window_drops_old_messages_by_time() {
    let conv = conv("C1", None);
    let now = at(BASE);
    let mut old = msg("old", 0, "A", "ancient");
    old.timestamp = at(BASE - (WINDOW_DAYS + 1) * 86_400);
    let mut fresh = msg("fresh", 0, "B", "fresh");
    fresh.timestamp = at(BASE - 2 * 3_600);
    let messages = trim_window(vec![old, fresh], &slack(), &conv, now);
    assert_eq!(messages.len(), 1);
    assert_eq!(messages[0].id, "fresh");
}

#[test]
fn windows_are_bounded_in_number_and_size() {
    let conv = conv("C1", None);
    let now = at(BASE + 10_000);
    let many: Vec<ImMessage> = (0..250).map(|i| msg(&format!("m{i}"), i, "A", "x")).collect();
    let kept = trim_window(many, &slack(), &conv, now);
    assert_eq!(kept.len(), 200);
    assert_eq!(kept[0].id, "m50");
    let large = "y".repeat(200 * 1024);
    let two = vec![msg("a", 0, "A", &large), msg("b", 1, "A", &large)];
    let kept = trim_window(two, &slack(), &conv, now);
    assert_eq!(kept.len(), 1);
    assert_eq!(kept[0].id, "b");
}

#[test]
fn merging_tells_of_new_activity() {
    let mut map = MessageMap::new();
    map.put(msg("a", 10, "A", "old text"));
    let again = merge_messages(&mut map, vec![msg("a", 10, "A", "new text")]);
    assert!(!again);
    assert_eq!(map.get("a").unwrap().text, "new text");
    let mut gone = msg("z", 0, "A", "taken back");
    gone.deleted = true;
    assert!(!merge_messages(&mut map, vec![gone, msg("", 0, "A", "no id")]));
    assert!(merge_messages(&mut map, vec![msg("b", 5, "B", "first")]));
    let ids: Vec<String> = in_order(map).into_iter().map(|m| m.id).collect();
    assert_eq!(ids, vec!["b", "a"]);
}

fn row(decision: Option<&str>) -> CandidateRow {
    CandidateRow {
        id: "slack:C1".into(),
        source: "slack".into(),
        source_kind: "channel".into(),
        source_ref: "C1".into(),
        source_time: "2026-05-26T09:00:00Z".into(),
        sender: None,
        title: None,
        preview: None,
        external_url: None,
        payload_path: "slack/C1.md".into(),
        payload_bytes: 0,
        decision: decision.map(|d| d.to_string()),
    }
}

#[test]
fn new_activity_opens_a_decided_conversation() {
    let c = conv("C1", Some("eng"));
    let now = at(BASE + 100);
    let file = render_chat_payload(&slack(), &c, &vec![msg("a", 0, "A", "hi")], &vec![]);
    let plan = plan_ingest(
        &slack(),
        &c,
        &Some(row(Some("skip"))),
        &Some(file.clone()),
        vec![msg("b", 50, "B", "more")],
        &vec!["a".to_string()],
        now,
    )
    .unwrap();
    assert!(plan.reset_decision);
    assert_eq!(plan.payload_path, "slack/C1.md");
    assert_eq!(plan.candidate.id, "slack:C1");
    assert_eq!(plan.candidate.source_kind, "channel");
    assert_eq!(plan.candidate.payload_bytes, plan.payload.len() as u64);
    assert_eq!(plan.cursor.last_source_time.as_deref(), Some("2026-05-26T10:00:50Z"));
    assert!(plan.payload.contains("- last_proposed_anchors: a\n"));
    let again = plan_ingest(
        &slack(),
        &c,
        &Some(row(Some("skip"))),
        &Some(file),
        vec![msg("a", 0, "A", "hi")],
        &vec![],
        now,
    )
    .unwrap();
    assert!(!again.reset_decision);
    assert!(plan_ingest(&slack(), &c, &None, &None, vec![], &vec![], now).is_none());
}

#[test]
fn attachments_are_listed_with_their_messages() {
    let mut m = msg("a", 0, "A", "see");
    m.attachments = vec![ImAttachment {
        filename: "img.png".into(),
        local_path: "/s/img.png".into(),
        mime_type: Some("image/png".into()),
        bytes: 9,
        alt: None,
    }];
    let entries = attachment_entries(&vec![msg("x", 0, "A", "none"), m]);
    assert_eq!(entries.len(), 1);
    assert_eq!(entries[0].message_id, "a");
    assert_eq!(entries[0].local_path, "/s/img.png");
    assert_eq!(kept_filenames(&entries), vec!["img.png"]);
}

#[test]
fn summaries_count_what_was_written() {
    let mut s = FetchSummary::default();
    count_ingest(&mut s, false, UpsertOutcome::Inserted);
    count_ingest(&mut s, true, UpsertOutcome::UpdatedUnchanged);
    s.count(UpsertOutcome::SkippedDecided);
    s.count_scanned();
    assert_eq!((s.inserted, s.updated, s.skipped_decided, s.source_parents_scanned), (1, 2, 1, 1));
    let mut total = FetchSummary::default();
    total.merge(s);
    total.merge(s);
    assert_eq!((total.inserted, total.updated), (2, 4));
}

#[test]
fn the_rhythm_of_fetching() {
    assert_eq!(cold_start_cutoff(at(BASE)), at(BASE - 3 * 86_400));
    assert_eq!(cold_start_cutoff_ms(at(BASE)), (BASE - 3 * 86_400) * 1000);
    assert_eq!(wait_after(1_000), 299_000);
    assert_eq!(wait_after(400_000), 0);
    assert!(fires_after_fetch(true, true, true));
    assert!(!fires_after_fetch(true, false, true));
    assert!(!worth_a_warning("Another triage tick is in flight"));
    assert!(!worth_a_warning("Triage is disabled"));
    assert!(!worth_a_warning("Local LLM is not enabled"));
    assert!(worth_a_warning("Local LLM is not running"));
}

#[test]
fn fetchers_are_known_by_their_source() {
    assert_eq!(ImFetcher(slack()).source(), "slack");
    assert_eq!(slack().source(), "slack");
    assert_eq!(ImConversationKind::GroupDm.as_source_kind(), "group_dm");
    assert_eq!(ImConversationKind::PrivateChannel.as_source_kind(), "private_channel");
    assert_eq!(conv("C1", None).shown_label(), "C1");
    assert!(parse("{").is_none());
}

#[test]
fn a_fetch_looks_at_thirty_conversations() {
    let found: Vec<ImConversation> = (0..35).map(|i| conv(&format!("C{i}"), None)).collect();
    let scanned = conversations_to_scan(found);
    assert_eq!(scanned.len(), 30);
    assert_eq!(scanned[29].id, "C29");
    assert_eq!(conversations_to_scan(vec![conv("C1", None)]).len(), 1);
}
