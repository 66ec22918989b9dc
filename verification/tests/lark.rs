use helmor_triage::json::{parse, Json};
use helmor_triage::time::Timestamp;
use helmor_triage::triage::im::images::{
    download_attachments, ImageInput, ImageWork, StagedImage,
};
use helmor_triage::triage::im::lark::{
    build_dm_conversations, collect_chat_ids, discovery_searches, ext_for_mime,
    extract_attachment_placeholders, fetched_attachment, merge_discovery, messages_from,
    page_size, parse_chat_list, parse_create_time, parse_messages, sniff_image_mime,
    staged_attachment, to_im_conversation, to_im_message, Fetched, LarkBackend, MessageRecord,
};
use helmor_triage::triage::im::payload::{parse_chat_payload, ImBackend};
use helmor_triage::triage::im::types::{
    ImAttachment, ImConversation, ImConversationKind, ImMessage,
};

fn json(s: &str) -> Json {
    parse(s).expect("a JSON text")
}

// 2026-05-26T10:00:00Z
fn base() -> Timestamp {
    Timestamp { secs: 1_779_789_600, nanos: 0 }
}

#[test]
fn collect_chat_ids_dedupes_across_calls() {
    let raw1 = json(
        r#"{ "data": { "messages": [
            { "message_id": "om_1", "chat_id": "oc_a" },
            { "message_id": "om_2", "chat_id": "oc_b" }
        ] } }"#,
    );
    let raw2 = json(
        r#"{ "data": { "messages": [
            { "message_id": "om_3", "chat_id": "oc_a" },
            { "message_id": "om_4", "chat_id": "oc_c" }
        ] } }"#,
    );
    let mut sink: Vec<String> = Vec::new();
    collect_chat_ids(&raw1, &mut sink);
    collect_chat_ids(&raw2, &mut sink);
    assert_eq!(sink.len(), 3);
    assert!(sink.iter().any(|s| s == "oc_a"));
    assert!(sink.iter().any(|s| s == "oc_b"));
    assert!(sink.iter().any(|s| s == "oc_c"));
}

#[test]
fn parse_chat_list_maps_all_rows_to_channel() {
    let raw = json(
        r#"{ "data": { "items": [
            { "chat_id": "oc_a", "name": "eng" },
            { "chat_id": "oc_b", "name": "leads" }
        ] } }"#,
    );
    let rows = parse_chat_list(&raw);
    assert_eq!(rows.len(), 2);
    let convs: Vec<_> = rows.into_iter().map(to_im_conversation).collect();
    assert_eq!(convs[0].kind, ImConversationKind::Channel);
    assert_eq!(convs[1].kind, ImConversationKind::Channel);
}

#[test]
fn build_dm_conversations_labels_with_counterpart_name() {
    let raw = json(
        r#"{ "data": { "messages": [
            { "message_id": "om_1", "chat_id": "oc_alice",
              "sender": { "id": "ou_me", "name": "me" } },
            { "message_id": "om_2", "chat_id": "oc_alice",
              "sender": { "id": "ou_alice", "name": "Alice" } },
            { "message_id": "om_3", "chat_id": "oc_bob",
              "sender": { "id": "ou_bob", "name": "Bob" } }
        ] } }"#,
    );
    let convs = build_dm_conversations(&raw, "ou_me");
    assert_eq!(convs.len(), 2);
    let alice = convs.iter().find(|c| c.id == "oc_alice").unwrap();
    assert_eq!(alice.kind, ImConversationKind::Dm);
    assert_eq!(alice.label.as_deref(), Some("Alice"));
    let bob = convs.iter().find(|c| c.id == "oc_bob").unwrap();
    assert_eq!(bob.label.as_deref(), Some("Bob"));
}

#[test]
fn parses_messages_envelope_and_maps_to_im_message() {
    let raw = json(
        r#"{ "data": { "messages": [ {
            "message_id": "om_111",
            "msg_type": "text",
            "create_time": "1735000000000",
            "content": "麻烦帮忙看下登录bug",
            "sender": { "id": "ou_z", "name": "Bob" }
        } ] } }"#,
    );
    let msgs = parse_messages(&raw);
    let im_msg = to_im_message(msgs.into_iter().next().unwrap(), base()).unwrap();
    assert_eq!(im_msg.id, "om_111");
    assert_eq!(im_msg.sender.as_deref(), Some("Bob"));
    assert_eq!(im_msg.text, "麻烦帮忙看下登录bug");
    assert_eq!(messages_from(&raw, base()).len(), 1);
}

#[test]
fn parses_lark_millis_string() {
    let dt = parse_create_time(Some("1735000000000")).unwrap();
    assert_eq!(dt.millis(), 1735000000000);
}

#[test]
fn deleted_messages_are_dropped() {
    let m = MessageRecord {
        message_id: Some("om_x".into()),
        deleted: Some(true),
        ..Default::default()
    };
    assert!(to_im_message(m, base()).is_none());
}

fn lark_conv(raw: &str) -> ImConversation {
    ImConversation {
        id: "oc_x".into(),
        label: Some("eng".into()),
        kind: ImConversationKind::Channel,
        raw: json(raw),
    }
}

fn lark_msg(text: &str, raw: &str) -> ImMessage {
    ImMessage {
        id: "om_1".into(),
        timestamp: base(),
        sender: Some("Bob".into()),
        text: text.into(),
        external_url: None,
        deleted: false,
        attachments: Vec::new(),
        raw: json(raw),
    }
}

#[test]
fn render_message_block_includes_msg_type_for_non_text() {
    let conv = lark_conv(r#"{ "chat_mode": "group" }"#);
    let msg = lark_msg("see attached", r#"{ "msg_type": "post" }"#);
    let rendered = LarkBackend.render_message_block(&conv, &msg);
    assert!(rendered.contains("· post"));
    assert!(rendered.contains("```\nsee attached\n```"));
}

#[test]
fn render_message_block_omits_msg_type_for_plain_text() {
    let conv = ImConversation { label: None, ..lark_conv("{}") };
    let msg = lark_msg("hi", r#"{ "msg_type": "text" }"#);
    let rendered = LarkBackend.render_message_block(&conv, &msg);
    assert!(!rendered.contains("· text"));
}

#[test]
fn typed_blocks_are_read_back_under_the_message_id() {
    let conv = lark_conv("{}");
    let msg = lark_msg("see attached", r#"{ "msg_type": "post" }"#);
    let block = LarkBackend.render_message_block(&conv, &msg);
    assert!(block.starts_with("## 2026-05-26T10:00:00Z — Bob · id:om_1 · post\n"));
    let map = parse_chat_payload(&format!("# h\n\n{block}"));
    assert_eq!(map.by_id.entries.len(), 1);
    let read = map.get("om_1").expect("message recovered");
    assert_eq!(read.id, "om_1");
    assert_eq!(read.sender.as_deref(), Some("Bob"));
    assert_eq!(read.text, "see attached");
    assert_eq!(read.timestamp, base());
}

#[test]
fn extract_attachment_placeholders_handles_multiple_images() {
    let text = "see this [Image: img_v3_aaa] and that [Image: img_v3_bbb] please";
    let atts = extract_attachment_placeholders(text);
    assert_eq!(atts.len(), 2);
    assert_eq!(atts[0].alt.as_deref(), Some("img_v3_aaa"));
    assert_eq!(atts[1].alt.as_deref(), Some("img_v3_bbb"));
    assert_eq!(atts[0].filename, "img_v3_aaa.bin");
}

#[test]
fn images_lie_in_the_staging_directory_whatever_their_key() {
    let atts = extract_attachment_placeholders("[Image: ../up/x] [Image: /etc/y]");
    assert_eq!(atts[0].filename, "..]up]x.bin");
    assert_eq!(atts[0].alt.as_deref(), Some("../up/x"));
    assert_eq!(atts[1].filename, "]etc]y.bin");
    let png = [0x89, b'P', b'N', b'G'];
    match fetched_attachment(&atts[0], "../up/x", "/stage", 4, &png) {
        Fetched::Keep { attachment, rename_from } => {
            assert_eq!(attachment.filename, "..]up]x.png");
            assert_eq!(attachment.local_path, "/stage/..]up]x.png");
            assert_eq!(rename_from.as_deref(), Some("/stage/..]up]x.bin"));
        }
        Fetched::Remove(_) => panic!("the image is not empty"),
    }
    let apart = extract_attachment_placeholders("[Image: a/b] [Image: a_b]");
    assert_eq!(apart[0].filename, "a]b.bin");
    assert_eq!(apart[1].filename, "a_b.bin");
    let (_, work) = download_attachments("om_1".into(), "/stage".into(), atts);
    assert!(matches!(work, ImageWork::Look { ref stem } if stem == "..]up]x"));
}

#[test]
fn extract_attachment_placeholders_skips_unclosed() {
    let text = "broken [Image: img_v3_xxx";
    let atts = extract_attachment_placeholders(text);
    assert!(atts.is_empty());
}

#[test]
fn discovery_asks_for_three_kinds_of_messages() {
    let (sent, mentions, p2p) = discovery_searches("ou_me", base());
    assert_eq!(sent.sender.as_deref(), Some("ou_me"));
    assert!(mentions.is_at_me);
    assert_eq!(p2p.chat_type.as_deref(), Some("p2p"));
    assert_eq!(p2p.start, "2026-05-23T10:00:00Z");
    assert_eq!(page_size(50), 50);
}

#[test]
fn discovery_merges_channels_and_direct_messages() {
    let sent = json(r#"{ "data": { "messages": [ { "message_id": "1", "chat_id": "oc_a" } ] } }"#);
    let none = json("{}");
    let p2p = json(
        r#"{ "data": { "messages": [ { "message_id": "2", "chat_id": "oc_bob",
            "sender": { "id": "ou_bob", "name": "Bob" } } ] } }"#,
    );
    let chats = json(
        r#"{ "data": { "items": [ { "chat_id": "oc_a", "name": "eng" },
            { "chat_id": "oc_quiet", "name": "quiet" } ] } }"#,
    );
    let convs = merge_discovery(&sent, &none, &p2p, &chats, "ou_me");
    let ids: Vec<&str> = convs.iter().map(|c| c.id.as_str()).collect();
    assert!(ids.contains(&"oc_a"));
    assert!(ids.contains(&"oc_bob"));
    assert!(!ids.contains(&"oc_quiet"));
    assert_eq!(ids.len(), 2);
}

#[test]
fn images_are_known_by_their_first_bytes() {
    assert_eq!(sniff_image_mime(&[0x89, b'P', b'N', b'G', 0, 0]), Some("image/png"));
    assert_eq!(sniff_image_mime(&[0xff, 0xd8, 0xff, 0xe0]), Some("image/jpeg"));
    assert_eq!(sniff_image_mime(b"GIF89a"), Some("image/gif"));
    assert_eq!(sniff_image_mime(b"RIFF0000WEBP"), Some("image/webp"));
    assert_eq!(sniff_image_mime(b"plain text"), None);
    assert_eq!(ext_for_mime("image/png"), ".png");
}

#[test]
fn fetched_images_get_the_extension_of_their_kind() {
    let att = extract_attachment_placeholders("[Image: img_1]").pop().unwrap();
    match fetched_attachment(&att, "img_1", "/stage", 9, &[0x89, b'P', b'N', b'G']) {
        Fetched::Keep { attachment, rename_from } => {
            assert_eq!(attachment.filename, "img_1.png");
            assert_eq!(attachment.local_path, "/stage/img_1.png");
            assert_eq!(attachment.mime_type.as_deref(), Some("image/png"));
            assert_eq!(rename_from.as_deref(), Some("/stage/img_1.bin"));
        }
        Fetched::Remove(_) => panic!("an image that is not empty is kept"),
    }
    assert!(matches!(
        fetched_attachment(&att, "img_1", "/stage", 0, &[]),
        Fetched::Remove(ref p) if p == "/stage/img_1.bin"
    ));
    let staged = staged_attachment(&att, "/stage/img_1.gif", 5, b"GIF87a");
    assert_eq!(staged.filename, "img_1.gif");
    assert_eq!(staged.bytes, 5);
}

fn placeholder(key: Option<&str>) -> ImAttachment {
    ImAttachment {
        filename: format!("{}.bin", key.unwrap_or("none")),
        local_path: String::new(),
        mime_type: None,
        bytes: 0,
        alt: key.map(str::to_string),
    }
}

#[test]
fn images_are_fetched_one_after_the_other() {
    let wanted = vec![
        placeholder(None),
        placeholder(Some("a")),
        placeholder(Some("b")),
        placeholder(Some("c")),
        placeholder(Some("d")),
    ];
    let (mut run, work) = download_attachments("om_1".into(), "/s".into(), wanted);
    assert!(matches!(work, ImageWork::Look { ref stem } if stem == "a"));
    let staged = StagedImage { path: "/s/a.gif".into(), bytes: 7, head: b"GIF89a".to_vec() };
    let work = run.step(ImageInput::Staged(Some(staged)));
    assert!(matches!(work, ImageWork::Look { ref stem } if stem == "b"));
    match run.step(ImageInput::Staged(None)) {
        ImageWork::Fetch { message_id, key, staging, name } => {
            assert_eq!((message_id.as_str(), key.as_str()), ("om_1", "b"));
            assert_eq!((staging.as_str(), name.as_str()), ("/s", "b.bin"));
        }
        _ => panic!("an image that is not staged is fetched"),
    }
    let work = run.step(ImageInput::Fetched(true));
    assert!(matches!(work, ImageWork::Inspect { ref path } if path == "/s/b.bin"));
    match run.step(ImageInput::Inspected(Some((9, vec![0xff, 0xd8, 0xff])))) {
        ImageWork::Rename { from, to } => {
            assert_eq!((from.as_str(), to.as_str()), ("/s/b.bin", "/s/b.jpg"));
        }
        _ => panic!("an image gets the extension of its kind"),
    }
    let work = run.step(ImageInput::Tried);
    assert!(matches!(work, ImageWork::Look { ref stem } if stem == "c"));
    run.step(ImageInput::Staged(None));
    run.step(ImageInput::Fetched(true));
    let work = run.step(ImageInput::Inspected(Some((0, Vec::new()))));
    assert!(matches!(work, ImageWork::Remove { ref path } if path == "/s/c.bin"));
    let work = run.step(ImageInput::Tried);
    assert!(matches!(work, ImageWork::Look { ref stem } if stem == "d"));
    run.step(ImageInput::Staged(None));
    match run.step(ImageInput::Fetched(false)) {
        ImageWork::Finish(kept) => {
            let names: Vec<&str> = kept.iter().map(|a| a.filename.as_str()).collect();
            assert_eq!(names, vec!["a.gif", "b.jpg"]);
            assert_eq!(kept[1].bytes, 9);
        }
        _ => panic!("the last image ends the fetching"),
    }
}

#[test]
fn a_message_without_keys_has_nothing_to_fetch() {
    let (_, work) = download_attachments("m".into(), "/s".into(), vec![placeholder(None)]);
    assert!(matches!(work, ImageWork::Finish(ref kept) if kept.is_empty()));
}
