use helmor_triage::triage::attachments::{
    find_staged_by_stem, guess_image_mime, inline_preview, move_into_store, prune_candidate_staging,
    resolve_attachment_url, sanitize_segment, staging_dir, staging_path, store_dir_for_workspace,
    store_root, wants_preview, FileMeta, MovedAttachment, StagedFile, INLINE_PREVIEW_MAX_BYTES,
};
use helmor_triage::triage::im::ingest::AttachmentEntry;
use helmor_triage::triage::priming::{
    combine_prefixes, extract_plan_text, load_priming_prefix_for_session,
    mark_consumed_for_session, priming_content, wrap_priming, WorkspacePriming,
};
use helmor_triage::triage::workspace_factory::{
    create_ai_workspace, render_plan_with_attachments, CreateAiWorkspaceParams,
    CreateAiWorkspaceResult, CreateInput, CreateWork,
};

fn params() -> CreateAiWorkspaceParams {
    CreateAiWorkspaceParams {
        source_type: "lark".into(),
        source_ref: "oc_1:om_1".into(),
        candidate_source_ref: "oc_1".into(),
        task_anchor: "om_1".into(),
        repo_id: "r".into(),
        plan_message: "the plan".into(),
        title: " Title ".into(),
        branch_name: " slug ".into(),
    }
}

fn made() -> CreateAiWorkspaceResult {
    CreateAiWorkspaceResult { workspace_id: "w".into(), session_id: "s".into() }
}

fn entry(message_id: &str, alt: Option<&str>) -> AttachmentEntry {
    AttachmentEntry {
        message_id: message_id.into(),
        filename: "a.png".into(),
        local_path: format!("/stage/{message_id}.png"),
        mime_type: None,
        bytes: 1,
        alt: alt.map(|a| a.to_string()),
    }
}

fn moved(name: &str) -> MovedAttachment {
    move_into_store("/data", &format!("/stage/{name}"), "w").ok().unwrap()
}

#[test]
fn a_workspace_is_made_step_by_step() {
    let (mut run, work) = create_ai_workspace(params());
    assert!(matches!(work, CreateWork::FindExisting { ref source_ref, .. } if source_ref == "oc_1:om_1"));
    let work = run.step(CreateInput::Existing(Ok(None)));
    assert!(matches!(work, CreateWork::Prepare { ref repo_id } if repo_id == "r"));
    let work = run.step(CreateInput::Prepared(Ok(made())));
    assert!(matches!(work, CreateWork::Finalize { ref workspace_id } if workspace_id == "w"));
    let work = run.step(CreateInput::Finalized(Ok(())));
    assert!(matches!(work, CreateWork::Mark { ref kind, .. } if kind == "ai_triage"));
    let work = run.step(CreateInput::Marked(Ok(())));
    assert!(matches!(work, CreateWork::RenameSession { ref title, .. } if title == "Title"));
    let work = run.step(CreateInput::Tried);
    assert!(matches!(work, CreateWork::RenameBranch { ref slug, .. } if slug == "slug"));
    let work = run.step(CreateInput::Tried);
    assert!(matches!(work, CreateWork::ListAttachments { ref conv_id, .. } if conv_id == "oc_1"));
    let work = run.step(CreateInput::Listed(vec![
        entry("om_1", Some("shot")),
        entry("om_2", None),
    ]));
    assert!(matches!(work, CreateWork::MoveAttachments { ref paths, .. } if *paths == vec!["/stage/om_1.png"]));
    let work = run.step(CreateInput::Moved(vec![Some(moved("om_1.png"))]));
    let content = match work {
        CreateWork::InsertPriming { session_id, content } => {
            assert_eq!(session_id, "s");
            content
        }
        _ => panic!("expected the priming message"),
    };
    let plan = extract_plan_text(&content).unwrap();
    assert_eq!(
        plan,
        "the plan\n\n## Attachments\n- ![shot](helmor-attachment://w/om_1.png) — `/data/triage/attachments/w/om_1.png`\n"
    );
    let work = run.step(CreateInput::Inserted(Ok(())));
    assert!(matches!(work, CreateWork::Finish(Ok(ref m)) if m.workspace_id == "w" && m.session_id == "s"));
}

#[test]
fn parameters_are_checked_first() {
    let fail = |p: CreateAiWorkspaceParams| match create_ai_workspace(p).1 {
        CreateWork::Finish(Err(e)) => e,
        _ => panic!("expected an error"),
    };
    assert_eq!(fail(CreateAiWorkspaceParams { source_type: " ".into(), ..params() }), "source_type is empty");
    assert_eq!(fail(CreateAiWorkspaceParams { source_ref: "".into(), ..params() }), "source_ref is empty");
    assert_eq!(fail(CreateAiWorkspaceParams { repo_id: "\n".into(), ..params() }), "repo_id is empty");
}

fn error_of(work: CreateWork) -> String {
    match work {
        CreateWork::Finish(Err(e)) => e,
        _ => panic!("expected an error"),
    }
}

#[test]
fn a_source_has_one_workspace() {
    let (mut run, _) = create_ai_workspace(params());
    assert_eq!(
        error_of(run.step(CreateInput::Existing(Ok(Some("w9".into()))))),
        "triage source already mapped to workspace w9 (lark/oc_1:om_1)"
    );
}

#[test]
fn unfinished_workspaces_are_cleaned_up() {
    let (mut run, _) = create_ai_workspace(params());
    run.step(CreateInput::Existing(Ok(None)));
    run.step(CreateInput::Prepared(Ok(made())));
    let work = run.step(CreateInput::Finalized(Err("no disk".into())));
    assert!(matches!(work, CreateWork::CleanUp { ref workspace_id } if workspace_id == "w"));
    assert_eq!(
        error_of(run.step(CreateInput::Tried)),
        "finalize_workspace_from_repo: no disk"
    );
}

#[test]
fn failures_say_what_was_done() {
    let (mut run, _) = create_ai_workspace(params());
    assert_eq!(error_of(run.step(CreateInput::Existing(Err("db".into())))), "db");
    let (mut run, _) = create_ai_workspace(params());
    run.step(CreateInput::Existing(Ok(None)));
    assert_eq!(
        error_of(run.step(CreateInput::Prepared(Err("x".into())))),
        "prepare_workspace_from_repo: x"
    );
    let (mut run, _) = create_ai_workspace(params());
    run.step(CreateInput::Existing(Ok(None)));
    run.step(CreateInput::Prepared(Ok(made())));
    run.step(CreateInput::Finalized(Ok(())));
    let work = run.step(CreateInput::Marked(Err("x".into())));
    assert!(matches!(work, CreateWork::CleanUp { ref workspace_id } if workspace_id == "w"));
    assert_eq!(
        error_of(run.step(CreateInput::Tried)),
        "update workspaces.kind + triage source: x"
    );
}

#[test]
fn forge_workspaces_have_no_attachments_or_titles_to_look_for() {
    let (mut run, _) = create_ai_workspace(CreateAiWorkspaceParams {
        source_type: "gitlab".into(),
        title: " ".into(),
        branch_name: "".into(),
        ..params()
    });
    run.step(CreateInput::Existing(Ok(None)));
    run.step(CreateInput::Prepared(Ok(made())));
    run.step(CreateInput::Finalized(Ok(())));
    let work = run.step(CreateInput::Marked(Ok(())));
    assert!(matches!(work, CreateWork::InsertPriming { .. }));
    let work = run.step(CreateInput::Inserted(Err("full".into())));
    assert!(matches!(work, CreateWork::CleanUp { ref workspace_id } if workspace_id == "w"));
    assert_eq!(error_of(run.step(CreateInput::Tried)), "insert priming message: full");
}

#[test]
fn files_that_cannot_be_moved_are_left_out() {
    let entries = vec![entry("a", None), entry("b", None)];
    assert_eq!(render_plan_with_attachments("p", &entries, &vec![None, None]), "p");
    let plan = render_plan_with_attachments("p", &entries, &vec![None, Some(moved("b c.png"))]);
    assert_eq!(
        plan,
        "p\n\n## Attachments\n- ![b_c.png](helmor-attachment://w/b_c.png) — `/data/triage/attachments/w/b_c.png`\n"
    );
}

#[test]
fn priming_is_handed_over_once() {
    let raw = priming_content("do it");
    assert_eq!(
        raw,
        r#"{"message":{"content":[{"text":"do it","type":"text"}]},"type":"assistant"}"#
    );
    let mut w = Some(WorkspacePriming { kind: "ai_triage".into(), consumed: 0 });
    let prefix = load_priming_prefix_for_session(&w, Some(raw.clone())).unwrap();
    assert_eq!(prefix, wrap_priming("do it"));
    assert!(prefix.starts_with("<discovered-context>\ndo it\n</discovered-context>\n\nThe user"));
    assert!(mark_consumed_for_session(&mut w));
    assert!(!mark_consumed_for_session(&mut w));
    assert_eq!(w.as_ref().unwrap().kind, "manual");
    assert!(load_priming_prefix_for_session(&w, Some(raw)).is_none());
    assert!(!mark_consumed_for_session(&mut None));
}

#[test]
fn only_unconsumed_triage_workspaces_are_primed() {
    let w = Some(WorkspacePriming { kind: "ai_triage".into(), consumed: 0 });
    assert_eq!(
        load_priming_prefix_for_session(&w, Some("no json".into())).unwrap(),
        wrap_priming("no json")
    );
    assert!(load_priming_prefix_for_session(&w, Some(" \n".into())).is_none());
    assert!(load_priming_prefix_for_session(&w, None).is_none());
    assert!(load_priming_prefix_for_session(&None, Some("x".into())).is_none());
    let manual = Some(WorkspacePriming { kind: "manual".into(), consumed: 0 });
    assert!(load_priming_prefix_for_session(&manual, Some("x".into())).is_none());
}

#[test]
fn plans_are_the_text_blocks_of_a_message() {
    let raw = r#"{"message":{"content":[{"type":"text","text":"a"},{"type":"image"},{"type":"text","text":"b"}]}}"#;
    assert_eq!(extract_plan_text(raw).as_deref(), Some("a\n\nb"));
    assert!(extract_plan_text(r#"{"message":{"content":[]}}"#).is_none());
    assert!(extract_plan_text(r#"{"message":"x"}"#).is_none());
    assert!(extract_plan_text("{").is_none());
}

#[test]
fn priming_comes_before_other_prefixes() {
    let s = |t: &str| Some(t.to_string());
    assert_eq!(combine_prefixes(s("p"), s("e")).as_deref(), Some("p\n\ne"));
    assert_eq!(combine_prefixes(s("p"), None).as_deref(), Some("p"));
    assert_eq!(combine_prefixes(None, s("e")).as_deref(), Some("e"));
    assert!(combine_prefixes(None, None).is_none());
}

#[test]
fn files_are_staged_below_their_candidate() {
    assert_eq!(store_root("/data"), "/data/triage/attachments");
    assert_eq!(store_dir_for_workspace("/data", "w"), "/data/triage/attachments/w");
    assert_eq!(
        staging_dir("/data", "lark", "oc/1"),
        "/data/triage/attachments-staging/lark/oc_1"
    );
    assert_eq!(
        staging_path("/data", "lark", "oc_1", "a b.png"),
        "/data/triage/attachments-staging/lark/oc_1/a_b.png"
    );
    assert_eq!(sanitize_segment(&"é".repeat(100)).len(), 80);
}

#[test]
fn urls_lead_to_stored_files_alone() {
    let m = moved("shot.png");
    assert_eq!(m.url, "helmor-attachment://w/shot.png");
    assert_eq!(resolve_attachment_url("/data", &m.url), Some(m.absolute_path));
    for bad in [
        "https://w/shot.png",
        "helmor-attachment://w",
        "helmor-attachment:///shot.png",
        "helmor-attachment://w/",
        "helmor-attachment://../shot.png",
        "helmor-attachment://w/..",
        "helmor-attachment://w/a/b.png",
    ] {
        assert!(resolve_attachment_url("/data", bad).is_none(), "{bad}");
    }
    let m = moved("a..b...png");
    assert_eq!(m.filename, "a._b.__png");
    assert_eq!(m.url, "helmor-attachment://w/a._b.__png");
    assert_eq!(m.absolute_path, "/data/triage/attachments/w/a._b.__png");
    assert_eq!(resolve_attachment_url("/data", &m.url), Some(m.absolute_path));
    assert_eq!(
        move_into_store("/data", "/", "w").err().as_deref(),
        Some("source path has no filename: /")
    );
}

#[test]
fn previews_are_small_images_in_base64() {
    let meta = Some(FileMeta { is_file: true, len: 3 });
    let p = inline_preview("/s/a.PNG", meta, b"abc").unwrap();
    assert_eq!(p.data_base64, "YWJj");
    assert_eq!(p.mime_type, "image/png");
    assert_eq!(inline_preview("/s/a.jpg", meta, b"ab").unwrap().data_base64, "YWI=");
    let bytes = [0xffu8, 0xef, 0xbe, 0xfb, 0x00, 0x10, 0x83];
    assert_eq!(inline_preview("/s/a.jpg", meta, &bytes).unwrap().data_base64, "/++++wAQgw==");
    assert!(inline_preview("/s/a.txt", meta, b"abc").is_none());
    assert!(inline_preview("/s/a.png", None, b"abc").is_none());
    let large = Some(FileMeta { is_file: true, len: INLINE_PREVIEW_MAX_BYTES + 1 });
    assert!(!wants_preview("/s/a.png", large));
    assert!(!wants_preview("/s/a.png", Some(FileMeta { is_file: false, len: 3 })));
    assert_eq!(guess_image_mime("x.jpeg"), Some("image/jpeg"));
    assert_eq!(guess_image_mime("x.webp"), Some("image/webp"));
    assert_eq!(guess_image_mime("x.gif"), Some("image/gif"));
    assert_eq!(guess_image_mime("x.bmp"), Some("image/bmp"));
    assert_eq!(guess_image_mime(".png"), None);
}

#[test]
fn staged_files_are_found_by_their_stem_and_pruned() {
    let file = |name: &str, len: Option<u64>| StagedFile { name: name.into(), len };
    let found = vec![
        file("img_1.bin", Some(0)),
        file("img_1.png", Some(7)),
        file("img_1.gif", Some(9)),
        file(".img_2", Some(1)),
        file("img_3", None),
    ];
    assert_eq!(find_staged_by_stem(&found, "img_1"), Some(("img_1.png".to_string(), 7)));
    assert_eq!(find_staged_by_stem(&found, ".img_2"), Some((".img_2".to_string(), 1)));
    assert!(find_staged_by_stem(&found, "img_3").is_none());
    let names = vec!["a".to_string(), "b".to_string(), "c".to_string()];
    assert_eq!(prune_candidate_staging(&names, &vec!["b".to_string()]), vec!["a", "c"]);
}
