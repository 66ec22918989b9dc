use helmor_triage::time::Timestamp;
use helmor_triage::triage::fetcher::Fetcher;
use helmor_triage::triage::gitlab::{
    build_payload_path, build_repo_targets, candidate_id, detail_body, detail_request, ingest_item,
    list_request,
    minimal_payload, parent_from_external_id, recent_items, render_issue, render_mr,
    source_kind_for, GitlabFetcher, InboxItem, InboxSource, IssueDetail, ItemDetail,
    MergeRequestDetail, ParsedRemote, RepoCandidate, RepoTarget, SeenTargets, PER_REPO_LIMIT,
};
use helmor_triage::triage::repos::{list_repos_payload, RepoRow};

#[test]
fn parent_extraction_gitlab() {
    assert_eq!(parent_from_external_id("group/proj#42"), "group/proj");
    assert_eq!(
        parent_from_external_id("group/sub/proj#1"),
        "group/sub/proj"
    );
}

#[test]
fn repo_target_dedupe_distinguishes_host_and_subgroup() {
    let mut seen = SeenTargets::new();
    let a: (String, String, String) = (
        "alice".into(),
        "gitlab.com".into(),
        "platform/tools/api".into(),
    );
    let b = ("alice".into(), "gitlab.com".into(), "platform/api".into());
    let c = (
        "alice".into(),
        "gitlab.example.com".into(),
        "platform/tools/api".into(),
    );
    assert!(seen.insert(a.clone()));
    assert!(seen.insert(b));
    assert!(seen.insert(c));
    // Re-inserting `a` is a no-op.
    assert!(!seen.insert(a));
}

fn repo(login: Option<&str>, provider: &str, host: &str, namespace: &str) -> RepoCandidate {
    RepoCandidate {
        row: RepoRow {
            id: "r".into(),
            name: "n".into(),
            remote_url: Some(format!("https://{host}/{namespace}/api")),
            forge_provider: Some(provider.into()),
            forge_login: login.map(|l| l.to_string()),
        },
        parsed: Some(ParsedRemote {
            host: host.into(),
            namespace: namespace.into(),
            repo: "api".into(),
        }),
    }
}

#[test]
fn repositories_are_asked_for_open_work() {
    let asked = list_request(&RepoTarget {
        login: "alice".into(),
        host: "git.example.com".into(),
        owner_path: "group/sub/api".into(),
    });
    assert_eq!(asked.login, "alice");
    assert_eq!(asked.host, "git.example.com");
    assert_eq!(asked.owner_path, "group/sub/api");
    assert!(asked.issues && asked.merge_requests && !asked.discussions);
    assert!(asked.open && !asked.drafts);
    assert_eq!(asked.limit, PER_REPO_LIMIT);
    assert_eq!(PER_REPO_LIMIT, 50);
}

#[test]
fn details_are_asked_of_the_repository_s_own_host() {
    let target = RepoTarget {
        login: "alice".into(),
        host: "git.example.com".into(),
        owner_path: "group/sub/api".into(),
    };
    let asked = detail_request(&target, &item(0));
    assert_eq!(asked.login, "alice");
    assert_eq!(asked.host, "git.example.com");
    assert_eq!(asked.external_id, "group/proj#42");
    assert!(asked.source == InboxSource::GitlabIssue);
}

#[test]
fn targets_are_gitlab_repositories_looked_at_once() {
    let mut no_url = repo(Some("alice"), "gitlab", "gitlab.com", "x");
    no_url.row.remote_url = None;
    let targets = build_repo_targets(&vec![
        repo(Some("alice"), "gitlab", "gitlab.com", "platform/tools"),
        repo(Some("ALICE"), "gitlab", "GitLab.com", "Platform/Tools"),
        repo(Some("alice"), "gitlab", "gitlab.com", "platform"),
        repo(Some("alice"), "github", "gitlab.com", "other"),
        repo(Some("  "), "gitlab", "gitlab.com", "other"),
        repo(None, "gitlab", "gitlab.com", "other"),
        no_url,
    ]);
    let paths: Vec<&str> = targets.iter().map(|t| t.owner_path.as_str()).collect();
    assert_eq!(paths, vec!["platform/tools/api", "platform/api"]);
    assert_eq!(targets[0].login, "alice");
}

fn item(last_activity_at: i64) -> InboxItem {
    InboxItem {
        source: InboxSource::GitlabIssue,
        external_id: "group/proj#42".into(),
        external_url: "https://gitlab.com/group/proj/-/issues/42".into(),
        title: "It breaks".into(),
        subtitle: Some("bob".into()),
        last_activity_at,
    }
}

#[test]
fn only_recent_items_count() {
    let kept = recent_items(vec![item(5), item(10), item(11)], 10);
    assert_eq!(kept.len(), 2);
    assert_eq!(kept[0].last_activity_at, 10);
}

#[test]
fn items_become_candidates() {
    let now = Timestamp { secs: 7, nanos: 0 };
    let c = ingest_item(&item(1_500), now, None, 12);
    assert_eq!(c.id, "gitlab:group/proj#42");
    assert_eq!(c.source_kind, "issue");
    assert_eq!(c.source_time, Timestamp { secs: 1, nanos: 500_000_000 });
    assert_eq!(c.payload_path, "gitlab/group_proj/group_proj_42.md");
    assert_eq!(c.payload_bytes, 12);
    let known = ingest_item(&item(i64::MAX), now, Some("old.md".into()), 12);
    assert_eq!(known.payload_path, "old.md");
    assert_eq!(known.payload_bytes, 0);
    assert_eq!(known.source_time, now);
    assert_eq!(candidate_id(&item(0)), c.id);
    assert_eq!(build_payload_path("g/p", "g/p#1"), "gitlab/g_p/g_p_1.md");
    assert_eq!(source_kind_for(InboxSource::GitlabMr), "mr");
    assert_eq!(source_kind_for(InboxSource::Other), "other");
    assert_eq!(GitlabFetcher.source(), "gitlab");
}

#[test]
fn payloads_show_what_is_known() {
    assert_eq!(
        minimal_payload(&item(0)),
        "# It breaks\n\n- external_id: group/proj#42\n- url: https://gitlab.com/group/proj/-/issues/42\n- (detail unavailable)\n"
    );
    let issue = IssueDetail {
        external_id: "g/p#1".into(),
        title: "T".into(),
        state: "opened".into(),
        author_login: Some("bob".into()),
        created_at: None,
        updated_at: Some("today".into()),
        url: "u".into(),
        body: None,
    };
    let text = "# Issue g/p#1 — T\n\n- state: opened\n- author: bob\n- updated: today\n- url: u\n\n---\n\n(no body)\n";
    assert_eq!(render_issue(&issue), text);
    assert_eq!(detail_body(&item(0), &ItemDetail::Issue(issue)), text);
    let mr = MergeRequestDetail {
        external_id: "g/p!1".into(),
        title: "T".into(),
        state: "opened".into(),
        merged: false,
        draft: true,
        author_login: None,
        source_branch: Some("a".into()),
        target_branch: Some("b".into()),
        updated_at: None,
        url: "u".into(),
        body: Some("text".into()),
    };
    let text = "# MR g/p!1 — T\n\n- state: opened\n- merged: false\n- draft: true\n- source: a\n- target: b\n- url: u\n\n---\n\ntext\n";
    assert_eq!(render_mr(&mr), text);
    assert_eq!(detail_body(&item(0), &ItemDetail::MergeRequest(mr)), text);
    assert_eq!(
        detail_body(&item(0), &ItemDetail::Unavailable),
        minimal_payload(&item(0))
    );
}

#[test]
fn repositories_are_told_in_camel_case() {
    let rows = vec![repo(Some("alice"), "gitlab", "gitlab.com", "p").row];
    let text = helmor_triage::json::write(&list_repos_payload(&rows));
    assert_eq!(
        text,
        r#"[{"forgeLogin":"alice","forgeProvider":"gitlab","id":"r","name":"n","remoteUrl":"https://gitlab.com/p/api"}]"#
    );
}
