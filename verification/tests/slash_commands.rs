use helmor_triage::slash_commands::{repo_key, workspace_key, SlashCommandCache, SlashCommandEntry};

fn entry(name: &str) -> SlashCommandEntry {
    SlashCommandEntry {
        name: name.to_string(),
        description: format!("desc for {name}"),
        argument_hint: None,
        source: "skill".to_string(),
    }
}

#[test]
fn workspace_key_distinguishes_provider() {
    let cursor = workspace_key("cursor", Some("/repo"), &vec!["/linked".to_string()]);
    let codex = workspace_key("codex", Some("/repo"), &vec!["/linked".to_string()]);
    assert_ne!(cursor, codex);
}

#[test]
fn workspace_key_distinguishes_linked_dir_signature() {
    let none = workspace_key("cursor", Some("/repo"), &vec![]);
    let one = workspace_key("cursor", Some("/repo"), &vec!["/linked".to_string()]);
    let two = workspace_key(
        "cursor",
        Some("/repo"),
        &vec!["/linked".to_string(), "/other".to_string()],
    );
    assert_ne!(none, one);
    assert_ne!(one, two);
    assert_eq!(two.2, "/linked\u{1f}/other");
}

#[test]
fn workspace_keys_tell_directories_apart() {
    let key = |dir: &str, linked: &[&str]| {
        let linked: Vec<String> = linked.iter().map(|d| d.to_string()).collect();
        workspace_key("cursor", Some(dir), &linked)
    };
    assert_ne!(key("/a", &[]), key("/b", &[]));
    assert_ne!(key("/a", &["/b", "/c"]), key("/a", &["/b/c"]));
    assert_ne!(key("/a", &["/b", ""]), key("/a", &["/b"]));
    assert_eq!(key("/a", &[""]), key("/a", &[]));
    assert_eq!(key("/a", &["/b", "/c"]), key("/a", &["/b", "/c"]));
}

#[test]
fn workspace_key_treats_none_cwd_as_empty_string() {
    let none = workspace_key("cursor", None, &vec![]);
    let empty = workspace_key("cursor", Some(""), &vec![]);
    assert_eq!(none, empty);
}

#[test]
fn cache_starts_empty_and_returns_none() {
    let cache = SlashCommandCache::new();
    let key = workspace_key("cursor", Some("/repo"), &vec![]);
    assert!(cache.get_workspace(&key).is_none());
    assert!(cache
        .get_repo(&("cursor".into(), "repo-1".into()))
        .is_none());
}

#[test]
fn set_writes_workspace_and_mirrors_repo_when_repo_id_present() {
    let mut cache = SlashCommandCache::new();
    let key = workspace_key("cursor", Some("/repo"), &vec![]);
    cache.set(key.clone(), Some("repo-1"), vec![entry("a"), entry("b")]);

    assert_eq!(cache.get_workspace(&key).unwrap().len(), 2);
    let repo_hit = cache.get_repo(&repo_key("cursor", "repo-1")).unwrap();
    assert_eq!(repo_hit.len(), 2);
    assert_eq!(repo_hit[0].name, "a");
}

#[test]
fn set_skips_repo_mirror_when_repo_id_is_empty_or_missing() {
    let mut cache = SlashCommandCache::new();
    let key = workspace_key("cursor", Some("/repo"), &vec![]);
    cache.set(key.clone(), None, vec![entry("a")]);
    cache.set(key.clone(), Some(""), vec![entry("a")]);

    assert!(cache.get_workspace(&key).is_some());
    assert!(cache.get_repo(&repo_key("cursor", "")).is_none());
}

#[test]
fn try_start_refresh_is_exclusive_until_finish() {
    let mut cache = SlashCommandCache::new();
    let key = workspace_key("cursor", Some("/repo"), &vec![]);

    assert!(cache.try_start_refresh(&key), "first call wins the lock");
    assert!(!cache.try_start_refresh(&key), "second call loses");

    cache.finish_refresh(&key);
    assert!(
        cache.try_start_refresh(&key),
        "after finish, the lock can be reclaimed"
    );
}

#[test]
fn try_start_refresh_independent_keys_dont_block_each_other() {
    let mut cache = SlashCommandCache::new();
    let a = workspace_key("cursor", Some("/a"), &vec![]);
    let b = workspace_key("cursor", Some("/b"), &vec![]);
    assert!(cache.try_start_refresh(&a));
    assert!(cache.try_start_refresh(&b));
}

#[test]
fn finish_refresh_on_unheld_key_is_a_noop() {
    let mut cache = SlashCommandCache::new();
    let key = workspace_key("cursor", Some("/repo"), &vec![]);
    cache.finish_refresh(&key);
    assert!(cache.try_start_refresh(&key));
}

#[test]
fn clear_provider_removes_only_matching_provider_entries() {
    let mut cache = SlashCommandCache::new();
    let codex_key = workspace_key("codex", Some("/repo"), &vec![]);
    let cursor_key = workspace_key("cursor", Some("/repo"), &vec![]);
    cache.set(codex_key.clone(), Some("repo-1"), vec![entry("codex")]);
    cache.set(cursor_key.clone(), Some("repo-1"), vec![entry("cursor")]);
    assert!(cache.try_start_refresh(&codex_key));
    assert!(cache.try_start_refresh(&cursor_key));

    cache.clear_provider("codex");

    assert!(cache.get_workspace(&codex_key).is_none());
    assert!(cache.get_repo(&repo_key("codex", "repo-1")).is_none());
    assert!(cache.try_start_refresh(&codex_key));
    assert!(cache.get_workspace(&cursor_key).is_some());
    assert!(cache.get_repo(&repo_key("cursor", "repo-1")).is_some());
    assert!(!cache.try_start_refresh(&cursor_key));
}

#[test]
fn set_if_generation_rejects_stale_provider_writes_after_clear() {
    let mut cache = SlashCommandCache::new();
    let key = workspace_key("codex", Some("/repo"), &vec![]);
    let generation = cache.provider_generation("codex");

    cache.clear_provider("codex");

    assert!(!cache.set_if_generation(
        key.clone(),
        Some("repo-1"),
        vec![entry("stale")],
        generation,
    ));
    assert!(cache.get_workspace(&key).is_none());
    assert!(cache.get_repo(&repo_key("codex", "repo-1")).is_none());
}

#[test]
fn stale_finish_does_not_clear_new_refresh_marker() {
    let mut cache = SlashCommandCache::new();
    let key = workspace_key("codex", Some("/repo"), &vec![]);
    let old_generation = cache.try_start_refresh_with_generation(&key).unwrap();

    cache.clear_provider("codex");
    let new_generation = cache.try_start_refresh_with_generation(&key).unwrap();
    cache.finish_refresh_generation(&key, old_generation);

    assert!(!cache.try_start_refresh(&key));
    cache.finish_refresh_generation(&key, new_generation);
    assert!(cache.try_start_refresh(&key));
}

#[test]
fn cache_set_overwrites_previous_value_for_same_key() {
    let mut cache = SlashCommandCache::new();
    let key = workspace_key("cursor", Some("/repo"), &vec![]);
    cache.set(key.clone(), Some("repo-1"), vec![entry("old")]);
    cache.set(
        key.clone(),
        Some("repo-1"),
        vec![entry("new"), entry("two")],
    );

    let entries = cache.get_workspace(&key).unwrap();
    assert_eq!(entries.len(), 2);
    assert_eq!(entries[0].name, "new");
}

#[test]
fn current_generation_is_written_and_others_are_untouched_by_a_clear() {
    let mut cache = SlashCommandCache::new();
    let key = workspace_key("codex", Some("/repo"), &vec![]);
    cache.clear_provider("codex");
    assert_eq!(cache.provider_generation("codex"), 1);
    assert_eq!(cache.provider_generation("cursor"), 0);
    assert!(cache.set_if_generation(key.clone(), None, vec![entry("fresh")], 1));
    assert_eq!(cache.get_workspace(&key).unwrap()[0].name, "fresh");
}
