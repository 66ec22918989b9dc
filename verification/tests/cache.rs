use helmor_triage::triage::cache::{
    cache_root, ensure_cache_root, is_below, join_root, resolve_for_read, safe_segment,
};

#[test]
fn safe_segment_keeps_alnum_underscore_dash() {
    assert_eq!(safe_segment("om_abc-123"), "om_abc-123");
    assert_eq!(safe_segment("om/abc 123"), "om_abc_123");
    assert_eq!(safe_segment(""), "_");
}

#[test]
fn safe_segment_truncates_long_input() {
    let huge = "a".repeat(500);
    assert_eq!(safe_segment(&huge).len(), 80);
}

#[test]
fn safe_segment_leaves_nothing_for_the_file_system() {
    assert_eq!(safe_segment("../é.md"), "_____md");
    let once = safe_segment("a/b c.d");
    assert_eq!(safe_segment(&once), once);
}

#[test]
fn cache_lies_below_the_cache_directory() {
    assert_eq!(cache_root("/data/cache"), "/data/cache/triage");
    assert_eq!(ensure_cache_root("/data/cache/"), "/data/cache/triage");
    assert_eq!(join_root("/data/cache/triage", "lark/x.md"), "/data/cache/triage/lark/x.md");
}

#[test]
fn payloads_are_read_only_below_the_root() {
    let root = "/data/cache/triage";
    let inside = "/data/cache/triage/lark/x.md";
    assert_eq!(resolve_for_read(root, "lark/x.md", Some(inside)).ok().unwrap(), inside);
    let err = resolve_for_read(root, "../../etc/passwd", Some("/data/etc/passwd")).err().unwrap();
    assert_eq!(err, "triage cache path escapes root: ../../etc/passwd");
    assert!(!is_below("/data/cache/triage2/x.md", root));
    assert!(is_below("/data/cache/triage", root));
    assert!(is_below("/data//cache/./triage/x", root));
    assert!(!is_below("data/cache/triage/x", root));
    let err = resolve_for_read("/c", "../never_existed.md", None).err().unwrap();
    assert_eq!(err, "triage cache path escapes root: ../never_existed.md");
    assert!(resolve_for_read("/c", "a/../../c2/x", None).is_err());
    assert_eq!(resolve_for_read("/c", "a/../b.md", None).ok().unwrap(), "/c/a/../b.md");
    assert!(resolve_for_read("/c", "/etc/x", None).is_err());
    assert!(is_below("/../c/x", "/c"));
    assert!(!is_below("../../x", ".."));
    assert!(is_below("../x", ".."));
    assert!(is_below("./c/x", "c"));
}
