use helmor_triage::triage::reading::{
    candidate_not_found, grep_filter, list_limit, read_candidate_inner, show_hits, tail_blocks,
    truncate_bytes,
};

#[test]
fn grep_filter_keeps_context_around_match() {
    let body = "a\nb\nNEEDLE\nd\ne\nf\ng\nh\ni\nj\nk\nNEEDLE2 should not match\nm\n";
    let got = grep_filter(body, "NEEDLE");
    assert!(got.contains("NEEDLE"));
    assert!(got.contains("a") && got.contains("f")); // 3 lines context
    // Second NEEDLE2 also matches because it contains "NEEDLE" as substring.
    assert!(got.contains("NEEDLE2"));
}

#[test]
fn grep_filter_empty_match_returns_hint() {
    let got = grep_filter("hello world\n", "missing");
    assert!(got.contains("no lines matched"));
}

#[test]
fn truncate_bytes_respects_utf8() {
    let body = format!("{}{}", "x".repeat(8190), "你"); // last char is 3 bytes → boundary crossing
    let got = truncate_bytes(&body, 8192);
    assert!(got.starts_with("xxxxx"));
    assert!(got.contains("truncated"));
}

#[test]
fn grep_filter_separates_what_lies_apart() {
    let body = "hit\n1\n2\n3\n4\n5\n6\n7\nHIT\n";
    assert_eq!(grep_filter(body, "Hit"), "hit\n1\n2\n3\n---\n5\n6\n7\nHIT\n");
    assert_eq!(grep_filter("ÄPFEL\n", "äpf"), "ÄPFEL\n");
    assert_eq!(grep_filter("x\n", "y"), "(no lines matched `y`)\n");
}

#[test]
fn hits_are_shown_with_three_lines_round_them() {
    let lines: Vec<String> = (0..9).map(|i| format!("{i}")).collect();
    let mut hits = vec![false; 9];
    hits[4] = true;
    assert_eq!(show_hits(&lines, &hits, "n"), "1\n2\n3\n4\n5\n6\n7\n");
}

#[test]
fn truncation_tells_how_much_is_missing() {
    assert_eq!(
        truncate_bytes("ab你", 4),
        "ab\n\n…(truncated 3 bytes; pass `grep=<pattern>` to filter)"
    );
    assert_eq!(truncate_bytes("ab你", 5), "ab你");
    assert_eq!(
        truncate_bytes("你", 0),
        "\n\n…(truncated 3 bytes; pass `grep=<pattern>` to filter)"
    );
}

#[test]
fn the_last_blocks_are_kept_with_the_header() {
    let body = "# chat\n\n## one\na\n## two\nb\n## three\nc\n";
    assert_eq!(tail_blocks(body, 3), body);
    assert_eq!(
        tail_blocks(body, 1),
        "# chat\n\n\n…(omitted 2 earlier message block(s))\n\n## three\nc\n"
    );
    assert_eq!(
        tail_blocks("## one\n## two\n", 1),
        "\n…(omitted 1 earlier message block(s))\n\n## two\n"
    );
    assert_eq!(tail_blocks("x ## y\n", 1), "x ## y\n");
    assert_eq!(tail_blocks("no blocks\n", 0), "no blocks\n");
}

#[test]
fn last_blocks_come_before_a_search_and_a_search_before_the_beginning() {
    let body = "# chat\n\n## one\nneedle\n## two\nb\n";
    let tail = read_candidate_inner(body, Some(1), Some("needle"));
    assert!(tail.ends_with("## two\nb\n") && !tail.contains("needle"));
    let hits = read_candidate_inner(body, Some(0), Some("  needle "));
    assert!(hits.contains("needle"));
    assert_eq!(read_candidate_inner(body, None, Some("   ")), body);
    let long = "z".repeat(9_000);
    assert!(read_candidate_inner(&long, None, None).contains("truncated 808 bytes"));
}

#[test]
fn listings_are_limited() {
    assert_eq!(list_limit(None), 20);
    assert_eq!(list_limit(Some(0)), 1);
    assert_eq!(list_limit(Some(77)), 77);
    assert_eq!(list_limit(Some(9_999)), 200);
    assert_eq!(candidate_not_found("x"), "candidate x not found");
}
