use helmor_triage::json::{parse, Json};
use helmor_triage::lark::cli::{answer_from, failure_message, run_in, tail_lines, CliRun};
use helmor_triage::lark::contact::{deep_find_string, extract_open_id, SelfId};

fn json(s: &str) -> Json {
    parse(s).expect("a JSON text")
}

#[test]
fn extracts_open_id_from_nested_user() {
    let raw = json(r#"{ "data": { "user": { "open_id": "ou_abc", "name": "x" } } }"#);
    assert_eq!(extract_open_id(&raw).as_deref(), Some("ou_abc"));
}

#[test]
fn extracts_open_id_from_flat_data() {
    let raw = json(r#"{ "data": { "open_id": "ou_xyz", "name": "y" } }"#);
    assert_eq!(extract_open_id(&raw).as_deref(), Some("ou_xyz"));
}

#[test]
fn deep_search_fallback() {
    let raw = json(
        r#"{ "data": { "items": [{ "user_info": { "open_id": "ou_deep" } }] } }"#,
    );
    assert_eq!(extract_open_id(&raw).as_deref(), Some("ou_deep"));
}

#[test]
fn returns_none_when_absent() {
    let raw = json(r#"{ "data": { "name": "y" } }"#);
    assert!(extract_open_id(&raw).is_none());
}

#[test]
fn a_value_that_is_no_text_sends_the_search_on() {
    let raw = json(r#"{ "data": { "open_id": 5, "more": { "open_id": "ou_1" } }, "open_id": "ou_2" }"#);
    assert_eq!(extract_open_id(&raw).as_deref(), Some("ou_2"));
    assert_eq!(deep_find_string(&raw, "more"), None);
}

#[test]
fn the_id_is_remembered() {
    let mut me = SelfId::new();
    let err = me.self_open_id(&json("{}")).err().unwrap();
    assert_eq!(err, "lark contact +get-user response missing open_id");
    assert!(me.get().is_none());
    assert_eq!(me.self_open_id(&json(r#"{"open_id":"ou_me"}"#)).ok().unwrap(), "ou_me");
    assert_eq!(me.get().as_deref(), Some("ou_me"));
}

fn ended(success: bool, code: Option<i32>, stdout: &[u8], stderr: &[u8]) -> CliRun {
    CliRun::Ended { success, code, stdout: stdout.to_vec(), stderr: stderr.to_vec() }
}

#[test]
fn answers_are_json_or_raw_text() {
    let ok = |s: &str| run_in("x", ended(true, None, s.as_bytes(), b"ignored")).ok().unwrap();
    assert!(matches!(ok(" \n"), Json::Null));
    assert_eq!(ok(r#"{"a":"b"}"#).text_at("a"), Some("b"));
    assert_eq!(ok("plain").text_at("raw"), Some("plain"));
    assert_eq!(answer_from("plain", None).text_at("raw"), Some("plain"));
    assert!(matches!(answer_from("", Some(Json::Bool(true))), Json::Null));
}

#[test]
fn failures_are_named() {
    let err = |r: CliRun| run_in("im list", r).err().unwrap();
    assert_eq!(
        err(CliRun::NotStarted { error: "gone".into() }),
        "spawn lark-cli failed: gone"
    );
    assert_eq!(
        err(CliRun::Broken { error: "pipe".into() }),
        "lark-cli im list I/O error: pipe"
    );
    assert_eq!(err(CliRun::TimedOut), "lark-cli im list timed out");
    assert_eq!(
        err(ended(true, Some(0), b"ok \xff", b"")),
        "lark-cli im list non-utf8: invalid utf-8 sequence of 1 bytes from index 3"
    );
    assert_eq!(
        err(ended(false, Some(-1), b"", b" a\nb \n")),
        "lark-cli im list failed (code Some(-1))\nstderr:\na\nb"
    );
    assert_eq!(
        err(ended(false, None, b"o\xffk", b"")),
        "lark-cli im list failed (code None)\nstdout:\no\u{fffd}k"
    );
    assert_eq!(
        failure_message("x", None, "out", ""),
        "lark-cli x failed (code None)\nstdout:\nout"
    );
}

#[test]
fn the_last_lines_are_kept() {
    assert_eq!(tail_lines("1\n2\n3\n", 2), "2\n3");
    assert_eq!(tail_lines("1\n2", 5), "1\n2");
    assert_eq!(tail_lines("  \n ", 5), "");
    assert_eq!(tail_lines("1\n2", 0), "");
}
