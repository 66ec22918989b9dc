use helmor_triage::json::{self, parse, Json};
use helmor_triage::numbers::{equal_ignoring_case, lower, parse_i64, signed_decimal_string};
use helmor_triage::order::{bytes_in, comes_before};
use helmor_triage::paths::{extension, file_name, parts_of, path_join};
use helmor_triage::pieces::{join, lines, replace, rsplit_char, split, split_once, trim};
use helmor_triage::text::{contains, ends_with, find_from, is_among, starts_with, strip_prefix};
use helmor_triage::time::{format_rfc3339, parse_rfc3339, Timestamp};

#[test]
fn json_is_read_and_written_back() {
    let text = r#"{"a":[1,-2,true,null,"x\n"],"b":{"c":"d"}}"#;
    let value = parse(text).unwrap();
    assert_eq!(json::write(&value), text);
    assert_eq!(value.get("b").unwrap().text_at("c"), Some("d"));
    assert_eq!(value.get("a").unwrap().as_array().unwrap().len(), 5);
    assert!(parse("{").is_none());
    assert!(matches!(parse("1.5"), Some(Json::Float(ref s)) if s == "1.5"));
    assert_eq!(json::write(&value.copy()), text);
}

#[test]
fn json_members_stand_in_the_order_of_their_names() {
    let value = parse(r#"{"b":1,"a":2,"a":3}"#).unwrap();
    assert_eq!(json::write(&value), r#"{"a":3,"b":1}"#);
    assert_eq!(value.uint_at("a"), Some(3));
}

#[test]
fn instants_are_read_and_written_to_the_second() {
    let t = parse_rfc3339("2026-05-26T12:00:00.5+02:00").unwrap();
    assert_eq!(t, Timestamp { secs: 1_779_789_600, nanos: 500_000_000 });
    assert_eq!(format_rfc3339(t), "2026-05-26T10:00:00Z");
    assert!(parse_rfc3339("yesterday").is_none());
    assert_eq!(Timestamp::from_millis(-1).unwrap(), Timestamp { secs: -1, nanos: 999_000_000 });
    assert!(Timestamp::from_millis(i64::MAX).is_none());
}

#[test]
fn texts_are_taken_apart_as_strings_are() {
    assert_eq!(trim(" \u{3000}a b\u{a0}\n"), " \u{3000}a b\u{a0}\n".trim());
    for s in ["", "a", "a\n", "\n", "a\r\nb\n\nc", "a\r"] {
        let ours = lines(s);
        let theirs: Vec<&str> = s.lines().collect();
        assert_eq!(ours, theirs, "{s:?}");
    }
    for s in ["", "/", "a/b", "//a//"] {
        let theirs: Vec<&str> = s.split('/').collect();
        assert_eq!(split(s, "/"), theirs);
    }
    assert_eq!(join(&vec!["a".into(), "b".into()], ", "), "a, b");
    assert_eq!(replace("aXbX", "X", "--"), "a--b--");
    assert_eq!(split_once("k: v: w", ": "), Some(("k".to_string(), "v: w".to_string())));
    assert_eq!(rsplit_char("a.b.c", '.'), Some(("a.b".to_string(), "c".to_string())));
}

#[test]
fn texts_are_searched_as_strings_are() {
    assert!(contains("héllo", "éll") && !contains("a", "ab") && contains("a", ""));
    assert!(starts_with("abc", "ab") && ends_with("abc", "bc"));
    assert_eq!(strip_prefix("abc", "ab").as_deref(), Some("c"));
    assert!(strip_prefix("abc", "b").is_none());
    assert!(is_among("b", &vec!["a".into(), "b".into()]));
    let v: Vec<char> = "ab ab".chars().collect();
    assert_eq!(find_from(&v, &vec!['a', 'b'], 1), Some(3));
}

#[test]
fn numbers_and_cases() {
    assert_eq!(signed_decimal_string(i64::MIN), i64::MIN.to_string());
    assert_eq!(parse_i64("-9223372036854775808"), Some(i64::MIN));
    assert_eq!(parse_i64("9223372036854775808"), None);
    assert_eq!(parse_i64("+7"), Some(7));
    assert_eq!(parse_i64(""), None);
    assert_eq!(lower("AbÄ"), "abÄ");
    assert!(equal_ignoring_case("ABC", "abc"));
    assert!(comes_before("a", "b") && comes_before("a", "ab") && !comes_before("b", "a"));
    assert_eq!(bytes_in("a你"), 4);
}

#[test]
fn paths_are_read_as_posix_paths() {
    assert_eq!(path_join("/a", "b"), "/a/b");
    assert_eq!(path_join("/a/", "b"), "/a/b");
    assert_eq!(path_join("/a", "/b"), "/b");
    assert_eq!(path_join("", "b"), "b");
    assert_eq!(file_name("/a/b.c/").as_deref(), Some("b.c"));
    assert_eq!(file_name("/a/..").as_deref(), None);
    assert_eq!(extension("x/y.tar.gz").as_deref(), Some("gz"));
    assert_eq!(extension(".hidden").as_deref(), None);
    assert_eq!(parts_of("./a//b/."), vec![".", "a", "b"]);
}
