use helmor_triage::assoc::AssocMap;
use helmor_triage::codex_config::default_codex_home;
use helmor_triage::commands::lark_auth::{working_dir, LarkAuthAction};
use helmor_triage::commands::settings::{
    claim_codex_rate_limits_fetch, codex_home_for_executable_path, codex_rate_limits_cache_key,
    codex_uses_metered_api_key, executable_to_scan, get_codex_rate_limits, is_app_setting,
    settle_rate_limits, update_app_settings, RateLimitsStep, CODEX_RATE_LIMITS_KEY,
};

#[test]
fn codex_rate_limit_cache_keys_are_scoped_by_home() {
    let first = codex_rate_limits_cache_key("/tmp/codex-a");
    let second = codex_rate_limits_cache_key("/tmp/codex-b");

    assert!(first.starts_with(CODEX_RATE_LIMITS_KEY));
    assert!(second.starts_with(CODEX_RATE_LIMITS_KEY));
    assert_ne!(first, second);
}

#[test]
fn codex_home_for_empty_executable_uses_default_home() {
    let default = default_codex_home(None, "/home/u");
    assert_eq!(
        codex_home_for_executable_path(Some(""), None, "/home/u", &default),
        default
    );
    assert_eq!(
        codex_home_for_executable_path(None, None, "/home/u", &default),
        default
    );
}

#[test]
fn cache_keys_end_with_eight_bytes_of_the_digest() {
    let key = codex_rate_limits_cache_key("abc");
    assert_eq!(key, "app.codex_rate_limits.ba7816bf8f01cfea");
}

#[test]
fn a_configured_program_sets_the_home() {
    let script = "CODEX_HOME=~/.other\n";
    assert_eq!(
        codex_home_for_executable_path(Some(" codexaz "), Some(script.as_bytes()), "/h", "/d"),
        "/h/.other"
    );
    assert_eq!(
        codex_home_for_executable_path(Some("  "), Some(script.as_bytes()), "/h", "/d"),
        "/d"
    );
    assert_eq!(executable_to_scan(Some(" codexaz ")).as_deref(), Some("codexaz"));
    assert!(executable_to_scan(Some(" ")).is_none());
}

#[test]
fn requests_are_thirty_seconds_apart() {
    let mut attempts: AssocMap<String, i64> = AssocMap::new();
    assert!(claim_codex_rate_limits_fetch(&mut attempts, "a", 1_000));
    assert!(!claim_codex_rate_limits_fetch(&mut attempts, "a", 1_029));
    assert!(claim_codex_rate_limits_fetch(&mut attempts, "b", 1_001));
    assert!(claim_codex_rate_limits_fetch(&mut attempts, "a", 1_030));
    assert!(!claim_codex_rate_limits_fetch(&mut attempts, "a", i64::MIN));
}

#[test]
fn api_keys_are_metered() {
    let azure = "model_provider = \"azure\"\n[model_providers.azure]\nenv_key = \"K\"\n";
    assert!(codex_uses_metered_api_key(true, None));
    assert!(codex_uses_metered_api_key(false, Some(azure)));
    assert!(!codex_uses_metered_api_key(false, Some("model = \"x\"")));
    assert!(!codex_uses_metered_api_key(false, None));
}

#[test]
fn what_was_kept_is_shown_where_nothing_was_fetched() {
    let r = settle_rate_limits(Some("old".into()), Some("new".into()));
    assert_eq!(r.shown.as_deref(), Some("new"));
    assert_eq!(r.stored.as_deref(), Some("new"));
    let r = settle_rate_limits(Some("old".into()), None);
    assert_eq!(r.shown.as_deref(), Some("old"));
    assert!(r.stored.is_none());
}

#[test]
fn only_the_interfaces_settings_are_written() {
    assert!(is_app_setting("app.theme"));
    assert!(is_app_setting("branch_prefix_custom"));
    assert!(!is_app_setting("apple"));
    let pair = |k: &str| (k.to_string(), "v".to_string());
    let u = update_app_settings(vec![pair("app.theme"), pair("secret"), pair("app.cursor_provider")]);
    assert_eq!(u.written.len(), 2);
    assert!(u.push_cursor);
    assert!(!u.push_codex);
    assert!(update_app_settings(vec![pair("app.codex_executable_path")]).push_codex);
}

#[test]
fn terminals_run_the_commands_of_their_action() {
    assert_eq!(
        LarkAuthAction::Install.script_type("7"),
        "lark-cli-auth:install:7"
    );
    assert_eq!(
        LarkAuthAction::SignIn.script_type("7"),
        "lark-cli-auth:signIn:7"
    );
    let boot = LarkAuthAction::Install.boot_command();
    assert!(boot.starts_with("clear; printf '\\n\\033[1;36m== Connect Lark ==\\033[0m\\n\\n'; "));
    assert!(boot.ends_with("npm install -g @larksuite/cli && lark-cli auth login"));
    assert!(LarkAuthAction::SignIn.boot_input().ends_with("\\n\\n'; lark-cli auth login; exit\n"));
    assert_eq!(working_dir(Some("/h"), Some("/c")), "/h");
    assert_eq!(working_dir(Some("  "), Some("/c")), "/c");
    assert_eq!(working_dir(None, None), "/");
}

#[test]
fn metered_accounts_are_not_asked() {
    let mut attempts = AssocMap::new();
    assert_eq!(get_codex_rate_limits(&mut attempts, true, "k", 100), RateLimitsStep::Forget);
    assert!(attempts.entries.is_empty());
    assert_eq!(get_codex_rate_limits(&mut attempts, false, "k", 100), RateLimitsStep::Ask);
    assert_eq!(get_codex_rate_limits(&mut attempts, false, "k", 129), RateLimitsStep::ShowKept);
    assert_eq!(get_codex_rate_limits(&mut attempts, false, "l", 129), RateLimitsStep::Ask);
    assert_eq!(get_codex_rate_limits(&mut attempts, false, "k", 130), RateLimitsStep::Ask);
}
