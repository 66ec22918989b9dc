use helmor_triage::assoc::AssocMap;
use helmor_triage::codex_config::{
    active_api_key_provider, active_provider_in, auth_path_for_home, codex_home_from_executable,
    codex_home_in_script, config_path, config_path_for_home, declared_env_keys, default_codex_home, env_keys_in,
    expand_codex_home_value, home_dir, parse_codex_home_assignment, selected_codex_home,
    ApiKeyProvider, WRAPPER_SCAN_BYTES,
};
use helmor_triage::codex_provider_env::{
    apply_env_keys_from_config, codex_provider_config_paths, codex_provider_env_for_selected_home,
    collect_codex_provider_env, inherit_keys, merge_codex_provider_env_from_cache,
};
use helmor_triage::downloads::types::{Disk, DiskEntry};
use helmor_triage::path_utils::{
    binary_candidates, command_candidates, find_binary_on_path, is_path_command,
    resolve_path_command, Platform,
};
use helmor_triage::toml_tree::Toml;

#[test]
fn active_provider_reads_azure_env_key() {
    let provider = active_api_key_provider(
        r#"
model = "gpt-5.5"
model_provider = "azure"

[model_providers.azure]
name = "Azure"
base_url = "https://example.openai.azure.com/openai/v1"
env_key = "AZURE_OPENAI_API_KEY"
wire_api = "responses"
"#,
    );

    assert_eq!(
        provider,
        Some(ApiKeyProvider {
            name: "azure".to_string(),
            env_key: "AZURE_OPENAI_API_KEY".to_string(),
        })
    );
}

#[test]
fn active_provider_returns_none_when_section_missing() {
    let provider = active_api_key_provider(
        r#"
model_provider = "azure"

[model_providers.openai]
env_key = "OPENAI_API_KEY"
"#,
    );

    assert_eq!(provider, None);
}

#[test]
fn active_provider_returns_none_without_env_key() {
    let provider = active_api_key_provider(
        r#"
model_provider = "azure"

[model_providers.azure]
base_url = "https://example.openai.azure.com/openai/v1"
"#,
    );

    assert_eq!(provider, None);
}

#[test]
fn declared_env_keys_collects_every_provider() {
    let keys = declared_env_keys(
        r#"
model_provider = "azure"

[model_providers.azure]
env_key = "AZURE_OPENAI_API_KEY"

[model_providers.openai]
env_key = "OPENAI_API_KEY"

[model_providers.no_key]
base_url = "https://example.com"
"#,
    );

    assert_eq!(keys, vec!["AZURE_OPENAI_API_KEY", "OPENAI_API_KEY"]);
}

#[test]
fn declared_env_keys_deduplicates() {
    let keys = declared_env_keys(
        r#"
[model_providers.a]
env_key = "SHARED_KEY"

[model_providers.b]
env_key = "SHARED_KEY"
"#,
    );

    assert_eq!(keys, vec!["SHARED_KEY"]);
}

#[test]
fn declared_env_keys_handles_empty_config() {
    assert!(declared_env_keys("").is_empty());
    assert!(declared_env_keys("not valid toml = [").is_empty());
    assert!(declared_env_keys("[other]\nfoo = 1").is_empty());
}

#[test]
fn declared_env_keys_come_in_the_order_of_the_providers() {
    let keys = declared_env_keys(
        "[model_providers.z]\nenv_key = \"Z\"\n[model_providers.a]\nenv_key = \" A \"\n[model_providers.m]\nenv_key = 5\n",
    );
    assert_eq!(keys, vec!["A", "Z"]);
}

#[test]
fn providers_are_read_from_tables() {
    let config = Toml::Table(vec![
        ("model_provider".to_string(), Toml::Text(" azure ".to_string())),
        (
            "model_providers".to_string(),
            Toml::Table(vec![(
                "azure".to_string(),
                Toml::Table(vec![("env_key".to_string(), Toml::Text("KEY".to_string()))]),
            )]),
        ),
    ]);
    let p = active_provider_in(&config).unwrap();
    assert_eq!((p.name.as_str(), p.env_key.as_str()), ("azure", "KEY"));
    assert_eq!(env_keys_in(&config), vec!["KEY"]);
    assert!(active_provider_in(&Toml::Other).is_none());
    assert!(env_keys_in(&Toml::Text("x".to_string())).is_empty());
}

#[test]
fn parses_codex_home_from_shell_wrapper() {
    let script = r#"#!/usr/bin/env bash
export CODEX_HOME="$HOME/.codexaz"
exec /usr/local/bin/codex "$@"
"#;
    assert_eq!(
        codex_home_from_executable(Some(script.as_bytes()), "/home/u").as_deref(),
        Some("/home/u/.codexaz")
    );
}

#[test]
fn resolves_path_command_before_scanning_wrapper() {
    let mut disk = Disk::new();
    disk.put("/tmp/bin/codexaz", DiskEntry { len: 9, is_file: true });
    assert_eq!(
        resolve_path_command("codexaz", &Some(vec!["/tmp/bin".to_string()]), &disk),
        "/tmp/bin/codexaz"
    );
}

#[test]
fn reads_only_wrapper_prefix_when_detecting_codex_home() {
    let mut script = "#!/usr/bin/env bash\nexport CODEX_HOME=\"$HOME/.codexaz\"\n".to_string();
    script.push_str(&"x".repeat(WRAPPER_SCAN_BYTES as usize + 1024));
    assert_eq!(
        codex_home_from_executable(Some(script.as_bytes()), "/home/u").as_deref(),
        Some("/home/u/.codexaz")
    );
    let mut late = "x".repeat(WRAPPER_SCAN_BYTES as usize);
    late.push_str("\nCODEX_HOME=/late\n");
    assert!(codex_home_from_executable(Some(late.as_bytes()), "/home/u").is_none());
    let mixed = b"\x7fELF \xff\xfe\nCODEX_HOME=/m\n";
    assert_eq!(codex_home_from_executable(Some(mixed), "/h").as_deref(), Some("/m"));
}

#[test]
fn assignments_are_read_quoted_or_not() {
    let read = |line: &str| parse_codex_home_assignment(line);
    assert_eq!(read("  CODEX_HOME='/a b' exec x").as_deref(), Some("/a b"));
    assert_eq!(read("export   CODEX_HOME=/a/b;; next").as_deref(), Some("/a/b"));
    assert_eq!(read("CODEX_HOME=\"/open").as_deref(), Some("/open"));
    assert_eq!(read("CODEX_HOME=").as_deref(), None);
    assert_eq!(read("MY_CODEX_HOME=/a").as_deref(), None);
    let mut script = "x\n".repeat(200);
    script.push_str("CODEX_HOME=/late\n");
    assert!(codex_home_in_script(&script, "/h").is_none());
    assert!(codex_home_from_executable(None, "/h").is_none());
}

#[test]
fn homes_are_written_out() {
    assert_eq!(expand_codex_home_value("${HOME}/x/$HOME", "/h"), "/h/x//h");
    assert_eq!(expand_codex_home_value("~", "/h"), "/h");
    assert_eq!(expand_codex_home_value("~/.c", "/h"), "/h/.c");
    assert_eq!(expand_codex_home_value("/abs", "/h"), "/abs");
    assert_eq!(home_dir(None), "/");
    assert_eq!(default_codex_home(None, "/h"), "/h/.codex");
    assert_eq!(default_codex_home(Some("/c"), "/h"), "/c");
    assert_eq!(config_path(None, "/h"), "/h/.codex/config.toml");
    assert_eq!(config_path_for_home("/c"), "/c/config.toml");
    assert_eq!(auth_path_for_home("/c"), "/c/auth.json");
    assert_eq!(selected_codex_home(None, "/d".into()), "/d");
    assert_eq!(selected_codex_home(Some("/e".into()), "/d".into()), "/e");
}

#[test]
fn only_bare_names_are_looked_for() {
    assert!(is_path_command("codex"));
    assert!(!is_path_command("/bin/codex"));
    assert!(!is_path_command("./codex"));
    assert!(!is_path_command("a/b"));
    let none = Disk::new();
    assert_eq!(resolve_path_command("codex", &None, &none), "codex");
    assert_eq!(
        resolve_path_command("codex", &Some(vec!["/a".into()]), &none),
        "codex"
    );
    let dirs = vec!["/a".to_string(), "/b".to_string()];
    assert_eq!(command_candidates(&dirs, "x"), vec!["/a/x", "/b/x"]);
    let unix = Platform::Unix;
    assert_eq!(binary_candidates(&dirs, "x", &unix), vec!["/a/x", "/b/x"]);
    let mut disk = Disk::new();
    disk.put("/b/x", DiskEntry { len: 1, is_file: true });
    disk.put("/a/x", DiskEntry { len: 1, is_file: false });
    assert_eq!(find_binary_on_path("x", &dirs, &unix, &disk).as_deref(), Some("/b/x"));
    assert!(find_binary_on_path("y", &dirs, &unix, &disk).is_none());
}

#[test]
fn windows_programs_are_found_by_their_extensions() {
    let dirs = vec!["/a".to_string(), "/b".to_string()];
    let listed = Platform::Windows { pathext: Some(".EXE; ;;.PY".into()) };
    assert_eq!(
        binary_candidates(&dirs, "x", &listed),
        vec!["/a/x", "/a/x.EXE", "/a/x.PY", "/b/x", "/b/x.EXE", "/b/x.PY"]
    );
    assert_eq!(binary_candidates(&dirs, "x.py", &listed), vec!["/a/x.py", "/b/x.py"]);
    let default = Platform::Windows { pathext: None };
    assert_eq!(
        binary_candidates(&vec!["/a".to_string()], "x", &default),
        vec!["/a/x", "/a/x.COM", "/a/x.EXE", "/a/x.BAT", "/a/x.CMD"]
    );
    let mut disk = Disk::new();
    disk.put("/b/x.EXE", DiskEntry { len: 1, is_file: true });
    assert_eq!(find_binary_on_path("x", &dirs, &default, &disk).as_deref(), Some("/b/x.EXE"));
    assert!(find_binary_on_path("x", &dirs, &Platform::Unix, &disk).is_none());
}

fn env(pairs: &[(&str, &str)]) -> AssocMap<String, String> {
    let mut m = AssocMap::new();
    for (k, v) in pairs {
        m.insert(k.to_string(), v.to_string());
    }
    m
}

fn azure(key: &str) -> String {
    format!("\n[model_providers.azure]\nenv_key = \"{key}\"\n")
}

#[test]
fn apply_codex_env_keys_injects_declared_var_from_login_shell() {
    let key = "HELMOR_TEST_CODEX_AZURE_KEY_1";
    let mut process = env(&[]);
    let config = format!("\nmodel_provider = \"azure\"\n{}", azure(key));
    let (set, declared) =
        apply_env_keys_from_config(&config, &env(&[(key, "abc123")]), &mut process);
    assert_eq!(declared, 1);
    assert_eq!(set.len(), 1);
    assert_eq!(process.get(&key.to_string()).map(|s| s.as_str()), Some("abc123"));
}

#[test]
fn apply_codex_env_keys_does_not_clobber_preexisting_value() {
    let key = "HELMOR_TEST_CODEX_AZURE_KEY_2";
    let mut process = env(&[(key, "preexisting")]);
    let (set, declared) =
        apply_env_keys_from_config(&azure(key), &env(&[(key, "from-login-shell")]), &mut process);
    assert_eq!(declared, 1);
    assert_eq!(set.len(), 0, "should not count as newly set");
    assert_eq!(
        process.get(&key.to_string()).map(|s| s.as_str()),
        Some("preexisting")
    );
}

#[test]
fn apply_codex_env_keys_skips_when_shell_has_no_value() {
    let key = "HELMOR_TEST_CODEX_AZURE_KEY_3";
    let mut process = env(&[]);
    let (set, declared) = apply_env_keys_from_config(&azure(key), &env(&[]), &mut process);
    assert_eq!(declared, 1);
    assert_eq!(set.len(), 0);
    assert!(process.get(&key.to_string()).is_none());
}

#[test]
fn collect_codex_provider_env_returns_values_to_hot_push() {
    let key = "HELMOR_TEST_CODEX_AZURE_KEY_4";
    let shell = env(&[(key, "from-login-shell")]);
    let values = collect_codex_provider_env(&vec![azure(key)], &env(&[]), Some(&shell));
    assert_eq!(
        values.get(&key.to_string()).map(String::as_str),
        Some("from-login-shell")
    );
}

#[test]
fn own_values_come_before_those_of_the_shell() {
    let shell = env(&[("K", "from-login-shell")]);
    let own = collect_codex_provider_env(&vec![azure("K")], &env(&[("K", "own")]), Some(&shell));
    assert_eq!(own.get(&"K".to_string()).map(String::as_str), Some("own"));
}

#[test]
fn cached_codex_provider_env_is_available_without_global_env_mutation() {
    let key = "HELMOR_TEST_CODEX_AZURE_KEY_5";
    let cached = env(&[(key, "from-login-shell")]);
    let configs = vec![azure(key)];
    let mut values = collect_codex_provider_env(&configs, &env(&[]), None);
    merge_codex_provider_env_from_cache(&configs, &mut values, &cached);
    assert_eq!(
        values.get(&key.to_string()).map(String::as_str),
        Some("from-login-shell")
    );
}

#[test]
fn cached_values_fill_in_what_is_asked_for_and_not_set() {
    let configs = vec![azure("K")];
    let cached = env(&[("K", "cached"), ("UNASKED", "x")]);
    let all = codex_provider_env_for_selected_home(&configs, &env(&[]), &cached);
    assert_eq!(all.get(&"K".to_string()).map(String::as_str), Some("cached"));
    assert!(all.get(&"UNASKED".to_string()).is_none());
    let all = codex_provider_env_for_selected_home(&configs, &env(&[("K", "own")]), &cached);
    assert_eq!(all.get(&"K".to_string()).map(String::as_str), Some("own"));
}

#[test]
fn variables_of_several_configurations_are_set_once() {
    let shell = env(&[("K", "v"), ("L", " ")]);
    let mut process = env(&[]);
    let set = inherit_keys(&vec![azure("K"), azure("K"), azure("L")], &shell, &mut process);
    assert_eq!(set, vec![("K".to_string(), "v".to_string())]);
    assert_eq!(codex_provider_config_paths("a".into(), "a".into()), vec!["a"]);
    assert_eq!(codex_provider_config_paths("a".into(), "b".into()), vec!["a", "b"]);
}
