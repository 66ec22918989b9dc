use helmor_triage::local_llm::health::{warmup_done, ErrorUpdate, HealthWatch, Poll, Warmup};
use helmor_triage::local_llm::launch::{
    find_sibling_mmproj, llama_model_args, resolve_mmproj_for_model, spawn_llm_server, Projector,
};
use helmor_triage::local_llm::manager::{
    sweep_orphan_server, HostFacts, Manager, ServerFlags, ServerInstance, StartStep,
};

fn flags() -> ServerFlags {
    ServerFlags {
        api_model: "local".into(),
        gpu_layers: "99".into(),
        reasoning_mode: "off".into(),
    }
}

fn facts(model: &str) -> HostFacts {
    HostFacts {
        enabled: true,
        model: model.into(),
        runtime_path: Some("/bin/llama".into()),
        context_size: 4096,
    }
}

fn server(model: &str) -> ServerInstance {
    ServerInstance { port: 8123, token: "t".into(), model_path: model.into() }
}

#[test]
fn a_server_is_started_once_and_reached_while_it_lives() {
    let mut m = Manager::default();
    assert!(m.endpoint(true, "local").is_none());
    assert_eq!(m.start("/a.gguf", false), StartStep::Spawn);
    assert!(m.status(true, &facts("/a.gguf"), &flags()).starting);
    assert!(m.started(Ok(server("/a.gguf"))).is_ok());
    assert_eq!(m.start("/a.gguf", true), StartStep::Running);
    let s = m.status(true, &facts("/a.gguf"), &flags());
    assert!(s.running && !s.starting && s.runtime_found);
    assert_eq!(s.endpoint.as_deref(), Some("http://127.0.0.1:8123"));
    assert_eq!(s.gpu_layers, 99);
    assert_eq!(s.context_size, 4096);
    let e = m.endpoint(true, "local").unwrap();
    assert_eq!((e.url.as_str(), e.token.as_str(), e.api_model.as_str()), ("http://127.0.0.1:8123", "t", "local"));
    assert_eq!(m.start("/b.gguf", true), StartStep::Spawn);
    assert!(m.server.is_none(), "the old server is given up first");
}

#[test]
fn a_dead_server_is_forgotten() {
    let mut m = Manager::default();
    assert!(m.started(Ok(server("/a"))).is_ok());
    assert!(m.current_endpoint_and_token(false).is_none());
    assert!(m.current_endpoint_and_token(true).is_none());
    assert!(!m.status(true, &facts("/a"), &flags()).running);
}

#[test]
fn errors_of_a_start_are_shown_until_the_next() {
    let mut m = Manager::default();
    m.start("/a", false);
    assert_eq!(m.started(Err("no memory".into())).err().as_deref(), Some("no memory"));
    assert_eq!(
        m.status(true, &facts("/a"), &flags()).last_error.as_deref(),
        Some("no memory")
    );
    m.stop();
    assert!(m.last_error.is_none());
    m.note(ErrorUpdate::Put("x".into()));
    m.note(ErrorUpdate::Keep);
    assert_eq!(m.last_error.as_deref(), Some("x"));
    m.note(ErrorUpdate::Clear);
    assert!(m.last_error.is_none());
}

#[test]
fn layers_that_cannot_be_read_are_ninety_nine() {
    let mut m = Manager::default();
    for (text, n) in [("12", 12), ("+3", 3), ("-1", 99), ("-0", 99), ("x", 99), ("", 99), ("4294967296", 99)] {
        let f = ServerFlags { gpu_layers: text.into(), ..flags() };
        assert_eq!(m.status(true, &facts("m"), &f).gpu_layers, n, "{text}");
    }
}

#[test]
fn no_model_has_no_context() {
    let m = Manager::default();
    assert_eq!(m.current_context_tokens(&facts("")), 0);
    assert_eq!(m.current_context_tokens(&facts("/a")), 4096);
    assert_eq!(sweep_orphan_server("/data"), "/data/local-llm/server.pid");
}

fn put(u: ErrorUpdate) -> String {
    match u {
        ErrorUpdate::Put(e) => e,
        _ => panic!("expected an error"),
    }
}

#[test]
fn warmups_note_what_went_wrong() {
    assert!(matches!(warmup_done(&Warmup::Answered), ErrorUpdate::Keep));
    assert_eq!(
        put(warmup_done(&Warmup::NoClient { error: "tls".into() })),
        "Local LLM warmup client build failed: tls"
    );
    assert_eq!(
        put(warmup_done(&Warmup::Refused { status: "503 Service Unavailable".into(), body_preview: "".into() })),
        "Local LLM warmup returned HTTP 503 Service Unavailable"
    );
    assert_eq!(
        put(warmup_done(&Warmup::Refused { status: "500".into(), body_preview: "oops".into() })),
        "Local LLM warmup returned HTTP 500 — oops"
    );
    assert_eq!(
        put(warmup_done(&Warmup::Failed { error: "refused".into() })),
        "Local LLM warmup failed: refused"
    );
}

#[test]
fn two_failures_in_a_row_count() {
    let mut watch = HealthWatch::new();
    let bad = Poll::Refused { status: "500".into() };
    assert!(matches!(watch.polled(&bad, &None).update, ErrorUpdate::Keep));
    assert_eq!(put(watch.polled(&bad, &None).update), "Local LLM unresponsive (HTTP 500)");
    let failed = Poll::Failed { error: "timeout".into() };
    assert_eq!(put(watch.polled(&failed, &None).update), "Local LLM unresponsive: timeout");
    let noted = Some("Local LLM unresponsive: timeout".to_string());
    assert!(matches!(watch.polled(&Poll::Answered, &noted).update, ErrorUpdate::Clear));
    let warmup = Some("Local LLM warmup failed: x".to_string());
    assert!(matches!(watch.polled(&Poll::Answered, &warmup).update, ErrorUpdate::Keep));
    assert!(watch.polled(&Poll::Unreachable, &None).goes_on);
    assert!(!watch.polled(&Poll::Unreachable, &None).goes_on);
}

#[test]
fn models_of_the_catalog_have_their_own_projector() {
    assert!(matches!(
        resolve_mmproj_for_model("/m", "Qwen3.6-27B-Q4_K_M.gguf"),
        Projector::At { ref path } if path == "/m/mmproj-F16.unsloth_Qwen3.6-27B-GGUF.gguf"
    ));
    assert!(matches!(resolve_mmproj_for_model("/m", "custom.gguf"), Projector::Beside));
}

#[test]
fn projectors_beside_a_model_are_preferred_by_precision() {
    let names = |v: &[&str]| v.iter().map(|s| s.to_string()).collect::<Vec<String>>();
    assert_eq!(
        find_sibling_mmproj(&names(&["mmproj-x.gguf", "mmproj-F32.gguf", "mmproj-BF16.gguf", "mmproj-F16.GGUF"])),
        Some(3)
    );
    assert_eq!(find_sibling_mmproj(&names(&["mmproj-F32.gguf", "mmproj-bf16.gguf"])), Some(1));
    assert_eq!(find_sibling_mmproj(&names(&["a.gguf", "mmproj-F16.bin"])), None);
    assert_eq!(find_sibling_mmproj(&names(&["mmproj-a.gguf", "mmproj-b.gguf"])), Some(0));
}

#[test]
fn servers_are_started_with_their_arguments() {
    assert_eq!(
        llama_model_args("  ", true, None).err().as_deref(),
        Some("No model selected. Pick a curated model or set a custom path.")
    );
    assert_eq!(
        llama_model_args(" /x ", false, None).err().as_deref(),
        Some("Model file not found: /x. Pick a curated model in Settings or point Custom model path at a real `.gguf` file.")
    );
    let args = llama_model_args(" /x ", true, Some("/p".into())).ok().unwrap();
    assert_eq!(args, vec!["--model", "/x", "--mmproj", "/p"]);
    let spawn = spawn_llm_server("/x", llama_model_args("/x", true, None).ok().unwrap(), 4096, &flags(), "/data");
    assert_eq!(
        spawn.llama_args,
        vec!["--model", "/x", "--alias", "local", "-c", "4096", "-ngl", "99", "--reasoning", "off", "--log-disable"]
    );
    assert_eq!(spawn.pid_path, "/data/local-llm/server.pid");
    assert_eq!(spawn.hf_home, "/data/local-llm/hf");
    assert_eq!(spawn.logs_dir, "/data/local-llm/logs");
}
