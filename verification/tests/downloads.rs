use helmor_triage::assoc::AssocMap;
use helmor_triage::digest::{encode, RunningDigest};
use helmor_triage::downloads::registry::{
    artefact_paths, scan_asset_state, AssetProvider, DownloadsManager, StartOutcome,
};
use helmor_triage::downloads::stream::{
    accept_response, broken_off_message, is_retryable, plan_resume, range_header, stalled_message,
    PartStream, Tally,
};
use helmor_triage::downloads::types::{
    ArchiveKind, Asset, AssetEvent, AssetEventKind, AssetSource, AssetState, AssetStatus, Disk,
    DiskEntry, OptionalFile,
};
use helmor_triage::downloads::worker::{
    compute_total_hf, compute_total_optional_hf, HfFileInfo, HfInput, HfManifest, HfRun, HfWork,
    StreamOutcome,
};
use helmor_triage::local_llm::asset_provider::CatalogAssetProvider;

fn fake_asset(target_dir: &str, files: &[&str]) -> Asset {
    Asset {
        id: "fake".into(),
        target_dir: target_dir.to_string(),
        files: files.iter().map(|f| (*f).to_string()).collect(),
        optional_files: Vec::new(),
        source: AssetSource::HuggingFace {
            repo: "fake/repo".into(),
        },
        archive: ArchiveKind::Plain,
        is_directory: false,
        estimated_bytes: 1_000,
    }
}

fn disk(files: &[(&str, u64)]) -> Disk {
    let mut d = Disk::new();
    for (path, len) in files {
        d.put(path, DiskEntry { len: *len, is_file: true });
    }
    d
}

fn mmproj() -> OptionalFile {
    OptionalFile {
        remote_name: "mmproj.gguf".into(),
        local_name: "mmproj.gguf".into(),
    }
}

#[test]
fn scan_marks_manually_placed_single_file_as_downloaded() {
    let asset = fake_asset("/m", &["model.gguf"]);
    let status = scan_asset_state(&asset, &disk(&[("/m/model.gguf", 11)]));
    assert!(
        matches!(status.state, AssetState::Downloaded),
        "expected Downloaded, got {:?}",
        status.state
    );
    assert_eq!(status.downloaded, 11);
}

#[test]
fn scan_marks_part_file_as_paused() {
    let asset = fake_asset("/m", &["model.gguf"]);
    let status = scan_asset_state(&asset, &disk(&[("/m/model.gguf.part", 7)]));
    assert!(matches!(status.state, AssetState::Paused));
    assert_eq!(status.downloaded, 7);
}

#[test]
fn scan_marks_partial_multi_part_set_as_paused() {
    let asset = fake_asset("/m", &["part1.gguf", "part2.gguf", "part3.gguf"]);
    let status = scan_asset_state(&asset, &disk(&[("/m/part1.gguf", 5), ("/m/part2.gguf", 6)]));
    assert!(
        matches!(status.state, AssetState::Paused),
        "expected Paused for partial multi-part set, got {:?}",
        status.state
    );
    assert_eq!(status.downloaded, 11);
}

#[test]
fn scan_returns_not_downloaded_for_empty_dir() {
    let asset = fake_asset("/m", &["model.gguf"]);
    let status = scan_asset_state(&asset, &Disk::new());
    assert!(matches!(status.state, AssetState::NotDownloaded));
    assert_eq!(status.downloaded, 0);
}

#[test]
fn essential_only_is_downloaded_when_optional_file_missing() {
    let mut asset = fake_asset("/m", &["model.gguf"]);
    asset.optional_files = vec![mmproj()];
    let status = scan_asset_state(&asset, &disk(&[("/m/model.gguf", 7)]));
    assert!(
        matches!(status.state, AssetState::Downloaded),
        "main-only install must stay Downloaded, got {:?}",
        status.state
    );
    assert_eq!(status.downloaded, 7);
}

#[test]
fn optional_file_bytes_count_toward_disk_footprint() {
    let mut asset = fake_asset("/m", &["model.gguf"]);
    asset.optional_files = vec![mmproj()];
    let status = scan_asset_state(&asset, &disk(&[("/m/model.gguf", 7), ("/m/mmproj.gguf", 6)]));
    assert!(matches!(status.state, AssetState::Downloaded));
    assert_eq!(status.downloaded, 13);
}

#[test]
fn a_new_status_expects_the_total_and_lacks_nothing() {
    let s = AssetStatus::not_downloaded("x", 42);
    assert_eq!(s.entry_id, "x");
    assert_eq!(s.total, 42);
    assert_eq!(s.downloaded, 0);
    assert_eq!(s.state, AssetState::NotDownloaded);
    assert!(s.optional_complete);
    assert!(s.error.is_none());
}

#[test]
fn artefacts_are_the_files_and_their_parts() {
    let mut asset = fake_asset("/m", &["model.gguf"]);
    asset.optional_files = vec![mmproj()];
    let paths = artefact_paths(&asset);
    for p in [
        "/m/model.gguf",
        "/m/model.gguf.part",
        "/m/mmproj.gguf",
        "/m/mmproj.gguf.part",
    ] {
        assert!(paths.iter().any(|q| q == p), "{p} is missing");
    }
    assert_eq!(paths.len(), 4);
}


fn manager() -> DownloadsManager<CatalogAssetProvider> {
    DownloadsManager::new(CatalogAssetProvider {
        models_dir: Some("/m".to_string()),
    })
}

#[test]
fn a_download_starts_once_and_can_be_paused() {
    let mut m = manager();
    let empty = Disk::new();
    assert_eq!(m.snapshot(&empty).len(), 6);
    let started = m.start("qwen35-4b-q4", &empty);
    assert!(matches!(started, Ok(StartOutcome::Spawn(ref a)) if a.id == "qwen35-4b-q4"));
    assert!(matches!(
        m.start("qwen35-4b-q4", &empty),
        Ok(StartOutcome::Nothing)
    ));
    assert!(!m.stop_requested("qwen35-4b-q4"));
    m.pause("qwen35-4b-q4");
    assert!(m.stop_requested("qwen35-4b-q4"));
    assert!(!m.worker_ended("qwen35-4b-q4"));
    assert!(m.start("no-such-model", &empty).is_err());
}

#[test]
fn a_cancelled_download_stays_reset_until_it_is_torn_down() {
    let mut m = manager();
    let empty = Disk::new();
    assert!(m.start("qwen35-4b-q4", &empty).is_ok());
    let plan = m.cancel_and_delete("qwen35-4b-q4").ok().unwrap();
    assert!(plan.delete_now.is_none(), "the worker's end deletes the files");
    assert!(matches!(plan.event.kind, AssetEventKind::Cancelled { .. }));
    let late = AssetEvent {
        entry_id: "qwen35-4b-q4".into(),
        kind: AssetEventKind::Paused { downloaded: 5, total: 9 },
    };
    assert!(!m.emit(&late), "nothing is told of a download that was given up");
    assert!(matches!(
        m.start("qwen35-4b-q4", &empty),
        Ok(StartOutcome::Nothing)
    ));
    assert!(m.worker_ended("qwen35-4b-q4"));
    m.teardown_settled("qwen35-4b-q4");
    assert!(matches!(
        m.start("qwen35-4b-q4", &empty),
        Ok(StartOutcome::Spawn(_))
    ));
}

#[test]
fn a_row_being_cancelled_lacks_its_optional_files() {
    let mut m = manager();
    let empty = Disk::new();
    let asset = m.provider.assets().into_iter().find(|a| a.id == "qwen35-4b-q4").unwrap();
    assert_eq!(asset.optional_files.len(), 1);
    assert!(m.start("qwen35-4b-q4", &empty).is_ok());
    assert!(m.cancel_and_delete("qwen35-4b-q4").is_ok());
    let rows = m.snapshot(&empty);
    let row = rows.iter().find(|s| s.entry_id == "qwen35-4b-q4").unwrap();
    assert_eq!(row.state, AssetState::NotDownloaded);
    assert_eq!((row.downloaded, row.total), (0, asset.estimated_bytes));
    assert!(!row.optional_complete);
    assert!(AssetStatus::cleared(&fake_asset("/m", &["model.gguf"])).optional_complete);
    let mut fresh = manager();
    let told = AssetEvent {
        entry_id: "qwen35-4b-q4".into(),
        kind: AssetEventKind::Started { total: 9 },
    };
    assert!(fresh.emit(&told));
    assert!(fresh.statuses.get(&"qwen35-4b-q4".to_string()).unwrap().optional_complete);
}

#[test]
fn a_snapshot_has_a_row_for_every_asset() {
    let mut m = manager();
    let id = "qwen35-4b-q4";
    let assets = m.provider.assets();
    let asset = assets.iter().find(|a| a.id == id).unwrap();
    let optional = format!("{}/{}", asset.target_dir, asset.optional_files[0].local_name);
    assert!(m.start(id, &Disk::new()).is_ok());
    let rows = m.snapshot(&disk(&[(&optional, 5)]));
    for a in &assets {
        assert_eq!(rows.iter().filter(|s| s.entry_id == a.id).count(), 1, "{}", a.id);
    }
    let row = |rows: &Vec<AssetStatus>| rows.iter().find(|s| s.entry_id == id).unwrap().clone();
    assert_eq!(row(&rows).state, AssetState::Downloading);
    assert!(!row(&rows).optional_complete, "it was missing when the worker began");
    let done = AssetEventKind::Completed {
        downloaded: 9,
        path: "/m/x".into(),
        sha256_verified: true,
        optional_complete: true,
    };
    assert!(m.emit(&AssetEvent { entry_id: id.into(), kind: done }));
    assert!(row(&m.snapshot(&Disk::new())).optional_complete, "the worker has told");
    assert!(!m.worker_ended(id));
    assert!(!row(&m.snapshot(&Disk::new())).optional_complete, "the disk tells");
}

#[test]
fn an_idle_download_is_deleted_at_once() {
    let mut m = manager();
    let plan = m.cancel_and_delete("qwen35-4b-q4").ok().unwrap();
    assert_eq!(plan.delete_now.unwrap().id, "qwen35-4b-q4");
}

#[test]
fn statuses_come_in_the_order_of_the_ids() {
    let mut m = manager();
    let ids: Vec<String> = m.snapshot(&Disk::new()).into_iter().map(|s| s.entry_id).collect();
    let mut sorted = ids.clone();
    sorted.sort();
    assert_eq!(ids, sorted);
    assert_eq!(m.provider.assets().len(), 6);
}

#[test]
fn events_move_the_status() {
    let mut m = manager();
    let id = "qwen35-4b-q4";
    let emit = |m: &mut DownloadsManager<CatalogAssetProvider>, kind: AssetEventKind| {
        m.emit(&AssetEvent { entry_id: id.into(), kind })
    };
    assert!(m.start(id, &Disk::new()).is_ok());
    assert!(emit(&mut m, AssetEventKind::Started { total: 100 }));
    assert!(emit(
        &mut m,
        AssetEventKind::Progress { downloaded: 40, total: 100, window_bytes: 40 }
    ));
    let s = m.snapshot(&Disk::new()).into_iter().find(|s| s.entry_id == id).unwrap();
    assert_eq!((s.state, s.downloaded, s.total), (AssetState::Downloading, 40, 100));
    assert!(emit(
        &mut m,
        AssetEventKind::Failed { error: "HTTP 503".into(), retryable: true }
    ));
    let s = m.snapshot(&Disk::new()).into_iter().find(|s| s.entry_id == id).unwrap();
    assert_eq!(s.state, AssetState::Failed);
    assert_eq!(s.error.as_deref(), Some("HTTP 503"));
}

#[test]
fn a_part_as_large_as_the_whole_is_started_over() {
    let p = plan_resume(Some(100), 100);
    assert!(p.remove_part);
    assert_eq!(p.resume_from, 0);
    let p = plan_resume(Some(40), 100);
    assert!(!p.remove_part);
    assert_eq!(p.resume_from, 40);
    let p = plan_resume(Some(40), 0);
    assert_eq!(p.resume_from, 40);
    assert_eq!(range_header(40).as_deref(), Some("bytes=40-"));
    assert!(range_header(0).is_none());
}

#[test]
fn responses_tell_where_writing_begins() {
    let p = accept_response("u", 206, "Partial Content", Some(60), 40, 100).ok().unwrap();
    assert!(!p.truncate);
    assert_eq!((p.seek_to, p.server_total), (40, 100));
    let p = accept_response("u", 200, "OK", Some(100), 40, 100).ok().unwrap();
    assert!(p.truncate);
    assert_eq!((p.seek_to, p.server_total), (0, 140));
    let p = accept_response("u", 200, "OK", None, 40, 30).ok().unwrap();
    assert_eq!((p.seek_to, p.server_total), (0, 40));
    let e = accept_response("https://x/y", 404, "Not Found", None, 0, 0).err().unwrap();
    assert_eq!(e, "HTTP 404 Not Found from https://x/y");
}

#[test]
fn a_file_is_held_against_its_digest() {
    let mut tally = Tally { accumulated: 0, total_expected: 3, last_marker: 0 };
    let mut part = PartStream::open(0, 3);
    let report = part.on_chunk("a", b"abc", &mut tally, 300);
    assert!(!report.flush);
    assert!(matches!(
        report.progress.unwrap().kind,
        AssetEventKind::Progress { downloaded: 3, total: 3, window_bytes: 3 }
    ));
    let sha = "BA7816BF8F01CFEA414140DE5DAE2223B00361A396177A9CB410FF61F20015AD";
    assert!(matches!(part.finish("a", Some(sha), &mut tally), Ok(true)));
    assert_eq!(tally.accumulated, 3);

    let mut part = PartStream::open(0, 3);
    part.on_chunk("a", b"abd", &mut tally, 0);
    let e = part.finish("a", Some(sha), &mut tally).err().unwrap();
    assert!(e.starts_with("SHA-256 mismatch for a: expected BA7816"));
}

#[test]
fn digests_are_those_of_the_standard() {
    let mut d = RunningDigest::new();
    d.update(b"a");
    d.update(b"bc");
    assert_eq!(d.count(), 3);
    assert_eq!(
        encode(&d.finish()),
        "ba7816bf8f01cfea414140de5dae2223b00361a396177a9cb410ff61f20015ad"
    );
    assert_eq!(encode(&[0x00, 0x0f, 0xff]), "000fff");
}

#[test]
fn passing_failures_are_retryable() {
    assert!(is_retryable("Connection Reset by peer"));
    assert!(is_retryable("HTTP 429 Too Many Requests from x"));
    assert!(is_retryable("unexpected EOF"));
    assert!(is_retryable("GET u: error sending request: dns error: no such host"));
    assert!(is_retryable("GET u: tcp connect error: Network is unreachable (os error 101)"));
    assert!(is_retryable("GET u: connection closed before message completed"));
    assert!(!is_retryable("GET u: invalid peer certificate"));
    assert!(!is_retryable("HTTP 404 Not Found from x"));
    assert!(is_retryable("HTTP 408 Request Timeout from x"));
    assert!(is_retryable(
        "HTTP 500 Internal Server Error from https://huggingface.co/r/resolve/main/f.gguf"
    ));
    assert!(is_retryable("HTTP 599 <unknown status code> from x"));
    assert!(!is_retryable("HTTP 600 <unknown status code> from x"));
    assert!(!is_retryable("HTTP 404 Not Found from https://x/503/timeout"));
    assert!(!is_retryable("SHA-256 mismatch for a: expected 502, got 429503"));
    assert!(is_retryable(&broken_off_message("u", 12, "end of file before message length reached")));
    assert!(is_retryable(&stalled_message("u", 12)));
    assert_eq!(
        stalled_message("u", 12),
        "chunk from u timed out after 12 bytes (no data for 90s)"
    );
    assert_eq!(
        broken_off_message("u", 7, "reset"),
        "chunk from u after 7 bytes: reset"
    );
}

fn manifest(entries: &[(&str, u64)]) -> HfManifest {
    let mut per_file = AssocMap::new();
    for (name, size) in entries {
        per_file.insert(
            name.to_string(),
            HfFileInfo { size: Some(*size), sha256: Some("ab".to_string()) },
        );
    }
    HfManifest { per_file }
}

#[test]
fn totals_come_from_the_manifest_where_it_knows_every_file() {
    let mut asset = fake_asset("/m", &["a", "b"]);
    asset.optional_files = vec![mmproj()];
    let full = Some(manifest(&[("a", 5), ("b", 6), ("mmproj.gguf", 7)]));
    assert_eq!(compute_total_hf(&asset, &full), 18);
    assert_eq!(compute_total_optional_hf(&asset, &full), 7);
    let partial = Some(manifest(&[("a", 5)]));
    assert_eq!(compute_total_hf(&asset, &partial), 1_000);
    assert_eq!(compute_total_optional_hf(&asset, &partial), 0);
    assert_eq!(compute_total_hf(&asset, &None), 1_000);
}

#[test]
fn a_download_runs_through_its_files() {
    let mut asset = fake_asset("/m", &["a"]);
    asset.optional_files = vec![mmproj()];
    let (mut run, step) =
        HfRun::begin(asset, Some(manifest(&[("a", 5), ("mmproj.gguf", 7)])), &Disk::new());
    assert!(matches!(
        step.event.unwrap().kind,
        AssetEventKind::Started { total: 12 }
    ));
    assert!(matches!(step.work, HfWork::Probe { ref path } if path == "/m/a"));
    let step = run.step(HfInput::Probed { len: None, cancelled: false });
    match step.work {
        HfWork::Stream { url, part_path, expected_size, expected_sha256 } => {
            assert_eq!(url, "https://huggingface.co/fake/repo/resolve/main/a");
            assert_eq!(part_path, "/m/a.part");
            assert_eq!(expected_size, 5);
            assert_eq!(expected_sha256.as_deref(), Some("ab"));
        }
        _ => panic!("expected a stream"),
    }
    let step = run.step(HfInput::Streamed(StreamOutcome::Completed {
        sha256_ok: true,
        part_bytes: 5,
    }));
    assert!(matches!(step.work, HfWork::Rename { ref from, ref to } if from == "/m/a.part" && to == "/m/a"));
    let step = run.step(HfInput::Renamed(Ok(())));
    assert!(matches!(step.work, HfWork::Probe { ref path } if path == "/m/mmproj.gguf"));
    let step = run.step(HfInput::Probed { len: None, cancelled: false });
    assert!(matches!(step.work, HfWork::Stream { .. }));
    let step = run.step(HfInput::Streamed(StreamOutcome::Failed { error: "HTTP 404".into() }));
    assert!(step.event.is_none(), "an optional file that fails is passed over");
    assert!(matches!(step.work, HfWork::Remove { ref path } if path == "/m/mmproj.gguf.part"));
    let step = run.step(HfInput::Removed);
    assert!(matches!(step.work, HfWork::CheckFiles { ref paths } if paths.len() == 1));
    let step = run.step(HfInput::Checked(false));
    assert!(matches!(
        step.event.unwrap().kind,
        AssetEventKind::Completed { downloaded: 5, sha256_verified: true, optional_complete: false, .. }
    ));
    assert!(matches!(step.work, HfWork::Finish(Ok(()))));
}

#[test]
fn an_essential_file_that_fails_ends_the_download() {
    let (mut run, _) = HfRun::begin(fake_asset("/m", &["a"]), None, &Disk::new());
    run.step(HfInput::Probed { len: None, cancelled: false });
    let step = run.step(HfInput::Streamed(StreamOutcome::Failed {
        error: "HTTP 503 from x".into(),
    }));
    assert!(matches!(
        step.event.unwrap().kind,
        AssetEventKind::Failed { retryable: true, .. }
    ));
    assert!(matches!(step.work, HfWork::Finish(Err(ref e)) if e == "HTTP 503 from x"));
}

#[test]
fn a_complete_model_is_topped_up_with_its_projector_alone() {
    let mut asset = fake_asset("/m", &["a"]);
    asset.optional_files = vec![mmproj()];
    let (run, step) = HfRun::begin(
        asset,
        Some(manifest(&[("a", 5), ("mmproj.gguf", 7)])),
        &disk(&[("/m/a", 5)]),
    );
    assert!(run.top_up);
    assert!(matches!(
        step.event.unwrap().kind,
        AssetEventKind::Started { total: 7 }
    ));
    assert!(matches!(step.work, HfWork::Probe { ref path } if path == "/m/mmproj.gguf"));
}
