use helmor_triage::downloads::stream::Tally;
use helmor_triage::downloads::transfer::{
    stream_to_part, FileRequest, Settle, Transfer, TransferInput, TransferPhase, TransferStep,
    TransferWork,
};
use helmor_triage::downloads::types::AssetEventKind;
use helmor_triage::downloads::worker::StreamOutcome;

const ABC: &str = "ba7816bf8f01cfea414140de5dae2223b00361a396177a9cb410ff61f20015ad";

fn transfer(expected_size: u64, sha: Option<&str>) -> Transfer {
    let (t, work) = stream_to_part(
        FileRequest {
            asset_id: "a".into(),
            url: "https://h/f".into(),
            part_path: "/m/f.part".into(),
            expected_size,
            expected_sha256: sha.map(|s| s.to_string()),
        },
        Tally { accumulated: 100, total_expected: 1_000, last_marker: 0 },
    );
    assert!(matches!(work, TransferWork::Probe { ref path } if path == "/m/f.part"));
    t
}

fn answered(status: u16, length: Option<u64>) -> TransferInput {
    TransferInput::Answered {
        status,
        reason: "text".to_string(),
        content_length: length,
    }
}

fn chunk(bytes: &[u8], elapsed_ms: u64) -> TransferInput {
    TransferInput::Chunk { bytes: bytes.to_vec(), elapsed_ms }
}

fn error_of(step: TransferStep) -> String {
    match step.work {
        TransferWork::Finish { settle: Settle::Leave, outcome: StreamOutcome::Failed { error } } => {
            error
        }
        _ => panic!("expected a failure"),
    }
}

#[test]
fn a_new_file_is_taken_in_and_checked() {
    let mut t = transfer(3, Some(ABC));
    let s = t.step(TransferInput::PartLen(None));
    assert!(matches!(s.work, TransferWork::Request { ref url, range: None } if url == "https://h/f"));
    let s = t.step(answered(200, Some(3)));
    assert!(matches!(s.work, TransferWork::Open { truncate: false, seek_to: 0, .. }));
    let s = t.step(TransferInput::Opened);
    assert!(matches!(s.work, TransferWork::Receive { settle: Settle::Leave }));
    let s = t.step(chunk(b"ab", 10));
    assert!(s.event.is_none());
    let s = t.step(chunk(b"c", 250));
    assert!(matches!(
        s.event.unwrap().kind,
        AssetEventKind::Progress { downloaded: 103, total: 1_000, window_bytes: 103 }
    ));
    let s = t.step(TransferInput::Ended);
    assert!(matches!(
        s.work,
        TransferWork::Finish {
            settle: Settle::Sync,
            outcome: StreamOutcome::Completed { sha256_ok: true, part_bytes: 3 },
        }
    ));
    assert_eq!(t.tally.accumulated, 103);
    assert!(t.phase == TransferPhase::Done);
}

#[test]
fn a_resumed_file_is_hashed_from_its_first_byte() {
    let mut t = transfer(3, Some(ABC));
    let s = t.step(TransferInput::PartLen(Some(2)));
    assert!(matches!(s.work, TransferWork::Request { range: Some(ref r), .. } if r == "bytes=2-"));
    let s = t.step(answered(206, Some(1)));
    assert!(matches!(s.work, TransferWork::Open { truncate: false, seek_to: 2, .. }));
    let s = t.step(TransferInput::Opened);
    assert!(matches!(s.work, TransferWork::ReadBack { want: 2, .. }));
    let s = t.step(TransferInput::Back(b"a".to_vec()));
    assert!(matches!(s.work, TransferWork::ReadBack { want: 1, .. }));
    t.step(TransferInput::Back(b"b".to_vec()));
    t.step(chunk(b"c", 0));
    assert!(matches!(
        t.step(TransferInput::Ended).work,
        TransferWork::Finish { outcome: StreamOutcome::Completed { sha256_ok: true, .. }, .. }
    ));
}

#[test]
fn a_server_that_sends_everything_starts_the_file_over() {
    let mut t = transfer(3, Some(ABC));
    t.step(TransferInput::PartLen(Some(2)));
    let s = t.step(answered(200, Some(3)));
    assert!(matches!(s.work, TransferWork::Open { truncate: true, seek_to: 0, .. }));
    assert!(matches!(t.step(TransferInput::Opened).work, TransferWork::Receive { .. }));
}

#[test]
fn a_part_that_is_too_large_is_removed() {
    let mut t = transfer(3, None);
    let s = t.step(TransferInput::PartLen(Some(3)));
    assert!(matches!(s.work, TransferWork::Remove { ref path } if path == "/m/f.part"));
    let s = t.step(TransferInput::Removed);
    assert!(matches!(s.work, TransferWork::Request { range: None, .. }));
}

#[test]
fn other_bytes_than_promised_fail() {
    let mut t = transfer(0, Some(ABC));
    t.step(TransferInput::PartLen(None));
    t.step(answered(200, None));
    t.step(TransferInput::Opened);
    t.step(chunk(b"abd", 0));
    match t.step(TransferInput::Ended).work {
        TransferWork::Finish { settle: Settle::Sync, outcome: StreamOutcome::Failed { error } } => {
            assert!(error.starts_with(&format!("SHA-256 mismatch for a: expected {ABC}, got ")));
        }
        _ => panic!("expected a mismatch"),
    }
}

#[test]
fn a_stopped_transfer_tells_what_is_on_disk() {
    let mut t = transfer(0, None);
    t.step(TransferInput::PartLen(None));
    t.step(answered(200, None));
    t.step(TransferInput::Opened);
    t.step(chunk(b"abc", 0));
    assert!(matches!(
        t.step(TransferInput::Stopped).work,
        TransferWork::Finish {
            settle: Settle::Flush,
            outcome: StreamOutcome::Paused { downloaded: 103 },
        }
    ));
}

#[test]
fn failures_of_a_transfer_say_where_it_stood() {
    let cause = || "gone".to_string();
    let mut t = transfer(0, None);
    t.step(TransferInput::PartLen(None));
    assert_eq!(error_of(t.step(TransferInput::Unanswered { cause: cause() })), "GET https://h/f: gone");
    let mut t = transfer(0, None);
    t.step(TransferInput::PartLen(None));
    assert_eq!(error_of(t.step(answered(404, None))), "HTTP 404 text from https://h/f");
    let mut t = transfer(0, None);
    t.step(TransferInput::PartLen(Some(5)));
    t.step(answered(200, None));
    assert_eq!(
        error_of(t.step(TransferInput::NotOpened { cause: cause() })),
        "open /m/f.part (truncate): gone"
    );
    let mut t = transfer(0, None);
    t.step(TransferInput::PartLen(Some(5)));
    t.step(answered(206, None));
    assert_eq!(
        error_of(t.step(TransferInput::NotSought { cause: cause() })),
        "seek to 5 in /m/f.part: gone"
    );
    let at_readback = || {
        let mut t = transfer(0, None);
        t.step(TransferInput::PartLen(Some(5)));
        t.step(answered(206, None));
        t.step(TransferInput::Opened);
        t
    };
    assert_eq!(
        error_of(at_readback().step(TransferInput::NotReopened { cause: cause() })),
        "reopen /m/f.part for re-hash: gone"
    );
    assert_eq!(
        error_of(at_readback().step(TransferInput::NotReadBack { cause: cause() })),
        "read /m/f.part for re-hash: gone"
    );
    let at_receive = || {
        let mut t = at_readback();
        t.step(TransferInput::Back(Vec::new()));
        t
    };
    assert_eq!(
        error_of(at_receive().step(TransferInput::NotWritten { count: 7, cause: cause() })),
        "write 7 bytes to /m/f.part: gone"
    );
    assert_eq!(
        error_of(at_receive().step(TransferInput::Broken { cause: cause() })),
        "chunk from https://h/f after 5 bytes: gone"
    );
    assert_eq!(
        error_of(at_receive().step(TransferInput::Stalled)),
        "chunk from https://h/f timed out after 5 bytes (no data for 90s)"
    );
}

#[test]
fn reports_out_of_turn_are_not_taken() {
    let mut t = transfer(0, None);
    assert!(!t.can_take(&TransferInput::Removed));
    assert!(t.can_take(&TransferInput::PartLen(Some(5))));
    t.step(TransferInput::PartLen(Some(5)));
    assert!(!t.can_take(&answered(206, Some(u64::MAX))));
    assert!(t.can_take(&answered(206, Some(7))));
}

#[test]
fn large_chunks_are_flushed() {
    let mut t = transfer(0, None);
    t.step(TransferInput::PartLen(None));
    t.step(answered(200, None));
    t.step(TransferInput::Opened);
    let s = t.step(chunk(&vec![0u8; 8 * 1024 * 1024 - 1], 0));
    assert!(matches!(s.work, TransferWork::Receive { settle: Settle::Leave }));
    let s = t.step(chunk(&[0u8], 0));
    assert!(matches!(s.work, TransferWork::Receive { settle: Settle::Flush }));
}
