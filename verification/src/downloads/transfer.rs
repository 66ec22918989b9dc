//! The transfer of one file into its partial file, step by step: what the host is asked to
//! do, and what each of its reports leads to.
//!
//! A transfer looks for a partial file, resumes behind it where the server plays along,
//! hashes again what was there before, takes in chunks until the stream ends, and holds
//! the whole against the promised digest.
use vstd::prelude::*;
use crate::digest;
use crate::downloads::stream;
use crate::downloads::stream::{PartStream, Tally};
use crate::downloads::types;
use crate::downloads::types::AssetEvent;
use crate::downloads::worker::{OutcomeView, StreamOutcome};
use crate::numbers;
use crate::text;

verus! {

/// The file that is wanted, and what is known of it.
pub struct FileRequest {
    pub asset_id: String,
    pub url: String,
    pub part_path: String,
    /// Zero where it is not known.
    pub expected_size: u64,
    pub expected_sha256: Option<String>,
}

/// What is wanted.
#[verifier::ext_equal]
pub struct RequestView {
    pub asset_id: Seq<char>,
    pub url: Seq<char>,
    pub part_path: Seq<char>,
    pub expected_size: u64,
    pub expected_sha256: Option<Seq<char>>,
}

impl View for FileRequest {
    type V = RequestView;

    open spec fn view(&self) -> RequestView {
        RequestView {
            asset_id: self.asset_id@,
            url: self.url@,
            part_path: self.part_path@,
            expected_size: self.expected_size,
            expected_sha256: text::opt_text(self.expected_sha256),
        }
    }
}

/// Where a transfer stands.
#[derive(Clone, Copy, Debug, PartialEq, Eq, Structural)]
pub enum TransferPhase {
    /// The size of the partial file is looked up.
    Probe,
    /// A partial file that cannot be resumed is removed.
    Remove,
    /// The server is asked for what comes behind so many bytes.
    Request(u64),
    /// The partial file is opened, emptied first where the flag is set.
    Open(bool),
    /// So many bytes of the partial file are still to be hashed again.
    ReadBack(u64),
    /// Chunks are taken in.
    Receive,
    Done,
}

/// What the host reports back.
pub enum TransferInput {
    /// The size of the partial file, where there is one.
    PartLen(Option<u64>),
    Removed,
    Answered { status: u16, reason: String, content_length: Option<u64> },
    Unanswered { cause: String },
    Opened,
    NotOpened { cause: String },
    NotSought { cause: String },
    /// Bytes read from the partial file; none where it has no more.
    Back(Vec<u8>),
    NotReopened { cause: String },
    NotReadBack { cause: String },
    /// A chunk that was written to the partial file, so long after the last report.
    Chunk { bytes: Vec<u8>, elapsed_ms: u64 },
    NotWritten { count: u64, cause: String },
    /// The user has stopped the download.
    Stopped,
    Broken { cause: String },
    /// No data came in for too long.
    Stalled,
    Ended,
}

/// What the host does with the partial file before it goes on.
#[derive(Clone, Copy, Debug, PartialEq, Eq, Structural)]
pub enum Settle {
    Leave,
    Flush,
    /// Flushed and synced to disk.
    Sync,
}

/// What the host does next.
pub enum TransferWork {
    Probe { path: String },
    Remove { path: String },
    Request { url: String, range: Option<String> },
    Open { path: String, truncate: bool, seek_to: u64 },
    ReadBack { path: String, want: u64 },
    /// The next chunk is read and written, after a flush where one is due.
    Receive { settle: Settle },
    Finish { settle: Settle, outcome: StreamOutcome },
}

/// An event to tell of, and what the host does next.
pub struct TransferStep {
    pub event: Option<AssetEvent>,
    pub work: TransferWork,
}

/// What the host reports back.
pub enum InputView {
    PartLen(Option<u64>),
    Removed,
    Answered { status: u16, reason: Seq<char>, content_length: Option<u64> },
    Unanswered { cause: Seq<char> },
    Opened,
    NotOpened { cause: Seq<char> },
    NotSought { cause: Seq<char> },
    Back(Seq<u8>),
    NotReopened { cause: Seq<char> },
    NotReadBack { cause: Seq<char> },
    Chunk { bytes: Seq<u8>, elapsed_ms: u64 },
    NotWritten { count: u64, cause: Seq<char> },
    Stopped,
    Broken { cause: Seq<char> },
    Stalled,
    Ended,
}

impl View for TransferInput {
    type V = InputView;

    open spec fn view(&self) -> InputView {
        match self {
            TransferInput::PartLen(n) => InputView::PartLen(*n),
            TransferInput::Removed => InputView::Removed,
            TransferInput::Answered { status, reason, content_length } => InputView::Answered {
                status: *status,
                reason: reason@,
                content_length: *content_length,
            },
            TransferInput::Unanswered { cause } => InputView::Unanswered { cause: cause@ },
            TransferInput::Opened => InputView::Opened,
            TransferInput::NotOpened { cause } => InputView::NotOpened { cause: cause@ },
            TransferInput::NotSought { cause } => InputView::NotSought { cause: cause@ },
            TransferInput::Back(b) => InputView::Back(b@),
            TransferInput::NotReopened { cause } => InputView::NotReopened { cause: cause@ },
            TransferInput::NotReadBack { cause } => InputView::NotReadBack { cause: cause@ },
            TransferInput::Chunk { bytes, elapsed_ms } => InputView::Chunk {
                bytes: bytes@,
                elapsed_ms: *elapsed_ms,
            },
            TransferInput::NotWritten { count, cause } => InputView::NotWritten {
                count: *count,
                cause: cause@,
            },
            TransferInput::Stopped => InputView::Stopped,
            TransferInput::Broken { cause } => InputView::Broken { cause: cause@ },
            TransferInput::Stalled => InputView::Stalled,
            TransferInput::Ended => InputView::Ended,
        }
    }
}

/// What the host does next.
pub enum WorkView {
    Probe { path: Seq<char> },
    Remove { path: Seq<char> },
    Request { url: Seq<char>, range: Option<Seq<char>> },
    Open { path: Seq<char>, truncate: bool, seek_to: u64 },
    ReadBack { path: Seq<char>, want: u64 },
    Receive { settle: Settle },
    Finish { settle: Settle, outcome: OutcomeView },
}

/// How a transfer ended.
pub open spec fn outcome_view(o: StreamOutcome) -> OutcomeView {
    match o {
        StreamOutcome::Completed { sha256_ok, part_bytes } => OutcomeView::Completed {
            sha256_ok,
            part_bytes,
        },
        StreamOutcome::Paused { downloaded } => OutcomeView::Paused { downloaded },
        StreamOutcome::Failed { error } => OutcomeView::Failed { error: error@ },
    }
}

impl View for TransferWork {
    type V = WorkView;

    open spec fn view(&self) -> WorkView {
        match self {
            TransferWork::Probe { path } => WorkView::Probe { path: path@ },
            TransferWork::Remove { path } => WorkView::Remove { path: path@ },
            TransferWork::Request { url, range } => WorkView::Request {
                url: url@,
                range: text::opt_text(*range),
            },
            TransferWork::Open { path, truncate, seek_to } => WorkView::Open {
                path: path@,
                truncate: *truncate,
                seek_to: *seek_to,
            },
            TransferWork::ReadBack { path, want } => WorkView::ReadBack {
                path: path@,
                want: *want,
            },
            TransferWork::Receive { settle } => WorkView::Receive { settle: *settle },
            TransferWork::Finish { settle, outcome } => WorkView::Finish {
                settle: *settle,
                outcome: outcome_view(*outcome),
            },
        }
    }
}

/// An event to tell of, and what the host does next.
pub struct StepView {
    pub event: Option<types::KindView>,
    pub work: WorkView,
}

impl TransferStep {
    /// The step tells of the asset with the id what the view says.
    pub open spec fn says(&self, id: Seq<char>, v: StepView) -> bool {
        &&& self.work@ == v.work
        &&& match (self.event, v.event) {
            (Some(e), Some(k)) => e.entry_id@ == id && e.kind@ == k,
            (None, None) => true,
            _ => false,
        }
    }
}

/// A transfer and where it stands.
#[verifier::ext_equal]
pub struct TransferView {
    pub request: RequestView,
    /// Bytes of the files before this one.
    pub accumulated: u64,
    /// Bytes expected of all files.
    pub total_expected: u64,
    /// Bytes counted at the last report.
    pub last_marker: u64,
    /// Bytes in the partial file.
    pub current: u64,
    /// Bytes since the last flush.
    pub since_flush: u64,
    /// How large the server says the file is.
    pub server_total: u64,
    /// The bytes hashed so far.
    pub digested: Seq<u8>,
    pub phase: TransferPhase,
}

/// A message with its cause behind it.
pub open spec fn caused(what: Seq<char>, cause: Seq<char>) -> Seq<char> {
    what + ": "@ + cause
}

impl TransferView {
    pub open spec fn at(self, phase: TransferPhase) -> TransferView {
        TransferView { phase, ..self }
    }

    /// The transfer fails. What was received stays where it is.
    pub open spec fn failing(self, error: Seq<char>) -> (TransferView, StepView) {
        (
            self.at(TransferPhase::Done),
            StepView {
                event: None,
                work: WorkView::Finish {
                    settle: Settle::Leave,
                    outcome: OutcomeView::Failed { error },
                },
            },
        )
    }

    /// The server is asked for what comes behind so many bytes.
    pub open spec fn requesting(self, resume_from: u64) -> (TransferView, StepView) {
        (
            self.at(TransferPhase::Request(resume_from)),
            StepView {
                event: None,
                work: WorkView::Request {
                    url: self.request.url,
                    range: stream::range_of(resume_from),
                },
            },
        )
    }

    /// Bytes of the partial file are hashed again, or chunks taken in where none are left.
    pub open spec fn reading_back(self, remaining: u64) -> (TransferView, StepView) {
        if remaining == 0 {
            (
                self.at(TransferPhase::Receive),
                StepView { event: None, work: WorkView::Receive { settle: Settle::Leave } },
            )
        } else {
            (
                self.at(TransferPhase::ReadBack(remaining)),
                StepView {
                    event: None,
                    work: WorkView::ReadBack {
                        path: self.request.part_path,
                        want: if remaining < stream::REHASH_BUFFER {
                            remaining
                        } else {
                            stream::REHASH_BUFFER
                        },
                    },
                },
            )
        }
    }

    /// The partial file is opened where an answer leads to.
    pub open spec fn opening(self, status: u16, content_length: Option<u64>, resume_from: u64) -> (
        TransferView,
        StepView,
    ) {
        let truncate = status == 200 && resume_from > 0;
        let seek_to = if truncate {
            0
        } else {
            resume_from
        };
        let server_total = match content_length {
            Some(n) => (resume_from + n) as u64,
            None => if self.request.expected_size > resume_from {
                self.request.expected_size
            } else {
                resume_from
            },
        };
        (
            TransferView {
                current: seek_to,
                since_flush: 0,
                server_total,
                digested: Seq::empty(),
                phase: TransferPhase::Open(truncate),
                ..self
            },
            StepView {
                event: None,
                work: WorkView::Open { path: self.request.part_path, truncate, seek_to },
            },
        )
    }

    /// A chunk is taken in, and progress is told of where it is due.
    pub open spec fn receiving(self, bytes: Seq<u8>, elapsed_ms: u64) -> (TransferView, StepView) {
        let current = types::capped_sum(self.current, bytes.len() as u64);
        let since = types::capped_sum(self.since_flush, bytes.len() as u64);
        let flush = since >= stream::FSYNC_INTERVAL;
        let overall = self.accumulated + current;
        let total = stream::larger(
            self.total_expected as int,
            overall + stream::floored_difference(self.server_total, current),
        );
        let due = elapsed_ms >= stream::EMIT_INTERVAL_MS;
        (
            TransferView {
                current,
                since_flush: if flush {
                    0
                } else {
                    since
                },
                digested: self.digested + bytes,
                last_marker: if due {
                    overall as u64
                } else {
                    self.last_marker
                },
                ..self
            },
            StepView {
                event: if due {
                    Some(
                        types::KindView::Progress {
                            downloaded: overall as u64,
                            total: total as u64,
                            window_bytes: stream::floored_difference(
                                overall as u64,
                                self.last_marker,
                            ),
                        },
                    )
                } else {
                    None
                },
                work: WorkView::Receive {
                    settle: if flush {
                        Settle::Flush
                    } else {
                        Settle::Leave
                    },
                },
            },
        )
    }

    /// The bytes are those that were promised, as far as a digest was.
    pub open spec fn as_promised(self) -> bool {
        self.request.expected_sha256 matches Some(e) ==> numbers::same_ignoring_case(
            numbers::hex(digest::sha256(self.digested)),
            e,
        )
    }

    /// The stream has ended: the bytes are held against the digest.
    pub open spec fn ending(self) -> (TransferView, StepView) {
        let spent = TransferView {
            current: 0,
            since_flush: 0,
            server_total: 0,
            digested: Seq::empty(),
            phase: TransferPhase::Done,
            ..self
        };
        if self.as_promised() {
            (
                TransferView {
                    accumulated: types::capped_sum(self.accumulated, self.current),
                    ..spent
                },
                StepView {
                    event: None,
                    work: WorkView::Finish {
                        settle: Settle::Sync,
                        outcome: OutcomeView::Completed {
                            sha256_ok: self.request.expected_sha256 is Some,
                            part_bytes: self.current,
                        },
                    },
                },
            )
        } else {
            (
                spent,
                StepView {
                    event: None,
                    work: WorkView::Finish {
                        settle: Settle::Sync,
                        outcome: OutcomeView::Failed {
                            error: stream::mismatch(
                                self.request.asset_id,
                                self.request.expected_sha256->0,
                                numbers::hex(digest::sha256(self.digested)),
                            ),
                        },
                    },
                },
            )
        }
    }

    /// What the host may report in a phase. Sizes stay below what can be counted.
    pub open spec fn accepts(self, input: InputView) -> bool {
        match (self.phase, input) {
            (TransferPhase::Probe, InputView::PartLen(_)) => true,
            (TransferPhase::Remove, InputView::Removed) => true,
            (TransferPhase::Request(n), InputView::Answered { content_length, .. }) =>
                content_length matches Some(len) ==> n + len <= u64::MAX,
            (TransferPhase::Request(_), InputView::Unanswered { .. }) => true,
            (TransferPhase::Open(_), InputView::Opened) => true,
            (TransferPhase::Open(_), InputView::NotOpened { .. }) => true,
            (TransferPhase::Open(_), InputView::NotSought { .. }) => true,
            (TransferPhase::ReadBack(_), InputView::Back(b)) => self.digested.len() + b.len()
                < digest::HASH_LIMIT,
            (TransferPhase::ReadBack(_), InputView::NotReopened { .. }) => true,
            (TransferPhase::ReadBack(_), InputView::NotReadBack { .. }) => true,
            (TransferPhase::Receive, InputView::Chunk { bytes, .. }) => {
                &&& self.digested.len() + bytes.len() < digest::HASH_LIMIT
                &&& self.accumulated + stream::larger(
                    types::capped_sum(self.current, bytes.len() as u64) as int,
                    self.server_total as int,
                ) <= u64::MAX
            },
            (TransferPhase::Receive, InputView::NotWritten { .. }) => true,
            (TransferPhase::Receive, InputView::Stopped) => self.accumulated + self.current
                <= u64::MAX,
            (TransferPhase::Receive, InputView::Broken { .. }) => true,
            (TransferPhase::Receive, InputView::Stalled) => true,
            (TransferPhase::Receive, InputView::Ended) => true,
            _ => false,
        }
    }

    /// How a transfer goes on.
    pub open spec fn next(self, input: InputView) -> (TransferView, StepView) {
        let path = self.request.part_path;
        match (self.phase, input) {
            (TransferPhase::Probe, InputView::PartLen(len)) => {
                let n = match len {
                    Some(n) => n,
                    None => 0,
                };
                if self.request.expected_size > 0 && n >= self.request.expected_size {
                    (
                        self.at(TransferPhase::Remove),
                        StepView { event: None, work: WorkView::Remove { path } },
                    )
                } else {
                    self.requesting(n)
                }
            },
            (TransferPhase::Remove, InputView::Removed) => self.requesting(0),
            (TransferPhase::Request(_), InputView::Unanswered { cause }) => self.failing(
                caused("GET "@ + self.request.url, cause),
            ),
            (
                TransferPhase::Request(n),
                InputView::Answered { status, reason, content_length },
            ) => if 200 <= status < 300 {
                self.opening(status, content_length, n)
            } else {
                self.failing(stream::refusal(status, reason, self.request.url))
            },
            (TransferPhase::Open(_), InputView::Opened) => self.reading_back(self.current),
            (TransferPhase::Open(truncate), InputView::NotOpened { cause }) => self.failing(
                caused(
                    "open "@ + path + if truncate {
                        " (truncate)"@
                    } else {
                        Seq::<char>::empty()
                    },
                    cause,
                ),
            ),
            (TransferPhase::Open(_), InputView::NotSought { cause }) => self.failing(
                caused(
                    "seek to "@ + numbers::decimal(self.current as nat) + " in "@ + path,
                    cause,
                ),
            ),
            (TransferPhase::ReadBack(remaining), InputView::Back(b)) => TransferView {
                digested: self.digested + b,
                ..self
            }.reading_back(
                if b.len() == 0 || b.len() > remaining {
                    0
                } else {
                    (remaining - b.len()) as u64
                },
            ),
            (TransferPhase::ReadBack(_), InputView::NotReopened { cause }) => self.failing(
                caused("reopen "@ + path + " for re-hash"@, cause),
            ),
            (TransferPhase::ReadBack(_), InputView::NotReadBack { cause }) => self.failing(
                caused("read "@ + path + " for re-hash"@, cause),
            ),
            (TransferPhase::Receive, InputView::Chunk { bytes, elapsed_ms }) => self.receiving(
                bytes,
                elapsed_ms,
            ),
            (TransferPhase::Receive, InputView::NotWritten { count, cause }) => self.failing(
                caused("write "@ + numbers::decimal(count as nat) + " bytes to "@ + path, cause),
            ),
            (TransferPhase::Receive, InputView::Stopped) => (
                self.at(TransferPhase::Done),
                StepView {
                    event: None,
                    work: WorkView::Finish {
                        settle: Settle::Flush,
                        outcome: OutcomeView::Paused {
                            downloaded: (self.accumulated + self.current) as u64,
                        },
                    },
                },
            ),
            (TransferPhase::Receive, InputView::Broken { cause }) => self.failing(
                stream::broken_off(self.request.url, self.current, cause),
            ),
            (TransferPhase::Receive, InputView::Stalled) => self.failing(
                stream::stalled(self.request.url, self.current),
            ),
            (TransferPhase::Receive, InputView::Ended) => self.ending(),
            _ => self.failing(Seq::empty()),
        }
    }
}

/// A transfer and where it stands.
pub struct Transfer {
    pub request: FileRequest,
    pub tally: Tally,
    pub part: PartStream,
    pub phase: TransferPhase,
}

impl View for Transfer {
    type V = TransferView;

    open spec fn view(&self) -> TransferView {
        TransferView {
            request: self.request@,
            accumulated: self.tally.accumulated,
            total_expected: self.tally.total_expected,
            last_marker: self.tally.last_marker,
            current: self.part.current,
            since_flush: self.part.since_flush,
            server_total: self.part.server_total,
            digested: self.part.digest@,
            phase: self.phase,
        }
    }
}

fn with_cause(what: String, cause: &str) -> (r: String)
    ensures
        r@ == caused(what@, cause@),
{
    let mut out = what;
    out.append(": ");
    out.append(cause);
    out
}

/// Begins the transfer of a file. `tally` tells of the files before it.
pub fn stream_to_part(request: FileRequest, tally: Tally) -> (r: (Transfer, TransferWork))
    ensures
        r.0.wf(),
        r.0@ == (TransferView {
            request: request@,
            accumulated: tally.accumulated,
            total_expected: tally.total_expected,
            last_marker: tally.last_marker,
            current: 0,
            since_flush: 0,
            server_total: 0,
            digested: Seq::empty(),
            phase: TransferPhase::Probe,
        }),
        r.1@ == (WorkView::Probe { path: request@.part_path }),
{
    let work = TransferWork::Probe { path: request.part_path.clone() };
    let t = Transfer { request, tally, part: PartStream::open(0, 0), phase: TransferPhase::Probe };
    (t, work)
}

impl Transfer {
    /// The running digest is sound.
    pub open spec fn wf(&self) -> bool {
        self.part.digest.wf()
    }

    /// Whether the host may report this now.
    pub fn can_take(&self, input: &TransferInput) -> (r: bool)
        requires
            self.wf(),
        ensures
            r == self@.accepts(input@),
    {
        match (self.phase, input) {
            (TransferPhase::Probe, TransferInput::PartLen(_)) => true,
            (TransferPhase::Remove, TransferInput::Removed) => true,
            (TransferPhase::Request(n), TransferInput::Answered { content_length, .. }) =>
                match content_length {
                    Some(len) => *len <= u64::MAX - n,
                    None => true,
                },
            (TransferPhase::Request(_), TransferInput::Unanswered { .. }) => true,
            (TransferPhase::Open(_), TransferInput::Opened) => true,
            (TransferPhase::Open(_), TransferInput::NotOpened { .. }) => true,
            (TransferPhase::Open(_), TransferInput::NotSought { .. }) => true,
            (TransferPhase::ReadBack(_), TransferInput::Back(b)) => (b.len() as u64)
                < digest::HASH_LIMIT - self.part.digest.count(),
            (TransferPhase::ReadBack(_), TransferInput::NotReopened { .. }) => true,
            (TransferPhase::ReadBack(_), TransferInput::NotReadBack { .. }) => true,
            (TransferPhase::Receive, TransferInput::Chunk { bytes, .. }) => {
                let n: u64 = bytes.len() as u64;
                let current: u64 = types::add_capped(self.part.current, n);
                let most: u64 = if current > self.part.server_total {
                    current
                } else {
                    self.part.server_total
                };
                n < digest::HASH_LIMIT - self.part.digest.count() && most <= u64::MAX
                    - self.tally.accumulated
            },
            (TransferPhase::Receive, TransferInput::NotWritten { .. }) => true,
            (TransferPhase::Receive, TransferInput::Stopped) => self.part.current <= u64::MAX
                - self.tally.accumulated,
            (TransferPhase::Receive, TransferInput::Broken { .. }) => true,
            (TransferPhase::Receive, TransferInput::Stalled) => true,
            (TransferPhase::Receive, TransferInput::Ended) => true,
            _ => false,
        }
    }

    fn fail(&mut self, error: String) -> (s: TransferStep)
        ensures
            final(self)@ == old(self)@.failing(error@).0,
            s.says(old(self)@.request.asset_id, old(self)@.failing(error@).1),
            final(self).part == old(self).part,
    {
        self.phase = TransferPhase::Done;
        TransferStep {
            event: None,
            work: TransferWork::Finish {
                settle: Settle::Leave,
                outcome: StreamOutcome::Failed { error },
            },
        }
    }

    fn ask(&mut self, resume_from: u64) -> (s: TransferStep)
        ensures
            final(self)@ == old(self)@.requesting(resume_from).0,
            s.says(old(self)@.request.asset_id, old(self)@.requesting(resume_from).1),
            final(self).part == old(self).part,
    {
        self.phase = TransferPhase::Request(resume_from);
        TransferStep {
            event: None,
            work: TransferWork::Request {
                url: self.request.url.clone(),
                range: stream::range_header(resume_from),
            },
        }
    }

    fn read_back(&mut self, remaining: u64) -> (s: TransferStep)
        ensures
            final(self)@ == old(self)@.reading_back(remaining).0,
            s.says(old(self)@.request.asset_id, old(self)@.reading_back(remaining).1),
            final(self).part == old(self).part,
    {
        if remaining == 0 {
            self.phase = TransferPhase::Receive;
            TransferStep { event: None, work: TransferWork::Receive { settle: Settle::Leave } }
        } else {
            self.phase = TransferPhase::ReadBack(remaining);
            TransferStep {
                event: None,
                work: TransferWork::ReadBack {
                    path: self.request.part_path.clone(),
                    want: PartStream::rehash_want(remaining),
                },
            }
        }
    }

    fn answered(&mut self, status: u16, reason: &str, content_length: Option<u64>, n: u64) -> (s:
        TransferStep)
        requires
            old(self).wf(),
            old(self).phase == TransferPhase::Request(n),
            content_length matches Some(len) ==> n + len <= u64::MAX,
        ensures
            final(self).wf(),
            ({
                let input = InputView::Answered { status, reason: reason@, content_length };
                &&& final(self)@ == old(self)@.next(input).0
                &&& s.says(old(self)@.request.asset_id, old(self)@.next(input).1)
            }),
    {
        match stream::accept_response(
            self.request.url.as_str(),
            status,
            reason,
            content_length,
            n,
            self.request.expected_size,
        ) {
            Ok(plan) => {
                self.part = PartStream::open(plan.seek_to, plan.server_total);
                self.phase = TransferPhase::Open(plan.truncate);
                assert(self@ =~= old(self)@.opening(status, content_length, n).0);
                TransferStep {
                    event: None,
                    work: TransferWork::Open {
                        path: self.request.part_path.clone(),
                        truncate: plan.truncate,
                        seek_to: plan.seek_to,
                    },
                }
            },
            Err(e) => self.fail(e),
        }
    }

    fn end(&mut self) -> (s: TransferStep)
        requires
            old(self).wf(),
        ensures
            final(self).wf(),
            final(self)@ == old(self)@.ending().0,
            s.says(old(self)@.request.asset_id, old(self)@.ending().1),
    {
        let part_bytes: u64 = self.part.current;
        let mut part = PartStream::open(0, 0);
        std::mem::swap(&mut part, &mut self.part);
        self.phase = TransferPhase::Done;
        let mut tally = Tally {
            accumulated: self.tally.accumulated,
            total_expected: self.tally.total_expected,
            last_marker: self.tally.last_marker,
        };
        let expected = match &self.request.expected_sha256 {
            Some(e) => Some(e.as_str()),
            None => None,
        };
        let checked = part.finish(self.request.asset_id.as_str(), expected, &mut tally);
        self.tally = tally;
        let outcome = match checked {
            Ok(sha256_ok) => StreamOutcome::Completed { sha256_ok, part_bytes },
            Err(error) => StreamOutcome::Failed { error },
        };
        TransferStep { event: None, work: TransferWork::Finish { settle: Settle::Sync, outcome } }
    }

    /// Takes in what the host reports and says how the transfer goes on.
    pub fn step(&mut self, input: TransferInput) -> (s: TransferStep)
        requires
            old(self).wf(),
            old(self)@.accepts(input@),
        ensures
            final(self).wf(),
            final(self)@ == old(self)@.next(input@).0,
            s.says(old(self)@.request.asset_id, old(self)@.next(input@).1),
    {
        match input {
            TransferInput::PartLen(len) => {
                let plan = stream::plan_resume(len, self.request.expected_size);
                if plan.remove_part {
                    self.phase = TransferPhase::Remove;
                    TransferStep {
                        event: None,
                        work: TransferWork::Remove { path: self.request.part_path.clone() },
                    }
                } else {
                    self.ask(plan.resume_from)
                }
            },
            TransferInput::Removed => self.ask(0),
            TransferInput::Unanswered { cause } => {
                let mut what = "GET ".to_string();
                what.append(self.request.url.as_str());
                self.fail(with_cause(what, cause.as_str()))
            },
            TransferInput::Answered { status, reason, content_length } => {
                let n: u64 = match self.phase {
                    TransferPhase::Request(n) => n,
                    _ => 0,
                };
                self.answered(status, reason.as_str(), content_length, n)
            },
            TransferInput::Opened => {
                let n: u64 = self.part.current;
                self.read_back(n)
            },
            TransferInput::NotOpened { cause } => {
                let mut what = "open ".to_string();
                what.append(self.request.part_path.as_str());
                match self.phase {
                    TransferPhase::Open(true) => {
                        what.append(" (truncate)");
                    },
                    _ => {
                        assert(what@ =~= what@ + Seq::<char>::empty());
                    },
                }
                self.fail(with_cause(what, cause.as_str()))
            },
            TransferInput::NotSought { cause } => {
                let mut what = "seek to ".to_string();
                numbers::push_decimal(&mut what, self.part.current);
                what.append(" in ");
                what.append(self.request.part_path.as_str());
                self.fail(with_cause(what, cause.as_str()))
            },
            TransferInput::Back(bytes) => {
                let remaining: u64 = match self.phase {
                    TransferPhase::ReadBack(n) => n,
                    _ => 0,
                };
                let left: u64 = self.part.rehash(remaining, bytes.as_slice());
                self.read_back(left)
            },
            TransferInput::NotReopened { cause } => {
                let mut what = "reopen ".to_string();
                what.append(self.request.part_path.as_str());
                what.append(" for re-hash");
                self.fail(with_cause(what, cause.as_str()))
            },
            TransferInput::NotReadBack { cause } => {
                let mut what = "read ".to_string();
                what.append(self.request.part_path.as_str());
                what.append(" for re-hash");
                self.fail(with_cause(what, cause.as_str()))
            },
            TransferInput::Chunk { bytes, elapsed_ms } => {
                let report = self.part.on_chunk(
                    self.request.asset_id.as_str(),
                    bytes.as_slice(),
                    &mut self.tally,
                    elapsed_ms,
                );
                let settle = if report.flush {
                    Settle::Flush
                } else {
                    Settle::Leave
                };
                TransferStep { event: report.progress, work: TransferWork::Receive { settle } }
            },
            TransferInput::NotWritten { count, cause } => {
                let mut what = "write ".to_string();
                numbers::push_decimal(&mut what, count);
                what.append(" bytes to ");
                what.append(self.request.part_path.as_str());
                self.fail(with_cause(what, cause.as_str()))
            },
            TransferInput::Stopped => {
                let downloaded: u64 = self.part.paused_at(&self.tally);
                self.phase = TransferPhase::Done;
                TransferStep {
                    event: None,
                    work: TransferWork::Finish {
                        settle: Settle::Flush,
                        outcome: StreamOutcome::Paused { downloaded },
                    },
                }
            },
            TransferInput::Broken { cause } => {
                let error = stream::broken_off_message(
                    self.request.url.as_str(),
                    self.part.current,
                    cause.as_str(),
                );
                self.fail(error)
            },
            TransferInput::Stalled => {
                let error = stream::stalled_message(self.request.url.as_str(), self.part.current);
                self.fail(error)
            },
            TransferInput::Ended => self.end(),
        }
    }
}

// ---------------------------------------------------------------------------
// Laws
// ---------------------------------------------------------------------------

/// What the partial file holds once the host has done what a report tells of.
pub open spec fn content_after(t: TransferView, content: Seq<u8>, input: InputView) -> Seq<u8> {
    match (t.phase, input) {
        (TransferPhase::Remove, InputView::Removed) => Seq::empty(),
        (TransferPhase::Open(true), InputView::Opened) => Seq::empty(),
        (TransferPhase::Receive, InputView::Chunk { bytes, .. }) => content + bytes,
        _ => content,
    }
}

/// The report is true of a partial file that holds `content`: its size is the one that was
/// looked up, and what is read from it is what comes next in it.
pub open spec fn truthful(t: TransferView, content: Seq<u8>, input: InputView) -> bool {
    match (t.phase, input) {
        (TransferPhase::Probe, InputView::PartLen(Some(n))) => n == content.len(),
        (TransferPhase::Probe, InputView::PartLen(None)) => content.len() == 0,
        (TransferPhase::ReadBack(remaining), InputView::Back(b)) => {
            &&& 0 < b.len() <= remaining
            &&& b == content.subrange(
                content.len() - remaining,
                content.len() - remaining + b.len(),
            )
        },
        _ => true,
    }
}

/// The transfer knows what the partial file holds: how much there is of it, and that the
/// digest covers all of it but what is still to be hashed again.
pub open spec fn in_step(t: TransferView, content: Seq<u8>) -> bool {
    match t.phase {
        TransferPhase::Probe | TransferPhase::Remove | TransferPhase::Done => true,
        TransferPhase::Request(n) => n == content.len(),
        TransferPhase::Open(truncate) => {
            &&& t.digested.len() == 0
            &&& t.current == if truncate {
                0
            } else {
                content.len()
            }
        },
        TransferPhase::ReadBack(remaining) => {
            &&& remaining <= content.len()
            &&& t.current == content.len()
            &&& t.digested == content.take(content.len() - remaining)
        },
        TransferPhase::Receive => t.current == content.len() && t.digested == content,
    }
}

/// A transfer stays in step with its partial file, from the first look at it to the last
/// chunk, whether the file is begun anew, resumed or emptied on the way.
pub proof fn law_transfer_stays_in_step(t: TransferView, content: Seq<u8>, input: InputView)
    requires
        in_step(t, content),
        t.accepts(input),
        truthful(t, content, input),
    ensures
        in_step(t.next(input).0, content_after(t, content, input)),
{
    match (t.phase, input) {
        (TransferPhase::Open(_), InputView::Opened) => {
            let after = content_after(t, content, input);
            assert(t.digested =~= after.take(0));
            if t.current == 0 {
                assert(t.digested =~= after);
            }
        },
        (TransferPhase::ReadBack(remaining), InputView::Back(b)) => {
            let done = content.len() - remaining;
            assert(t.digested + b =~= content.take(done + b.len()));
            if b.len() == remaining {
                assert(content.take(done + b.len()) =~= content);
            }
        },
        _ => {},
    }
}

/// A transfer that is reported as complete and checked has left a partial file whose whole
/// content has the promised digest, the part that was there before the transfer included.
pub proof fn law_checked_file_is_the_promised_one(
    t: TransferView,
    content: Seq<u8>,
    promised: Seq<char>,
)
    requires
        in_step(t, content),
        t.phase == TransferPhase::Receive,
        t.request.expected_sha256 == Some(promised),
    ensures
        t.next(InputView::Ended).1.work matches WorkView::Finish {
            outcome: OutcomeView::Completed { sha256_ok, part_bytes },
            ..
        } ==> sha256_ok && part_bytes == content.len() && numbers::same_ignoring_case(
            numbers::hex(digest::sha256(content)),
            promised,
        ),
        !numbers::same_ignoring_case(numbers::hex(digest::sha256(content)), promised) ==> t.next(
            InputView::Ended,
        ).1.work matches WorkView::Finish { outcome: OutcomeView::Failed { .. }, .. },
{
}

/// A stopped transfer keeps what it has: it tells how much that is, and nothing is removed
/// or emptied.
pub proof fn law_stopping_keeps_the_part(t: TransferView, content: Seq<u8>)
    requires
        in_step(t, content),
        t.phase == TransferPhase::Receive,
        t.accepts(InputView::Stopped),
    ensures
        t.next(InputView::Stopped).1.work == (WorkView::Finish {
            settle: Settle::Flush,
            outcome: OutcomeView::Paused { downloaded: (t.accumulated + content.len()) as u64 },
        }),
        content_after(t, content, InputView::Stopped) == content,
{
}

/// A transfer that is done asks for nothing more, and one that is not goes on.
pub proof fn law_done_means_finished(t: TransferView, input: InputView)
    requires
        t.accepts(input),
    ensures
        t.next(input).0.phase == TransferPhase::Done <==> t.next(input).1.work is Finish,
{
}

/// A transfer asks for what is missing: a partial file that is as large as the whole file or
/// larger is removed and the whole asked for; of any other the bytes behind it are asked for,
/// from the file's own address. All that is done to a file is done to its partial file.
pub proof fn law_requests_ask_for_the_rest(t: TransferView, input: InputView)
    requires
        t.accepts(input),
    ensures
        ({
            let (after, step) = t.next(input);
            let had: u64 = match input {
                InputView::PartLen(Some(n)) => n,
                _ => 0,
            };
            let whole = t.request.expected_size > 0 && had >= t.request.expected_size;
            &&& after.request == t.request
            &&& input is PartLen && whole ==> step.work == WorkView::Remove {
                path: t.request.part_path,
            }
            &&& input is PartLen && !whole ==> step.work is Request
            &&& input is Removed ==> step.work is Request
            &&& step.work matches WorkView::Request { url, range } ==> {
                &&& url == t.request.url
                &&& after.phase == TransferPhase::Request(had)
                &&& had == 0 ==> range is None
                &&& had > 0 ==> range == Some("bytes="@ + numbers::decimal(had as nat) + "-"@)
            }
            &&& step.work matches WorkView::Remove { path } ==> path == t.request.part_path
            &&& step.work matches WorkView::Open { path, .. } ==> path == t.request.part_path
            &&& step.work matches WorkView::ReadBack { path, .. } ==> path == t.request.part_path
            &&& !(step.work is Probe)
        }),
{
}

/// An answer is taken in as the server means it: a partial content goes behind what there is,
/// a whole file in answer to a resumed request begins the file anew, and any other status
/// fails the transfer. The size that the server gives is that of what is still to come.
pub proof fn law_answers_are_taken_as_they_are_meant(
    t: TransferView,
    resumed: u64,
    status: u16,
    reason: Seq<char>,
    length: Option<u64>,
)
    requires
        t.phase == TransferPhase::Request(resumed),
        length matches Some(n) ==> resumed + n <= u64::MAX,
    ensures
        ({
            let (after, step) = t.next(
                InputView::Answered { status, reason, content_length: length },
            );
            if 200 <= status <= 299 {
                &&& step.work matches WorkView::Open { truncate, seek_to, .. }
                &&& truncate <==> status == 200 && resumed > 0
                &&& seek_to == (if truncate {
                    0
                } else {
                    resumed
                })
                &&& after.current == seek_to && after.digested.len() == 0 && after.since_flush == 0
                &&& length matches Some(n) ==> after.server_total == resumed + n
                &&& length is None ==> after.server_total >= resumed && after.server_total
                    >= t.request.expected_size && (after.server_total == resumed
                    || after.server_total == t.request.expected_size)
                &&& after.accumulated == t.accumulated && after.total_expected == t.total_expected
            } else {
                step.work == WorkView::Finish {
                    settle: Settle::Leave,
                    outcome: OutcomeView::Failed {
                        error: "HTTP "@ + numbers::decimal(status as nat) + " "@ + reason
                            + " from "@ + t.request.url,
                    },
                }
            }
        }),
{
}

/// What was there is hashed again before anything is received: all of it, at most a mebibyte
/// at a time.
pub proof fn law_parts_are_hashed_again(t: TransferView, bytes: Seq<u8>)
    ensures
        t.phase is Open ==> ({
            let (after, step) = t.next(InputView::Opened);
            &&& t.current == 0 ==> after.phase == TransferPhase::Receive && step.work is Receive
            &&& t.current > 0 ==> after.phase == TransferPhase::ReadBack(t.current)
                && step.work is ReadBack
        }),
        t.phase matches TransferPhase::ReadBack(remaining) ==> ({
            let (after, _) = t.next(InputView::Back(bytes));
            &&& after.digested == t.digested + bytes
            &&& 0 < bytes.len() < remaining ==> after.phase == TransferPhase::ReadBack(
                (remaining - bytes.len()) as u64,
            )
            &&& bytes.len() == 0 || bytes.len() >= remaining ==> after.phase
                == TransferPhase::Receive
        }),
        forall|input: InputView|
            t.accepts(input) ==> (#[trigger] t.next(input).1.work matches WorkView::ReadBack {
                want,
                ..
            } ==> (t.next(input).0.phase matches TransferPhase::ReadBack(left) && want <= left
                && want <= 1_048_576 && (want == left || want == 1_048_576))),
{
}

/// A chunk is counted and hashed, the partial file is flushed at the latest after 8 MiB, and
/// progress is told of four times a second at most: all bytes that there are, a total that is
/// never below what is known to come, and what came since the last report.
pub proof fn law_chunks_are_counted(t: TransferView, bytes: Seq<u8>, elapsed_ms: u64)
    requires
        t.phase == TransferPhase::Receive,
        t.accepts(InputView::Chunk { bytes, elapsed_ms }),
        t.current + bytes.len() <= u64::MAX,
        t.since_flush + bytes.len() <= u64::MAX,
    ensures
        ({
            let (after, step) = t.next(InputView::Chunk { bytes, elapsed_ms });
            let now = t.current + bytes.len();
            let flushed = t.since_flush + bytes.len() >= 8_388_608;
            &&& after.phase == TransferPhase::Receive
            &&& after.current == now && after.digested == t.digested + bytes
            &&& after.accumulated == t.accumulated && after.server_total == t.server_total
            &&& step.work == WorkView::Receive {
                settle: if flushed {
                    Settle::Flush
                } else {
                    Settle::Leave
                },
            }
            &&& after.since_flush == (if flushed {
                0int
            } else {
                t.since_flush + bytes.len()
            })
            &&& step.event is Some <==> elapsed_ms >= 250
            &&& step.event matches Some(k) ==> {
                &&& k matches types::KindView::Progress { downloaded, total, window_bytes }
                &&& downloaded == t.accumulated + now && after.last_marker == downloaded
                &&& total >= t.total_expected && total >= downloaded && total >= t.accumulated
                    + t.server_total
                &&& total == t.total_expected || total == downloaded || total == t.accumulated
                    + t.server_total
                &&& downloaded >= t.last_marker ==> window_bytes == downloaded - t.last_marker
                &&& downloaded < t.last_marker ==> window_bytes == 0
            }
            &&& step.event is None ==> after.last_marker == t.last_marker
        }),
{
}

/// A stream that ended is complete exactly where its bytes have the digest that was promised,
/// if one was, and it then counts for the files that follow; else it fails, with both digests
/// in the error. Either way the partial file is synced.
pub proof fn law_ended_streams_are_held_to_their_digest(t: TransferView)
    requires
        t.phase == TransferPhase::Receive,
        t.accumulated + t.current <= u64::MAX,
    ensures
        ({
            let (after, step) = t.next(InputView::Ended);
            let got = numbers::hex(digest::sha256(t.digested));
            let good = match t.request.expected_sha256 {
                Some(e) => numbers::same_ignoring_case(got, e),
                None => true,
            };
            &&& step.event is None
            &&& step.work matches WorkView::Finish { settle, outcome } && settle == Settle::Sync
                && if good {
                outcome == OutcomeView::Completed {
                    sha256_ok: t.request.expected_sha256 is Some,
                    part_bytes: t.current,
                }
            } else {
                outcome == OutcomeView::Failed {
                    error: "SHA-256 mismatch for "@ + t.request.asset_id + ": expected "@
                        + t.request.expected_sha256->0 + ", got "@ + got,
                }
            }
            &&& after.accumulated == (if good {
                t.accumulated + t.current
            } else {
                t.accumulated as int
            })
        }),
{
}

/// Trouble on the way fails the transfer with what was being done and its cause, and leaves
/// the partial file where it is.
pub proof fn law_trouble_leaves_the_part(t: TransferView, input: InputView)
    requires
        t.accepts(input),
    ensures
        t.next(input).1.work matches WorkView::Finish {
            settle,
            outcome: OutcomeView::Failed { error },
        } ==> match input {
            InputView::Ended | InputView::Answered { .. } => true,
            InputView::Unanswered { cause } => error == "GET "@ + t.request.url + ": "@ + cause
                && settle == Settle::Leave,
            InputView::NotOpened { cause } => text::ends(error, ": "@ + cause) && text::begins(
                error,
                "open "@ + t.request.part_path,
            ) && settle == Settle::Leave,
            InputView::NotSought { cause } => error == "seek to "@ + numbers::decimal(
                t.current as nat,
            ) + " in "@ + t.request.part_path + ": "@ + cause && settle == Settle::Leave,
            InputView::Broken { cause } => error == "chunk from "@ + t.request.url + " after "@
                + numbers::decimal(t.current as nat) + " bytes: "@ + cause && settle
                == Settle::Leave,
            InputView::Stalled => error == "chunk from "@ + t.request.url + " timed out after "@
                + numbers::decimal(t.current as nat) + " bytes (no data for "@ + numbers::decimal(
                90,
            ) + "s)"@ && settle == Settle::Leave,
            InputView::NotReopened { cause } => text::ends(error, ": "@ + cause) && settle
                == Settle::Leave,
            InputView::NotReadBack { cause } => text::ends(error, ": "@ + cause) && settle
                == Settle::Leave,
            InputView::NotWritten { cause, .. } => text::ends(error, ": "@ + cause) && settle
                == Settle::Leave,
            _ => false,
        },
        input is Unanswered || input is NotOpened || input is NotSought || input is NotReopened
            || input is NotReadBack || input is NotWritten || input is Broken
            || input is Stalled ==> t.next(input).1.work matches WorkView::Finish {
            outcome: OutcomeView::Failed { .. },
            ..
        },
{
    match t.next(input).1.work {
        WorkView::Finish { outcome: OutcomeView::Failed { error }, .. } => {
            match input {
                InputView::NotOpened { cause } => {
                    let head = "open "@ + t.request.part_path;
                    let tail = ": "@ + cause;
                    assert(error.take(head.len() as int) =~= head);
                    assert(error.skip(error.len() - tail.len()) =~= tail);
                },
                InputView::NotReopened { cause } => {
                    let tail = ": "@ + cause;
                    assert(error.skip(error.len() - tail.len()) =~= tail);
                },
                InputView::NotReadBack { cause } => {
                    let tail = ": "@ + cause;
                    assert(error.skip(error.len() - tail.len()) =~= tail);
                },
                InputView::NotWritten { cause, .. } => {
                    let tail = ": "@ + cause;
                    assert(error.skip(error.len() - tail.len()) =~= tail);
                },
                _ => {},
            }
        },
        _ => {},
    }
}

/// What went wrong with the part on disk is told with the part's path: what was to be done
/// with it, and how much of it was to be written.
pub proof fn law_trouble_with_the_part_is_told(t: TransferView, cause: Seq<char>, count: u64)
    ensures
        ({
            let path = t.request.part_path;
            let told = |step: (TransferView, StepView), error: Seq<char>|
                step.1.work == WorkView::Finish {
                    settle: Settle::Leave,
                    outcome: OutcomeView::Failed { error },
                } && step.1.event is None;
            &&& told(
                t.at(TransferPhase::Open(true)).next(InputView::NotOpened { cause }),
                "open "@ + path + " (truncate)"@ + ": "@ + cause,
            )
            &&& told(
                t.at(TransferPhase::Open(false)).next(InputView::NotOpened { cause }),
                "open "@ + path + ": "@ + cause,
            )
            &&& told(
                t.at(TransferPhase::ReadBack(count)).next(InputView::NotReopened { cause }),
                "reopen "@ + path + " for re-hash"@ + ": "@ + cause,
            )
            &&& told(
                t.at(TransferPhase::ReadBack(count)).next(InputView::NotReadBack { cause }),
                "read "@ + path + " for re-hash"@ + ": "@ + cause,
            )
            &&& told(
                t.at(TransferPhase::Receive).next(InputView::NotWritten { count, cause }),
                "write "@ + numbers::decimal(count as nat) + " bytes to "@ + path + ": "@ + cause,
            )
        }),
{
    let path = t.request.part_path;
    assert("open "@ + path + Seq::<char>::empty() =~= "open "@ + path);
}

/// A transfer whose stream has ended is done and holds nothing of the stream any more, so
/// that the next file begins from nothing; what was asked for stays.
pub proof fn law_ended_transfers_hold_nothing(t: TransferView)
    requires
        t.phase == TransferPhase::Receive,
    ensures
        ({
            let after = t.next(InputView::Ended).0;
            &&& after.phase == TransferPhase::Done
            &&& after.current == 0 && after.since_flush == 0 && after.server_total == 0
            &&& after.digested.len() == 0
            &&& after.request == t.request && after.total_expected == t.total_expected
        }),
{
}

} // verus!
