//! Streaming one file into its partial file: where to resume, how to take in chunks,
//! when to report progress, and whether what arrived is what was promised.
use vstd::prelude::*;
use crate::digest;
use crate::digest::RunningDigest;
use crate::downloads::types;
use crate::downloads::types::{AssetEvent, AssetEventKind};
use crate::numbers;
use crate::text;

verus! {

/// Milliseconds between two progress reports.
pub const EMIT_INTERVAL_MS: u64 = 250;

/// Bytes between two flushes of the partial file.
pub const FSYNC_INTERVAL: u64 = 8_388_608;

/// Seconds without data after which a stream counts as stalled.
pub const CHUNK_READ_TIMEOUT_SECS: u64 = 90;

/// Bytes read at once when a partial file is hashed again.
pub const REHASH_BUFFER: u64 = 1_048_576;

// ---------------------------------------------------------------------------
// Opening
// ---------------------------------------------------------------------------

/// Where a download takes up again.
pub struct ResumePlan {
    /// The partial file is as large as the whole or larger: it is removed first.
    pub remove_part: bool,
    pub resume_from: u64,
}

/// A partial file of the expected size or more is started over; any other is resumed
/// behind its last byte.
pub fn plan_resume(part_len: Option<u64>, expected_size: u64) -> (r: ResumePlan)
    ensures
        ({
            let len = match part_len {
                Some(n) => n,
                None => 0,
            };
            &&& r.remove_part <==> expected_size > 0 && len >= expected_size
            &&& r.resume_from == if r.remove_part {
                0
            } else {
                len
            }
        }),
{
    let len: u64 = match part_len {
        Some(n) => n,
        None => 0,
    };
    if expected_size > 0 && len >= expected_size {
        ResumePlan { remove_part: true, resume_from: 0 }
    } else {
        ResumePlan { remove_part: false, resume_from: len }
    }
}

/// The `Range` header that asks for the bytes behind the partial file.
pub open spec fn range_of(resume_from: u64) -> Option<Seq<char>> {
    if resume_from > 0 {
        Some("bytes="@ + numbers::decimal(resume_from as nat) + "-"@)
    } else {
        None
    }
}

/// The `Range` header that asks for the bytes behind the partial file.
pub fn range_header(resume_from: u64) -> (r: Option<String>)
    ensures
        text::opt_text(r) == range_of(resume_from),
{
    if resume_from > 0 {
        let mut out = "bytes=".to_string();
        numbers::push_decimal(&mut out, resume_from);
        out.append("-");
        Some(out)
    } else {
        None
    }
}

/// How the partial file is opened.
pub struct OpenPlan {
    /// The server sent the whole file although a part was asked for.
    pub truncate: bool,
    /// Where writing begins.
    pub seek_to: u64,
    /// How large the server says the file is.
    pub server_total: u64,
}

/// What is said of a response that brings no bytes: its status, the reason that belongs to
/// the status, and where it came from.
pub open spec fn refusal(status: u16, reason: Seq<char>, url: Seq<char>) -> Seq<char> {
    "HTTP "@ + numbers::decimal(status as nat) + " "@ + reason + " from "@ + url
}

/// How a response is taken in. A status that is no success ends the download; a plain
/// success in answer to a resumed request starts the file over.
pub fn accept_response(
    url: &str,
    status: u16,
    reason: &str,
    content_length: Option<u64>,
    resume_from: u64,
    expected_size: u64,
) -> (r: Result<OpenPlan, String>)
    requires
        content_length matches Some(n) ==> resume_from + n <= u64::MAX,
    ensures
        r is Ok <==> 200 <= status < 300,
        match r {
            Ok(p) => {
                &&& p.truncate <==> status == 200 && resume_from > 0
                &&& p.seek_to == if p.truncate {
                    0
                } else {
                    resume_from
                }
                &&& p.server_total == match content_length {
                    Some(n) => resume_from + n,
                    None => if expected_size > resume_from {
                        expected_size as int
                    } else {
                        resume_from as int
                    },
                }
            },
            Err(e) => e@ == refusal(status, reason@, url@),
        },
{
    if status < 200 || status >= 300 {
        let mut out = "HTTP ".to_string();
        numbers::push_decimal(&mut out, status as u64);
        out.append(" ");
        out.append(reason);
        out.append(" from ");
        out.append(url);
        return Err(out);
    }
    let truncate = status == 200 && resume_from > 0;
    let seek_to: u64 = if truncate {
        0
    } else {
        resume_from
    };
    let server_total: u64 = match content_length {
        Some(n) => resume_from + n,
        None => if expected_size > resume_from {
            expected_size
        } else {
            resume_from
        },
    };
    Ok(OpenPlan { truncate, seek_to, server_total })
}

// ---------------------------------------------------------------------------
// Taking in chunks
// ---------------------------------------------------------------------------

/// What the host does after a chunk was written.
pub struct ChunkReport {
    /// The partial file is flushed.
    pub flush: bool,
    /// Progress that is due.
    pub progress: Option<AssetEvent>,
}

/// Progress over all files of an asset.
pub struct Tally {
    /// Bytes of the files before this one.
    pub accumulated: u64,
    /// Bytes expected in all.
    pub total_expected: u64,
    /// Bytes counted at the last report.
    pub last_marker: u64,
}

/// A file on its way into its partial file.
pub struct PartStream {
    /// Bytes in the partial file.
    pub current: u64,
    /// Bytes since the last flush.
    pub since_flush: u64,
    /// How large the server says the file is.
    pub server_total: u64,
    /// The digest of the partial file's bytes.
    pub digest: RunningDigest,
}

/// The difference, or zero where it would be negative.
pub open spec fn floored_difference(a: u64, b: u64) -> u64 {
    if a > b {
        (a - b) as u64
    } else {
        0
    }
}

/// The larger of two sizes.
pub open spec fn larger(a: int, b: int) -> int {
    if a > b {
        a
    } else {
        b
    }
}

impl PartStream {
    /// A stream whose partial file holds `resume_from` bytes that are not hashed yet.
    pub fn open(resume_from: u64, server_total: u64) -> (r: Self)
        ensures
            r.digest.wf(),
            r.digest@ == Seq::<u8>::empty(),
            r.current == resume_from,
            r.since_flush == 0,
            r.server_total == server_total,
    {
        PartStream {
            current: resume_from,
            since_flush: 0,
            server_total,
            digest: RunningDigest::new(),
        }
    }

    /// How many bytes of the partial file are read next, of those still to be hashed.
    pub fn rehash_want(remaining: u64) -> (r: u64)
        ensures
            r == if remaining < REHASH_BUFFER {
                remaining
            } else {
                REHASH_BUFFER
            },
    {
        if remaining < REHASH_BUFFER {
            remaining
        } else {
            REHASH_BUFFER
        }
    }

    /// Hashes bytes read from the partial file. What remains to be hashed comes back;
    /// where nothing could be read the rest is left out.
    pub fn rehash(&mut self, remaining: u64, bytes: &[u8]) -> (r: u64)
        requires
            old(self).digest.wf(),
            old(self).digest@.len() + bytes@.len() < digest::HASH_LIMIT,
        ensures
            final(self).digest.wf(),
            final(self).digest@ == old(self).digest@ + bytes@,
            final(self).current == old(self).current,
            final(self).since_flush == old(self).since_flush,
            final(self).server_total == old(self).server_total,
            r == if bytes@.len() == 0 || bytes@.len() > remaining {
                0
            } else {
                remaining - bytes@.len()
            },
    {
        self.digest.update(bytes);
        let n: u64 = bytes.len() as u64;
        if n == 0 || n > remaining {
            0
        } else {
            remaining - n
        }
    }

    /// Takes in a chunk that was written to the partial file.
    pub fn on_chunk(
        &mut self,
        asset_id: &str,
        chunk: &[u8],
        tally: &mut Tally,
        elapsed_ms: u64,
    ) -> (r: ChunkReport)
        requires
            old(self).digest.wf(),
            old(self).digest@.len() + chunk@.len() < digest::HASH_LIMIT,
            old(tally).accumulated + larger(
                types::capped_sum(old(self).current, chunk@.len() as u64) as int,
                old(self).server_total as int,
            ) <= u64::MAX,
        ensures
            final(self).digest.wf(),
            final(self).digest@ == old(self).digest@ + chunk@,
            final(self).server_total == old(self).server_total,
            final(self).current == types::capped_sum(old(self).current, chunk@.len() as u64),
            r.flush <==> types::capped_sum(old(self).since_flush, chunk@.len() as u64)
                >= FSYNC_INTERVAL,
            final(self).since_flush == if r.flush {
                0
            } else {
                types::capped_sum(old(self).since_flush, chunk@.len() as u64)
            },
            final(tally).accumulated == old(tally).accumulated,
            final(tally).total_expected == old(tally).total_expected,
            ({
                let overall = old(tally).accumulated + final(self).current;
                let total = larger(
                    old(tally).total_expected as int,
                    overall + floored_difference(old(self).server_total, final(self).current),
                );
                if elapsed_ms >= EMIT_INTERVAL_MS {
                    &&& r.progress matches Some(e)
                    &&& e.entry_id@ == asset_id@
                    &&& e.kind@ == (types::KindView::Progress {
                        downloaded: overall as u64,
                        total: total as u64,
                        window_bytes: floored_difference(overall as u64, old(tally).last_marker),
                    })
                    &&& final(tally).last_marker == overall
                } else {
                    r.progress is None && final(tally).last_marker == old(tally).last_marker
                }
            }),
    {
        self.digest.update(chunk);
        let n: u64 = chunk.len() as u64;
        self.current = types::add_capped(self.current, n);
        self.since_flush = types::add_capped(self.since_flush, n);
        let flush = self.since_flush >= FSYNC_INTERVAL;
        if flush {
            self.since_flush = 0;
        }
        let overall: u64 = tally.accumulated + self.current;
        let mut progress: Option<AssetEvent> = None;
        if elapsed_ms >= EMIT_INTERVAL_MS {
            let to_come: u64 = if self.server_total > self.current {
                self.server_total - self.current
            } else {
                0
            };
            let seen: u64 = overall + to_come;
            let total: u64 = if tally.total_expected > seen {
                tally.total_expected
            } else {
                seen
            };
            let window_bytes: u64 = if overall > tally.last_marker {
                overall - tally.last_marker
            } else {
                0
            };
            progress = Some(
                AssetEvent {
                    entry_id: asset_id.to_string(),
                    kind: AssetEventKind::Progress { downloaded: overall, total, window_bytes },
                },
            );
            tally.last_marker = overall;
        }
        ChunkReport { flush, progress }
    }

    /// How many bytes of the asset are on disk when the stream is paused here.
    pub fn paused_at(&self, tally: &Tally) -> (r: u64)
        requires
            tally.accumulated + self.current <= u64::MAX,
        ensures
            r == tally.accumulated + self.current,
    {
        tally.accumulated + self.current
    }

    /// Holds the bytes against the digest that was promised, where one was, and counts
    /// the file as complete. The answer tells whether a digest was compared.
    pub fn finish(self, asset_id: &str, expected_sha256: Option<&str>, tally: &mut Tally) -> (r:
        Result<bool, String>)
        requires
            self.digest.wf(),
        ensures
            r is Ok <==> (expected_sha256 matches Some(e) ==> numbers::same_ignoring_case(
                numbers::hex(digest::sha256(self.digest@)),
                e@,
            )),
            match r {
                Ok(checked) => {
                    &&& checked <==> expected_sha256 is Some
                    &&& final(tally).accumulated == types::capped_sum(
                        old(tally).accumulated,
                        self.current,
                    )
                    &&& final(tally).total_expected == old(tally).total_expected
                    &&& final(tally).last_marker == old(tally).last_marker
                },
                Err(e) => e@ == mismatch(
                    asset_id@,
                    expected_sha256->0@,
                    numbers::hex(digest::sha256(self.digest@)),
                ) && *final(tally) == *old(tally),
            },
    {
        let current: u64 = self.current;
        let checked = match expected_sha256 {
            Some(expected) => {
                let bytes = self.digest.finish();
                let computed = digest::encode(bytes.as_slice());
                if !numbers::equal_ignoring_case(computed.as_str(), expected) {
                    let mut out = "SHA-256 mismatch for ".to_string();
                    out.append(asset_id);
                    out.append(": expected ");
                    out.append(expected);
                    out.append(", got ");
                    out.append(computed.as_str());
                    return Err(out);
                }
                true
            },
            None => false,
        };
        tally.accumulated = types::add_capped(tally.accumulated, current);
        Ok(checked)
    }
}

/// What is said of a file whose digest is not the promised one.
pub open spec fn mismatch(asset_id: Seq<char>, expected: Seq<char>, computed: Seq<char>) -> Seq<
    char,
> {
    "SHA-256 mismatch for "@ + asset_id + ": expected "@ + expected + ", got "@ + computed
}

// ---------------------------------------------------------------------------
// Failures
// ---------------------------------------------------------------------------

/// What is said of a stream that brought no data for too long.
pub open spec fn stalled(url: Seq<char>, bytes: u64) -> Seq<char> {
    "chunk from "@ + url + " timed out after "@ + numbers::decimal(bytes as nat)
        + " bytes (no data for "@ + numbers::decimal(CHUNK_READ_TIMEOUT_SECS as nat) + "s)"@
}

/// What is said of a stream that brought no data for too long.
pub fn stalled_message(url: &str, bytes: u64) -> (r: String)
    ensures
        r@ == stalled(url@, bytes),
{
    let mut out = "chunk from ".to_string();
    out.append(url);
    out.append(" timed out after ");
    numbers::push_decimal(&mut out, bytes);
    out.append(" bytes (no data for ");
    numbers::push_decimal(&mut out, CHUNK_READ_TIMEOUT_SECS);
    out.append("s)");
    out
}

/// What is said of a stream that broke off.
pub open spec fn broken_off(url: Seq<char>, bytes: u64, cause: Seq<char>) -> Seq<char> {
    "chunk from "@ + url + " after "@ + numbers::decimal(bytes as nat) + " bytes: "@ + cause
}

/// What is said of a stream that broke off.
pub fn broken_off_message(url: &str, bytes: u64, cause: &str) -> (r: String)
    ensures
        r@ == broken_off(url@, bytes, cause@),
{
    let mut out = "chunk from ".to_string();
    out.append(url);
    out.append(" after ");
    numbers::push_decimal(&mut out, bytes);
    out.append(" bytes: ");
    out.append(cause);
    out
}

/// The status of the response that a failure tells of, where it tells of one. The text is
/// in lower case.
pub open spec fn status_told(m: Seq<char>) -> Option<int> {
    if text::begins(m, "http "@) && m.len() >= 8 && '0' <= m[5] <= '9' && '0' <= m[6] <= '9'
        && '0' <= m[7] <= '9' && (m.len() == 8 || m[8] == ' ') {
        Some((m[5] as int - 48) * 100 + (m[6] as int - 48) * 10 + (m[7] as int - 48))
    } else {
        None
    }
}

/// The status is one of a server that gave up waiting, limits its callers or fails.
pub open spec fn passing_status(status: int) -> bool {
    status == 408 || status == 429 || 500 <= status <= 599
}

/// The failure tells of a network that dropped: a stream that broke off, a connection that
/// was lost or not had, or a timeout. The text is in lower case.
pub open spec fn network_dropped(m: Seq<char>) -> bool {
    ||| text::begins(m, "chunk from "@)
    ||| text::has(m, "timed out"@)
    ||| text::has(m, "timeout"@)
    ||| text::has(m, "connection reset"@)
    ||| text::has(m, "connection refused"@)
    ||| text::has(m, "connection closed"@)
    ||| text::has(m, "connection aborted"@)
    ||| text::has(m, "network is unreachable"@)
    ||| text::has(m, "dns error"@)
    ||| text::has(m, "temporarily"@)
    ||| text::has(m, "eof"@)
}

/// The failure looks like one that passes: a server that gave up waiting, limits its callers
/// or fails where it answered, and otherwise a network that dropped.
pub open spec fn passing(message: Seq<char>) -> bool {
    let m = numbers::lowered(message);
    match status_told(m) {
        Some(status) => passing_status(status),
        None => network_dropped(m),
    }
}

fn read_status(m: &str) -> (r: Option<u32>)
    ensures
        match r {
            Some(status) => status_told(m@) == Some(status as int),
            None => status_told(m@) is None,
        },
{
    if !text::starts_with(m, "http ") {
        return None;
    }
    let v = text::chars_of(m);
    if v.len() < 8 || (v.len() > 8 && v[8] != ' ') {
        return None;
    }
    let a = v[5];
    let b = v[6];
    let c = v[7];
    if '0' <= a && a <= '9' && '0' <= b && b <= '9' && '0' <= c && c <= '9' {
        Some((a as u32 - 48) * 100 + (b as u32 - 48) * 10 + (c as u32 - 48))
    } else {
        None
    }
}

/// Whether a failure looks like one that passes.
pub fn is_retryable(message: &str) -> (r: bool)
    ensures
        r == passing(message@),
{
    let m = numbers::lower(message);
    let m = m.as_str();
    match read_status(m) {
        Some(status) => status == 408 || status == 429 || (500 <= status && status <= 599),
        None => text::starts_with(m, "chunk from ") || text::contains(m, "timed out")
            || text::contains(m, "timeout") || text::contains(m, "connection reset")
            || text::contains(m, "connection refused") || text::contains(m, "connection closed")
            || text::contains(m, "connection aborted") || text::contains(
            m,
            "network is unreachable",
        ) || text::contains(m, "dns error") || text::contains(m, "temporarily") || text::contains(
            m,
            "eof",
        ),
    }
}

// ---------------------------------------------------------------------------
// Laws
// ---------------------------------------------------------------------------

/// A request that was answered with an error can be tried again exactly where the server
/// gave up waiting, limits its callers or failed, whatever stands in the reason and in the
/// address.
pub proof fn law_server_errors_are_retryable(status: u16, reason: Seq<char>, url: Seq<char>)
    requires
        100 <= status <= 999,
    ensures
        passing(refusal(status, reason, url)) <==> status == 408 || status == 429 || 500
            <= status <= 599,
{
    reveal_strlit("HTTP ");
    reveal_strlit("http ");
    reveal_strlit(" ");
    let n = status as nat;
    let digits = numbers::decimal(n);
    reveal_with_fuel(numbers::decimal, 3);
    assert(digits =~= seq![
        numbers::digit(n / 100),
        numbers::digit(n / 10 % 10),
        numbers::digit(n % 10),
    ]);
    let m = refusal(status, reason, url);
    let low = numbers::lowered(m);
    let head = "HTTP "@ + digits + " "@;
    assert(m =~= head + (reason + " from "@ + url));
    assert(forall|i: int| 0 <= i < 9 ==> m[i] == head[i]);
    assert(low.take(5) =~= "http "@);
    assert(low[5] == digits[0] && low[6] == digits[1] && low[7] == digits[2] && low[8] == ' ');
    assert(n == n / 100 * 100 + n / 10 % 10 * 10 + n % 10);
    assert(status_told(low) == Some(status as int));
}

/// A stream that stalled or broke off can be tried again, whatever the cause.
pub proof fn law_lost_streams_are_retryable(url: Seq<char>, bytes: u64, cause: Seq<char>)
    ensures
        passing(stalled(url, bytes)),
        passing(broken_off(url, bytes, cause)),
{
    let head = "chunk from "@;
    assert(stalled(url, bytes).take(head.len() as int) =~= head);
    assert(broken_off(url, bytes, cause).take(head.len() as int) =~= head);
    lemma_lost_stream(stalled(url, bytes));
    lemma_lost_stream(broken_off(url, bytes, cause));
}

proof fn lemma_lost_stream(message: Seq<char>)
    requires
        text::begins(message, "chunk from "@),
    ensures
        passing(message),
{
    reveal_strlit("chunk from ");
    reveal_strlit("http ");
    let head = "chunk from "@;
    let low = numbers::lowered(message);
    assert forall|i: int| 0 <= i < head.len() implies low[i] == head[i] by {
        assert(message.take(head.len() as int)[i] == head[i]);
    }
    assert(low.take(head.len() as int) =~= head);
    if text::begins(low, "http "@) {
        assert(low.take(5)[0] == "http "@[0]);
    }
}

/// A network that dropped can be tried again: a failure that tells of no status is a passing
/// one exactly where it speaks of a stream, a timeout or a lost connection, in any case of
/// letters.
pub proof fn law_dropped_networks_are_retryable(message: Seq<char>)
    requires
        !text::begins(numbers::lowered(message), "http "@),
    ensures
        ({
            let m = numbers::lowered(message);
            let speaks = |word: Seq<char>| exists|i: int| #[trigger] text::occurs_at(m, word, i);
            passing(message) <==> {
                ||| text::begins(m, "chunk from "@)
                ||| speaks("timed out"@)
                ||| speaks("timeout"@)
                ||| speaks("connection reset"@)
                ||| speaks("connection refused"@)
                ||| speaks("connection closed"@)
                ||| speaks("connection aborted"@)
                ||| speaks("network is unreachable"@)
                ||| speaks("dns error"@)
                ||| speaks("temporarily"@)
                ||| speaks("eof"@)
            }
        }),
{
}

/// A resumed request asks for the bytes from where the partial file ends; a new one asks for
/// all of them.
pub proof fn law_ranges_begin_where_the_part_ends(resume_from: u64)
    ensures
        resume_from == 0 ==> range_of(resume_from) is None,
        resume_from > 0 ==> range_of(resume_from) == Some(
            "bytes="@ + numbers::decimal(resume_from as nat) + "-"@,
        ),
{
}

/// A digest that is not the promised one is told with the promised and the computed one, in
/// this order; so two reports on one asset are the same only where both digests are.
pub proof fn law_mismatches_tell_both_digests(id: Seq<char>, expected: Seq<char>, got: Seq<char>)
    ensures
        mismatch(id, expected, got) == "SHA-256 mismatch for "@ + id + ": expected "@ + expected
            + ", got "@ + got,
        text::ends(mismatch(id, expected, got), ", got "@ + got),
{
    let s = mismatch(id, expected, got);
    let tail = ", got "@ + got;
    assert(s.skip(s.len() - tail.len()) =~= tail);
}

/// A difference is taken where it is not negative, and of two sizes the larger one is.
pub proof fn law_sizes_are_compared(a: u64, b: u64)
    ensures
        b + floored_difference(a, b) == larger(a as int, b as int),
        a <= b ==> floored_difference(a, b) == 0,
        larger(a as int, b as int) == larger(b as int, a as int),
        larger(a as int, b as int) >= a,
{
}

} // verus!
