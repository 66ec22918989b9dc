//! Fetchers and the rhythm they run in.
use vstd::prelude::*;
use crate::text;
use crate::time;
use crate::time::Timestamp;
use crate::triage::storage::UpsertOutcome;

verus! {

/// Days that the first fetch looks back.
pub const COLD_START_DAYS: i64 = 3;

/// Seconds before the first fetch after startup.
pub const STARTUP_DELAY_SEC: u64 = 45;

/// Seconds from the beginning of one fetch to the next.
pub const TICK_INTERVAL_SEC: u64 = 300;

/// The instant that the first fetch looks back to.
pub fn cold_start_cutoff(now: Timestamp) -> (r: Timestamp)
    requires
        now.wf(),
        time::MIN_SECS <= now.secs - COLD_START_DAYS * time::DAY,
    ensures
        r == now.earlier_by((COLD_START_DAYS * time::DAY) as i64),
        r.wf(),
{
    now.before(COLD_START_DAYS * time::DAY)
}

/// The instant that the first fetch looks back to, in milliseconds since 1970.
pub fn cold_start_cutoff_ms(now: Timestamp) -> (r: i64)
    requires
        now.wf(),
        time::MIN_SECS <= now.secs - COLD_START_DAYS * time::DAY,
    ensures
        ({
            let c = now.earlier_by((COLD_START_DAYS * time::DAY) as i64);
            r == c.secs * 1000 + c.nanos as int / 1_000_000
        }),
{
    cold_start_cutoff(now).millis()
}

/// A source of candidates.
pub trait Fetcher {
    /// The source's id.
    spec fn source_id(&self) -> Seq<char>;

    /// The source's id, under which candidates and cursors are kept.
    fn source(&self) -> (r: String)
        ensures
            r@ == self.source_id(),
    ;
}

/// What a fetch came to.
#[derive(Clone, Copy, Debug, PartialEq, Eq, Structural)]
pub struct FetchSummary {
    pub inserted: usize,
    pub updated: usize,
    pub skipped_decided: usize,
    pub source_parents_scanned: usize,
}

impl Default for FetchSummary {
    fn default() -> (r: Self)
        ensures
            r == (FetchSummary {
                inserted: 0,
                updated: 0,
                skipped_decided: 0,
                source_parents_scanned: 0,
            }),
    {
        FetchSummary { inserted: 0, updated: 0, skipped_decided: 0, source_parents_scanned: 0 }
    }
}

impl FetchSummary {
    /// Adds another summary.
    pub fn merge(&mut self, other: FetchSummary)
        requires
            old(self).inserted + other.inserted <= usize::MAX,
            old(self).updated + other.updated <= usize::MAX,
            old(self).skipped_decided + other.skipped_decided <= usize::MAX,
            old(self).source_parents_scanned + other.source_parents_scanned <= usize::MAX,
        ensures
            final(self).inserted == old(self).inserted + other.inserted,
            final(self).updated == old(self).updated + other.updated,
            final(self).skipped_decided == old(self).skipped_decided + other.skipped_decided,
            final(self).source_parents_scanned == old(self).source_parents_scanned
                + other.source_parents_scanned,
    {
        self.inserted = self.inserted + other.inserted;
        self.updated = self.updated + other.updated;
        self.skipped_decided = self.skipped_decided + other.skipped_decided;
        self.source_parents_scanned = self.source_parents_scanned + other.source_parents_scanned;
    }

    /// Counts what the write of a candidate came to.
    pub fn count(&mut self, outcome: UpsertOutcome)
        requires
            old(self).inserted < usize::MAX,
            old(self).updated < usize::MAX,
            old(self).skipped_decided < usize::MAX,
        ensures
            *final(self) == old(self).counted(outcome),
    {
        match outcome {
            UpsertOutcome::Inserted => {
                self.inserted = self.inserted + 1;
            },
            UpsertOutcome::UpdatedUnchanged => {
                self.updated = self.updated + 1;
            },
            UpsertOutcome::SkippedDecided => {
                self.skipped_decided = self.skipped_decided + 1;
            },
        }
    }

    /// The summary with one more write counted.
    pub open spec fn counted(self, outcome: UpsertOutcome) -> FetchSummary {
        match outcome {
            UpsertOutcome::Inserted => FetchSummary {
                inserted: (self.inserted + 1) as usize,
                ..self
            },
            UpsertOutcome::UpdatedUnchanged => FetchSummary {
                updated: (self.updated + 1) as usize,
                ..self
            },
            UpsertOutcome::SkippedDecided => FetchSummary {
                skipped_decided: (self.skipped_decided + 1) as usize,
                ..self
            },
        }
    }

    /// Counts a conversation or repository that was looked at.
    pub fn count_scanned(&mut self)
        requires
            old(self).source_parents_scanned < usize::MAX,
        ensures
            *final(self) == (FetchSummary {
                source_parents_scanned: (old(self).source_parents_scanned + 1) as usize,
                ..*old(self)
            }),
    {
        self.source_parents_scanned = self.source_parents_scanned + 1;
    }
}

/// Milliseconds to wait after a fetch that took `elapsed_ms`.
pub fn wait_after(elapsed_ms: u64) -> (r: u64)
    ensures
        r == (if elapsed_ms >= TICK_INTERVAL_SEC * 1000 {
            0
        } else {
            TICK_INTERVAL_SEC * 1000 - elapsed_ms
        }),
{
    if elapsed_ms >= TICK_INTERVAL_SEC * 1000 {
        0
    } else {
        TICK_INTERVAL_SEC * 1000 - elapsed_ms
    }
}

/// Whether a triage tick follows a fetch.
pub fn fires_after_fetch(enabled: bool, auto_run: bool, llm_enabled: bool) -> (r: bool)
    ensures
        r == (enabled && auto_run && llm_enabled),
{
    enabled && auto_run && llm_enabled
}

/// Whether a tick that failed to start is worth a warning: one that found another in
/// flight or triage switched off is not.
pub fn worth_a_warning(message: &str) -> (r: bool)
    ensures
        r == (!text::has(message@, "in flight"@) && !text::has(message@, "disabled"@) && !text::has(
            message@,
            "not enabled"@,
        )),
{
    !text::contains(message, "in flight") && !text::contains(message, "disabled")
        && !text::contains(message, "not enabled")
}

/// Every write is counted once, under what it came to.
pub proof fn law_every_write_is_counted(s: FetchSummary, outcome: UpsertOutcome)
    requires
        s.inserted < usize::MAX,
        s.updated < usize::MAX,
        s.skipped_decided < usize::MAX,
    ensures
        ({
            let after = s.counted(outcome);
            &&& after.inserted + after.updated + after.skipped_decided == s.inserted + s.updated
                + s.skipped_decided + 1
            &&& after.inserted > s.inserted <==> outcome == UpsertOutcome::Inserted
            &&& after.updated > s.updated <==> outcome == UpsertOutcome::UpdatedUnchanged
            &&& after.skipped_decided > s.skipped_decided <==> outcome
                == UpsertOutcome::SkippedDecided
            &&& after.source_parents_scanned == s.source_parents_scanned
        }),
{
}

/// A fetch and the wait behind it take the interval between two fetches together; after one
/// that took longer the next begins at once.
pub proof fn law_fetches_keep_their_interval(elapsed_ms: u64, wait: u64)
    requires
        call_ensures(wait_after, (elapsed_ms,), wait),
    ensures
        elapsed_ms <= 300_000 ==> elapsed_ms + wait == 300_000,
        elapsed_ms > 300_000 ==> wait == 0,
{
}

/// A tick follows a fetch only where triage is on, runs by itself and has a model.
pub proof fn law_ticks_follow_where_wanted(enabled: bool, auto_run: bool, llm: bool, fires: bool)
    requires
        call_ensures(fires_after_fetch, (enabled, auto_run, llm), fires),
    ensures
        fires ==> enabled && auto_run && llm,
        !fires ==> !enabled || !auto_run || !llm,
{
}

} // verus!
