//! Watching a server: what its warmup and its health checks say of it.
use vstd::prelude::*;
use crate::text;

verus! {

/// Seconds between two health checks.
pub const HEALTHCHECK_INTERVAL_SEC: u64 = 15;

/// Seconds that a health check may take.
pub const HEALTHCHECK_TIMEOUT_SEC: u64 = 5;

/// What an error that a health check noted begins with.
pub const UNRESPONSIVE: &'static str = "Local LLM unresponsive";

/// What becomes of the error that is noted.
pub enum ErrorUpdate {
    Keep,
    Clear,
    Put(String),
}

/// The error that is noted afterwards.
pub open spec fn updated(error: Option<Seq<char>>, update: ErrorUpdate) -> Option<Seq<char>> {
    match update {
        ErrorUpdate::Keep => error,
        ErrorUpdate::Clear => None,
        ErrorUpdate::Put(e) => Some(e@),
    }
}

/// What a warmup came to.
pub enum Warmup {
    NoClient { error: String },
    Answered,
    /// Answered with an error: the status and the beginning of the body.
    Refused { status: String, body_preview: String },
    Failed { error: String },
}

/// What a warmup has to say.
pub open spec fn warmup_says(w: Warmup) -> Option<Seq<char>> {
    match w {
        Warmup::NoClient { error } => Some("Local LLM warmup client build failed: "@ + error@),
        Warmup::Answered => None,
        Warmup::Refused { status, body_preview } => if body_preview@.len() == 0 {
            Some("Local LLM warmup returned HTTP "@ + status@)
        } else {
            Some("Local LLM warmup returned HTTP "@ + status@ + " — "@ + body_preview@)
        },
        Warmup::Failed { error } => Some("Local LLM warmup failed: "@ + error@),
    }
}

/// What is noted of a warmup: nothing where it was answered.
pub fn warmup_done(w: &Warmup) -> (r: ErrorUpdate)
    ensures
        match warmup_says(*w) {
            Some(m) => r matches ErrorUpdate::Put(e) && e@ == m,
            None => r is Keep,
        },
{
    match w {
        Warmup::NoClient { error } => {
            let mut m = "Local LLM warmup client build failed: ".to_string();
            m.append(error.as_str());
            ErrorUpdate::Put(m)
        },
        Warmup::Answered => ErrorUpdate::Keep,
        Warmup::Refused { status, body_preview } => {
            let mut m = "Local LLM warmup returned HTTP ".to_string();
            m.append(status.as_str());
            if !body_preview.as_str().is_empty() {
                m.append(" — ");
                m.append(body_preview.as_str());
            }
            ErrorUpdate::Put(m)
        },
        Warmup::Failed { error } => {
            let mut m = "Local LLM warmup failed: ".to_string();
            m.append(error.as_str());
            ErrorUpdate::Put(m)
        },
    }
}

/// What a health check came to.
pub enum Poll {
    Answered,
    /// Answered with an error.
    Refused { status: String },
    /// Nobody listens any more.
    Unreachable,
    Failed { error: String },
}

/// What follows from a health check.
pub struct HealthStep {
    pub update: ErrorUpdate,
    /// Whether the watch goes on.
    pub goes_on: bool,
}

/// A watch over a server: how many checks in a row have failed.
pub struct HealthWatch {
    pub failures: u32,
}

/// One failure more.
pub open spec fn one_more(failures: u32) -> u32 {
    if failures < u32::MAX {
        (failures + 1) as u32
    } else {
        failures
    }
}

/// The failures in a row after a health check.
pub open spec fn failures_after(failures: u32, p: Poll) -> u32 {
    match p {
        Poll::Answered => 0,
        _ => one_more(failures),
    }
}

/// The error that is noted after a health check. A single failure is passed over; an
/// answer takes back what an earlier check has noted, and nothing else.
pub open spec fn error_after(failures: u32, error: Option<Seq<char>>, p: Poll) -> Option<
    Seq<char>,
> {
    let twice = failures_after(failures, p) >= 2;
    match p {
        Poll::Answered => if error matches Some(e) && text::begins(e, UNRESPONSIVE@) {
            None
        } else {
            error
        },
        Poll::Refused { status } => if twice {
            Some("Local LLM unresponsive (HTTP "@ + status@ + ")"@)
        } else {
            error
        },
        Poll::Unreachable => error,
        Poll::Failed { error: e } => if twice {
            Some("Local LLM unresponsive: "@ + e@)
        } else {
            error
        },
    }
}

impl HealthWatch {
    /// A watch that begins.
    pub fn new() -> (r: HealthWatch)
        ensures
            r.failures == 0,
    {
        HealthWatch { failures: 0 }
    }

    /// Takes in a health check. `noted` is the error that is noted.
    pub fn polled(&mut self, p: &Poll, noted: &Option<String>) -> (r: HealthStep)
        ensures
            final(self).failures == failures_after(old(self).failures, *p),
            updated(text::opt_text(*noted), r.update) == error_after(
                old(self).failures,
                text::opt_text(*noted),
                *p,
            ),
            r.goes_on == !(*p is Unreachable && final(self).failures >= 2),
    {
        match p {
            Poll::Answered => {
                self.failures = 0;
                let own = match noted {
                    Some(e) => text::starts_with(e.as_str(), UNRESPONSIVE),
                    None => false,
                };
                let update = if own {
                    ErrorUpdate::Clear
                } else {
                    ErrorUpdate::Keep
                };
                return HealthStep { update, goes_on: true };
            },
            _ => {},
        }
        if self.failures < u32::MAX {
            self.failures = self.failures + 1;
        }
        if self.failures < 2 {
            return HealthStep { update: ErrorUpdate::Keep, goes_on: true };
        }
        match p {
            Poll::Refused { status } => {
                let mut m = "Local LLM unresponsive (HTTP ".to_string();
                m.append(status.as_str());
                m.append(")");
                HealthStep { update: ErrorUpdate::Put(m), goes_on: true }
            },
            Poll::Failed { error } => {
                let mut m = "Local LLM unresponsive: ".to_string();
                m.append(error.as_str());
                HealthStep { update: ErrorUpdate::Put(m), goes_on: true }
            },
            _ => HealthStep { update: ErrorUpdate::Keep, goes_on: false },
        }
    }
}

// ---------------------------------------------------------------------------
// Laws
// ---------------------------------------------------------------------------

/// One failure after an answer is passed over; it takes a second one in a row to note an
/// error.
pub proof fn law_two_strikes(failures: u32, error: Option<Seq<char>>, first: Poll, second: Poll)
    requires
        !(first is Answered),
        second is Refused || second is Failed,
    ensures
        ({
            let after_answer = failures_after(failures, Poll::Answered);
            let after_first = failures_after(after_answer, first);
            &&& error_after(after_answer, error, first) == error
            &&& error_after(after_first, error, second) is Some
        }),
{
}

/// What a check has noted is taken back by the next answer, and what a warmup has noted is
/// not.
pub proof fn law_recovery_takes_back_only_its_own(
    failures: u32,
    error: Option<Seq<char>>,
    p: Poll,
    w: Warmup,
)
    requires
        failures >= 1,
        p is Refused || p is Failed,
    ensures
        error_after(
            failures_after(failures, p),
            error_after(failures, error, p),
            Poll::Answered,
        ) is None,
        error_after(failures, warmup_says(w), Poll::Answered) == warmup_says(w),
{
    reveal_strlit("Local LLM unresponsive");
    reveal_strlit("Local LLM unresponsive (HTTP ");
    reveal_strlit("Local LLM unresponsive: ");
    reveal_strlit("Local LLM warmup client build failed: ");
    reveal_strlit("Local LLM warmup returned HTTP ");
    reveal_strlit("Local LLM warmup failed: ");
    let n = UNRESPONSIVE@.len() as int;
    assert(n == 22);
    let noted = error_after(failures, error, p);
    assert(noted->0.take(n) =~= UNRESPONSIVE@);
    match warmup_says(w) {
        Some(m) => {
            if text::begins(m, UNRESPONSIVE@) {
                assert(m.take(n)[10] == UNRESPONSIVE@[10]);
                assert(m[10] == 'w');
                assert(UNRESPONSIVE@[10] == 'u');
            }
        },
        None => {},
    }
}

/// What is noted says what happened: after the second failure in a row the status or the
/// error of the last one, and of a warmup how it failed. A watch counts every failure and
/// begins anew with an answer.
pub proof fn law_notes_say_what_happened(failures: u32, error: Option<Seq<char>>, p: Poll)
    requires
        failures < u32::MAX,
    ensures
        failures_after(failures, p) == (if p is Answered {
            0int
        } else {
            failures + 1
        }),
        failures >= 1 ==> match p {
            Poll::Refused { status } => error_after(failures, error, p) == Some(
                "Local LLM unresponsive (HTTP "@ + status@ + ")"@,
            ),
            Poll::Failed { error: e } => error_after(failures, error, p) == Some(
                "Local LLM unresponsive: "@ + e@,
            ),
            Poll::Unreachable => error_after(failures, error, p) == error,
            Poll::Answered => true,
        },
        failures == 0 && !(p is Answered) ==> error_after(failures, error, p) == error,
        p is Answered ==> error_after(failures, error, p) == (if error matches Some(e)
            && text::begins(e, "Local LLM unresponsive"@) {
            None
        } else {
            error
        }),
{
}

/// A warmup that was answered has nothing to say; any other says why it was not.
pub proof fn law_warmups_say_why_they_failed(w: Warmup)
    ensures
        match w {
            Warmup::Answered => warmup_says(w) is None,
            Warmup::NoClient { error } => warmup_says(w) == Some(
                "Local LLM warmup client build failed: "@ + error@,
            ),
            Warmup::Failed { error } => warmup_says(w) == Some(
                "Local LLM warmup failed: "@ + error@,
            ),
            Warmup::Refused { status, body_preview } => warmup_says(w) == Some(
                "Local LLM warmup returned HTTP "@ + status@ + (if body_preview@.len() == 0 {
                    Seq::<char>::empty()
                } else {
                    " — "@ + body_preview@
                }),
            ),
        },
{
    match w {
        Warmup::Refused { status, body_preview } => {
            let head = "Local LLM warmup returned HTTP "@ + status@;
            if body_preview@.len() == 0 {
                assert(head + Seq::<char>::empty() =~= head);
            } else {
                assert(head + (" — "@ + body_preview@) =~= head + " — "@ + body_preview@);
            }
        },
        _ => {},
    }
}

} // verus!
