//! Instants in UTC and their RFC 3339 form.
use vstd::prelude::*;
use crate::text;

verus! {

/// The earliest second that an instant can have, in the year -262143.
pub const MIN_SECS: i64 = -8_334_601_228_800;

/// The latest second that an instant can have, in the year 262142.
pub const MAX_SECS: i64 = 8_210_266_876_799;

/// The first second of the year 0.
pub const YEAR_ZERO: i64 = -62_167_219_200;

/// The last second of the year 9999.
pub const YEAR_9999: i64 = 253_402_300_799;

/// Seconds in an hour.
pub const HOUR: i64 = 3_600;

/// Seconds in a day.
pub const DAY: i64 = 86_400;

/// An instant: seconds since the beginning of 1970 in UTC, and nanoseconds behind them.
/// Within a leap second the nanoseconds go on behind the second before it.
#[derive(Clone, Copy, Debug, PartialEq, Eq, Structural)]
pub struct Timestamp {
    pub secs: i64,
    pub nanos: u32,
}

impl Timestamp {
    /// The instant lies in the calendar, and a leap second stands at the end of a minute.
    pub open spec fn wf(&self) -> bool {
        &&& MIN_SECS <= self.secs <= MAX_SECS
        &&& self.nanos < 2_000_000_000
        &&& self.nanos >= 1_000_000_000 ==> self.secs % 60 == 59
    }

    /// The instant lies in the years that RFC 3339 can write, and in no leap second.
    pub open spec fn plain(&self) -> bool {
        YEAR_ZERO <= self.secs <= YEAR_9999 && self.nanos < 1_000_000_000
    }

    /// The instant is not later than the other.
    pub open spec fn not_after(&self, other: Timestamp) -> bool {
        self.secs < other.secs || (self.secs == other.secs && self.nanos <= other.nanos)
    }

    /// The instant some seconds earlier. A leap second counts as the second behind it.
    pub open spec fn earlier_by(&self, n: i64) -> Timestamp {
        if self.nanos >= 1_000_000_000 {
            Timestamp {
                secs: (self.secs + 1 - n) as i64,
                nanos: (self.nanos - 1_000_000_000) as u32,
            }
        } else {
            Timestamp { secs: (self.secs - n) as i64, nanos: self.nanos }
        }
    }

    /// Whether the instant is not later than the other.
    pub fn at_or_before(&self, other: &Timestamp) -> (r: bool)
        ensures
            r == self.not_after(*other),
    {
        self.secs < other.secs || (self.secs == other.secs && self.nanos <= other.nanos)
    }

    /// The instant `n` seconds earlier.
    pub fn before(&self, n: i64) -> (r: Timestamp)
        requires
            self.wf(),
            0 < n,
            MIN_SECS <= self.secs - n,
        ensures
            r == self.earlier_by(n),
            r.wf(),
    {
        if self.nanos >= 1_000_000_000 {
            Timestamp { secs: self.secs + 1 - n, nanos: self.nanos - 1_000_000_000 }
        } else {
            Timestamp { secs: self.secs - n, nanos: self.nanos }
        }
    }

    /// Milliseconds since the beginning of 1970.
    pub fn millis(&self) -> (r: i64)
        requires
            self.wf(),
        ensures
            r == self.secs * 1000 + self.nanos as int / 1_000_000,
    {
        self.secs * 1000 + (self.nanos / 1_000_000) as i64
    }

    /// The instant so many milliseconds after the beginning of 1970.
    pub open spec fn of_millis(ms: i64) -> Option<Timestamp> {
        let secs = ms as int / 1000;
        if MIN_SECS <= secs <= MAX_SECS {
            Some(
                Timestamp {
                    secs: secs as i64,
                    nanos: ((ms as int % 1000) * 1_000_000) as u32,
                },
            )
        } else {
            None
        }
    }

    /// The instant so many milliseconds after the beginning of 1970, where the calendar
    /// goes that far.
    pub fn from_millis(ms: i64) -> (r: Option<Timestamp>)
        ensures
            r == Timestamp::of_millis(ms),
            r matches Some(t) ==> t.wf() && t.nanos < 1_000_000_000,
    {
        let mut secs: i64 = 0;
        let mut rest: i64 = 0;
        if ms >= 0 {
            secs = ms / 1000;
            rest = ms % 1000;
        } else {
            let up: i64 = -(ms + 1);
            secs = -(up / 1000) - 1;
            rest = 999 - up % 1000;
        }
        assert(secs == ms as int / 1000 && rest == ms as int % 1000) by {
            if ms < 0 {
                let up = -(ms + 1);
                assert(ms as int == 1000 * (-(up / 1000) - 1) + (999 - up % 1000));
            }
        }
        if secs < MIN_SECS || secs > MAX_SECS {
            return None;
        }
        Some(Timestamp { secs, nanos: rest as u32 * 1_000_000 })
    }
}

// ---------------------------------------------------------------------------
// RFC 3339
// ---------------------------------------------------------------------------

/// The instant that the text writes in RFC 3339, as seconds and nanoseconds.
pub uninterp spec fn rfc3339_instant(s: Seq<char>) -> Option<(i64, u32)>;

/// An instant in RFC 3339, to the second.
pub uninterp spec fn rfc3339_text(secs: i64, nanos: u32) -> Seq<char>;

/// The characters that an instant is written with.
pub open spec fn stamp_char(c: char) -> bool {
    '0' <= c <= '9' || c == '-' || c == ':' || c == 'T' || c == 'Z' || c == '+'
}

/// `chrono::DateTime::to_rfc3339_opts` with whole seconds and `Z` for UTC. The text is a
/// function of the instant, is made of digits and the signs between them, and is not
/// empty. For an instant of the years 0 to 9999 that lies in no leap second, reading the
/// text gives its second back.
#[verifier::external_body]
fn stamp_text(t: Timestamp) -> (r: String)
    requires
        t.wf(),
    ensures
        r@ == rfc3339_text(t.secs, t.nanos),
        r@.len() > 0,
        forall|i: int| 0 <= i < r@.len() ==> stamp_char(#[trigger] r@[i]),
        t.plain() ==> rfc3339_instant(r@) == Some((t.secs, 0u32)),
{
    chrono::DateTime::from_timestamp(t.secs, t.nanos)
        .unwrap()
        .to_rfc3339_opts(chrono::SecondsFormat::Secs, true)
}

/// `chrono::DateTime::parse_from_rfc3339`: the instant that the text writes, or nothing
/// where it writes none. It depends on the text alone and lies within a day of the years
/// 0 to 9999; a leap second stands at the end of a minute.
#[verifier::external_body]
fn stamp_instant(s: &str) -> (r: Option<(i64, u32)>)
    ensures
        r == rfc3339_instant(s@),
        r matches Some(p) ==> YEAR_ZERO - DAY <= p.0 <= YEAR_9999 + DAY && p.1 < 2_000_000_000 && (
        p.1 >= 1_000_000_000 ==> p.0 % 60 == 59),
{
    chrono::DateTime::parse_from_rfc3339(s).ok().map(|d| (d.timestamp(), d.timestamp_subsec_nanos()))
}

/// The instant that the text writes in RFC 3339.
pub open spec fn instant_of(s: Seq<char>) -> Option<Timestamp> {
    match rfc3339_instant(s) {
        Some((secs, nanos)) => Some(Timestamp { secs, nanos }),
        None => None,
    }
}

/// An instant in RFC 3339, to the second.
pub open spec fn stamp_of(t: Timestamp) -> Seq<char> {
    rfc3339_text(t.secs, t.nanos)
}

/// The instant that the text writes in RFC 3339.
pub fn parse_rfc3339(s: &str) -> (r: Option<Timestamp>)
    ensures
        r == instant_of(s@),
        r matches Some(t) ==> t.wf() && YEAR_ZERO - DAY <= t.secs <= YEAR_9999 + DAY,
{
    match stamp_instant(s) {
        Some((secs, nanos)) => Some(Timestamp { secs, nanos }),
        None => None,
    }
}

/// An instant in RFC 3339, to the second.
pub fn format_rfc3339(t: Timestamp) -> (r: String)
    requires
        t.wf(),
    ensures
        r@ == stamp_of(t),
        well_stamped(t),
{
    stamp_text(t)
}

/// What is known of the text of an instant: it is made of the stamp's characters, and
/// reading it gives the second back.
pub open spec fn well_stamped(t: Timestamp) -> bool {
    &&& stamp_of(t).len() > 0
    &&& forall|i: int| 0 <= i < stamp_of(t).len() ==> stamp_char(#[trigger] stamp_of(t)[i])
    &&& t.plain() ==> instant_of(stamp_of(t)) == Some(Timestamp { secs: t.secs, nanos: 0 })
}

// ---------------------------------------------------------------------------
// Laws
// ---------------------------------------------------------------------------

/// Nanoseconds from the beginning of 1970 to an instant.
pub open spec fn nanoseconds(t: Timestamp) -> int {
    t.secs * 1_000_000_000 + t.nanos
}

/// Instants are ordered as the nanoseconds up to them are, outside leap seconds.
pub proof fn law_instants_are_in_order(a: Timestamp, b: Timestamp)
    requires
        a.nanos < 1_000_000_000,
        b.nanos < 1_000_000_000,
    ensures
        a.not_after(b) <==> nanoseconds(a) <= nanoseconds(b),
        a.not_after(b) && b.not_after(a) <==> a == b,
{
}

/// An instant `n` seconds earlier lies `n` times a thousand million nanoseconds before, also
/// from within a leap second.
pub proof fn law_seconds_are_taken_off(t: Timestamp, n: i64)
    requires
        t.wf(),
        0 < n,
        MIN_SECS <= t.secs - n,
    ensures
        nanoseconds(t.earlier_by(n)) == nanoseconds(t) - n * 1_000_000_000,
        t.earlier_by(n).nanos < 1_000_000_000,
        t.earlier_by(n).not_after(t),
{
}

/// The instant so many milliseconds after the beginning of 1970 is a million times as many
/// nanoseconds after it, and gives the milliseconds back.
pub proof fn law_milliseconds_are_kept(ms: i64)
    requires
        MIN_SECS * 1000 <= ms <= MAX_SECS * 1000 + 999,
    ensures
        Timestamp::of_millis(ms) matches Some(t) && nanoseconds(t) == ms * 1_000_000 && t.wf()
            && t.nanos < 1_000_000_000,
{
}

} // verus!
