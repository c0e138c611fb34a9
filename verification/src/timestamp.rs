//! Instants in time, held as whole seconds since the Unix epoch and the
//! nanoseconds within that second.
use vstd::prelude::*;

verus! {

/// The first second of the earliest date the clock library can represent
/// (`-262143-01-01T00:00:00Z`), in seconds since the Unix epoch.
pub const MIN_SECS: i64 = -8_334_601_228_800;

/// The last second of the latest date the clock library can represent
/// (`+262142-12-31T23:59:59Z`), in seconds since the Unix epoch.
pub const MAX_SECS: i64 = 8_210_266_876_799;

/// Nanoseconds in one second.
pub const NANOS_PER_SEC: u32 = 1_000_000_000;

/// Seconds in one (non-leap) day.
pub const SECS_PER_DAY: i64 = 86_400;

/// The largest number of days, in either direction, that a time span can
/// hold: a span is limited to `i64::MAX` milliseconds.
pub const MAX_SPAN_DAYS: i64 = 106_751_991_167;

/// An instant in UTC: `secs` whole seconds after the Unix epoch (negative
/// before it) plus `nanos` nanoseconds.
///
/// The derived order compares `secs` first and `nanos` second, which is the
/// chronological order.
#[derive(Clone, Copy, Debug, PartialEq, Eq, Structural, PartialOrd, Ord, Hash)]
pub struct Timestamp {
    pub secs: i64,
    pub nanos: u32,
}

impl Timestamp {
    /// A timestamp the clock library can represent, outside a leap second.
    pub open spec fn wf(self) -> bool {
        &&& self.nanos < NANOS_PER_SEC
        &&& MIN_SECS <= self.secs <= MAX_SECS
    }

    /// Chronological order: `self` is strictly earlier than `other`.
    pub open spec fn is_before(self, other: Timestamp) -> bool {
        ||| self.secs < other.secs
        ||| (self.secs == other.secs && self.nanos < other.nanos)
    }

    /// Whether `self` is strictly earlier than `other`.
    pub fn before(&self, other: &Timestamp) -> (r: bool)
        ensures
            r == self.is_before(*other),
    {
        self.secs < other.secs || (self.secs == other.secs && self.nanos < other.nanos)
    }
}

/// The instant `days` whole days before `now`, or `None` when that instant
/// falls outside the range the clock library can represent.
pub open spec fn spec_days_before(now: Timestamp, days: i64) -> Option<Timestamp> {
    let secs = now.secs - days * SECS_PER_DAY;
    if MIN_SECS <= secs <= MAX_SECS {
        Some(Timestamp { secs: secs as i64, nanos: now.nanos })
    } else {
        None
    }
}

/// Subtracts `days` days from `now`, as the clock library does for a span of
/// whole days: `None` when the result would leave the representable range.
pub fn days_before(now: Timestamp, days: i64) -> (r: Option<Timestamp>)
    requires
        now.wf(),
        -MAX_SPAN_DAYS <= days <= MAX_SPAN_DAYS,
    ensures
        r == spec_days_before(now, days),
        r matches Some(t) ==> t.wf(),
{
    assert(-MAX_SPAN_DAYS * SECS_PER_DAY <= days * SECS_PER_DAY <= MAX_SPAN_DAYS * SECS_PER_DAY)
        by (nonlinear_arith)
        requires
            -MAX_SPAN_DAYS <= days <= MAX_SPAN_DAYS,
    ;
    let span: i64 = days * SECS_PER_DAY;
    let secs: i64 = now.secs - span;
    if MIN_SECS <= secs && secs <= MAX_SECS {
        Some(Timestamp { secs, nanos: now.nanos })
    } else {
        None
    }
}

/// The largest retention, in days, whose cutoff can be represented for every
/// clock reading at or after the Unix epoch: the epoch minus this many days is
/// the first representable second (`MIN_SECS`).
pub const MAX_RETENTION_DAYS: i64 = 96_465_292;

/// An instant the clock can report: well formed and not before the Unix epoch.
pub open spec fn clock_instant(t: Timestamp) -> bool {
    t.wf() && 0 <= t.secs
}

/// The time elapsed since the Unix epoch on the system clock, as whole
/// seconds and the nanoseconds within the last second, read through
/// `std::time::SystemTime::elapsed` on `UNIX_EPOCH`.
///
/// Trusted: std documents that `elapsed` returns an error (it does not panic)
/// when the clock reads a time before the epoch, which gives `None` here, and
/// that the sub-second part of a `Duration` is below one second. Nothing is
/// said of which instant the clock reports.
#[verifier::external_body]
fn elapsed_since_epoch() -> (r: Option<(u64, u32)>)
    ensures
        r matches Some((_, nanos)) ==> nanos < NANOS_PER_SEC,
{
    match std::time::UNIX_EPOCH.elapsed() {
        Ok(d) => Some((d.as_secs(), d.subsec_nanos())),
        Err(_) => None,
    }
}

/// The instant `secs` seconds and `nanos` nanoseconds after the Unix epoch in
/// UTC, built through `chrono::DateTime::from_timestamp`.
///
/// Trusted: for a non-negative `secs` and `nanos` below one second, the clock
/// library builds the instant exactly when its date does not pass the latest
/// representable date, that is when `secs <= MAX_SECS`, and then reports the
/// same seconds and nanoseconds back; otherwise it returns `None`.
#[verifier::external_body]
fn utc_from_unix(secs: i64, nanos: u32) -> (r: Option<Timestamp>)
    requires
        0 <= secs,
        nanos < NANOS_PER_SEC,
    ensures
        r == (if secs <= MAX_SECS {
            Some(Timestamp { secs, nanos })
        } else {
            None
        }),
{
    match chrono::DateTime::from_timestamp(secs, nanos) {
        Some(t) => Some(Timestamp { secs: t.timestamp(), nanos: t.timestamp_subsec_nanos() }),
        None => None,
    }
}

/// The instant a clock reading denotes: `secs` whole seconds and `nanos`
/// nanoseconds after the Unix epoch, when that lies within the representable
/// range.
pub fn instant_from_elapsed(secs: u64, nanos: u32) -> (r: Option<Timestamp>)
    requires
        nanos < NANOS_PER_SEC,
    ensures
        r == (if secs <= MAX_SECS as u64 {
            Some(Timestamp { secs: secs as i64, nanos })
        } else {
            None
        }),
{
    if secs > MAX_SECS as u64 {
        None
    } else {
        utc_from_unix(secs as i64, nanos)
    }
}

/// The current instant in UTC: the system clock's reading converted by
/// `instant_from_elapsed`; `None` when the clock reads a time before the Unix
/// epoch or past the latest representable instant.
pub(crate) fn clock_now() -> (r: Option<Timestamp>)
    ensures
        r matches Some(t) ==> clock_instant(t),
{
    match elapsed_since_epoch() {
        None => None,
        Some((secs, nanos)) => instant_from_elapsed(secs, nanos),
    }
}

/// The instants the system clock has reported to the holder of this log, in
/// the order they were read. Only `read` adds to it, and each instant it adds
/// is the one that read returned.
pub struct ClockLog {
    readings: Ghost<Seq<Timestamp>>,
}

impl ClockLog {
    /// The instants read so far, oldest first.
    pub closed spec fn readings(&self) -> Seq<Timestamp> {
        self.readings@
    }

    /// A log with no readings.
    pub fn new() -> (c: ClockLog)
        ensures
            c.readings() == Seq::<Timestamp>::empty(),
    {
        ClockLog { readings: Ghost(Seq::empty()) }
    }

    /// Reads the current instant and records it; records nothing when the
    /// clock cannot be read.
    pub fn read(&mut self) -> (r: Option<Timestamp>)
        ensures
            match r {
                Some(t) => clock_instant(t) && final(self).readings() == old(self).readings().push(
                    t,
                ),
                None => final(self).readings() == old(self).readings(),
            },
    {
        let r = clock_now();
        match r {
            Some(t) => {
                self.readings = Ghost(self.readings@.push(t));
            },
            None => {},
        }
        r
    }
}

/// `after` is `before` with exactly one more reading at its end.
pub open spec fn read_once(before: Seq<Timestamp>, after: Seq<Timestamp>) -> bool {
    after.len() == before.len() + 1 && after.drop_last() == before
}

} // verus!
