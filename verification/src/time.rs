//! Instants as plain numbers, and the two outside sources of fresh values:
//! the clock and the random identifier.

use crate::text;
use vstd::prelude::*;

verus! {

/// A UTC instant: seconds since the Unix epoch and nanoseconds after them.
#[derive(Debug, Clone, Copy, PartialEq, Eq, Structural)]
pub struct Timestamp {
    /// Whole seconds since the epoch.
    pub secs: i64,
    /// Nanoseconds after `secs`.
    pub nanos: u32,
}

/// A length of time, forwards or backwards: seconds and nanoseconds after
/// them.
#[derive(Debug, Clone, Copy, PartialEq, Eq, Structural)]
pub struct Span {
    /// Whole seconds, rounded down.
    pub secs: i64,
    /// Nanoseconds after `secs`.
    pub nanos: u32,
}

/// A length of time that is not negative: seconds and nanoseconds after them.
#[derive(Debug, Clone, Copy, PartialEq, Eq, Structural)]
pub struct Delay {
    /// Whole seconds.
    pub secs: u64,
    /// Nanoseconds after `secs`.
    pub nanos: u32,
}

/// The first second of the earliest year that instants reach.
pub const EARLIEST_SECS: i64 = -8_334_601_228_800;

/// The last second of the latest year that instants reach.
pub const LATEST_SECS: i64 = 8_210_266_876_799;

/// Nanoseconds from the epoch to an instant.
pub open spec fn instant(t: Timestamp) -> int {
    t.secs * 1_000_000_000 + t.nanos
}

/// The nanoseconds of a length of time.
pub open spec fn span_nanos(span: Span) -> int {
    span.secs * 1_000_000_000 + span.nanos
}

/// The nanoseconds of a delay.
pub open spec fn delay_nanos(delay: Delay) -> nat {
    (delay.secs * 1_000_000_000 + delay.nanos) as nat
}

/// Whether so many nanoseconds from the epoch lie within the years that
/// instants reach.
pub open spec fn within_years(nanos: int) -> bool {
    EARLIEST_SECS * 1_000_000_000 <= nanos < (LATEST_SECS + 1) * 1_000_000_000
}

/// Whole milliseconds from one instant to a later one; zero where the second
/// is not later.
pub open spec fn millis_between(start: Timestamp, end: Timestamp) -> int {
    if instant(end) > instant(start) {
        (instant(end) - instant(start)) / 1_000_000
    } else {
        0
    }
}

impl Delay {
    /// So many milliseconds.
    pub fn from_millis(millis: u64) -> (delay: Delay)
        ensures
            delay_nanos(delay) == millis * 1_000_000,
            delay.secs * 1_000 + delay.nanos / 1_000_000 == millis,
            delay.nanos < 1_000_000_000,
    {
        Delay { secs: millis / 1000, nanos: ((millis % 1000) as u32) * 1_000_000 }
    }

    /// Whether the delay is zero.
    pub fn is_zero(self) -> (yes: bool)
        ensures
            yes == (delay_nanos(self) == 0),
            yes == (self.secs == 0 && self.nanos == 0),
    {
        self.secs == 0 && self.nanos == 0
    }

    /// The nanoseconds of the delay.
    pub fn as_nanos(self) -> (n: u128)
        ensures
            n == delay_nanos(self),
            n == self.secs * 1_000_000_000 + self.nanos,
    {
        (self.secs as u128) * 1_000_000_000 + (self.nanos as u128)
    }
}

impl Timestamp {
    /// Whether the instant is within the years that instants reach, and its
    /// nanoseconds below one second.
    pub open spec fn well_formed(self) -> bool {
        EARLIEST_SECS <= self.secs <= LATEST_SECS && self.nanos < 1_000_000_000
    }

    /// Nanoseconds from the epoch to the instant.
    pub fn as_nanos(self) -> (n: i128)
        ensures
            n == instant(self),
            n == self.secs * 1_000_000_000 + self.nanos,
    {
        (self.secs as i128) * 1_000_000_000 + (self.nanos as i128)
    }

    /// Whether this instant is earlier than `other`.
    pub fn is_before(self, other: Timestamp) -> (yes: bool)
        ensures
            yes == (instant(self) < instant(other)),
            self.nanos < 1_000_000_000 && other.nanos < 1_000_000_000 ==> (yes <==> self.secs
                < other.secs || (self.secs == other.secs && self.nanos < other.nanos)),
    {
        self.as_nanos() < other.as_nanos()
    }

    /// The instant that lies so far before this one.
    pub fn minus(self, span: Span) -> (earlier: Timestamp)
        requires
            self.nanos < 1_000_000_000,
            span.nanos < 1_000_000_000,
            within_years(instant(self) - span_nanos(span)),
        ensures
            earlier.well_formed(),
            instant(earlier) == instant(self) - span_nanos(span),
            earlier.secs * 1_000_000_000 + earlier.nanos == (self.secs - span.secs) * 1_000_000_000
                + self.nanos - span.nanos,
    {
        let secs: i128 = (self.secs as i128) - (span.secs as i128);
        if self.nanos >= span.nanos {
            Timestamp { secs: secs as i64, nanos: self.nanos - span.nanos }
        } else {
            Timestamp {
                secs: (secs - 1) as i64,
                nanos: self.nanos + (1_000_000_000 - span.nanos),
            }
        }
    }
}

/// Instants are in order by their seconds, and within one second by their
/// nanoseconds; no two of them are the same.
pub proof fn law_instants_are_in_order(a: Timestamp, b: Timestamp)
    requires
        a.nanos < 1_000_000_000,
        b.nanos < 1_000_000_000,
    ensures
        instant(a) < instant(b) <==> a.secs < b.secs || (a.secs == b.secs && a.nanos < b.nanos),
        instant(a) == instant(b) <==> a == b,
{
}

/// Whole milliseconds from `start` to `end`, zero where `end` is not later.
pub fn duration_ms(start: Timestamp, end: Timestamp) -> (millis: u128)
    ensures
        millis == millis_between(start, end),
        instant(end) <= instant(start) ==> millis == 0,
        instant(end) > instant(start) ==> millis * 1_000_000 <= instant(end) - instant(start) < (
        millis + 1) * 1_000_000,
{
    let a: i128 = start.as_nanos();
    let b: i128 = end.as_nanos();
    if b > a {
        ((b - a) as u128) / 1_000_000
    } else {
        0
    }
}

/// Reads the clock through `chrono::Utc::now`. The result depends on the
/// moment; what holds of every reading is that it lies at or after the epoch,
/// within the years that `chrono` knows, and that its nanoseconds stay below
/// one second. A clock set before the epoch makes the outside call panic.
#[verifier::external_body]
pub(crate) fn utc_now() -> (now: Timestamp)
    ensures
        now.well_formed(),
        now.secs >= 0,
{
    let now = chrono::Utc::now();
    Timestamp { secs: now.timestamp(), nanos: now.timestamp_subsec_nanos() }
}

/// Whether an instant lies in a year of four digits.
pub open spec fn four_digit_year(t: Timestamp) -> bool {
    -62_167_219_200 <= t.secs <= 253_402_300_799 && t.nanos < 1_000_000_000
}

/// An instant as `chrono` renders it under a pattern.
pub uninterp spec fn stamp_text(secs: i64, nanos: u32, pattern: Seq<char>) -> Seq<char>;

/// The seconds and nanoseconds that `chrono` reads in a text, or the message
/// of its refusal.
pub uninterp spec fn stamp_parsed(text: Seq<char>) -> Result<(i64, u32), Seq<char>>;

/// The pattern of stored instants: all parts of fixed width.
pub const STAMP_PATTERN: &'static str = "%Y-%m-%dT%H:%M:%S%.9f+00:00";

/// Renders an instant through `chrono::DateTime::format`. The contract names
/// the result and says, of years with four digits, what fixed-width parts from
/// the year down to the nanosecond give: `DateTime::parse_from_rfc3339` reads
/// the instant back, and the texts are in order as the instants are.
#[verifier::external_body]
pub(crate) fn format_stamp(t: Timestamp, pattern: &str) -> (out: String)
    requires
        t.well_formed(),
        pattern@ == STAMP_PATTERN@,
    ensures
        out@ == stamp_text(t.secs, t.nanos, pattern@),
        four_digit_year(t) ==> stamp_parsed(out@) is Ok && stamp_parsed(out@)->Ok_0 == (
            t.secs,
            t.nanos,
        ),
        four_digit_year(t) ==> forall|o: Timestamp|
            four_digit_year(o) ==> (text::text_lt(
                #[trigger] stamp_text(o.secs, o.nanos, pattern@),
                out@,
            ) <==> instant(o) < instant(t)),
{
    let stamp = chrono::DateTime::<chrono::Utc>::from_timestamp(t.secs, t.nanos);
    stamp.unwrap_or_default().format(pattern).to_string()
}

/// Reads an instant through `chrono::DateTime::parse_from_rfc3339`, in UTC.
/// The contract names the result: it is a function of the text alone.
#[verifier::external_body]
pub(crate) fn parse_stamp(raw: &str) -> (parsed: Result<Timestamp, String>)
    ensures
        match parsed {
            Ok(t) => stamp_parsed(raw@) == Ok::<(i64, u32), Seq<char>>((t.secs, t.nanos)),
            Err(message) => stamp_parsed(raw@) == Err::<(i64, u32), Seq<char>>(message@),
        },
{
    match chrono::DateTime::parse_from_rfc3339(raw) {
        Ok(t) => Ok(Timestamp { secs: t.timestamp(), nanos: t.timestamp_subsec_nanos() }),
        Err(e) => Err(e.to_string()),
    }
}

/// A delay as `{:?}` renders it.
pub uninterp spec fn delay_debug(secs: u64, nanos: u32) -> Seq<char>;

/// Renders a delay with the `Debug` formatting of `std::time::Duration`. The
/// contract only names the result: the formatting is a function of the seconds
/// and nanoseconds alone.
#[verifier::external_body]
pub(crate) fn debug_delay(delay: Delay) -> (out: String)
    requires
        delay.nanos < 1_000_000_000,
    ensures
        out@ == delay_debug(delay.secs, delay.nanos),
{
    format!("{:?}", std::time::Duration::new(delay.secs, delay.nanos))
}

/// Draws a random identifier through `uuid::Uuid::new_v4`, in its hyphenated
/// form. Which one comes depends on chance; every one has thirty-six
/// characters.
#[verifier::external_body]
pub(crate) fn random_id() -> (id: String)
    ensures
        id@.len() == 36,
{
    uuid::Uuid::new_v4().to_string()
}

} // verus!
