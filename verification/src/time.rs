//! Instants, spans and timeouts as plain integers.
//!
//! Calendar arithmetic is `chrono`'s: the functions at the end of this file hand it the integers
//! and take integers back.

use chrono::format::ParseErrorKind;
use vstd::prelude::*;

verus! {

pub const NANOS_PER_SEC: u32 = 1_000_000_000;

/// The first second that a `chrono::DateTime<Utc>` can hold (-262143-01-01T00:00:00Z).
pub const MIN_UNIX_SECS: i64 = -8_334_601_228_800;

/// The last second that a `chrono::DateTime<Utc>` can hold (262142-12-31T23:59:59Z).
pub const MAX_UNIX_SECS: i64 = 8_210_266_876_799;

/// The longest span that a `chrono::TimeDelta` can hold, in milliseconds, in either direction.
pub const MAX_SPAN_MILLIS: i64 = 0x7fff_ffff_ffff_ffff;

/// A point in time: seconds since the Unix epoch and nanoseconds into that second.
///
/// A leap second is the last second of its minute with a billion nanoseconds or more.
#[derive(Debug, Clone, Copy, PartialEq, Eq, Structural)]
pub struct Timestamp {
    pub secs: i64,
    pub nanos: u32,
}

/// A signed length of time: whole seconds, and the nanoseconds left over with the same sign.
#[derive(Debug, Clone, Copy, PartialEq, Eq, Structural)]
pub struct Span {
    pub secs: i64,
    pub nanos: i32,
}

/// A length of time that is never negative, such as a timeout.
#[derive(Debug, Clone, Copy, PartialEq, Eq, Structural)]
pub struct Duration {
    pub secs: u64,
    pub nanos: u32,
}

/// `n / d` with the fraction cut off, whatever the sign of `n`.
pub open spec fn trunc_div(n: int, d: int) -> int
    recommends
        d > 0,
{
    if n >= 0 {
        n / d
    } else {
        -((-n) / d)
    }
}

/// What `trunc_div` leaves over; it has the sign of `n`.
pub open spec fn trunc_rem(n: int, d: int) -> int
    recommends
        d > 0,
{
    n - trunc_div(n, d) * d
}

impl Timestamp {
    /// The instants that `chrono::DateTime<Utc>` can hold.
    pub open spec fn wf(self) -> bool {
        &&& MIN_UNIX_SECS <= self.secs <= MAX_UNIX_SECS
        &&& self.nanos < 2 * NANOS_PER_SEC
        &&& self.is_leap() ==> self.secs as int % 60 == 59
    }

    pub open spec fn is_leap(self) -> bool {
        self.nanos >= NANOS_PER_SEC
    }

    /// Seconds since midnight.
    pub open spec fn second_of_day(self) -> int {
        self.secs as int % 86_400
    }
}

/// The leap second that lies between the two times of day and that plain subtraction of the
/// seconds does not count.
pub open spec fn uncounted_leap_seconds(later: Timestamp, earlier: Timestamp) -> int {
    if later.second_of_day() > earlier.second_of_day() && earlier.is_leap() {
        1
    } else if later.second_of_day() < earlier.second_of_day() && later.is_leap() {
        -1
    } else {
        0
    }
}

/// Nanoseconds from `earlier` to `later`; negative where `later` comes first.
pub open spec fn elapsed_nanos(later: Timestamp, earlier: Timestamp) -> int {
    (later.secs - earlier.secs + uncounted_leap_seconds(later, earlier)) * NANOS_PER_SEC
        + later.nanos - earlier.nanos
}

/// Whole seconds from `earlier` to `later`.
pub open spec fn elapsed_secs(later: Timestamp, earlier: Timestamp) -> int {
    trunc_div(elapsed_nanos(later, earlier), NANOS_PER_SEC as int)
}

/// Whole minutes from `earlier` to `later`.
pub open spec fn elapsed_mins(later: Timestamp, earlier: Timestamp) -> int {
    trunc_div(elapsed_nanos(later, earlier), 60 * NANOS_PER_SEC)
}

impl Span {
    /// The length in nanoseconds.
    pub open spec fn total(self) -> int {
        self.secs * NANOS_PER_SEC + self.nanos
    }

    /// The spans that `chrono::TimeDelta` can hold.
    pub open spec fn wf(self) -> bool {
        &&& -NANOS_PER_SEC < self.nanos < NANOS_PER_SEC
        &&& self.secs > 0 ==> self.nanos >= 0
        &&& self.secs < 0 ==> self.nanos <= 0
        &&& -(MAX_SPAN_MILLIS * 1_000_000) <= self.total() <= MAX_SPAN_MILLIS * 1_000_000
    }

    /// True if this span is as long as `other`, or longer.
    pub fn at_least(self, other: Span) -> (r: bool)
        requires
            self.wf(),
            other.wf(),
        ensures
            r == (self.total() >= other.total()),
    {
        self.secs > other.secs || (self.secs == other.secs && self.nanos >= other.nanos)
    }
}

impl Duration {
    /// The length in nanoseconds.
    pub open spec fn total(self) -> int {
        self.secs * NANOS_PER_SEC + self.nanos
    }

    pub open spec fn wf(self) -> bool {
        self.nanos < NANOS_PER_SEC
    }

    /// True if a `chrono::TimeDelta` can hold this length.
    pub open spec fn representable(self) -> bool {
        self.total() <= MAX_SPAN_MILLIS * 1_000_000
    }

    pub fn from_secs(secs: u64) -> (r: Duration)
        ensures
            r.wf(),
            r.secs == secs,
            r.nanos == 0,
    {
        Duration { secs, nanos: 0 }
    }

    /// The same length as a span, or `None` if it is too long for one.
    pub fn to_span(self) -> (r: Option<Span>)
        requires
            self.wf(),
        ensures
            r is Some <==> self.representable(),
            r matches Some(span) ==> span.wf() && span.total() == self.total(),
    {
        match span_from_std(self) {
            Ok(span) => Some(span),
            Err(_) => None,
        }
    }

    /// What is left of this length once `elapsed` of it has passed, or `None` if nothing is.
    pub fn remaining_after(self, elapsed: Duration) -> (r: Option<Duration>)
        requires
            self.wf(),
            elapsed.wf(),
        ensures
            r is Some <==> self.total() > elapsed.total(),
            r matches Some(rest) ==> rest.wf() && rest.total() == self.total() - elapsed.total(),
    {
        if self.secs < elapsed.secs || (self.secs == elapsed.secs && self.nanos <= elapsed.nanos) {
            None
        } else if self.nanos >= elapsed.nanos {
            Some(Duration { secs: self.secs - elapsed.secs, nanos: self.nanos - elapsed.nanos })
        } else {
            Some(
                Duration {
                    secs: self.secs - elapsed.secs - 1,
                    nanos: NANOS_PER_SEC + self.nanos - elapsed.nanos,
                },
            )
        }
    }
}

impl Timestamp {
    /// True if a `chrono::DateTime<Utc>` can hold this instant.
    pub fn is_valid(self) -> (r: bool)
        ensures
            r == self.wf(),
    {
        if self.secs < MIN_UNIX_SECS || self.secs > MAX_UNIX_SECS {
            return false;
        }
        let second_of_minute: i64 = (self.secs - MIN_UNIX_SECS) % 60;
        self.nanos < NANOS_PER_SEC || (self.nanos < 2 * NANOS_PER_SEC && second_of_minute == 59)
    }

    /// The current time. Which instant that is depends on the clock and is left open.
    pub fn now() -> (r: Timestamp)
        ensures
            r.wf(),
    {
        utc_now()
    }

    /// The span from `earlier` to this instant.
    pub fn since(self, earlier: Timestamp) -> (r: Span)
        requires
            self.wf(),
            earlier.wf(),
        ensures
            r.wf(),
            r.total() == elapsed_nanos(self, earlier),
    {
        signed_duration_since(self, earlier)
    }

    /// Whole seconds from `earlier` to this instant.
    pub fn seconds_since(self, earlier: Timestamp) -> (r: i64)
        requires
            self.wf(),
            earlier.wf(),
        ensures
            r == elapsed_secs(self, earlier),
    {
        num_seconds(self.since(earlier))
    }

    /// Whole minutes from `earlier` to this instant.
    pub fn minutes_since(self, earlier: Timestamp) -> (r: i64)
        requires
            self.wf(),
            earlier.wf(),
        ensures
            r == elapsed_mins(self, earlier),
    {
        num_minutes(self.since(earlier))
    }
}

/// The error of `chrono::TimeDelta::from_std`.
#[verifier::external_type_specification]
#[verifier::external_body]
pub struct ExOutOfRangeError(chrono::OutOfRangeError);

/// `chrono::Utc::now`. Claimed of it: the instant is one that a `DateTime<Utc>` can hold. Nothing
/// is claimed of which one, nor that a later call gives a later one: the system clock may be set.
#[verifier::external_body]
fn utc_now() -> (r: Timestamp)
    ensures
        r.wf(),
{
    let now = chrono::Utc::now();
    Timestamp { secs: now.timestamp(), nanos: now.timestamp_subsec_nanos() }
}

/// `-` on two `chrono::DateTime<Utc>`, which is `signed_duration_since`. Claimed of it: the
/// result is the exact difference, a leap second counted where the times of day lie on both
/// sides of it.
#[verifier::external_body]
fn signed_duration_since(later: Timestamp, earlier: Timestamp) -> (r: Span)
    requires
        later.wf(),
        earlier.wf(),
    ensures
        r.wf(),
        r.total() == elapsed_nanos(later, earlier),
{
    let later = chrono::DateTime::from_timestamp(later.secs, later.nanos).unwrap();
    let earlier = chrono::DateTime::from_timestamp(earlier.secs, earlier.nanos).unwrap();
    let delta = later - earlier;
    Span { secs: delta.num_seconds(), nanos: delta.subsec_nanos() }
}

/// `chrono::TimeDelta::num_seconds`. Claimed of it: the whole seconds of the span, the
/// fraction cut off.
#[verifier::external_body]
fn num_seconds(span: Span) -> (r: i64)
    requires
        span.wf(),
    ensures
        r == trunc_div(span.total(), NANOS_PER_SEC as int),
{
    (chrono::TimeDelta::seconds(span.secs) + chrono::TimeDelta::nanoseconds(span.nanos as i64))
        .num_seconds()
}

/// `chrono::TimeDelta::num_minutes`. Claimed of it: the whole minutes of the span, the
/// fraction cut off.
#[verifier::external_body]
fn num_minutes(span: Span) -> (r: i64)
    requires
        span.wf(),
    ensures
        r == trunc_div(span.total(), 60 * NANOS_PER_SEC),
{
    (chrono::TimeDelta::seconds(span.secs) + chrono::TimeDelta::nanoseconds(span.nanos as i64))
        .num_minutes()
}

/// `chrono::TimeDelta::from_std`. Claimed of it: it keeps the length, and fails on the lengths
/// beyond the largest `TimeDelta` and on no others.
#[verifier::external_body]
fn span_from_std(duration: Duration) -> (r: Result<Span, chrono::OutOfRangeError>)
    requires
        duration.wf(),
    ensures
        r is Ok <==> duration.representable(),
        r matches Ok(span) ==> span.wf() && span.total() == duration.total(),
{
    let std_duration = std::time::Duration::new(duration.secs, duration.nanos);
    let delta = chrono::TimeDelta::from_std(std_duration)?;
    Ok(Span { secs: delta.num_seconds(), nanos: delta.subsec_nanos() })
}

/// What is wrong with a text that is not a timestamp.
#[derive(Debug, Clone, Copy, PartialEq, Eq, Structural)]
pub enum TimestampError {
    /// A field is out of its range.
    OutOfRange,
    /// No date and time has these fields.
    Impossible,
    /// The fields do not determine a date and time.
    NotEnough,
    /// A character stands where it cannot.
    Invalid,
    /// The text ends too early.
    TooShort,
    /// The text goes on after the timestamp.
    TooLong,
    /// The format is not supported.
    BadFormat,
}

impl TimestampError {
    pub open spec fn text(self) -> Seq<char> {
        match self {
            TimestampError::OutOfRange => "input is out of range"@,
            TimestampError::Impossible => "no possible date and time matching input"@,
            TimestampError::NotEnough => "input is not enough for unique date and time"@,
            TimestampError::Invalid => "input contains invalid characters"@,
            TimestampError::TooShort => "premature end of input"@,
            TimestampError::TooLong => "trailing input"@,
            TimestampError::BadFormat => "bad or unsupported format string"@,
        }
    }

    /// The error in words.
    pub fn to_string(&self) -> (r: String)
        ensures
            r@ == self.text(),
    {
        let words = match self {
            TimestampError::OutOfRange => "input is out of range",
            TimestampError::Impossible => "no possible date and time matching input",
            TimestampError::NotEnough => "input is not enough for unique date and time",
            TimestampError::Invalid => "input contains invalid characters",
            TimestampError::TooShort => "premature end of input",
            TimestampError::TooLong => "trailing input",
            TimestampError::BadFormat => "bad or unsupported format string",
        };
        words.to_owned()
    }
}

/// What `chrono` makes of a text as an instant: seconds since the Unix epoch and nanoseconds, or
/// what is wrong with the text.
pub uninterp spec fn parsed_instant(text: Seq<char>) -> Result<(i64, u32), TimestampError>;

/// `str::parse::<chrono::DateTime<Utc>>`, which accepts a relaxed form of RFC 3339, and the kind
/// of its error. Claimed of it: the result depends on the text alone, and an instant that it
/// returns is one that a `DateTime<Utc>` can hold. The last arm stands for `BadFormat` and for a
/// hidden kind that `chrono` never gives.
#[verifier::external_body]
pub(crate) fn parse_instant(text: &str) -> (r: Result<Timestamp, TimestampError>)
    ensures
        match r {
            Ok(t) => t.wf() && parsed_instant(text@) == Ok::<_, TimestampError>((t.secs, t.nanos)),
            Err(e) => parsed_instant(text@) == Err::<(i64, u32), _>(e),
        },
{
    match text.parse::<chrono::DateTime<chrono::Utc>>() {
        Ok(t) => Ok(Timestamp { secs: t.timestamp(), nanos: t.timestamp_subsec_nanos() }),
        Err(e) => Err(match e.kind() {
            ParseErrorKind::OutOfRange => TimestampError::OutOfRange,
            ParseErrorKind::Impossible => TimestampError::Impossible,
            ParseErrorKind::NotEnough => TimestampError::NotEnough,
            ParseErrorKind::Invalid => TimestampError::Invalid,
            ParseErrorKind::TooShort => TimestampError::TooShort,
            ParseErrorKind::TooLong => TimestampError::TooLong,
            _ => TimestampError::BadFormat,
        }),
    }
}

/// Cutting off the fraction leaves a rest that is smaller than the divisor and on the same side of
/// zero as the number, and treats both sides of zero alike.
pub proof fn the_fraction_is_cut_off(n: int, d: int)
    requires
        d > 0,
    ensures
        trunc_div(n, d) * d + trunc_rem(n, d) == n,
        n >= 0 ==> 0 <= trunc_rem(n, d) < d,
        n <= 0 ==> -d < trunc_rem(n, d) <= 0,
        trunc_div(-n, d) == -trunc_div(n, d),
{
    let m = if n >= 0 {
        n
    } else {
        -n
    };
    vstd::arithmetic::div_mod::lemma_fundamental_div_mod(m, d);
    vstd::arithmetic::div_mod::lemma_mod_bound(m, d);
    assert(d * (m / d) == (m / d) * d) by (nonlinear_arith);
    assert((-(m / d)) * d == -((m / d) * d)) by (nonlinear_arith);
    if n == 0 {
        assert(0int / d == 0) by (nonlinear_arith)
            requires
                d > 0,
        ;
    }
}

/// The time between two instants is the difference of their seconds and nanoseconds. A leap
/// second counts as one second more where only one of the two times of day lies after it.
pub proof fn time_passes_second_by_second(later: Timestamp, earlier: Timestamp)
    ensures
        later.nanos < 1_000_000_000 && earlier.nanos < 1_000_000_000 ==> elapsed_nanos(
            later,
            earlier,
        ) == (later.secs - earlier.secs) * 1_000_000_000 + (later.nanos - earlier.nanos),
        earlier.nanos >= 1_000_000_000 && later.secs as int % 86_400 > earlier.secs as int % 86_400
            ==> elapsed_nanos(later, earlier) == (later.secs - earlier.secs + 1) * 1_000_000_000 + (
        later.nanos - earlier.nanos),
        earlier.nanos >= 1_000_000_000 && later.nanos < 1_000_000_000 && later.secs as int % 86_400
            <= earlier.secs as int % 86_400 ==> elapsed_nanos(later, earlier) == (later.secs
            - earlier.secs) * 1_000_000_000 + (later.nanos - earlier.nanos),
        later.secs as int % 86_400 == earlier.secs as int % 86_400 ==> elapsed_nanos(later, earlier)
            == (later.secs - earlier.secs) * 1_000_000_000 + (later.nanos - earlier.nanos),
        elapsed_nanos(later, earlier) == -elapsed_nanos(earlier, later),
{
}

/// Seconds and minutes are counted once they are over, in either direction of time.
pub proof fn seconds_and_minutes_are_counted_once_over(later: Timestamp, earlier: Timestamp)
    ensures
        ({
            let nanos = elapsed_nanos(later, earlier);
            let secs = elapsed_secs(later, earlier);
            let mins = elapsed_mins(later, earlier);
            &&& nanos >= 0 ==> secs * 1_000_000_000 <= nanos < (secs + 1) * 1_000_000_000
            &&& nanos <= 0 ==> (secs - 1) * 1_000_000_000 < nanos <= secs * 1_000_000_000
            &&& nanos >= 0 ==> mins * 60_000_000_000 <= nanos < (mins + 1) * 60_000_000_000
            &&& nanos <= 0 ==> (mins - 1) * 60_000_000_000 < nanos <= mins * 60_000_000_000
        }),
{
}

/// A length is its seconds and its nanoseconds, and can be held against a span between two
/// instants up to as many milliseconds as a 64-bit integer can count.
pub proof fn lengths_are_seconds_and_nanoseconds(duration: Duration, span: Span)
    ensures
        duration.total() == duration.secs * 1_000_000_000 + duration.nanos,
        span.total() == span.secs * 1_000_000_000 + span.nanos,
        duration.representable() <==> duration.secs * 1_000_000_000 + duration.nanos
            <= 9_223_372_036_854_775_807 * 1_000_000,
{
}

/// A valid instant lies within the years that a calendar date can have, and only the last second
/// of a minute is a leap second.
pub proof fn valid_instants_have_a_date(t: Timestamp)
    ensures
        t.wf() ==> -8_334_601_228_800 <= t.secs <= 8_210_266_876_799,
        t.wf() && t.secs as int % 60 != 59 ==> t.nanos < 1_000_000_000,
        t.wf() ==> t.nanos < 2_000_000_000,
        -8_334_601_228_800 <= t.secs <= 8_210_266_876_799 && t.nanos < 1_000_000_000 ==> t.wf(),
        -8_334_601_228_800 <= t.secs <= 8_210_266_876_799 && t.nanos < 2_000_000_000
            && t.secs as int % 60 == 59 ==> t.wf(),
{
}

} // verus!
