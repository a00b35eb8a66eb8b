//! Instants as plain numbers, and their RFC 3339 text form.

use vstd::prelude::*;

verus! {

/// An instant: whole seconds since 1970-01-01T00:00:00Z and the nanoseconds
/// past that second.
#[derive(Clone, Copy, Debug, PartialEq, Eq, Structural)]
pub struct Timestamp {
    pub secs: i64,
    pub nanos: u32,
}

/// Seconds in one minute.
pub const SECS_PER_MINUTE: i64 = 60;

impl Timestamp {
    /// `self` is not later than `other`.
    pub open spec fn at_or_before(self, other: Timestamp) -> bool {
        self.secs < other.secs || (self.secs == other.secs && self.nanos <= other.nanos)
    }

    /// `self` moved by `delta` seconds, where that still fits.
    pub open spec fn shifted(self, delta: int) -> Option<Timestamp> {
        if i64::MIN <= self.secs + delta <= i64::MAX {
            Some(Timestamp { secs: (self.secs + delta) as i64, nanos: self.nanos })
        } else {
            None
        }
    }

    /// `self` moved by `minutes` minutes, where the seconds of the move and
    /// of the result both fit.
    pub open spec fn after_minutes(self, minutes: int) -> Option<Timestamp> {
        if i64::MIN <= minutes * SECS_PER_MINUTE <= i64::MAX {
            self.shifted(minutes * SECS_PER_MINUTE)
        } else {
            None
        }
    }

    /// The instant `nanos` nanoseconds after second `secs`.
    pub fn new(secs: i64, nanos: u32) -> (t: Timestamp)
        ensures
            t == (Timestamp { secs, nanos }),
    {
        Timestamp { secs, nanos }
    }

    /// Whether `self` is not later than `other`.
    pub fn is_at_or_before(&self, other: &Timestamp) -> (r: bool)
        ensures
            r == self.at_or_before(*other),
    {
        self.secs < other.secs || (self.secs == other.secs && self.nanos <= other.nanos)
    }

    /// The instant `seconds` later (earlier, if negative); `None` where the
    /// count of seconds would leave `i64`.
    pub fn plus_seconds(&self, seconds: i64) -> (r: Option<Timestamp>)
        ensures
            r == self.shifted(seconds as int),
    {
        match self.secs.checked_add(seconds) {
            Some(secs) => Some(Timestamp { secs, nanos: self.nanos }),
            None => None,
        }
    }

    /// The instant `minutes` minutes later; `None` where a count of seconds
    /// would leave `i64`.
    pub fn plus_minutes(&self, minutes: i64) -> (r: Option<Timestamp>)
        ensures
            r == self.after_minutes(minutes as int),
    {
        match minutes.checked_mul(SECS_PER_MINUTE) {
            Some(seconds) => self.plus_seconds(seconds),
            None => None,
        }
    }
}

/// `chrono::ParseError`, carried through as it is: nothing inside it is
/// stated or read.
#[verifier::external_type_specification]
#[verifier::external_body]
pub struct ExParseError(chrono::ParseError);

/// The seconds and nanoseconds of the instant that an RFC 3339 text
/// denotes, as `chrono` reads it; `None` where it rejects the text.
pub uninterp spec fn parsed_rfc3339(text: Seq<char>) -> Option<(i64, u32)>;

/// The RFC 3339 text of the instant with these seconds and nanoseconds, as
/// `chrono` writes it in UTC; `None` where `chrono` cannot represent the
/// instant.
pub uninterp spec fn written_rfc3339(secs: i64, nanos: u32) -> Option<Seq<char>>;

/// The instant that an RFC 3339 text denotes; `None` where the text is
/// rejected.
pub open spec fn rfc3339_instant(text: Seq<char>) -> Option<Timestamp> {
    match parsed_rfc3339(text) {
        Some((secs, nanos)) => Some(Timestamp { secs, nanos }),
        None => None,
    }
}

/// The RFC 3339 text of an instant; `None` where it has none.
pub open spec fn rfc3339_text(t: Timestamp) -> Option<Seq<char>> {
    written_rfc3339(t.secs, t.nanos)
}

/// `chrono::Utc::now`, as seconds and nanoseconds. Nothing is claimed of the
/// value: it is the clock's. Like `Utc::now` it does not return where the
/// system's clock stands before 1970.
#[verifier::external_body]
pub(crate) fn clock_now() -> (t: Timestamp) {
    let now = chrono::Utc::now();
    Timestamp { secs: now.timestamp(), nanos: now.timestamp_subsec_nanos() }
}

/// `chrono::DateTime::parse_from_rfc3339`, moved to UTC and taken apart into
/// seconds and nanoseconds. The contract only names the result: success and
/// value are `parsed_rfc3339` of the text.
#[verifier::external_body]
pub(crate) fn parse_rfc3339(text: &str) -> (r: Result<Timestamp, chrono::ParseError>)
    ensures
        r is Ok ==> parsed_rfc3339(text@) == Some((r->Ok_0.secs, r->Ok_0.nanos)),
        r is Err ==> parsed_rfc3339(text@) is None,
{
    match chrono::DateTime::parse_from_rfc3339(text) {
        Ok(parsed) => {
            let utc = parsed.with_timezone(&chrono::Utc);
            Ok(Timestamp { secs: utc.timestamp(), nanos: utc.timestamp_subsec_nanos() })
        },
        Err(e) => Err(e),
    }
}

/// The `Display` text of a `chrono::ParseError`. Nothing is claimed of it.
#[verifier::external_body]
pub(crate) fn parse_error_text(e: &chrono::ParseError) -> (text: String) {
    format!("{}", e)
}

/// `chrono::DateTime::from_timestamp` followed by `to_rfc3339`. The contract
/// only names the result: it is `written_rfc3339` of the instant's seconds
/// and nanoseconds.
#[verifier::external_body]
pub(crate) fn format_rfc3339(t: Timestamp) -> (r: Option<String>)
    ensures
        r is Some ==> written_rfc3339(t.secs, t.nanos) == Some(r->Some_0@),
        r is None ==> written_rfc3339(t.secs, t.nanos) is None,
{
    match chrono::DateTime::from_timestamp(t.secs, t.nanos) {
        Some(instant) => Some(instant.to_rfc3339()),
        None => None,
    }
}

} // verus!
