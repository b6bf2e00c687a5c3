//! Instants in UTC, and their RFC 3339 texts.

use vstd::prelude::*;

verus! {

/// An instant in UTC: whole seconds since 1970-01-01T00:00:00Z, and the nanoseconds
/// since the last whole second.
#[derive(Clone, Copy, Debug, PartialEq, Eq, Structural)]
pub struct Timestamp {
    pub seconds: i64,
    pub nanos: u32,
}

/// The instant that `text` denotes as an RFC 3339 date and time, or `None` where it
/// denotes none.
pub uninterp spec fn rfc3339_instant(text: Seq<char>) -> Option<Timestamp>;

/// `chrono::DateTime::parse_from_rfc3339`, the instant taken by `DateTime::timestamp` and
/// `DateTime::timestamp_subsec_nanos`, which both count in UTC; `None` where chrono
/// rejects the text. What comes back is a matter of the text alone.
#[verifier::external_body]
pub(crate) fn parse_rfc3339(text: &str) -> (instant: Option<Timestamp>)
    ensures
        instant == rfc3339_instant(text@),
{
    match chrono::DateTime::parse_from_rfc3339(text) {
        Ok(t) => Some(Timestamp { seconds: t.timestamp(), nanos: t.timestamp_subsec_nanos() }),
        Err(_) => None,
    }
}

/// The RFC 3339 text of `instant` in UTC, or `None` where the instant lies outside the
/// range of dates that chrono holds.
pub uninterp spec fn rfc3339_text(instant: Timestamp) -> Option<Seq<char>>;

/// `chrono::DateTime::from_timestamp`, and `DateTime::to_rfc3339` on what it gives: the
/// text is a matter of the instant alone, and there is none where `from_timestamp` gives
/// no date.
#[verifier::external_body]
pub(crate) fn format_rfc3339(instant: Timestamp) -> (text: Option<String>)
    ensures
        text is Some == rfc3339_text(instant) is Some,
        text matches Some(t) ==> rfc3339_text(instant) == Some(t@),
{
    chrono::DateTime::from_timestamp(instant.seconds, instant.nanos).map(|t| t.to_rfc3339())
}

/// The seconds of one hour.
pub const SECONDS_PER_HOUR: i64 = 3600;

impl Timestamp {
    /// The instant `hours` whole hours after this one, or `None` where its seconds
    /// do not fit in 64 bits.
    pub fn plus_hours(&self, hours: u64) -> (later: Option<Timestamp>)
        ensures
            later is Some == (self.seconds + SECONDS_PER_HOUR * hours <= i64::MAX),
            later matches Some(t) ==> t.seconds == self.seconds + SECONDS_PER_HOUR * hours
                && t.nanos == self.nanos,
    {
        let total: i128 = self.seconds as i128 + 3600 * (hours as i128);
        if total > i64::MAX as i128 {
            None
        } else {
            Some(Timestamp { seconds: total as i64, nanos: self.nanos })
        }
    }
}

/// `count` instants, one hour apart, the first of them `start`; `None` where the last of
/// them has seconds that do not fit in 64 bits.
pub fn hourly(start: Timestamp, count: usize) -> (instants: Option<Vec<Timestamp>>)
    ensures
        instants is Some == (count == 0 || start.seconds + SECONDS_PER_HOUR * (count - 1)
            <= i64::MAX),
        instants matches Some(v) ==> v.len() == count && forall|i: int|
            0 <= i < count ==> (#[trigger] v[i]).seconds == start.seconds + SECONDS_PER_HOUR * i
                && v[i].nanos == start.nanos,
{
    let mut instants: Vec<Timestamp> = Vec::new();
    let mut i: usize = 0;
    while i < count
        invariant
            i <= count,
            instants.len() == i,
            forall|j: int|
                0 <= j < i ==> (#[trigger] instants[j]).seconds == start.seconds
                    + SECONDS_PER_HOUR * j && instants[j].nanos == start.nanos,
        decreases count - i,
    {
        match start.plus_hours(i as u64) {
            Some(instant) => instants.push(instant),
            None => {
                assert(start.seconds + SECONDS_PER_HOUR * (count - 1) > i64::MAX) by (nonlinear_arith)
                    requires
                        start.seconds + SECONDS_PER_HOUR * i > i64::MAX,
                        i <= count - 1,
                        SECONDS_PER_HOUR == 3600,
                ;
                return None;
            },
        }
        i = i + 1;
    }
    if count > 0 {
        assert(instants[count - 1].seconds == start.seconds + SECONDS_PER_HOUR * (count - 1));
    }
    Some(instants)
}

} // verus!
