//! Moments in time, to the nanosecond.

use crate::text;
use vstd::prelude::*;

verus! {

/// A moment: whole seconds since the epoch, and nanoseconds behind them.
#[derive(Debug, Clone, Copy, PartialEq, Eq, Structural)]
pub struct Timestamp {
    pub seconds: i64,
    pub nanos: u32,
}

/// Whether `a` is no earlier than `b`.
pub open spec fn no_earlier(a: Timestamp, b: Timestamp) -> bool {
    a.seconds > b.seconds || (a.seconds == b.seconds && a.nanos >= b.nanos)
}

impl Timestamp {
    /// Whether this moment is no earlier than another.
    pub fn is_no_earlier(&self, other: &Timestamp) -> (r: bool)
        ensures
            r == no_earlier(*self, *other),
    {
        self.seconds > other.seconds || (self.seconds == other.seconds && self.nanos
            >= other.nanos)
    }
}

// ---------------------------------------------------------------------------
// As text
// ---------------------------------------------------------------------------

/// The RFC 3339 text that `chrono` writes for a number of seconds and
/// nanoseconds.
pub uninterp spec fn rfc3339(seconds: int, nanos: int) -> Option<Seq<char>>;

/// The seconds and nanoseconds that `chrono` reads in an RFC 3339 text.
pub uninterp spec fn instant(text: Seq<char>) -> Option<(int, int)>;

/// The first second of the year zero.
pub const FIRST_SECOND: i64 = -62_167_219_200;

/// The last second of the year 9999.
pub const LAST_SECOND: i64 = 253_402_300_799;

/// Whether a point in time is in a year of four digits and in no leap second.
pub open spec fn is_plain(t: Timestamp) -> bool {
    FIRST_SECOND <= t.seconds <= LAST_SECOND && t.nanos < 1_000_000_000
}

/// What a point in time stands for.
pub open spec fn instant_of(t: Timestamp) -> (int, int) {
    (t.seconds as int, t.nanos as int)
}

/// Trusted: `chrono::DateTime::from_timestamp` and `to_rfc3339_opts` write a
/// point in time as text, with as many digits behind the second as it needs;
/// there is none for what is out of range. In a year of four digits, and
/// outside of leap seconds, there is always a text, and it reads back as the
/// same point in time. The form of the text is left unsaid.
#[verifier::external_body]
pub(crate) fn text_of_instant(t: Timestamp) -> (r: Option<String>)
    ensures
        text::opt_text(r) == rfc3339(t.seconds as int, t.nanos as int),
        is_plain(t) ==> r is Some && instant(r->0@) == Some(instant_of(t)),
{
    let time = chrono::DateTime::<chrono::Utc>::from_timestamp(t.seconds, t.nanos)?;
    Some(time.to_rfc3339_opts(chrono::SecondsFormat::AutoSi, true))
}

/// An optional point in time as numbers.
pub open spec fn opt_instant(t: Option<Timestamp>) -> Option<(int, int)> {
    match t {
        Some(t) => Some(instant_of(t)),
        None => None,
    }
}

/// Trusted: `str::parse` for `chrono::DateTime<Utc>` reads a point in time,
/// and nothing where the text is none. The grammar is left unsaid.
#[verifier::external_body]
pub(crate) fn instant_in_text(s: &str) -> (r: Option<Timestamp>)
    ensures
        opt_instant(r) == instant(s@),
{
    let time = s.parse::<chrono::DateTime<chrono::Utc>>().ok()?;
    Some(Timestamp { seconds: time.timestamp(), nanos: time.timestamp_subsec_nanos() })
}

/// Times are ordered by the instant: of two one is no earlier, each is no
/// earlier than the other only where they are the same, and the order chains.
pub proof fn law_times_are_ordered(a: Timestamp, b: Timestamp, c: Timestamp)
    ensures
        no_earlier(a, b) || no_earlier(b, a),
        no_earlier(a, b) && no_earlier(b, a) ==> a.seconds == b.seconds && a.nanos == b.nanos,
        no_earlier(a, b) && no_earlier(b, c) ==> no_earlier(a, c),
        a.seconds > b.seconds ==> no_earlier(a, b) && !no_earlier(b, a),
        a.seconds == b.seconds && a.nanos > b.nanos ==> no_earlier(a, b) && !no_earlier(b, a),
{
}

/// The instant of a time is its seconds and nanoseconds.
pub proof fn law_instants_are_kept(t: Timestamp)
    ensures
        instant_of(t).0 == t.seconds && instant_of(t).1 == t.nanos,
        opt_instant(Some(t)) == Some(instant_of(t)),
        opt_instant(None) is None,
{
}

} // verus!
