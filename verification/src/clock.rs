//! Instants on the calendar, and their RFC 3339 notation.

use vstd::prelude::*;

verus! {

/// The first instant of the year -9999, where the calendar begins, in nanoseconds from the Unix
/// epoch.
pub const FIRST_INSTANT: i128 = -377_705_116_800_000_000_000;

/// The first instant of the year 0, in nanoseconds from the Unix epoch.
pub const YEAR_ZERO: i128 = -62_167_219_200_000_000_000;

/// The last instant of the year 9999, in nanoseconds from the Unix epoch.
pub const LAST_INSTANT: i128 = 253_402_300_799_999_999_999;

/// One day, in nanoseconds.
pub const DAY: i128 = 86_400_000_000_000;

pub const NANOS_PER_MS: i128 = 1_000_000;

/// An instant in Coordinated Universal Time, to the nanosecond.
#[derive(Debug, Clone, Copy)]
pub struct Timestamp {
    nanos: i128,
}

impl View for Timestamp {
    type V = int;

    /// Nanoseconds from the Unix epoch.
    closed spec fn view(&self) -> int {
        self.nanos as int
    }
}

/// What the `time` crate reads from a text in RFC 3339 notation: the instant, in nanoseconds from
/// the Unix epoch.
pub uninterp spec fn rfc3339_nanos(text: Seq<char>) -> Option<i128>;

/// How the `time` crate writes an instant in Coordinated Universal Time.
pub uninterp spec fn instant_text(nanos: int) -> Seq<char>;

/// Reads an instant with `time::OffsetDateTime::parse` and the format `Rfc3339`; the result is its
/// `unix_timestamp_nanos`. The contract names the outcome, which is a function of the text alone.
/// The format has four digits for the year and an offset below a day, so that no instant it reads
/// lies before the calendar begins, nor more than a day after the year 9999.
#[verifier::external_body]
fn parse_nanos(text: &str) -> (nanos: Option<i128>)
    ensures
        nanos == rfc3339_nanos(text@),
        nanos matches Some(n) ==> FIRST_INSTANT <= n <= LAST_INSTANT + DAY,
{
    time::OffsetDateTime::parse(text, &time::format_description::well_known::Rfc3339)
        .ok()
        .map(|instant| instant.unix_timestamp_nanos())
}

/// Writes an instant with `time::OffsetDateTime::format` and the format `Rfc3339` or, where that
/// format has no notation for the year, with `OffsetDateTime`'s `to_string`. The contract names
/// the text and says that, from the year 0 on, reading it gives the instant back.
#[verifier::external_body]
fn format_nanos(nanos: i128) -> (text: String)
    requires
        FIRST_INSTANT <= nanos <= LAST_INSTANT,
    ensures
        text@ == instant_text(nanos as int),
        nanos >= YEAR_ZERO ==> rfc3339_nanos(text@) == Some(nanos),
{
    let instant = time::OffsetDateTime::from_unix_timestamp_nanos(nanos)
        .unwrap_or(time::OffsetDateTime::UNIX_EPOCH);
    instant
        .format(&time::format_description::well_known::Rfc3339)
        .unwrap_or_else(|_| instant.to_string())
}

impl Timestamp {
    #[verifier::type_invariant]
    spec fn on_calendar(self) -> bool {
        FIRST_INSTANT <= self.nanos <= LAST_INSTANT + DAY
    }

    /// The instant `nanos` nanoseconds after the Unix epoch, if the calendar reaches it.
    pub fn from_unix_nanos(nanos: i128) -> (instant: Option<Timestamp>)
        ensures
            instant is Some <==> FIRST_INSTANT <= nanos <= LAST_INSTANT,
            instant matches Some(t) ==> t@ == nanos,
    {
        if FIRST_INSTANT <= nanos && nanos <= LAST_INSTANT {
            Some(Timestamp { nanos })
        } else {
            None
        }
    }

    /// Reads an instant in RFC 3339 notation.
    pub fn parse(text: &str) -> (instant: Option<Timestamp>)
        ensures
            instant is Some <==> rfc3339_nanos(text@) is Some,
            instant matches Some(t) ==> rfc3339_nanos(text@) == Some(t@ as i128) && i128::MIN <= t@
                <= i128::MAX,
    {
        match parse_nanos(text) {
            Some(nanos) => Some(Timestamp { nanos }),
            None => None,
        }
    }

    /// Writes the instant in RFC 3339 notation.
    pub fn format(&self) -> (text: String)
        requires
            self@ <= LAST_INSTANT,
        ensures
            text@ == instant_text(self@),
            self@ >= YEAR_ZERO ==> rfc3339_nanos(text@) == Some(self@ as i128),
    {
        proof {
            use_type_invariant(self);
        }
        format_nanos(self.nanos)
    }

    /// Whether the instant comes before `other`.
    pub fn is_before(&self, other: &Timestamp) -> (before: bool)
        ensures
            before == (self@ < other@),
    {
        self.nanos < other.nanos
    }

    /// Nanoseconds from `earlier` to this instant; negative if `earlier` is the later one.
    pub fn nanos_since(&self, earlier: &Timestamp) -> (nanos: i128)
        ensures
            nanos == self@ - earlier@,
            -1_000_000_000_000_000_000_000 < nanos < 1_000_000_000_000_000_000_000,
    {
        proof {
            use_type_invariant(self);
            use_type_invariant(earlier);
        }
        self.nanos - earlier.nanos
    }

    /// The instant `ms` milliseconds later.
    pub fn plus_ms(&self, ms: u64) -> (later: Timestamp)
        requires
            self@ + ms * NANOS_PER_MS <= LAST_INSTANT,
        ensures
            later@ == self@ + ms * NANOS_PER_MS,
    {
        proof {
            use_type_invariant(self);
        }
        let span: i128 = ms as i128 * NANOS_PER_MS;
        Timestamp { nanos: self.nanos + span }
    }
}

} // verus!
