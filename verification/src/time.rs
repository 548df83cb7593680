//! Instants and their RFC 3339 text, through chrono.
use vstd::prelude::*;
use crate::text::{chars_of, string_of, chars_start_with};

verus! {

/// The instant, in milliseconds since the Unix epoch, that chrono's
/// `DateTime::parse_from_rfc3339` reads from a text (`None` when it refuses it).
pub uninterp spec fn rfc3339_millis(s: Seq<char>) -> Option<i64>;

/// The text that chrono's `DateTime::<Utc>::from_timestamp(secs, nanos)`
/// followed by `to_rfc3339` gives (`None` when the instant is out of range).
pub uninterp spec fn rfc3339_text(secs: i64, nanos: u32) -> Option<Seq<char>>;

/// Lowest and highest millisecond count that an accepted RFC 3339 text can
/// denote: the year field is four digits and the offset is under a day.
pub open spec fn rfc3339_millis_in_range(ms: i64) -> bool {
    -62_200_000_000_000 <= ms && ms <= 253_500_000_000_000
}

/// Calls chrono's `DateTime::parse_from_rfc3339` and reads the result's
/// `timestamp_millis`. The result is named by `rfc3339_millis`; besides the
/// name, the contract states the range that the parser's four-digit year
/// field and its offset limit of 23:59 allow.
#[verifier::external_body]
pub(crate) fn parse_rfc3339_millis(s: &str) -> (r: Option<i64>)
    ensures
        r == rfc3339_millis(s@),
        r matches Some(ms) ==> rfc3339_millis_in_range(ms),
{
    chrono::DateTime::parse_from_rfc3339(s).ok().map(|dt| dt.timestamp_millis())
}

/// Calls chrono's `DateTime::from_timestamp` and renders the instant with
/// `to_rfc3339`. The result is named by `rfc3339_text`; nothing is claimed
/// of its digits. The instant exists when the nanoseconds are below one
/// second and the seconds lie well inside the dates chrono can hold (years
/// up to 262143 either side of the era).
#[verifier::external_body]
pub(crate) fn format_rfc3339(secs: i64, nanos: u32) -> (r: Option<String>)
    ensures
        match r {
            Some(t) => rfc3339_text(secs, nanos) == Some(t@),
            None => rfc3339_text(secs, nanos) is None,
        },
        nanos < 1_000_000_000 && -8_000_000_000_000 <= secs <= 8_000_000_000_000 ==> r is Some,
        (r matches Some(t) && nanos < 1_000_000_000 && -62_167_219_200 <= secs <= 253_402_300_799) ==> rfc3339_millis(
            r->0@,
        ) == Some((secs * 1000 + nanos / 1_000_000) as i64),
{
    chrono::DateTime::from_timestamp(secs, nanos).map(|dt| dt.to_rfc3339())
}

/// Largest magnitude of seconds that an instant of this library may have;
/// it lies well inside the range of dates chrono can hold.
pub const MAX_ABS_SECS: i64 = 8_000_000_000_000;

/// An instant in UTC: seconds since the Unix epoch and the nanoseconds past
/// that second (below one second; leap seconds are not represented).
pub struct UtcTime {
    secs: i64,
    nanos: u32,
}

impl UtcTime {
    /// The invariant of an instant: within chrono's range.
    #[verifier::type_invariant]
    pub closed spec fn inv(self) -> bool {
        -MAX_ABS_SECS <= self.secs <= MAX_ABS_SECS && self.nanos < 1_000_000_000
    }

    /// Seconds since the epoch.
    pub closed spec fn spec_secs(self) -> i64 {
        self.secs
    }

    /// Nanoseconds past the second.
    pub closed spec fn spec_nanos(self) -> u32 {
        self.nanos
    }

    /// Milliseconds since the epoch, as chrono's `timestamp_millis` counts them.
    pub open spec fn millis(self) -> int {
        self.spec_secs() * 1000 + self.spec_nanos() / 1_000_000
    }

    /// An instant from its parts; `None` outside the supported range.
    pub fn from_parts(secs: i64, nanos: u32) -> (r: Option<UtcTime>)
        ensures
            r is Some <==> (-MAX_ABS_SECS <= secs <= MAX_ABS_SECS && nanos < 1_000_000_000),
            r matches Some(t) ==> t.spec_secs() == secs && t.spec_nanos() == nanos,
    {
        if -MAX_ABS_SECS <= secs && secs <= MAX_ABS_SECS && nanos < 1_000_000_000 {
            Some(UtcTime { secs, nanos })
        } else {
            None
        }
    }

    /// Seconds since the epoch.
    pub fn secs(&self) -> (r: i64)
        ensures
            r == self.spec_secs(),
    {
        self.secs
    }

    /// Nanoseconds past the second.
    pub fn nanos(&self) -> (r: u32)
        ensures
            r == self.spec_nanos(),
    {
        self.nanos
    }

    /// Milliseconds since the epoch.
    pub fn timestamp_millis(&self) -> (r: i64)
        ensures
            r == self.millis(),
            -MAX_ABS_SECS * 1000 <= r <= MAX_ABS_SECS * 1000 + 999,
    {
        proof {
            use_type_invariant(self);
        }
        self.secs * 1000 + (self.nanos / 1_000_000) as i64
    }

    /// RFC 3339 text of this instant; chrono renders every instant in range.
    pub fn to_rfc3339(&self) -> (r: String)
        ensures
            rfc3339_text(self.spec_secs(), self.spec_nanos()) is Some,
            r@ == match rfc3339_text(self.spec_secs(), self.spec_nanos()) {
                Some(t) => t,
                None => Seq::<char>::empty(),
            },
    {
        proof {
            use_type_invariant(self);
        }
        match format_rfc3339(self.secs, self.nanos) {
            Some(t) => t,
            None => String::new(),
        }
    }
}

/// The RFC 3339 text of a positive millisecond timestamp.
pub open spec fn iso_from_ms(ms: int) -> Option<Seq<char>> {
    if ms <= 0 {
        None
    } else {
        rfc3339_text((ms / 1000) as i64, ((ms % 1000) * 1_000_000) as u32)
    }
}

/// The RFC 3339 text of a positive millisecond timestamp; `None` for zero,
/// negative or out-of-range values.
pub fn as_iso_from_ms(ms: i64) -> (r: Option<String>)
    ensures
        match r {
            Some(t) => iso_from_ms(ms as int) == Some(t@),
            None => iso_from_ms(ms as int) is None,
        },
        0 < ms <= 8_000_000_000_000_000 ==> r is Some,
        0 < ms <= 253_402_300_799_999 ==> (r matches Some(t) && rfc3339_millis(t@) == Some(ms)),
{
    if ms <= 0 {
        return None;
    }
    let secs: i64 = ms / 1000;
    let nsecs: u32 = ((ms % 1000) * 1_000_000) as u32;
    format_rfc3339(secs, nsecs)
}

/// `true` when `s` has the RFC 3339 shape with the end-of-day time 24:00:00
/// (ISO 8601's way of writing the midnight that ends a date).
pub open spec fn is_end_of_day(s: Seq<char>) -> bool {
    &&& s.len() >= 19
    &&& s[11] == '2' && s[12] == '4' && s[13] == ':'
    &&& s[14] == '0' && s[15] == '0' && s[16] == ':'
    &&& s[17] == '0' && s[18] == '0'
}

/// The same text with the hour 24 written as 23.
pub open spec fn hour_23(s: Seq<char>) -> Seq<char> {
    s.update(12, '3')
}

/// The instant of a timestamp text, in milliseconds, when it has one: what
/// chrono reads, or, for an end-of-day 24:00:00, one hour after 23:00:00 of
/// the same date.
pub open spec fn instant_millis(s: Seq<char>) -> Option<i64> {
    match rfc3339_millis(s) {
        Some(ms) => Some(ms),
        None => if is_end_of_day(s) {
            match rfc3339_millis(hour_23(s)) {
                Some(ms) => Some((ms + 3_600_000) as i64),
                None => None,
            }
        } else {
            None
        },
    }
}

/// Reads the instant of a timestamp text in milliseconds (see `instant_millis`).
pub fn parse_instant_millis(s: &str) -> (r: Option<i64>)
    ensures
        r == instant_millis(s@),
        r matches Some(ms) ==> -62_200_000_000_000 <= ms <= 253_500_003_600_000,
{
    match parse_rfc3339_millis(s) {
        Some(ms) => Some(ms),
        None => {
            let cs = chars_of(s);
            if cs.len() >= 19 && cs[11] == '2' && cs[12] == '4' && cs[13] == ':' && cs[14] == '0'
                && cs[15] == '0' && cs[16] == ':' && cs[17] == '0' && cs[18] == '0' {
                let mut alt = cs.clone();
                alt.set(12, '3');
                assert(alt@ == hour_23(s@));
                let alt_text = string_of(alt.as_slice());
                match parse_rfc3339_millis(alt_text.as_str()) {
                    Some(ms) => Some(ms + 3_600_000),
                    None => None,
                }
            } else {
                None
            }
        },
    }
}

} // verus!
