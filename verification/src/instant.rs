//! Absolute UTC instants with the precision and the ordering of
//! `chrono::DateTime<Utc>`.

use vstd::prelude::*;

verus! {

/// Unix timestamp of the first second that `chrono::DateTime<Utc>` can hold.
pub const MIN_UNIX_SECONDS: i64 = -8_334_601_228_800;

/// Unix timestamp of the last second that `chrono::DateTime<Utc>` can hold.
pub const MAX_UNIX_SECONDS: i64 = 8_210_266_876_799;

/// The sub-second field counts nanoseconds and stays below this bound. Values
/// from 1_000_000_000 on stand for a leap second.
pub const SUBSECOND_LIMIT: u32 = 2_000_000_000;

/// The textual form of instants in the feed: `YYYYMMDDHHMMSS ±HHMM`.
pub const FEED_INSTANT_FORMAT: &'static str = "%Y%m%d%H%M%S %z";

/// Which pairs of Unix seconds and sub-second nanoseconds name an instant.
pub open spec fn valid_parts(secs: int, nanos: int) -> bool {
    &&& MIN_UNIX_SECONDS <= secs <= MAX_UNIX_SECONDS
    &&& 0 <= nanos < SUBSECOND_LIMIT
    &&& (nanos >= 1_000_000_000 ==> secs % 60 == 59)
}

/// Position of an instant on the timeline. Positions order instants as chrono
/// orders `DateTime<Utc>`: by whole seconds first, then by the sub-second field.
pub open spec fn ticks(secs: int, nanos: int) -> int {
    secs * 2_000_000_000 + nanos
}

/// Ticks in one whole second.
pub open spec fn ticks_per_second() -> int {
    2_000_000_000
}

/// Ticks in one UTC calendar day.
pub open spec fn ticks_per_day() -> int {
    172_800_000_000_000
}

/// Position of 23:59:59 UTC on the calendar day that holds position `t`.
pub open spec fn day_end(t: int) -> int {
    ticks((t / ticks_per_day()) * 86_400 + 86_399, 0)
}

/// Position of 00:00:00 UTC on the calendar day that holds position `t`.
pub open spec fn day_start(t: int) -> int {
    ticks((t / ticks_per_day()) * 86_400, 0)
}

/// An absolute UTC timestamp.
#[derive(Clone, Copy, Debug, PartialEq, Eq)]
pub struct Instant {
    secs: i64,
    nanos: u32,
}

impl View for Instant {
    type V = int;

    closed spec fn view(&self) -> int {
        ticks(self.secs as int, self.nanos as int)
    }
}

/// The error of a text that names no instant: it does not follow the feed's
/// format, or the moment it names is one that no [`Instant`] holds.
#[derive(Clone, Copy, Debug, PartialEq, Eq)]
pub struct MalformedInstant;

/// What `chrono::DateTime::parse_from_str` makes of `text` under `format`:
/// the Unix seconds and the sub-second nanoseconds of the parsed moment, or
/// `None` where chrono reports an error.
pub uninterp spec fn chrono_parsed(text: Seq<char>, format: Seq<char>) -> Option<(int, int)>;

/// `chrono::ParseError`, the error of chrono's parsers. Nothing is read from
/// it: it only passes from the call to the place that maps it.
#[verifier::external_type_specification]
#[verifier::external_body]
pub struct ExParseError(chrono::ParseError);

/// Calls `chrono::DateTime::parse_from_str` and reads the result in UTC with
/// `DateTime::timestamp` and `DateTime::timestamp_subsec_nanos`. Nothing is
/// proved of it: the contract only gives the outcome its name.
#[verifier::external_body]
fn chrono_parse(text: &str, format: &str) -> (r: Result<(i64, u32), chrono::ParseError>)
    ensures
        match r {
            Ok(parts) => chrono_parsed(text@, format@) == Some((parts.0 as int, parts.1 as int)),
            Err(_) => chrono_parsed(text@, format@) is None,
        },
{
    let parsed = chrono::DateTime::parse_from_str(text, format)?.with_timezone(&chrono::Utc);
    Ok((parsed.timestamp(), parsed.timestamp_subsec_nanos()))
}

/// Calls chrono to put a time of day on the UTC calendar day of a timestamp:
/// `DateTime::<Utc>::from_timestamp`, `DateTime::date_naive`,
/// `NaiveDate::and_hms_opt`, `NaiveDateTime::and_utc`, `DateTime::timestamp`.
/// Trusted: the result is the day's first second plus the time of day.
/// The `requires` keeps to the inputs on which chrono returns a value.
#[verifier::external_body]
fn chrono_time_on_day(secs: i64, hour: u32, minute: u32, second: u32) -> (r: i64)
    requires
        MIN_UNIX_SECONDS <= secs <= MAX_UNIX_SECONDS,
        hour < 24,
        minute < 60,
        second < 60,
    ensures
        r == (secs as int / 86_400) * 86_400 + hour * 3_600 + minute * 60 + second,
{
    let day = chrono::DateTime::<chrono::Utc>::from_timestamp(secs, 0).unwrap().date_naive();
    day.and_hms_opt(hour, minute, second).unwrap().and_utc().timestamp()
}

/// The instant that a feed text names, as a position, if it names one.
pub open spec fn feed_instant(text: Seq<char>) -> Option<int> {
    match chrono_parsed(text, FEED_INSTANT_FORMAT@) {
        Some((secs, nanos)) => if valid_parts(secs, nanos) {
            Some(ticks(secs, nanos))
        } else {
            None
        },
        None => None,
    }
}

/// Reads an instant in the feed's textual form.
pub fn parse_feed_instant(text: &str) -> (r: Result<Instant, MalformedInstant>)
    ensures
        match r {
            Ok(instant) => feed_instant(text@) == Some(instant@),
            Err(_) => feed_instant(text@) is None,
        },
{
    match chrono_parse(text, FEED_INSTANT_FORMAT) {
        Ok(parts) => match Instant::new(parts.0, parts.1) {
            Some(instant) => Ok(instant),
            None => Err(MalformedInstant),
        },
        Err(_) => Err(MalformedInstant),
    }
}

impl Instant {
    #[verifier::type_invariant]
    spec fn inv(self) -> bool {
        valid_parts(self.secs as int, self.nanos as int)
    }

    /// Whole seconds since 1970-01-01T00:00:00Z.
    pub closed spec fn seconds(self) -> int {
        self.secs as int
    }

    /// Nanoseconds since the last whole second.
    pub closed spec fn subsecond(self) -> int {
        self.nanos as int
    }

    /// The instant `nanos` nanoseconds after Unix second `secs`, where chrono
    /// has a `DateTime<Utc>` for the pair.
    pub fn new(secs: i64, nanos: u32) -> (r: Option<Instant>)
        ensures
            r is Some <==> valid_parts(secs as int, nanos as int),
            r matches Some(i) ==> i@ == ticks(secs as int, nanos as int) && i.seconds() == secs
                && i.subsecond() == nanos,
    {
        if secs < MIN_UNIX_SECONDS || secs > MAX_UNIX_SECONDS || nanos >= SUBSECOND_LIMIT {
            return None;
        }
        let in_minute: i64 = (secs - MIN_UNIX_SECONDS) % 60;
        assert(in_minute == (secs as int) % 60) by {
            assert(MIN_UNIX_SECONDS as int == 60 * (-138_910_020_480int));
        }
        if nanos >= 1_000_000_000 && in_minute != 59 {
            return None;
        }
        Some(Instant { secs, nanos })
    }

    /// The instant at Unix second `secs`.
    pub fn from_unix_seconds(secs: i64) -> (r: Option<Instant>)
        ensures
            r is Some <==> MIN_UNIX_SECONDS <= secs <= MAX_UNIX_SECONDS,
            r matches Some(i) ==> i@ == ticks(secs as int, 0) && i.seconds() == secs
                && i.subsecond() == 0,
    {
        Instant::new(secs, 0)
    }

    /// Whole seconds since 1970-01-01T00:00:00Z.
    pub fn unix_seconds(&self) -> (r: i64)
        ensures
            r == self.seconds(),
            valid_parts(r as int, self.subsecond()),
            self@ == ticks(r as int, self.subsecond()),
    {
        proof {
            use_type_invariant(self);
        }
        self.secs
    }

    /// Nanoseconds since the last whole second; 1_000_000_000 and more during
    /// a leap second.
    pub fn subsecond_nanos(&self) -> (r: u32)
        ensures
            r == self.subsecond(),
            valid_parts(self.seconds(), r as int),
    {
        proof {
            use_type_invariant(self);
        }
        self.nanos
    }

    /// Whether this instant comes strictly before `other`.
    pub fn is_before(&self, other: &Instant) -> (r: bool)
        ensures
            r == (self@ < other@),
    {
        proof {
            use_type_invariant(self);
            use_type_invariant(other);
        }
        self.secs < other.secs || (self.secs == other.secs && self.nanos < other.nanos)
    }

    /// Whether this instant comes strictly after `other`.
    pub fn is_after(&self, other: &Instant) -> (r: bool)
        ensures
            r == (self@ > other@),
    {
        other.is_before(self)
    }

    /// Whether both name the same moment.
    pub fn same(&self, other: &Instant) -> (r: bool)
        ensures
            r == (self@ == other@),
    {
        proof {
            use_type_invariant(self);
            use_type_invariant(other);
        }
        self.secs == other.secs && self.nanos == other.nanos
    }

    /// 23:59:59 UTC on the calendar day of this instant.
    pub fn end_of_day(&self) -> (r: Instant)
        ensures
            r@ == day_end(self@),
            r.subsecond() == 0,
    {
        proof {
            use_type_invariant(self);
            lemma_day_of_parts(self.secs as int, self.nanos as int);
        }
        let secs = chrono_time_on_day(self.secs, 23, 59, 59);
        Instant { secs, nanos: 0 }
    }
}

/// The calendar day of a position is the day of its whole seconds.
pub proof fn lemma_day_of_parts(secs: int, nanos: int)
    requires
        0 <= nanos < SUBSECOND_LIMIT,
    ensures
        ticks(secs, nanos) / ticks_per_day() == secs / 86_400,
        MIN_UNIX_SECONDS <= secs ==> MIN_UNIX_SECONDS <= (secs / 86_400) * 86_400,
        secs <= MAX_UNIX_SECONDS ==> (secs / 86_400) * 86_400 + 86_399 <= MAX_UNIX_SECONDS,
        (secs / 86_400) * 86_400 <= secs <= (secs / 86_400) * 86_400 + 86_399,
{
    let day = secs / 86_400;
    let rest = secs % 86_400;
    assert(secs == 86_400 * day + rest);
    let t = ticks(secs, nanos);
    assert(t == ticks_per_day() * day + (rest * 2_000_000_000 + nanos));
    vstd::arithmetic::div_mod::lemma_fundamental_div_mod_converse(
        t,
        ticks_per_day(),
        day,
        rest * 2_000_000_000 + nanos,
    );
    assert(MIN_UNIX_SECONDS as int == 86_400 * (-96_465_292int));
    assert(MAX_UNIX_SECONDS as int == 86_400 * 95_026_236int + 86_399);
}

} // verus!
