use vstd::prelude::*;

verus! {

/// Seconds from the Unix epoch to 0001-01-01T00:00:00Z.
pub const MIN_SECS: i64 = -62135596800;

/// Seconds from the Unix epoch to 9999-12-31T23:59:59Z.
pub const MAX_SECS: i64 = 253402300799;

pub const NANOS_PER_SEC: u32 = 1000000000;

pub const SECS_PER_DAY: i64 = 86400;

/// An instant in UTC: whole seconds since the Unix epoch and the
/// nanoseconds past that second.
#[derive(Clone, Copy, Debug, PartialEq, Eq, Structural)]
pub struct Timestamp {
    pub secs: i64,
    pub nanos: u32,
}

/// The RFC 3339 text that chrono writes for the instant `secs`, `nanos`
/// (in UTC, with the shortest of 0, 3, 6 or 9 fractional digits).
pub uninterp spec fn rfc3339_text(secs: i64, nanos: u32) -> Seq<char>;

/// The UTC instant, as seconds and nanoseconds, that chrono reads from an
/// RFC 3339 text, if it reads one.
pub uninterp spec fn parsed_rfc3339(s: Seq<char>) -> Option<(i64, u32)>;

/// The midnight (UTC) that chrono reads from a `YYYY-MM-DD` text, in
/// seconds since the Unix epoch, if it reads one.
pub uninterp spec fn parsed_calendar_date(s: Seq<char>) -> Option<i64>;

impl Timestamp {
    /// A four-digit year and a nanosecond count below one second: such an
    /// instant is written as RFC 3339 text and read back unchanged.
    pub open spec fn is_valid(self) -> bool {
        &&& MIN_SECS <= self.secs <= MAX_SECS
        &&& self.nanos < NANOS_PER_SEC
    }

    /// Strictly earlier than `other`.
    pub open spec fn before(self, other: Timestamp) -> bool {
        self.secs < other.secs || (self.secs == other.secs && self.nanos < other.nanos)
    }

    pub open spec fn as_pair(self) -> (i64, u32) {
        (self.secs, self.nanos)
    }

    pub open spec fn from_pair(p: (i64, u32)) -> Timestamp {
        Timestamp { secs: p.0, nanos: p.1 }
    }

    pub open spec fn from_parsed(p: Option<(i64, u32)>) -> Option<Timestamp> {
        match p {
            Some(q) => Some(Timestamp::from_pair(q)),
            None => None,
        }
    }

    pub fn valid(&self) -> (r: bool)
        ensures
            r == self.is_valid(),
    {
        MIN_SECS <= self.secs && self.secs <= MAX_SECS && self.nanos < NANOS_PER_SEC
    }

    pub fn is_before(&self, other: &Timestamp) -> (r: bool)
        ensures
            r == self.before(*other),
    {
        self.secs < other.secs || (self.secs == other.secs && self.nanos < other.nanos)
    }

    /// The later of the two instants.
    pub fn latest(self, other: Timestamp) -> (r: Timestamp)
        ensures
            r == (if self.before(other) { other } else { self }),
    {
        if self.is_before(&other) {
            other
        } else {
            self
        }
    }

    /// The same time of day, one day later.
    pub fn next_day(self) -> (r: Timestamp)
        requires
            self.secs <= i64::MAX - SECS_PER_DAY,
        ensures
            r.secs == self.secs + SECS_PER_DAY,
            r.nanos == self.nanos,
    {
        Timestamp { secs: self.secs + SECS_PER_DAY, nanos: self.nanos }
    }

    /// Relies on chrono's `Utc::now`: it reads the system clock through
    /// `SystemTime::now().duration_since(UNIX_EPOCH)` (and panics before the
    /// epoch), so the seconds are not negative, the nanoseconds are those of
    /// a `Duration` (below one second), and `DateTime::from_timestamp`
    /// accepted the value (`unwrap`), so its year is at most 262142.
    #[verifier::external_body]
    pub(crate) fn now() -> (r: Timestamp)
        ensures
            0 <= r.secs <= 10000000000000,
            r.nanos < NANOS_PER_SEC,
    {
        let now = chrono::Utc::now();
        Timestamp { secs: now.timestamp(), nanos: now.timestamp_subsec_nanos() }
    }

    /// Relies on chrono's `DateTime::from_timestamp` (which accepts every
    /// valid instant) and `DateTime::to_rfc3339`, whose text for a four-digit
    /// year `DateTime::parse_from_rfc3339` reads back as the same instant.
    #[verifier::external_body]
    pub(crate) fn to_rfc3339(&self) -> (r: String)
        requires
            self.is_valid(),
        ensures
            r@ == rfc3339_text(self.secs, self.nanos),
            parsed_rfc3339(r@) == Some(self.as_pair()),
    {
        chrono::DateTime::from_timestamp(self.secs, self.nanos).unwrap().to_rfc3339()
    }

    /// Relies on chrono's `DateTime::parse_from_rfc3339`, with the result
    /// taken to UTC by `with_timezone(&Utc)`.
    #[verifier::external_body]
    pub(crate) fn parse_rfc3339(s: &str) -> (r: Option<Timestamp>)
        ensures
            r == Timestamp::from_parsed(parsed_rfc3339(s@)),
    {
        match chrono::DateTime::parse_from_rfc3339(s) {
            Ok(dt) => {
                let utc = dt.with_timezone(&chrono::Utc);
                Some(Timestamp { secs: utc.timestamp(), nanos: utc.timestamp_subsec_nanos() })
            },
            Err(_) => None,
        }
    }

    /// Relies on chrono's `NaiveDate::parse_from_str` with the format
    /// `%Y-%m-%d`, then `and_hms_opt(0, 0, 0)` (always defined) taken as UTC.
    #[verifier::external_body]
    pub(crate) fn parse_calendar_date(s: &str) -> (r: Option<Timestamp>)
        ensures
            r == (match parsed_calendar_date(s@) {
                Some(secs) => Some(Timestamp { secs, nanos: 0 }),
                None => None,
            }),
    {
        match chrono::NaiveDate::parse_from_str(s, "%Y-%m-%d") {
            Ok(date) => Some(Timestamp { secs: date.and_hms_opt(0, 0, 0).unwrap().and_utc().timestamp(), nanos: 0 }),
            Err(_) => None,
        }
    }
}

} // verus!
