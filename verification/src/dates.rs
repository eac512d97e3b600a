//! RFC 3339 timestamps and calendar dates, read and written by the `time`
//! crate. Instants are nanoseconds since the Unix epoch.

use vstd::prelude::*;

verus! {

/// Nanoseconds in a day.
pub const NANOS_PER_DAY: i128 = 86_400_000_000_000;

/// The last instant a timestamp can hold, 9999-12-31T23:59:59.999999999Z.
pub const LATEST_NANOS: i128 = 253_402_300_799_999_999_999;

/// The earliest instant a timestamp can hold, -9999-01-01T00:00:00Z.
pub const EARLIEST_NANOS: i128 = -377_705_116_800_000_000_000;

/// The instant that `time` reads from RFC 3339 text, if the text is such.
pub uninterp spec fn spec_parse_rfc3339(text: Seq<char>) -> Option<i128>;

/// Trusted: `OffsetDateTime::parse(text, &Rfc3339)`, taken as its
/// `unix_timestamp_nanos()`; a parse error gives `None`. The result is
/// named; what is stated is the range that `time` keeps dates in: within
/// a day of years -9999 to 9999, and within them exactly for a text that
/// ends in `Z`, whose offset is UTC.
#[verifier::external_body]
pub(crate) fn parse_rfc3339(text: &str) -> (r: Option<i128>)
    ensures
        r == spec_parse_rfc3339(text@),
        r matches Some(n) ==> EARLIEST_NANOS - NANOS_PER_DAY <= n <= LATEST_NANOS + NANOS_PER_DAY,
        r matches Some(n) ==> (text@.len() > 0 && text@.last() == 'Z') ==> EARLIEST_NANOS <= n
            <= LATEST_NANOS,
{
    match time::OffsetDateTime::parse(text, &time::format_description::well_known::Rfc3339) {
        Ok(t) => Some(t.unix_timestamp_nanos()),
        Err(_) => None,
    }
}

/// The calendar date, in UTC, of the instant `nanos`, as `time` writes a
/// `Date` (`YYYY-MM-DD`).
pub uninterp spec fn spec_utc_date_text(nanos: i128) -> Seq<char>;

/// Trusted: `OffsetDateTime::from_unix_timestamp_nanos(nanos)` (which
/// accepts every instant in range and is in UTC), then the `Display` of its
/// `date()`. The result is named, not stated.
#[verifier::external_body]
pub(crate) fn utc_date_text(nanos: i128) -> (r: String)
    requires
        EARLIEST_NANOS <= nanos <= LATEST_NANOS,
    ensures
        r@ == spec_utc_date_text(nanos),
{
    time::OffsetDateTime::from_unix_timestamp_nanos(nanos).unwrap().date().to_string()
}


/// A timestamp with its UTC offset: the local wall-clock time, as
/// nanoseconds since the epoch read in that offset, and the offset in
/// seconds. The instant it names is `local - offset`.
#[derive(Debug, Clone, Copy, PartialEq, Eq, Structural)]
pub struct LocalTime {
    pub local_nanos: i128,
    pub offset_seconds: i32,
}

/// The instant that a `LocalTime` names, in nanoseconds since the epoch.
pub open spec fn instant_of(t: LocalTime) -> int {
    t.local_nanos - t.offset_seconds * 1_000_000_000
}

/// The largest UTC offset `time` accepts, 25:59:59, in seconds.
pub const MAX_OFFSET_SECONDS: i32 = 93_599;

/// A `LocalTime` that `time` can hold.
pub open spec fn local_time_valid(t: LocalTime) -> bool {
    &&& EARLIEST_NANOS <= t.local_nanos <= LATEST_NANOS
    &&& -MAX_OFFSET_SECONDS <= t.offset_seconds <= MAX_OFFSET_SECONDS
}

/// The timestamp that `time` reads from ISO 8601 text, if the text is such.
pub uninterp spec fn spec_parse_iso8601(text: Seq<char>) -> Option<LocalTime>;

/// Trusted: `OffsetDateTime::parse(text, &Iso8601::DEFAULT)`, taken as its
/// wall-clock time (`replace_offset(UtcOffset::UTC).unix_timestamp_nanos()`)
/// and its `offset().whole_seconds()`. The result is named; what is stated
/// is the range in which `time` keeps dates and offsets.
#[verifier::external_body]
pub(crate) fn parse_iso8601(text: &str) -> (r: Option<LocalTime>)
    ensures
        r == spec_parse_iso8601(text@),
        r matches Some(t) ==> local_time_valid(t),
{
    match time::OffsetDateTime::parse(text, &time::format_description::well_known::Iso8601::DEFAULT) {
        Ok(t) => Some(LocalTime {
            local_nanos: t.replace_offset(time::UtcOffset::UTC).unix_timestamp_nanos(),
            offset_seconds: t.offset().whole_seconds(),
        }),
        Err(_) => None,
    }
}

/// The first instant of year 0000, the earliest that RFC 3339 can write.
pub const YEAR_ZERO_NANOS: i128 = -62_167_219_200_000_000_000;

/// A `LocalTime` that ISO 8601 text in `time`'s default form can write:
/// its local date falls in years 0000 to 9999, and its offset is a whole
/// number of minutes.
pub open spec fn iso8601_formattable(t: LocalTime) -> bool {
    &&& local_time_valid(t)
    &&& YEAR_ZERO_NANOS <= t.local_nanos
    &&& t.offset_seconds % 60 == 0
}

/// The ISO 8601 text that `time` writes for a timestamp.
pub uninterp spec fn spec_format_iso8601(t: LocalTime) -> Seq<char>;

/// Trusted: builds the timestamp with
/// `OffsetDateTime::from_unix_timestamp_nanos(local_nanos)` and
/// `replace_offset(UtcOffset::from_whole_seconds(offset_seconds))`, both of
/// which accept a valid `LocalTime`, and formats it with `Iso8601::DEFAULT`.
/// That format writes four-digit years and offsets in hours and minutes: it
/// fails for a year outside 0000 to 9999 and for an offset with a seconds
/// part, which `requires` leaves out. The result is named, not stated.
#[verifier::external_body]
pub(crate) fn format_iso8601(t: LocalTime) -> (r: String)
    requires
        iso8601_formattable(t),
    ensures
        r@ == spec_format_iso8601(t),
{
    let offset = time::UtcOffset::from_whole_seconds(t.offset_seconds).unwrap();
    let dt = time::OffsetDateTime::from_unix_timestamp_nanos(t.local_nanos).unwrap().replace_offset(offset);
    dt.format(&time::format_description::well_known::Iso8601::DEFAULT).unwrap()
}


/// The RFC 3339 text that `time` writes for an instant.
pub uninterp spec fn spec_format_rfc3339(nanos: i128) -> Seq<char>;

/// Trusted: `OffsetDateTime::from_unix_timestamp_nanos(nanos)` formatted
/// with `Rfc3339`, which accepts every instant of years 0000 to 9999. The
/// result is named, not stated.
#[verifier::external_body]
pub(crate) fn format_rfc3339(nanos: i128) -> (r: String)
    requires
        YEAR_ZERO_NANOS <= nanos <= LATEST_NANOS,
    ensures
        r@ == spec_format_rfc3339(nanos),
{
    let t = time::OffsetDateTime::from_unix_timestamp_nanos(nanos).unwrap();
    t.format(&time::format_description::well_known::Rfc3339).unwrap()
}

} // verus!
