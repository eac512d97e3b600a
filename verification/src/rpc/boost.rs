//! Boosting a place by RPC: when its boost now expires.

use vstd::prelude::*;
use crate::dates::{
    format_iso8601, instant_of, iso8601_formattable, local_time_valid, parse_iso8601,
    spec_format_iso8601, spec_parse_iso8601, LocalTime, EARLIEST_NANOS, LATEST_NANOS,
    NANOS_PER_DAY, YEAR_ZERO_NANOS,
};

verus! {

/// When the boost runs from: the stored expiry when it can be read and has
/// not passed, otherwise `now` (in UTC).
pub open spec fn boost_base(stored: Option<LocalTime>, now: i128) -> LocalTime {
    match stored {
        Some(t) => if instant_of(t) < now {
            LocalTime { local_nanos: now, offset_seconds: 0 }
        } else {
            t
        },
        None => LocalTime { local_nanos: now, offset_seconds: 0 },
    }
}

/// The new expiry: `days` days after the base, in the base's offset.
pub open spec fn boosted(stored: Option<LocalTime>, now: i128, days: i64) -> LocalTime {
    let b = boost_base(stored, now);
    LocalTime { local_nanos: (b.local_nanos + days * NANOS_PER_DAY) as i128, offset_seconds: b.offset_seconds }
}

/// The new expiry lies in the range of timestamps.
pub open spec fn boost_in_range(stored: Option<LocalTime>, now: i128, days: i64) -> bool {
    EARLIEST_NANOS <= boost_base(stored, now).local_nanos + days * NANOS_PER_DAY <= LATEST_NANOS
}

/// Extends a boost by `days` days from its stored expiry or from now.
pub fn extend_boost(stored: Option<LocalTime>, now: i128, days: i64) -> (r: LocalTime)
    requires
        stored matches Some(t) ==> local_time_valid(t),
        EARLIEST_NANOS <= now <= LATEST_NANOS,
        boost_in_range(stored, now, days),
    ensures
        r == boosted(stored, now, days),
        local_time_valid(r),
{
    let base = match stored {
        Some(t) => {
            let instant = t.local_nanos - (t.offset_seconds as i128) * 1_000_000_000;
            if instant < now {
                LocalTime { local_nanos: now, offset_seconds: 0 }
            } else {
                t
            }
        },
        None => LocalTime { local_nanos: now, offset_seconds: 0 },
    };
    LocalTime {
        local_nanos: base.local_nanos + (days as i128) * NANOS_PER_DAY,
        offset_seconds: base.offset_seconds,
    }
}

/// Why a boost could not be written.
#[derive(Debug, Clone, Copy, PartialEq, Eq, Structural)]
pub enum BoostTagError {
    /// The new expiry falls outside the range of timestamps.
    OutOfRange,
    /// The new expiry cannot be written as ISO 8601 text in the default
    /// form: its year is before 0000, or its offset has a seconds part.
    NotFormattable,
}

/// The stored expiry, read from the stored tag when it is a string.
pub open spec fn stored_expiry(stored: Option<&str>) -> Option<LocalTime> {
    match stored {
        Some(t) => spec_parse_iso8601(t@),
        None => None,
    }
}

/// The new `boost:expires` tag of a place whose stored tag is `stored`
/// (when it is a string): ISO 8601 text of the expiry `days` days after the
/// stored expiry, or after `now` when that cannot be read or has passed.
pub fn boost_expires_tag(stored: Option<&str>, now: i128, days: i64) -> (r: Result<String, BoostTagError>)
    requires
        EARLIEST_NANOS <= now <= LATEST_NANOS,
    ensures
        ({
            let s = stored_expiry(stored);
            match r {
                Ok(text) => {
                    &&& boost_in_range(s, now, days)
                    &&& iso8601_formattable(boosted(s, now, days))
                    &&& text@ == spec_format_iso8601(boosted(s, now, days))
                },
                Err(BoostTagError::OutOfRange) => !boost_in_range(s, now, days),
                Err(BoostTagError::NotFormattable) => {
                    &&& boost_in_range(s, now, days)
                    &&& !iso8601_formattable(boosted(s, now, days))
                },
            }
        }),
{
    let parsed = match stored {
        Some(t) => parse_iso8601(t),
        None => None,
    };
    let base_local = match parsed {
        Some(t) => {
            let instant = t.local_nanos - (t.offset_seconds as i128) * 1_000_000_000;
            if instant < now {
                now
            } else {
                t.local_nanos
            }
        },
        None => now,
    };
    let next = base_local + (days as i128) * NANOS_PER_DAY;
    if next < EARLIEST_NANOS || next > LATEST_NANOS {
        return Err(BoostTagError::OutOfRange);
    }
    let t = extend_boost(parsed, now, days);
    let offset_abs: i32 = if t.offset_seconds < 0 { -t.offset_seconds } else { t.offset_seconds };
    if t.local_nanos < YEAR_ZERO_NANOS || offset_abs % 60 != 0 {
        return Err(BoostTagError::NotFormattable);
    }
    Ok(format_iso8601(t))
}

/// A boost never runs out earlier than `days` days from now, and one that
/// is still running is extended by exactly `days` days.
pub proof fn law_boost_extends(stored: Option<LocalTime>, now: i128, days: i64)
    requires
        boost_in_range(stored, now, days),
    ensures
        instant_of(boosted(stored, now, days)) >= now + days * NANOS_PER_DAY,
        stored matches Some(t) ==> instant_of(t) >= now ==> instant_of(boosted(stored, now, days))
            == instant_of(t) + days * NANOS_PER_DAY,
{
}

} // verus!
