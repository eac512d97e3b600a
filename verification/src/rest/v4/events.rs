//! Events (`/v4/events`): which events are upcoming, and which lie in an
//! area's time window.

use vstd::prelude::*;
use crate::dates::{parse_rfc3339, spec_parse_rfc3339};
use crate::rest::error::{RestApiError, RestApiErrorCode};

verus! {

/// The time window of an area's events, as RFC 3339 texts.
#[derive(Debug)]
pub struct GetByAreaArgs {
    pub from: Option<String>,
    pub to: Option<String>,
}

/// The end of the window when none is given: 2200-01-01T00:00:00Z, in
/// nanoseconds since the Unix epoch.
pub const DEFAULT_WINDOW_END: i128 = 7_258_118_400_000_000_000;

/// When an event is, as far as the filters read it.
#[derive(Debug, Clone, Copy)]
pub struct EventTiming {
    pub deleted: bool,
    /// Nanoseconds since the Unix epoch; `None` for events without a start.
    pub starts_at: Option<i128>,
}

/// The event is listed as upcoming at `now`: it is not deleted, and it has
/// no start or starts after `now`.
pub open spec fn is_upcoming(t: EventTiming, now: i128) -> bool {
    !t.deleted && match t.starts_at {
        None => true,
        Some(s) => s > now,
    }
}

/// Whether the event is listed as upcoming at `now`.
pub fn upcoming(t: EventTiming, now: i128) -> (r: bool)
    ensures
        r == is_upcoming(t, now),
{
    !t.deleted && match t.starts_at {
        None => true,
        Some(s) => s > now,
    }
}

/// The start shown for an event: the Unix epoch when it has none.
pub fn shown_start(starts_at: Option<i128>) -> (r: i128)
    ensures
        r == match starts_at {
            Some(s) => s,
            None => 0,
        },
{
    match starts_at {
        Some(s) => s,
        None => 0,
    }
}

/// The window `[from, to]` of an area's events from what reading its
/// bounds gave: for each bound, `None` when it was not given, and otherwise
/// the instant read, or `None` when it could not be read. `from` defaults to
/// `now` and `to` to 2200-01-01.
pub fn window_from_parsed(from: Option<Option<i128>>, to: Option<Option<i128>>, now: i128) -> (r:
    Result<(i128, i128), RestApiError>)
    ensures
        r is Ok <==> from != Some(None::<i128>) && to != Some(None::<i128>),
        r matches Ok(w) ==> w.0 == match from {
            Some(Some(f)) => f,
            _ => now,
        } && w.1 == match to {
            Some(Some(t)) => t,
            _ => DEFAULT_WINDOW_END,
        },
        r matches Err(e) ==> e.code == RestApiErrorCode::InvalidInput && e.message@ == (if from
            == Some(None::<i128>) {
            "Invalid 'from' date"@
        } else {
            "Invalid 'to' date"@
        }),
{
    let start = match from {
        Some(Some(f)) => f,
        Some(None) => {
            return Err(RestApiError::invalid_input("Invalid 'from' date"));
        },
        None => now,
    };
    let end = match to {
        Some(Some(t)) => t,
        Some(None) => {
            return Err(RestApiError::invalid_input("Invalid 'to' date"));
        },
        None => DEFAULT_WINDOW_END,
    };
    Ok((start, end))
}

/// The window `[from, to]` of an area's events: each bound read as
/// RFC 3339, `from` defaulting to `now` and `to` to 2200-01-01.
pub fn event_window(from: Option<&str>, to: Option<&str>, now: i128) -> (r: Result<
    (i128, i128),
    RestApiError,
>)
    ensures
        r is Ok <==> (from matches Some(f) ==> spec_parse_rfc3339(f@) is Some) && (to matches Some(
            t,
        ) ==> spec_parse_rfc3339(t@) is Some),
        r matches Ok(w) ==> w.0 == match from {
            Some(f) => spec_parse_rfc3339(f@)->0,
            None => now,
        } && w.1 == match to {
            Some(t) => spec_parse_rfc3339(t@)->0,
            None => DEFAULT_WINDOW_END,
        },
        r matches Err(e) ==> e.code == RestApiErrorCode::InvalidInput && e.message@ == (if from matches Some(
            f,
        ) && spec_parse_rfc3339(f@) is None {
            "Invalid 'from' date"@
        } else {
            "Invalid 'to' date"@
        }),
{
    let parsed_from = match from {
        Some(f) => Some(parse_rfc3339(f)),
        None => None,
    };
    let parsed_to = match to {
        Some(t) => Some(parse_rfc3339(t)),
        None => None,
    };
    window_from_parsed(parsed_from, parsed_to, now)
}

/// The event belongs in an area's list: it is not deleted, it starts within
/// `[from, to]` if it has a start, and it lies in the area.
pub open spec fn in_area_list(t: EventTiming, in_area: bool, from: i128, to: i128) -> bool {
    &&& !t.deleted
    &&& match t.starts_at {
        Some(s) => from <= s && s <= to,
        None => true,
    }
    &&& in_area
}

/// An area's list holds only live events of the area that start within
/// the window: no listed event starts before `from` or after `to`, and
/// every live event of the area that starts within it is listed. Events
/// without a start are listed whatever the window, and widening the window
/// never drops an event.
pub proof fn law_area_events_in_window(
    t: EventTiming,
    in_area: bool,
    from: i128,
    to: i128,
    from2: i128,
    to2: i128,
)
    ensures
        in_area_list(t, in_area, from, to) ==> !t.deleted && in_area,
        in_area_list(t, in_area, from, to) ==> (t.starts_at matches Some(s) ==> from <= s <= to),
        t.starts_at matches Some(s) ==> (s < from || s > to) ==> !in_area_list(t, in_area, from, to),
        (!t.deleted && in_area && t.starts_at is None) ==> in_area_list(t, in_area, from, to),
        t.starts_at matches Some(s) ==> (!t.deleted && in_area && from <= s <= to) ==> in_area_list(
            t,
            in_area,
            from,
            to,
        ),
        (from2 <= from && to <= to2 && in_area_list(t, in_area, from, to)) ==> in_area_list(
            t,
            in_area,
            from2,
            to2,
        ),
{
}

/// The positions of the events that belong in an area's list, in
/// ascending order. `timings[i]` and `in_area[i]` describe event `i`;
/// whether it lies in the area is found from its point and the area's
/// shapes.
pub fn area_events(timings: &Vec<EventTiming>, in_area: &Vec<bool>, from: i128, to: i128) -> (r:
    Vec<usize>)
    requires
        in_area@.len() == timings@.len(),
    ensures
        forall|k: int| 0 <= k < r@.len() ==> (#[trigger] r@[k]) < timings@.len(),
        forall|k: int, l: int| 0 <= k < l < r@.len() ==> #[trigger] r@[k] < #[trigger] r@[l],
        forall|i: int|
            0 <= i < timings@.len() ==> (r@.contains(i as usize) <==> in_area_list(
                #[trigger] timings@[i],
                in_area@[i],
                from,
                to,
            )),
{
    let n = timings.len();
    let mut out: Vec<usize> = Vec::new();
    let mut i: usize = 0;
    while i < n
        invariant
            n == timings@.len(),
            in_area@.len() == n,
            i <= n,
            forall|k: int| 0 <= k < out@.len() ==> (#[trigger] out@[k]) < i,
            forall|k: int, l: int| 0 <= k < l < out@.len() ==> #[trigger] out@[k] < #[trigger] out@[l],
            forall|j: int|
                0 <= j < i ==> (out@.contains(j as usize) <==> in_area_list(
                    #[trigger] timings@[j],
                    in_area@[j],
                    from,
                    to,
                )),
        decreases n - i,
    {
        let t = timings[i];
        let keep = !t.deleted && match t.starts_at {
            Some(s) => from <= s && s <= to,
            None => true,
        } && in_area[i];
        let ghost before = out@;
        if keep {
            out.push(i);
        }
        proof {
            assert forall|j: int| 0 <= j < i + 1 implies (out@.contains(j as usize) <==> in_area_list(
                #[trigger] timings@[j],
                in_area@[j],
                from,
                to,
            )) by {
                if j < i {
                    if out@.contains(j as usize) {
                        let k = choose|k: int| 0 <= k < out@.len() && out@[k] == j as usize;
                        if k < before.len() {
                            assert(before[k] == j as usize);
                        }
                    }
                    if before.contains(j as usize) {
                        let k = choose|k: int| 0 <= k < before.len() && before[k] == j as usize;
                        assert(out@[k] == j as usize);
                    }
                } else {
                    if keep {
                        assert(out@[out@.len() - 1] == i);
                    } else {
                        if out@.contains(i) {
                            let k = choose|k: int| 0 <= k < out@.len() && out@[k] == i;
                            assert(before[k] < i);
                        }
                    }
                }
            }
        }
        i = i + 1;
    }
    out
}

} // verus!
