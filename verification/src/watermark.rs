//! The resume watermark selector: run once at startup, it picks the
//! timestamp from which to (re)subscribe to the event feed, so that old
//! events are not reprocessed while clock skew is tolerated.

use vstd::prelude::*;

verus! {

/// The watermark for a given store maximum and wall clock: the current time
/// for an empty store; ten seconds back when the last known activity is
/// clearly in the past; one past the stored maximum when that activity may
/// be concurrent with the present, so the boundary event itself is not
/// redelivered.
pub open spec fn spec_watermark(stored_max: Option<int>, now: int) -> int {
    match stored_max {
        None => now,
        Some(m) => if m + 10 < now {
            now - 10
        } else {
            m + 1
        },
    }
}

/// Selects the timestamp the feed subscription starts from.
pub fn select_watermark(stored_max: Option<i64>, now: i64) -> (w: i64)
    requires
        stored_max matches Some(m) ==> m < i64::MAX,
    ensures
        w as int == spec_watermark(
            match stored_max {
                Some(m) => Some(m as int),
                None => None,
            },
            now as int,
        ),
{
    match stored_max {
        None => now,
        Some(m) => {
            if (m as i128) + 10 < (now as i128) {
                now - 10
            } else {
                m + 1
            }
        },
    }
}

} // verus!
