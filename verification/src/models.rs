//! The streak record kept for each user, and its mathematical view.

use vstd::prelude::*;

verus! {

/// One persisted streak record per distinct user identity.
pub struct User {
    /// Stable user identifier (a relay-network public-key encoding).
    pub id: String,
    /// Unix seconds of the most recent accepted trigger event.
    pub last_login_time: i64,
    /// How many accepted trigger events this user has had in total.
    pub total_login_count: i32,
    /// Length of the current run of consecutive login days.
    pub consecutive_login_count: i32,
}

/// Mathematical view of the three mutable fields of a streak record.
pub ghost struct StreakRec {
    pub last_login_time: int,
    pub total_login_count: int,
    pub consecutive_login_count: int,
}

impl User {
    /// The record seen as a mathematical value, the identity left aside.
    pub open spec fn rec(&self) -> StreakRec {
        StreakRec {
            last_login_time: self.last_login_time as int,
            total_login_count: self.total_login_count as int,
            consecutive_login_count: self.consecutive_login_count as int,
        }
    }
}

/// The data-model invariant: both counters start at one and the consecutive
/// count never exceeds the total count.
pub open spec fn rec_wf(r: StreakRec) -> bool {
    &&& 1 <= r.consecutive_login_count
    &&& r.consecutive_login_count <= r.total_login_count
}

/// The invariant as stated on an executable record.
pub open spec fn user_wf(u: &User) -> bool {
    rec_wf(u.rec())
}

} // verus!
