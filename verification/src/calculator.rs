//! The streak calculator: a pure decision function from the previous streak
//! record (or its absence) and an event timestamp to the next record, the
//! reply to send, and whether the store has to be touched at all.

use vstd::prelude::*;
use vstd::arithmetic::div_mod::lemma_div_is_ordered;

use crate::models::{User, user_wf};

verus! {

/// Day boundary at a fixed UTC+9 offset: the calendar-day number that the
/// Unix timestamp `t` falls on, by flooring division.
pub open spec fn day(t: int) -> int {
    (t + 9 * 3600) / ((24 * 3600) as int)
}

/// Which kind of reply an accepted event earns.
#[derive(Clone, Copy, PartialEq, Eq, Debug)]
pub enum Reply {
    /// First login ever for this user.
    Welcome,
    /// The user already logged in on the same (UTC+9) day; the counters are
    /// the unchanged previous ones.
    AlreadyLoggedInToday { total: i32, consecutive: i32 },
    /// A login on a new day; the counters are the resulting ones.
    Returning { total: i32, consecutive: i32 },
    /// The event timestamp lies implausibly in the future.
    FutureRejection,
}

/// What the dispatcher has to do with the store for this event.
#[derive(Clone, Copy, PartialEq, Eq, Debug)]
pub enum CalcAction {
    /// Create a fresh record (unseen user).
    Insert,
    /// Replace the mutable fields of the existing record.
    Persist,
    /// Touch nothing: the user already logged in today.
    NoOp,
}

/// What the calculator decided: the next values of the three mutable fields,
/// the store action to take, and the reply to send.
pub struct CalcResult {
    pub action: CalcAction,
    pub last_login_time: i64,
    pub total_login_count: i32,
    pub consecutive_login_count: i32,
    pub reply: Reply,
}

/// Computes `day(t)` for any `i64` timestamp.
pub fn day_of(t: i64) -> (d: i64)
    ensures
        d as int == day(t as int),
        d < i64::MAX,
{
    let shifted: i128 = (t as i128) + 9 * 3600;
    let q: Option<i128> = shifted.checked_div_euclid(24 * 3600);
    proof {
        lemma_div_is_ordered(i64::MIN as int + 9 * 3600, shifted as int, (24 * 3600) as int);
        lemma_div_is_ordered(shifted as int, i64::MAX as int + 9 * 3600, (24 * 3600) as int);
    }
    match q {
        Some(v) => v as i64,
        None => {
            proof {
                assert(false);
            }
            0
        },
    }
}

/// The core transition. Case analysis over `delta = day(occurred_at) -
/// day(previous.last_login_time)`:
/// absent previous record: a fresh 1/1 record and a welcome;
/// `delta == 0`: nothing is persisted, the previous counters are echoed;
/// `delta == 1`: both counters grow by one;
/// any other `delta` (two or more days late, or an earlier day): the total
/// grows by one and the consecutive count resets to one.
pub fn calculate(previous: Option<&User>, occurred_at: i64) -> (r: CalcResult)
    requires
        previous matches Some(p) ==> user_wf(p) && p.total_login_count < i32::MAX,
    ensures
        1 <= r.consecutive_login_count <= r.total_login_count,
        previous is None ==> {
            &&& r.action == CalcAction::Insert
            &&& r.last_login_time == occurred_at
            &&& r.total_login_count == 1
            &&& r.consecutive_login_count == 1
            &&& r.reply == Reply::Welcome
        },
        previous matches Some(p) ==> p.total_login_count <= r.total_login_count,
        previous matches Some(p) ==> day(occurred_at as int) == day(p.last_login_time as int)
            ==> {
            &&& r.action == CalcAction::NoOp
            &&& r.last_login_time == p.last_login_time
            &&& r.total_login_count == p.total_login_count
            &&& r.consecutive_login_count == p.consecutive_login_count
            &&& r.reply == (Reply::AlreadyLoggedInToday {
                total: p.total_login_count,
                consecutive: p.consecutive_login_count,
            })
        },
        previous matches Some(p) ==> day(occurred_at as int) == day(p.last_login_time as int)
            + 1 ==> {
            &&& r.action == CalcAction::Persist
            &&& r.last_login_time == occurred_at
            &&& r.total_login_count == p.total_login_count + 1
            &&& r.consecutive_login_count == p.consecutive_login_count + 1
            &&& r.reply == (Reply::Returning {
                total: (p.total_login_count + 1) as i32,
                consecutive: (p.consecutive_login_count + 1) as i32,
            })
        },
        previous matches Some(p) ==> (day(occurred_at as int) != day(p.last_login_time as int)
            && day(occurred_at as int) != day(p.last_login_time as int) + 1) ==> {
            &&& r.action == CalcAction::Persist
            &&& r.last_login_time == occurred_at
            &&& r.total_login_count == p.total_login_count + 1
            &&& r.consecutive_login_count == 1
            &&& r.reply == (Reply::Returning {
                total: (p.total_login_count + 1) as i32,
                consecutive: 1,
            })
        },
{
    match previous {
        None => CalcResult {
            action: CalcAction::Insert,
            last_login_time: occurred_at,
            total_login_count: 1,
            consecutive_login_count: 1,
            reply: Reply::Welcome,
        },
        Some(p) => {
            let event_day: i64 = day_of(occurred_at);
            let last_day: i64 = day_of(p.last_login_time);
            if event_day == last_day {
                CalcResult {
                    action: CalcAction::NoOp,
                    last_login_time: p.last_login_time,
                    total_login_count: p.total_login_count,
                    consecutive_login_count: p.consecutive_login_count,
                    reply: Reply::AlreadyLoggedInToday {
                        total: p.total_login_count,
                        consecutive: p.consecutive_login_count,
                    },
                }
            } else if event_day == last_day + 1 {
                CalcResult {
                    action: CalcAction::Persist,
                    last_login_time: occurred_at,
                    total_login_count: p.total_login_count + 1,
                    consecutive_login_count: p.consecutive_login_count + 1,
                    reply: Reply::Returning {
                        total: p.total_login_count + 1,
                        consecutive: p.consecutive_login_count + 1,
                    },
                }
            } else {
                CalcResult {
                    action: CalcAction::Persist,
                    last_login_time: occurred_at,
                    total_login_count: p.total_login_count + 1,
                    consecutive_login_count: 1,
                    reply: Reply::Returning {
                        total: p.total_login_count + 1,
                        consecutive: 1,
                    },
                }
            }
        },
    }
}

} // verus!
