//! The event dispatcher: per inbound event, applies the trigger and future
//! checks, branches between creating and updating the user's record, skips
//! the store entirely on a same-day repeat, and picks the reply to send.

use vstd::prelude::*;

use crate::calculator::{calculate, day, CalcAction, Reply};
use crate::matcher::{is_future, spec_is_future, spec_matches};
use crate::models::StreakRec;
use crate::store::StreakStore;

verus! {

/// Processes one inbound event against the store. Returns the reply to
/// emit, or nothing when the text is not a trigger. The store is touched
/// only for an accepted event on a new day; a same-day repeat and a
/// future-dated event leave it exactly as it was.
pub fn process_event(
    store: &mut StreakStore,
    user_id: &String,
    occurred_at: i64,
    content: &str,
    now: i64,
) -> (r: Option<Reply>)
    requires
        old(store).wf(),
        old(store)@.contains_key(user_id@) ==> old(store)@[user_id@].total_login_count
            < i32::MAX,
    ensures
        final(store).wf(),
        !spec_matches(content@) ==> r is None && final(store)@ == old(store)@,
        spec_matches(content@) && spec_is_future(occurred_at as int, now as int) ==> r == Some(
            Reply::FutureRejection,
        ) && final(store)@ == old(store)@,
        (spec_matches(content@) && !spec_is_future(occurred_at as int, now as int)
            && !old(store)@.contains_key(user_id@)) ==> {
            &&& final(store)@ == old(store)@.insert(
                user_id@,
                (StreakRec {
                    last_login_time: occurred_at as int,
                    total_login_count: 1,
                    consecutive_login_count: 1,
                }),
            )
            &&& r == Some(Reply::Welcome)
        },
        (spec_matches(content@) && !spec_is_future(occurred_at as int, now as int)
            && old(store)@.contains_key(user_id@)) ==> ({
            let prev = old(store)@[user_id@];
            if day(occurred_at as int) == day(prev.last_login_time) {
                &&& final(store)@ == old(store)@
                &&& r == Some(
                    (Reply::AlreadyLoggedInToday {
                        total: prev.total_login_count as i32,
                        consecutive: prev.consecutive_login_count as i32,
                    }),
                )
            } else if day(occurred_at as int) == day(prev.last_login_time) + 1 {
                &&& final(store)@ == old(store)@.insert(
                    user_id@,
                    (StreakRec {
                        last_login_time: occurred_at as int,
                        total_login_count: prev.total_login_count + 1,
                        consecutive_login_count: prev.consecutive_login_count + 1,
                    }),
                )
                &&& r == Some(
                    (Reply::Returning {
                        total: (prev.total_login_count + 1) as i32,
                        consecutive: (prev.consecutive_login_count + 1) as i32,
                    }),
                )
            } else {
                &&& final(store)@ == old(store)@.insert(
                    user_id@,
                    (StreakRec {
                        last_login_time: occurred_at as int,
                        total_login_count: prev.total_login_count + 1,
                        consecutive_login_count: 1,
                    }),
                )
                &&& r == Some(
                    (Reply::Returning {
                        total: (prev.total_login_count + 1) as i32,
                        consecutive: 1,
                    }),
                )
            }
        }),
{
    if !crate::matcher::matches(content) {
        return None;
    }
    if is_future(occurred_at, now) {
        return Some(Reply::FutureRejection);
    }
    if !store.exists_user(user_id) {
        let created = store.insert(user_id, occurred_at);
        match created {
            Ok(_) => Some(Reply::Welcome),
            Err(_) => {
                proof {
                    assert(false);
                }
                None
            },
        }
    } else {
        let previous = store.get(user_id);
        match previous {
            Some(prev) => {
                let decision = calculate(Some(&prev), occurred_at);
                match decision.action {
                    CalcAction::NoOp => Some(decision.reply),
                    CalcAction::Persist => {
                        let updated = store.update(
                            user_id,
                            decision.last_login_time,
                            decision.total_login_count,
                            decision.consecutive_login_count,
                        );
                        match updated {
                            Ok(_) => Some(decision.reply),
                            Err(_) => {
                                proof {
                                    assert(false);
                                }
                                None
                            },
                        }
                    },
                    CalcAction::Insert => {
                        proof {
                            assert(false);
                        }
                        None
                    },
                }
            },
            None => {
                proof {
                    assert(false);
                }
                None
            },
        }
    }
}

} // verus!
