//! End-to-end tests of the streak engine: day arithmetic, the calculator's
//! case analysis, trigger matching, future rejection, the store round
//! trips, the watermark selection, and the dispatcher.

use nostr_cpn_girl::calculator::{calculate, day_of, CalcAction, Reply};
use nostr_cpn_girl::dispatcher::process_event;
use nostr_cpn_girl::matcher::{contains_str, is_future};
use nostr_cpn_girl::models::User;
use nostr_cpn_girl::store::{StoreError, StreakStore};
use nostr_cpn_girl::watermark::select_watermark;

// 2023-11-14 22:13:20 UTC, i.e. 2023-11-15 07:13:20 at UTC+9.
const BASE: i64 = 1_700_000_000;
const DAY: i64 = 24 * 3600;

fn user(id: &str, last: i64, total: i32, consecutive: i32) -> User {
    User {
        id: id.to_string(),
        last_login_time: last,
        total_login_count: total,
        consecutive_login_count: consecutive,
    }
}

#[test]
fn day_table() {
    // Hand-computed: (1_700_000_000 + 9 * 3600) / 86400 = 19676.
    assert_eq!(day_of(BASE), 19676);
    assert_eq!(day_of(0), 0);
    assert_eq!(day_of(53_999), 0);
    assert_eq!(day_of(54_000), 1);
    assert_eq!(day_of(86_400), 1);
    assert_eq!(day_of(-32_400), 0);
    assert_eq!(day_of(-32_401), -1);
}

#[test]
fn day_fixed_offset_boundaries() {
    // The UTC+9 day flips at 15:00 UTC: 1_700_061_200 is 14:59:59 + 1s.
    let midnight_jst: i64 = 19677 * DAY - 9 * 3600;
    assert_eq!(day_of(midnight_jst - 1), 19676);
    assert_eq!(day_of(midnight_jst), 19677);
}

#[test]
fn calculator_new_user() {
    let r = calculate(None, BASE);
    assert_eq!(r.action, CalcAction::Insert);
    assert_eq!(r.last_login_time, BASE);
    assert_eq!(r.total_login_count, 1);
    assert_eq!(r.consecutive_login_count, 1);
    assert_eq!(r.reply, Reply::Welcome);
}

#[test]
fn calculator_same_day_repeat() {
    let prev = user("alice", BASE, 5, 3);
    let r = calculate(Some(&prev), BASE + 100);
    assert_eq!(r.action, CalcAction::NoOp);
    assert_eq!(r.last_login_time, BASE);
    assert_eq!(r.total_login_count, 5);
    assert_eq!(r.consecutive_login_count, 3);
    assert_eq!(r.reply, Reply::AlreadyLoggedInToday { total: 5, consecutive: 3 });
}

#[test]
fn calculator_consecutive_day() {
    let prev = user("alice", BASE, 5, 3);
    let t = BASE + DAY;
    let r = calculate(Some(&prev), t);
    assert_eq!(r.action, CalcAction::Persist);
    assert_eq!(r.last_login_time, t);
    assert_eq!(r.total_login_count, 6);
    assert_eq!(r.consecutive_login_count, 4);
    assert_eq!(r.reply, Reply::Returning { total: 6, consecutive: 4 });
}

#[test]
fn calculator_broken_streak() {
    let prev = user("alice", BASE, 5, 3);
    let t = BASE + 5 * DAY;
    let r = calculate(Some(&prev), t);
    assert_eq!(r.action, CalcAction::Persist);
    assert_eq!(r.last_login_time, t);
    assert_eq!(r.total_login_count, 6);
    assert_eq!(r.consecutive_login_count, 1);
    assert_eq!(r.reply, Reply::Returning { total: 6, consecutive: 1 });
}

#[test]
fn calculator_earlier_day_resets_streak() {
    // An event whose day precedes the stored one is folded into the broken
    // streak branch, as the engine specifies.
    let prev = user("alice", BASE, 5, 3);
    let t = BASE - 3 * DAY;
    let r = calculate(Some(&prev), t);
    assert_eq!(r.action, CalcAction::Persist);
    assert_eq!(r.last_login_time, t);
    assert_eq!(r.total_login_count, 6);
    assert_eq!(r.consecutive_login_count, 1);
    assert_eq!(r.reply, Reply::Returning { total: 6, consecutive: 1 });
}

#[test]
fn matcher_trigger_phrases() {
    assert!(contains_str("ログインボーナスください", "ログインボーナス"));
    assert!(contains_str("今日のログボ！", "ログボ"));
    assert!(!contains_str("こんにちは", "ログボ"));
    assert!(!contains_str("ログイン", "ログボ"));
    assert!(!contains_str("", "ログボ"));
    assert!(contains_str("abc", ""));
}

#[test]
fn future_tolerance_boundary() {
    let now: i64 = BASE;
    assert!(!is_future(now + 9, now));
    assert!(is_future(now + 10, now));
    assert!(!is_future(now - 100, now));
}

#[test]
fn watermark_empty_store() {
    assert_eq!(select_watermark(None, BASE), BASE);
}

#[test]
fn watermark_old_activity() {
    assert_eq!(select_watermark(Some(BASE - 100), BASE), BASE - 10);
}

#[test]
fn watermark_recent_activity() {
    assert_eq!(select_watermark(Some(BASE - 2), BASE), BASE - 1);
    assert_eq!(select_watermark(Some(BASE - 10), BASE), BASE - 9);
    assert_eq!(select_watermark(Some(BASE - 11), BASE), BASE - 10);
}

#[test]
fn store_insert_then_get() {
    let mut store = StreakStore::new();
    let alice = "npub_alice".to_string();
    let created = store.insert(&alice, BASE).unwrap();
    assert_eq!(created.id, alice);
    assert_eq!(created.last_login_time, BASE);
    assert_eq!(created.total_login_count, 1);
    assert_eq!(created.consecutive_login_count, 1);
    let got = store.get(&alice).unwrap();
    assert_eq!(got.id, alice);
    assert_eq!(got.last_login_time, BASE);
    assert_eq!(got.total_login_count, 1);
    assert_eq!(got.consecutive_login_count, 1);
}

#[test]
fn store_update_then_get() {
    let mut store = StreakStore::new();
    let alice = "npub_alice".to_string();
    let bob = "npub_bob".to_string();
    store.insert(&alice, BASE).unwrap();
    store.insert(&bob, BASE + 1).unwrap();
    let updated = store.update(&alice, BASE + DAY, 2, 2).unwrap();
    assert_eq!(updated.last_login_time, BASE + DAY);
    assert_eq!(updated.total_login_count, 2);
    assert_eq!(updated.consecutive_login_count, 2);
    let got = store.get(&alice).unwrap();
    assert_eq!(got.last_login_time, BASE + DAY);
    assert_eq!(got.total_login_count, 2);
    assert_eq!(got.consecutive_login_count, 2);
    // The other record is untouched.
    let other = store.get(&bob).unwrap();
    assert_eq!(other.last_login_time, BASE + 1);
    assert_eq!(other.total_login_count, 1);
    assert_eq!(other.consecutive_login_count, 1);
}

#[test]
fn store_duplicate_insert_fails() {
    let mut store = StreakStore::new();
    let alice = "npub_alice".to_string();
    store.insert(&alice, BASE).unwrap();
    assert!(matches!(store.insert(&alice, BASE + 1), Err(StoreError::DuplicateKey)));
    // The existing record is unchanged.
    let got = store.get(&alice).unwrap();
    assert_eq!(got.last_login_time, BASE);
}

#[test]
fn store_update_missing_fails() {
    let mut store = StreakStore::new();
    let ghost_user = "npub_nobody".to_string();
    assert!(matches!(store.update(&ghost_user, BASE, 1, 1), Err(StoreError::NotFound)));
    assert!(store.get(&ghost_user).is_none());
    assert!(!store.exists_user(&ghost_user));
}

#[test]
fn store_max_last_login_time() {
    let mut store = StreakStore::new();
    assert_eq!(store.max_last_login_time(), None);
    let alice = "npub_alice".to_string();
    let bob = "npub_bob".to_string();
    store.insert(&alice, BASE).unwrap();
    store.insert(&bob, BASE + 50).unwrap();
    assert_eq!(store.max_last_login_time(), Some(BASE + 50));
    store.update(&alice, BASE + 70, 2, 1).unwrap();
    assert_eq!(store.max_last_login_time(), Some(BASE + 70));
}

#[test]
fn dispatcher_ignores_non_trigger() {
    let mut store = StreakStore::new();
    let alice = "npub_alice".to_string();
    let r = process_event(&mut store, &alice, BASE, "こんにちは", BASE);
    assert_eq!(r, None);
    assert!(!store.exists_user(&alice));
}

#[test]
fn dispatcher_welcomes_new_user() {
    let mut store = StreakStore::new();
    let alice = "npub_alice".to_string();
    let r = process_event(&mut store, &alice, BASE, "ログボ", BASE + 5);
    assert_eq!(r, Some(Reply::Welcome));
    let got = store.get(&alice).unwrap();
    assert_eq!(got.last_login_time, BASE);
    assert_eq!(got.total_login_count, 1);
    assert_eq!(got.consecutive_login_count, 1);
}

#[test]
fn dispatcher_same_day_is_idempotent() {
    let mut store = StreakStore::new();
    let alice = "npub_alice".to_string();
    process_event(&mut store, &alice, BASE, "ログボ", BASE);
    let r1 = process_event(&mut store, &alice, BASE + 100, "ログボ", BASE + 100);
    assert_eq!(r1, Some(Reply::AlreadyLoggedInToday { total: 1, consecutive: 1 }));
    let r2 = process_event(&mut store, &alice, BASE + 200, "ログボ", BASE + 200);
    assert_eq!(r2, Some(Reply::AlreadyLoggedInToday { total: 1, consecutive: 1 }));
    // The persisted record still carries the first timestamp of the day.
    let got = store.get(&alice).unwrap();
    assert_eq!(got.last_login_time, BASE);
    assert_eq!(got.total_login_count, 1);
    assert_eq!(got.consecutive_login_count, 1);
}

#[test]
fn dispatcher_consecutive_and_broken_days() {
    let mut store = StreakStore::new();
    let alice = "npub_alice".to_string();
    process_event(&mut store, &alice, BASE, "ログボ", BASE);
    let r = process_event(&mut store, &alice, BASE + DAY, "ログボ", BASE + DAY);
    assert_eq!(r, Some(Reply::Returning { total: 2, consecutive: 2 }));
    let r = process_event(&mut store, &alice, BASE + 4 * DAY, "ログボ", BASE + 4 * DAY);
    assert_eq!(r, Some(Reply::Returning { total: 3, consecutive: 1 }));
    let got = store.get(&alice).unwrap();
    assert_eq!(got.last_login_time, BASE + 4 * DAY);
    assert_eq!(got.total_login_count, 3);
    assert_eq!(got.consecutive_login_count, 1);
}

#[test]
fn dispatcher_rejects_future_event() {
    let mut store = StreakStore::new();
    let alice = "npub_alice".to_string();
    process_event(&mut store, &alice, BASE, "ログボ", BASE);
    let now: i64 = BASE + 100;
    // Rejected for an existing user: the record is untouched.
    let r = process_event(&mut store, &alice, now + 10, "ログボ", now);
    assert_eq!(r, Some(Reply::FutureRejection));
    let got = store.get(&alice).unwrap();
    assert_eq!(got.last_login_time, BASE);
    assert_eq!(got.total_login_count, 1);
    // Rejected for an unseen user: no record is created.
    let bob = "npub_bob".to_string();
    let r = process_event(&mut store, &bob, now + 10, "ログボ", now);
    assert_eq!(r, Some(Reply::FutureRejection));
    assert!(!store.exists_user(&bob));
}
