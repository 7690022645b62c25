//! The trigger matcher: classifies inbound text as a streak trigger, and
//! rejects events whose timestamp is implausibly in the future.

use vstd::prelude::*;
use vstd::string::StrSliceExecFns;

verus! {

/// `pat` occurs as a contiguous run of characters somewhere in `t`.
pub open spec fn contains_seq(t: Seq<char>, pat: Seq<char>) -> bool {
    exists|i: int|
        0 <= i && i + pat.len() <= t.len() && #[trigger] t.subrange(i, i + pat.len() as int)
            == pat
}

/// A message is a trigger when it contains either of the two fixed phrases
/// (the long and the short Japanese word for a login bonus), case-sensitive
/// substring search, not tokenized.
pub open spec fn spec_matches(t: Seq<char>) -> bool {
    contains_seq(t, "ログインボーナス"@) || contains_seq(t, "ログボ"@)
}

/// An event is from the future when its timestamp exceeds the current time
/// by more than the 9-second clock-skew tolerance.
pub open spec fn spec_is_future(occurred_at: int, now: int) -> bool {
    occurred_at > now + 9
}

/// Substring search over characters.
pub fn contains_str(text: &str, pat: &str) -> (r: bool)
    ensures
        r == contains_seq(text@, pat@),
{
    let n: usize = text.unicode_len();
    let m: usize = pat.unicode_len();
    if m > n {
        return false;
    }
    let mut i: usize = 0;
    while i <= n - m
        invariant
            m <= n,
            i <= n - m + 1,
            text@.len() == n,
            pat@.len() == m,
            forall|k: int| 0 <= k < i ==> #[trigger] text@.subrange(k, k + m as int) != pat@,
        decreases n - m + 1 - i,
    {
        let mut j: usize = 0;
        let mut ok: bool = true;
        while j < m
            invariant
                i + m <= n,
                j <= m,
                text@.len() == n,
                pat@.len() == m,
                ok ==> forall|l: int| 0 <= l < j ==> text@[i + l] == pat@[l],
                !ok ==> exists|l: int| 0 <= l < m && text@[i + l] != pat@[l],
            decreases m - j,
        {
            if text.get_char(i + j) != pat.get_char(j) {
                ok = false;
                j = m;
            } else {
                j = j + 1;
            }
        }
        if ok {
            proof {
                assert(text@.subrange(i as int, i as int + m as int) =~= pat@);
            }
            return true;
        }
        proof {
            if text@.subrange(i as int, i as int + m as int) == pat@ {
                let l = choose|l: int| 0 <= l < m && text@[i + l] != pat@[l];
                assert(text@.subrange(i as int, i as int + m as int)[l] == text@[i + l]);
                assert(false);
            }
        }
        i = i + 1;
    }
    false
}

/// True when the text contains either trigger phrase.
pub fn matches(text: &str) -> (r: bool)
    ensures
        r == spec_matches(text@),
{
    if contains_str(text, "ログインボーナス") {
        true
    } else {
        contains_str(text, "ログボ")
    }
}

/// True when the event has to be rejected as coming from the future.
pub fn is_future(occurred_at: i64, now: i64) -> (r: bool)
    ensures
        r == spec_is_future(occurred_at as int, now as int),
{
    (occurred_at as i128) > (now as i128) + 9
}

} // verus!
