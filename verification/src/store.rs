//! The streak store: a mapping from user identity to streak record, with
//! point lookups, atomic creation and replacement, and the maximum stored
//! login time that the watermark selector reads at startup.

use vstd::prelude::*;

use crate::models::{rec_wf, StreakRec, User};

verus! {

/// Failure cases of the store operations. The dispatcher never triggers
/// them, because it checks for the record first; they are reported rather
/// than panicking.
#[derive(Clone, Copy, PartialEq, Eq, Debug)]
pub enum StoreError {
    /// `insert` was asked to create a record whose identity already exists.
    DuplicateKey,
    /// `update` was asked to replace a record that does not exist.
    NotFound,
}

/// Durable mapping from user identity to streak record, seen abstractly as
/// a `Map` from the identity's characters to the record's three fields.
pub struct StreakStore {
    users: Vec<User>,
}

/// First-match lookup of an identity in the backing sequence.
spec fn seq_find(s: Seq<User>, k: Seq<char>) -> Option<StreakRec>
    decreases s.len(),
{
    if s.len() == 0 {
        None
    } else if s[0].id@ == k {
        Some(s[0].rec())
    } else {
        seq_find(s.skip(1), k)
    }
}

/// No two entries of the backing sequence share an identity.
spec fn ids_unique(s: Seq<User>) -> bool {
    forall|a: int, b: int| 0 <= a < b < s.len() ==> s[a].id@ != s[b].id@
}

/// A `None` lookup means no entry carries the identity.
proof fn lemma_seq_find_none(s: Seq<User>, k: Seq<char>)
    requires
        seq_find(s, k) is None,
    ensures
        forall|j: int| 0 <= j < s.len() ==> s[j].id@ != k,
    decreases s.len(),
{
    if s.len() > 0 {
        lemma_seq_find_none(s.skip(1), k);
        assert forall|j: int| 0 <= j < s.len() implies s[j].id@ != k by {
            if j > 0 {
                assert(s.skip(1)[j - 1] == s[j]);
            }
        }
    }
}

/// A `Some` lookup names the entry it came from.
proof fn lemma_seq_find_some(s: Seq<User>, k: Seq<char>)
    requires
        seq_find(s, k) is Some,
    ensures
        exists|j: int| 0 <= j < s.len() && s[j].id@ == k && seq_find(s, k) == Some(s[j].rec()),
    decreases s.len(),
{
    if s.len() > 0 && s[0].id@ != k {
        lemma_seq_find_some(s.skip(1), k);
        let j = choose|j: int|
            0 <= j < s.skip(1).len() && s.skip(1)[j].id@ == k && seq_find(s.skip(1), k) == Some(
                s.skip(1)[j].rec(),
            );
        assert(s.skip(1)[j] == s[j + 1]);
    }
}

/// With unique identities, looking up an entry's own identity finds it.
proof fn lemma_seq_find_index(s: Seq<User>, j: int)
    requires
        ids_unique(s),
        0 <= j < s.len(),
    ensures
        seq_find(s, s[j].id@) == Some(s[j].rec()),
    decreases s.len(),
{
    if j > 0 {
        assert forall|a: int, b: int| 0 <= a < b < s.skip(1).len() implies s.skip(1)[a].id@ != s.skip(
            1,
        )[b].id@ by {
            assert(s.skip(1)[a] == s[a + 1]);
            assert(s.skip(1)[b] == s[b + 1]);
        }
        lemma_seq_find_index(s.skip(1), j - 1);
        assert(s.skip(1)[j - 1] == s[j]);
    }
}

/// How appending an entry changes every lookup.
proof fn lemma_seq_find_push(s: Seq<User>, u: User)
    ensures
        forall|k: Seq<char>|
            #[trigger] seq_find(s.push(u), k) == (if seq_find(s, k) is Some {
                seq_find(s, k)
            } else if u.id@ == k {
                Some(u.rec())
            } else {
                None::<StreakRec>
            }),
    decreases s.len(),
{
    if s.len() == 0 {
        assert forall|k: Seq<char>|
            #[trigger] seq_find(s.push(u), k) == (if seq_find(s, k) is Some {
                seq_find(s, k)
            } else if u.id@ == k {
                Some(u.rec())
            } else {
                None::<StreakRec>
            }) by {
            reveal_with_fuel(seq_find, 3);
            assert(s.push(u)[0] == u);
            assert(s.push(u).skip(1) =~= Seq::<User>::empty());
        }
    } else {
        lemma_seq_find_push(s.skip(1), u);
        assert(s.push(u).skip(1) =~= s.skip(1).push(u));
        assert forall|k: Seq<char>|
            #[trigger] seq_find(s.push(u), k) == (if seq_find(s, k) is Some {
                seq_find(s, k)
            } else if u.id@ == k {
                Some(u.rec())
            } else {
                None::<StreakRec>
            }) by {
            reveal_with_fuel(seq_find, 3);
            assert(s.push(u)[0] == s[0]);
            if s[0].id@ == k {
                assert(seq_find(s, k) == Some(s[0].rec()));
                assert(seq_find(s.push(u), k) == Some(s[0].rec()));
            } else {
                assert(seq_find(s.push(u), k) == seq_find(s.push(u).skip(1), k));
                assert(seq_find(s.push(u).skip(1), k) == seq_find(s.skip(1).push(u), k));
                assert(seq_find(s, k) == seq_find(s.skip(1), k));
            }
        }
    }
}

/// How replacing the entry at `i` by one with the same identity changes
/// every lookup.
proof fn lemma_seq_find_update(s: Seq<User>, i: int, u: User)
    requires
        ids_unique(s),
        0 <= i < s.len(),
        s[i].id@ == u.id@,
    ensures
        forall|k: Seq<char>|
            #[trigger] seq_find(s.update(i, u), k) == (if u.id@ == k {
                Some(u.rec())
            } else {
                seq_find(s, k)
            }),
    decreases s.len(),
{
    if i == 0 {
        assert forall|k: Seq<char>|
            #[trigger] seq_find(s.update(i, u), k) == (if u.id@ == k {
                Some(u.rec())
            } else {
                seq_find(s, k)
            }) by {
            reveal_with_fuel(seq_find, 3);
            assert(s.update(0, u)[0] == u);
            assert(s.update(0, u).skip(1) =~= s.skip(1));
        }
    } else {
        assert forall|a: int, b: int| 0 <= a < b < s.skip(1).len() implies s.skip(1)[a].id@ != s.skip(
            1,
        )[b].id@ by {
            assert(s.skip(1)[a] == s[a + 1]);
            assert(s.skip(1)[b] == s[b + 1]);
        }
        assert(s.skip(1)[i - 1] == s[i]);
        lemma_seq_find_update(s.skip(1), i - 1, u);
        assert(s.update(i, u).skip(1) =~= s.skip(1).update(i - 1, u));
        assert forall|k: Seq<char>|
            #[trigger] seq_find(s.update(i, u), k) == (if u.id@ == k {
                Some(u.rec())
            } else {
                seq_find(s, k)
            }) by {
            reveal_with_fuel(seq_find, 3);
            assert(s.update(i, u)[0] == s[0]);
            if s[0].id@ == u.id@ {
                assert(s[0].id@ != s[i].id@);
            }
            if s[0].id@ == k {
                assert(seq_find(s, k) == Some(s[0].rec()));
                assert(seq_find(s.update(i, u), k) == Some(s[0].rec()));
            } else {
                assert(seq_find(s.update(i, u), k) == seq_find(s.update(i, u).skip(1), k));
                assert(seq_find(s.update(i, u).skip(1), k) == seq_find(
                    s.skip(1).update(i - 1, u),
                    k,
                ));
                assert(seq_find(s, k) == seq_find(s.skip(1), k));
            }
        }
    }
}

impl View for StreakStore {
    type V = Map<Seq<char>, StreakRec>;

    closed spec fn view(&self) -> Map<Seq<char>, StreakRec> {
        Map::new(
            |k: Seq<char>| seq_find(self.users@, k) is Some,
            |k: Seq<char>| seq_find(self.users@, k).unwrap(),
        )
    }
}

impl StreakStore {
    /// Well-formedness: identities are unique and every record satisfies
    /// the data-model invariant.
    pub closed spec fn wf(&self) -> bool {
        &&& ids_unique(self.users@)
        &&& forall|j: int| 0 <= j < self.users@.len() ==> rec_wf(#[trigger] self.users@[j].rec())
    }

    /// Every record a well-formed store holds satisfies the data-model
    /// invariant: both counters at least one, the consecutive count never
    /// above the total count.
    pub proof fn lemma_records_wf(&self, k: Seq<char>)
        requires
            self.wf(),
            self@.contains_key(k),
        ensures
            rec_wf(self@[k]),
    {
        lemma_seq_find_some(self.users@, k);
    }

    /// A fresh, empty store.
    pub fn new() -> (s: Self)
        ensures
            s.wf(),
            s@ == Map::<Seq<char>, StreakRec>::empty(),
    {
        let s = StreakStore { users: Vec::new() };
        proof {
            assert(s@ =~= Map::<Seq<char>, StreakRec>::empty());
        }
        s
    }

    /// Point lookup: is there a record for this identity?
    pub fn exists_user(&self, user_id: &String) -> (r: bool)
        requires
            self.wf(),
        ensures
            r == self@.contains_key(user_id@),
    {
        let n: usize = self.users.len();
        let mut i: usize = 0;
        while i < n
            invariant
                self.wf(),
                n == self.users@.len(),
                i <= n,
                forall|j: int| 0 <= j < i ==> self.users@[j].id@ != user_id@,
            decreases n - i,
        {
            if self.users[i].id == *user_id {
                proof {
                    lemma_seq_find_index(self.users@, i as int);
                }
                return true;
            }
            i = i + 1;
        }
        proof {
            if self@.contains_key(user_id@) {
                lemma_seq_find_some(self.users@, user_id@);
            }
        }
        false
    }

    /// Point lookup: the record for this identity, or absence.
    pub fn get(&self, user_id: &String) -> (r: Option<User>)
        requires
            self.wf(),
        ensures
            r matches Some(u) ==> self@.contains_key(user_id@) && u.id@ == user_id@ && u.rec()
                == self@[user_id@] && rec_wf(u.rec()),
            r is None ==> !self@.contains_key(user_id@),
    {
        let n: usize = self.users.len();
        let mut i: usize = 0;
        while i < n
            invariant
                self.wf(),
                n == self.users@.len(),
                i <= n,
                forall|j: int| 0 <= j < i ==> self.users@[j].id@ != user_id@,
            decreases n - i,
        {
            if self.users[i].id == *user_id {
                proof {
                    lemma_seq_find_index(self.users@, i as int);
                }
                return Some(
                    User {
                        id: self.users[i].id.clone(),
                        last_login_time: self.users[i].last_login_time,
                        total_login_count: self.users[i].total_login_count,
                        consecutive_login_count: self.users[i].consecutive_login_count,
                    },
                );
            }
            i = i + 1;
        }
        proof {
            if self@.contains_key(user_id@) {
                lemma_seq_find_some(self.users@, user_id@);
            }
        }
        None
    }

    /// Creates the record for an unseen identity, with both counters at
    /// one. Reports `DuplicateKey`, and changes nothing, when a record
    /// already exists.
    pub fn insert(&mut self, user_id: &String, occurred_at: i64) -> (r: Result<User, StoreError>)
        requires
            old(self).wf(),
        ensures
            final(self).wf(),
            old(self)@.contains_key(user_id@) ==> final(self)@ == old(self)@ && r == Err::<
                User,
                StoreError,
            >(StoreError::DuplicateKey),
            !old(self)@.contains_key(user_id@) ==> {
                &&& final(self)@ == old(self)@.insert(
                    user_id@,
                    (StreakRec {
                        last_login_time: occurred_at as int,
                        total_login_count: 1,
                        consecutive_login_count: 1,
                    }),
                )
                &&& r matches Ok(u) && u.id@ == user_id@ && u.last_login_time == occurred_at
                    && u.total_login_count == 1 && u.consecutive_login_count == 1
            },
    {
        if self.exists_user(user_id) {
            return Err(StoreError::DuplicateKey);
        }
        let u = User {
            id: user_id.clone(),
            last_login_time: occurred_at,
            total_login_count: 1,
            consecutive_login_count: 1,
        };
        let ghost before = self.users@;
        let out = User {
            id: user_id.clone(),
            last_login_time: occurred_at,
            total_login_count: 1,
            consecutive_login_count: 1,
        };
        self.users.push(u);
        proof {
            lemma_seq_find_none(before, user_id@);
            lemma_seq_find_push(before, u);
            assert forall|a: int, b: int|
                0 <= a < b < self.users@.len() implies self.users@[a].id@ != self.users@[b].id@ by {
                if b < before.len() {
                    assert(self.users@[a] == before[a]);
                    assert(self.users@[b] == before[b]);
                } else {
                    assert(self.users@[a] == before[a]);
                    assert(self.users@[b] == u);
                }
            }
            assert(self@ =~= old(self)@.insert(
                user_id@,
                (StreakRec {
                    last_login_time: occurred_at as int,
                    total_login_count: 1,
                    consecutive_login_count: 1,
                }),
            ));
        }
        Ok(out)
    }

    /// Replaces the three mutable fields of an existing record. Reports
    /// `NotFound`, and changes nothing, when no record exists.
    pub fn update(
        &mut self,
        user_id: &String,
        new_last_login_time: i64,
        new_total: i32,
        new_consecutive: i32,
    ) -> (r: Result<User, StoreError>)
        requires
            old(self).wf(),
            1 <= new_consecutive <= new_total,
        ensures
            final(self).wf(),
            !old(self)@.contains_key(user_id@) ==> final(self)@ == old(self)@ && r == Err::<
                User,
                StoreError,
            >(StoreError::NotFound),
            old(self)@.contains_key(user_id@) ==> {
                &&& final(self)@ == old(self)@.insert(
                    user_id@,
                    (StreakRec {
                        last_login_time: new_last_login_time as int,
                        total_login_count: new_total as int,
                        consecutive_login_count: new_consecutive as int,
                    }),
                )
                &&& r matches Ok(u) && u.id@ == user_id@ && u.last_login_time
                    == new_last_login_time && u.total_login_count == new_total
                    && u.consecutive_login_count == new_consecutive
            },
    {
        let n: usize = self.users.len();
        let mut i: usize = 0;
        while i < n
            invariant
                self == old(self),
                self.wf(),
                1 <= new_consecutive <= new_total,
                n == self.users@.len(),
                i <= n,
                forall|j: int| 0 <= j < i ==> self.users@[j].id@ != user_id@,
            decreases n - i,
        {
            if self.users[i].id == *user_id {
                let u = User {
                    id: user_id.clone(),
                    last_login_time: new_last_login_time,
                    total_login_count: new_total,
                    consecutive_login_count: new_consecutive,
                };
                let ghost before = self.users@;
                let out = User {
                    id: user_id.clone(),
                    last_login_time: new_last_login_time,
                    total_login_count: new_total,
                    consecutive_login_count: new_consecutive,
                };
                self.users.set(i, u);
                proof {
                    lemma_seq_find_index(before, i as int);
                    lemma_seq_find_update(before, i as int, u);
                    assert(self.users@ == before.update(i as int, u));
                    assert(u.id@ == before[i as int].id@);
                    assert forall|a: int, b: int|
                        0 <= a < b < self.users@.len() implies self.users@[a].id@
                        != self.users@[b].id@ by {
                        assert(self.users@[a].id@ == before[a].id@);
                        assert(self.users@[b].id@ == before[b].id@);
                        assert(before[a].id@ != before[b].id@);
                    }
                    assert forall|j: int|
                        0 <= j < self.users@.len() implies rec_wf(
                        #[trigger] self.users@[j].rec()) by {
                        if j == i {
                            assert(self.users@[j] == u);
                            assert(rec_wf(u.rec()));
                            assert(rec_wf(self.users@[j].rec()));
                        } else {
                            assert(self.users@[j] == before[j]);
                            assert(rec_wf(before[j].rec()));
                            assert(rec_wf(self.users@[j].rec()));
                        }
                    }
                    assert(self@ =~= old(self)@.insert(
                        user_id@,
                        (StreakRec {
                            last_login_time: new_last_login_time as int,
                            total_login_count: new_total as int,
                            consecutive_login_count: new_consecutive as int,
                        }),
                    ));
                }
                return Ok(out);
            }
            i = i + 1;
        }
        proof {
            if self@.contains_key(user_id@) {
                lemma_seq_find_some(self.users@, user_id@);
            }
        }
        Err(StoreError::NotFound)
    }

    /// Round trip: an `insert` for an absent identity, followed by a `get`
    /// of the same identity, returns exactly the inserted fields (both
    /// counters one, the given timestamp), and every other identity's
    /// record is exactly what it was. Stated over the store view that the
    /// contracts of `insert` and `get` use.
    pub proof fn lemma_insert_get_round_trip(s: StreakStore, user_id: Seq<char>, occurred_at: i64)
        requires
            !s@.contains_key(user_id),
        ensures
            ({
                let inserted = StreakRec {
                    last_login_time: occurred_at as int,
                    total_login_count: 1,
                    consecutive_login_count: 1,
                };
                let after = s@.insert(user_id, inserted);
                &&& after.contains_key(user_id)
                &&& after[user_id] == inserted
                &&& forall|k: Seq<char>|
                    k != user_id ==> #[trigger] after.contains_key(k) == s@.contains_key(k)
                &&& forall|k: Seq<char>|
                    k != user_id && s@.contains_key(k) ==> #[trigger] after[k] == s@[k]
            }),
    {
    }

    /// Round trip: an `update` of an existing identity, followed by a
    /// `get` of the same identity, returns exactly the updated fields, and
    /// every other identity's record is exactly what it was. Stated over
    /// the store view that the contracts of `update` and `get` use.
    pub proof fn lemma_update_get_round_trip(
        s: StreakStore,
        user_id: Seq<char>,
        new_last_login_time: i64,
        new_total: i32,
        new_consecutive: i32,
    )
        requires
            s@.contains_key(user_id),
        ensures
            ({
                let written = StreakRec {
                    last_login_time: new_last_login_time as int,
                    total_login_count: new_total as int,
                    consecutive_login_count: new_consecutive as int,
                };
                let after = s@.insert(user_id, written);
                &&& after.contains_key(user_id)
                &&& after[user_id] == written
                &&& forall|k: Seq<char>|
                    k != user_id ==> #[trigger] after.contains_key(k) == s@.contains_key(k)
                &&& forall|k: Seq<char>|
                    k != user_id && s@.contains_key(k) ==> #[trigger] after[k] == s@[k]
            }),
    {
    }

    /// The largest stored `last_login_time` across all records, or absence
    /// when the store is empty. Read once at startup by the watermark
    /// selector.
    pub fn max_last_login_time(&self) -> (r: Option<i64>)
        requires
            self.wf(),
        ensures
            r is None ==> forall|k: Seq<char>| !self@.contains_key(k),
            r matches Some(m) ==> exists|k: Seq<char>|
                #[trigger] self@.contains_key(k) && self@[k].last_login_time == m,
            r matches Some(m) ==> forall|k: Seq<char>|
                #[trigger] self@.contains_key(k) ==> self@[k].last_login_time <= m,
    {
        let n: usize = self.users.len();
        let mut best: Option<i64> = None;
        let mut i: usize = 0;
        while i < n
            invariant
                self.wf(),
                n == self.users@.len(),
                i <= n,
                best is None ==> i == 0,
                best matches Some(m) ==> exists|j: int|
                    0 <= j < i && #[trigger] self.users@[j].last_login_time == m,
                best matches Some(m) ==> forall|j: int|
                    0 <= j < i ==> #[trigger] self.users@[j].last_login_time <= m,
            decreases n - i,
        {
            let t: i64 = self.users[i].last_login_time;
            match best {
                None => {
                    best = Some(t);
                },
                Some(m) => {
                    if t > m {
                        best = Some(t);
                    }
                },
            }
            i = i + 1;
        }
        proof {
            if best is None {
                assert forall|k: Seq<char>| !self@.contains_key(k) by {
                    if self@.contains_key(k) {
                        lemma_seq_find_some(self.users@, k);
                    }
                }
            } else {
                let m = best.unwrap();
                let j = choose|j: int|
                    0 <= j < n && #[trigger] self.users@[j].last_login_time == m;
                lemma_seq_find_index(self.users@, j);
                assert(self@.contains_key(self.users@[j].id@) && self@[self.users@[j].id@].last_login_time
                    == m);
                assert forall|k: Seq<char>| #[trigger]
                    self@.contains_key(k) implies self@[k].last_login_time <= m by {
                    lemma_seq_find_some(self.users@, k);
                }
            }
        }
        best
    }
}

} // verus!
