//! The memory of verified upstreams: each base URL with the time at which
//! it passed verification. Times are counts of some clock unit since a
//! fixed start; an entry is fresh while less than the time-to-live has
//! elapsed since it was made.

use vstd::prelude::*;
use crate::text::str_eq;

verus! {

/// Verified upstream base URLs and when each was verified.
#[derive(Debug)]
pub struct VerifiedCache {
    entries: Vec<(String, u64)>,
}

/// No base URL occurs twice.
pub open spec fn keys_unique(e: Seq<(String, u64)>) -> bool {
    forall|i: int, j: int| 0 <= i < j < e.len() ==> (#[trigger] e[i]).0@ != (#[trigger] e[j]).0@
}

pub open spec fn has_key(e: Seq<(String, u64)>, k: Seq<char>) -> bool {
    exists|i: int| 0 <= i < e.len() && (#[trigger] e[i]).0@ == k
}

/// The entries as a map from base URL to verification time.
pub open spec fn entries_map(e: Seq<(String, u64)>) -> Map<Seq<char>, u64> {
    Map::new(
        |k: Seq<char>| has_key(e, k),
        |k: Seq<char>| e[choose|i: int| 0 <= i < e.len() && (#[trigger] e[i]).0@ == k].1,
    )
}

/// The time elapsed from `then` to `now`; none when `then` is later.
pub open spec fn elapsed(now: u64, then: u64) -> nat {
    if now >= then {
        (now - then) as nat
    } else {
        0
    }
}

/// The entries of `m` that are still fresh at `now`.
pub open spec fn fresh_part(m: Map<Seq<char>, u64>, now: u64, ttl: u64) -> Map<Seq<char>, u64> {
    Map::new(|k: Seq<char>| m.contains_key(k) && elapsed(now, m[k]) < ttl, |k: Seq<char>| m[k])
}

/// A base URL verified at `then` is remembered at `now` exactly while less
/// than the time to live has elapsed, whatever was remembered before; and a
/// prune keeps the time at which it was verified.
pub proof fn lemma_remembered_while_fresh(
    m: Map<Seq<char>, u64>,
    base: Seq<char>,
    then: u64,
    now: u64,
    ttl: u64,
)
    ensures
        fresh_part(m.insert(base, then), now, ttl).contains_key(base) == (elapsed(now, then) < ttl),
        elapsed(now, then) < ttl ==> fresh_part(m.insert(base, then), now, ttl)[base] == then,
{
}

/// After a prune at `now`, an entry made at `then` is kept exactly when
/// less than `ttl` has passed since, counting a time after `now` as none
/// passed; a kept entry keeps its time, and nothing new appears.
pub proof fn lemma_prune_keeps_fresh(m: Map<Seq<char>, u64>, base: Seq<char>, now: u64, ttl: u64)
    ensures
        m.contains_key(base) && now >= m[base] ==> (fresh_part(m, now, ttl).contains_key(base)
            <==> now - m[base] < ttl),
        m.contains_key(base) && now < m[base] ==> (fresh_part(m, now, ttl).contains_key(base)
            <==> ttl > 0),
        fresh_part(m, now, ttl).contains_key(base) ==> m.contains_key(base) && fresh_part(
            m,
            now,
            ttl,
        )[base] == m[base],
{
}

proof fn lemma_entry(e: Seq<(String, u64)>, i: int)
    requires
        keys_unique(e),
        0 <= i < e.len(),
    ensures
        entries_map(e).contains_key(e[i].0@),
        entries_map(e)[e[i].0@] == e[i].1,
{
    let k = e[i].0@;
    assert(has_key(e, k));
    let c = choose|j: int| 0 <= j < e.len() && (#[trigger] e[j]).0@ == k;
    if c != i {
        if c < i {
            assert(e[c].0@ != e[i].0@);
        } else {
            assert(e[i].0@ != e[c].0@);
        }
    }
}

impl View for VerifiedCache {
    type V = Map<Seq<char>, u64>;

    closed spec fn view(&self) -> Map<Seq<char>, u64> {
        entries_map(self.entries@)
    }
}

impl VerifiedCache {
    /// No base URL occurs twice.
    #[verifier::type_invariant]
    closed spec fn inv(&self) -> bool {
        keys_unique(self.entries@)
    }

    /// An empty cache.
    pub fn new() -> (c: Self)
        ensures
            c@ == Map::<Seq<char>, u64>::empty(),
    {
        let c = VerifiedCache { entries: Vec::new() };
        assert(c@ =~= Map::<Seq<char>, u64>::empty());
        c
    }

    /// Whether `base` is remembered as verified.
    pub fn contains(&self, base: &str) -> (r: bool)
        ensures
            r == self@.contains_key(base@),
    {
        let mut i: usize = 0;
        while i < self.entries.len()
            invariant
                i <= self.entries@.len(),
                forall|j: int| 0 <= j < i ==> (#[trigger] self.entries@[j]).0@ != base@,
            decreases self.entries@.len() - i,
        {
            if str_eq(self.entries[i].0.as_str(), base) {
                assert(has_key(self.entries@, base@));
                return true;
            }
            i += 1;
        }
        false
    }

    /// Remembers `base` as verified at `now` (replacing an earlier time).
    pub fn insert(&mut self, base: &str, now: u64)
        ensures
            final(self)@ == old(self)@.insert(base@, now),
    {
        proof {
            use_type_invariant(&*self);
        }
        let mut entries: Vec<(String, u64)> = Vec::new();
        assert(keys_unique(entries@));
        std::mem::swap(&mut entries, &mut self.entries);
        let ghost e0 = entries@;
        let mut i: usize = 0;
        while i < entries.len()
            invariant
                entries@ == e0,
                old(self).entries@ == e0,
                keys_unique(e0),
                i <= e0.len(),
                forall|j: int| 0 <= j < i ==> (#[trigger] e0[j]).0@ != base@,
            decreases e0.len() - i,
        {
            if str_eq(entries[i].0.as_str(), base) {
                entries.set(i, (base.to_owned(), now));
                let ghost e1 = entries@;
                assert(keys_unique(e1)) by {
                    assert forall|a: int, b: int| 0 <= a < b < e1.len() implies (#[trigger] e1[a]).0@
                        != (#[trigger] e1[b]).0@ by {
                        assert(e0[a].0@ != e0[b].0@);
                    }
                }
                assert forall|k: Seq<char>| #[trigger]
                    entries_map(e1).contains_key(k) == entries_map(e0).insert(base@, now).contains_key(k)
                    by {
                    if has_key(e1, k) {
                        let j = choose|j: int| 0 <= j < e1.len() && (#[trigger] e1[j]).0@ == k;
                        if j != i {
                            assert(e0[j] == e1[j]);
                        }
                    }
                    if has_key(e0, k) {
                        let j = choose|j: int| 0 <= j < e0.len() && (#[trigger] e0[j]).0@ == k;
                        if j != i {
                            assert(e0[j] == e1[j]);
                        } else {
                            assert(e1[i as int].0@ == k);
                        }
                    }
                    if k == base@ {
                        assert(e1[i as int].0@ == k);
                    }
                }
                assert forall|k: Seq<char>| entries_map(e1).contains_key(k) implies #[trigger]
                    entries_map(e1)[k] == entries_map(e0).insert(base@, now)[k] by {
                    let j = choose|j: int| 0 <= j < e1.len() && (#[trigger] e1[j]).0@ == k;
                    lemma_entry(e1, j);
                    if j != i {
                        assert(e0[j] == e1[j]);
                        lemma_entry(e0, j);
                    }
                }
                assert(entries_map(e1) =~= entries_map(e0).insert(base@, now));
                self.entries = entries;
                return;
            }
            i += 1;
        }
        entries.push((base.to_owned(), now));
        let ghost e1 = entries@;
        assert(keys_unique(e1)) by {
            assert forall|a: int, b: int| 0 <= a < b < e1.len() implies (#[trigger] e1[a]).0@
                != (#[trigger] e1[b]).0@ by {
                if b == e0.len() {
                    assert(e0[a].0@ != base@);
                } else {
                    assert(e0[a].0@ != e0[b].0@);
                }
            }
        }
        assert forall|k: Seq<char>| #[trigger]
            entries_map(e1).contains_key(k) == entries_map(e0).insert(base@, now).contains_key(k) by {
            if has_key(e1, k) {
                let j = choose|j: int| 0 <= j < e1.len() && (#[trigger] e1[j]).0@ == k;
                if j < e0.len() {
                    assert(e0[j] == e1[j]);
                }
            }
            if has_key(e0, k) {
                let j = choose|j: int| 0 <= j < e0.len() && (#[trigger] e0[j]).0@ == k;
                assert(e0[j] == e1[j]);
            }
            if k == base@ {
                assert(e1[e0.len() as int].0@ == k);
            }
        }
        assert forall|k: Seq<char>| entries_map(e1).contains_key(k) implies #[trigger]
            entries_map(e1)[k] == entries_map(e0).insert(base@, now)[k] by {
            let j = choose|j: int| 0 <= j < e1.len() && (#[trigger] e1[j]).0@ == k;
            lemma_entry(e1, j);
            if j < e0.len() {
                assert(e0[j] == e1[j]);
                lemma_entry(e0, j);
            }
        }
        assert(entries_map(e1) =~= entries_map(e0).insert(base@, now));
        self.entries = entries;
    }

    /// Forgets every entry that is no longer fresh at `now`: kept are those
    /// verified less than `ttl` ago.
    pub fn prune(&mut self, now: u64, ttl: u64)
        ensures
            final(self)@ == fresh_part(old(self)@, now, ttl),
    {
        proof {
            use_type_invariant(&*self);
        }
        let ghost e0 = self.entries@;
        let mut kept: Vec<(String, u64)> = Vec::new();
        let mut i: usize = 0;
        while i < self.entries.len()
            invariant
                self.entries@ == e0,
                keys_unique(e0),
                i <= e0.len(),
                keys_unique(kept@),
                forall|m: int|
                    0 <= m < kept@.len() ==> exists|j: int|
                        0 <= j < i && #[trigger] kept@[m] == #[trigger] e0[j] && elapsed(now, e0[j].1)
                            < ttl,
                forall|j: int|
                    0 <= j < i && elapsed(now, #[trigger] e0[j].1) < ttl ==> has_key(
                        kept@,
                        e0[j].0@,
                    ),
            decreases e0.len() - i,
        {
            let t = self.entries[i].1;
            let fresh = if now >= t {
                now - t < ttl
            } else {
                0 < ttl
            };
            if fresh {
                let ghost k0 = kept@;
                let entry = (self.entries[i].0.clone(), t);
                kept.push(entry);
                let ghost k1 = kept@;
                assert(k1[k0.len() as int] == e0[i as int]);
                assert(keys_unique(k1)) by {
                    assert forall|a: int, b: int| 0 <= a < b < k1.len() implies (#[trigger] k1[a]).0@
                        != (#[trigger] k1[b]).0@ by {
                        if b == k0.len() {
                            assert(k0[a] == k1[a]);
                            let j = choose|j: int|
                                0 <= j < i && #[trigger] k0[a] == #[trigger] e0[j] && elapsed(
                                    now,
                                    e0[j].1,
                                ) < ttl;
                            assert(e0[j].0@ != e0[i as int].0@);
                        } else {
                            assert(k0[a] == k1[a]);
                            assert(k0[b] == k1[b]);
                        }
                    }
                }
                assert forall|m: int| 0 <= m < k1.len() implies exists|j: int|
                    0 <= j < i + 1 && #[trigger] k1[m] == #[trigger] e0[j] && elapsed(now, e0[j].1)
                        < ttl by {
                    if m == k0.len() {
                        assert(k1[m] == e0[i as int]);
                    } else {
                        assert(k0[m] == k1[m]);
                    }
                }
                assert forall|j: int|
                    0 <= j < i + 1 && elapsed(now, #[trigger] e0[j].1) < ttl implies has_key(
                    k1,
                    e0[j].0@,
                ) by {
                    if j == i {
                        assert(k1[k0.len() as int].0@ == e0[j].0@);
                    } else {
                        let m = choose|m: int| 0 <= m < k0.len() && (#[trigger] k0[m]).0@ == e0[j].0@;
                        assert(k1[m] == k0[m]);
                    }
                }
            }
            i += 1;
        }
        let ghost k = kept@;
        let ghost m0 = entries_map(e0);
        assert forall|key: Seq<char>| #[trigger]
            entries_map(k).contains_key(key) == fresh_part(m0, now, ttl).contains_key(key) by {
            if has_key(k, key) {
                let m = choose|m: int| 0 <= m < k.len() && (#[trigger] k[m]).0@ == key;
                let j = choose|j: int|
                    0 <= j < e0.len() && #[trigger] k[m] == #[trigger] e0[j] && elapsed(now, e0[j].1)
                        < ttl;
                lemma_entry(e0, j);
            }
            if fresh_part(m0, now, ttl).contains_key(key) {
                let j = choose|j: int| 0 <= j < e0.len() && (#[trigger] e0[j]).0@ == key;
                lemma_entry(e0, j);
            }
        }
        assert forall|key: Seq<char>| entries_map(k).contains_key(key) implies #[trigger]
            entries_map(k)[key] == fresh_part(m0, now, ttl)[key] by {
            let m = choose|m: int| 0 <= m < k.len() && (#[trigger] k[m]).0@ == key;
            let j = choose|j: int|
                0 <= j < e0.len() && #[trigger] k[m] == #[trigger] e0[j] && elapsed(now, e0[j].1)
                    < ttl;
            lemma_entry(e0, j);
            lemma_entry(k, m);
        }
        assert(entries_map(k) =~= fresh_part(m0, now, ttl));
        self.entries = kept;
    }
}

} // verus!
