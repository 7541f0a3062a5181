//! An ordered map from byte-string keys to values, the persistence
//! abstraction both services keep their state in. Entries are held in
//! strictly ascending lexicographic key order, so iteration enumerates keys
//! in byte order and a prefix of the key space is a contiguous block.

use vstd::prelude::*;

use crate::shared::bytes::{
    has_prefix, is_prefix_of, lemma_lex_irrefl, lemma_lex_total, lemma_lex_trans,
    lemma_prefix_between, lex_le, lex_lt, lex_lt_bytes,
};

verus! {

/// The entries hold strictly ascending keys.
pub open spec fn kv_sorted<T>(s: Seq<(Seq<u8>, T)>) -> bool {
    forall|i: int, j: int|
        0 <= i < j < s.len() ==> lex_lt((#[trigger] s[i]).0, (#[trigger] s[j]).0)
}

/// Some entry carries the key `k`.
pub open spec fn kv_contains<T>(s: Seq<(Seq<u8>, T)>, k: Seq<u8>) -> bool {
    exists|i: int| 0 <= i < s.len() && (#[trigger] s[i]).0 == k
}

/// The index of the entry that carries `k` (unique when the keys are sorted).
pub open spec fn kv_idx<T>(s: Seq<(Seq<u8>, T)>, k: Seq<u8>) -> int {
    choose|i: int| 0 <= i < s.len() && (#[trigger] s[i]).0 == k
}

/// The value stored under `k`, if any.
pub open spec fn kv_get<T>(s: Seq<(Seq<u8>, T)>, k: Seq<u8>) -> Option<T> {
    if kv_contains(s, k) {
        Some(s[kv_idx(s, k)].1)
    } else {
        None
    }
}

/// Sorted entries have pairwise distinct keys.
pub proof fn lemma_kv_unique<T>(s: Seq<(Seq<u8>, T)>)
    requires
        kv_sorted(s),
    ensures
        forall|i: int, j: int|
            0 <= i < s.len() && 0 <= j < s.len() && i != j ==> (#[trigger] s[i]).0 != (
            #[trigger] s[j]).0,
{
    assert forall|i: int, j: int|
        0 <= i < s.len() && 0 <= j < s.len() && i != j implies (#[trigger] s[i]).0 != (
    #[trigger] s[j]).0 by {
        if i < j {
            lemma_lex_irrefl(s[i].0);
        } else {
            lemma_lex_irrefl(s[j].0);
        }
    }
}

/// Looking up a key held by entry `i` of sorted entries yields that entry.
pub proof fn lemma_kv_get_at<T>(s: Seq<(Seq<u8>, T)>, i: int)
    requires
        kv_sorted(s),
        0 <= i < s.len(),
    ensures
        kv_contains(s, s[i].0),
        kv_idx(s, s[i].0) == i,
        kv_get(s, s[i].0) == Some(s[i].1),
{
    assert(kv_contains(s, s[i].0));
    lemma_kv_unique(s);
    let j = kv_idx(s, s[i].0);
    assert(0 <= j < s.len() && s[j].0 == s[i].0);
}

/// Inserting a fresh entry at its sorted position: the new key maps to the
/// new value and every other key is untouched.
pub proof fn lemma_kv_insert<T>(s: Seq<(Seq<u8>, T)>, p: int, e: (Seq<u8>, T))
    requires
        kv_sorted(s),
        0 <= p <= s.len(),
        forall|j: int| 0 <= j < p ==> lex_lt((#[trigger] s[j]).0, e.0),
        forall|j: int| p <= j < s.len() ==> lex_lt(e.0, (#[trigger] s[j]).0),
    ensures
        kv_sorted(s.insert(p, e)),
        !kv_contains(s, e.0),
        kv_get(s.insert(p, e), e.0) == Some(e.1),
        forall|k2: Seq<u8>| k2 != e.0 ==> kv_get(s.insert(p, e), k2) == kv_get(s, k2),
{
    let s2 = s.insert(p, e);
    assert(s2.len() == s.len() + 1);
    assert(forall|j: int| 0 <= j < p ==> s2[j] == s[j]);
    assert(s2[p] == e);
    assert(forall|j: int| p < j < s2.len() ==> s2[j] == s[j - 1]);
    assert forall|i: int, j: int| 0 <= i < j < s2.len() implies lex_lt(
        (#[trigger] s2[i]).0,
        (#[trigger] s2[j]).0,
    ) by {
        if i < p && j < p {
        } else if i < p && j == p {
        } else if i == p && j > p {
        } else if i < p && j > p {
            lemma_lex_trans(s[i].0, e.0, s[j - 1].0);
        } else {
        }
    }
    assert forall|j: int| 0 <= j < s.len() implies s[j].0 != e.0 by {
        lemma_lex_irrefl(e.0);
    }
    assert(!kv_contains(s, e.0));
    lemma_kv_get_at(s2, p);
    assert forall|k2: Seq<u8>| k2 != e.0 implies kv_get(s2, k2) == kv_get(s, k2) by {
        lemma_kv_unique(s);
        lemma_kv_unique(s2);
        if kv_contains(s, k2) {
            let i = kv_idx(s, k2);
            assert(0 <= i < s.len() && s[i].0 == k2);
            let i2 = if i < p {
                i
            } else {
                i + 1
            };
            assert(s2[i2].0 == k2 && s2[i2].1 == s[i].1);
            lemma_kv_get_at(s2, i2);
        } else {
            if kv_contains(s2, k2) {
                let i2 = kv_idx(s2, k2);
                assert(0 <= i2 < s2.len() && s2[i2].0 == k2);
                if i2 < p {
                    assert(s[i2].0 == k2);
                } else if i2 > p {
                    assert(s[i2 - 1].0 == k2);
                }
                assert(false);
            }
        }
    }
}

/// Replacing the value of entry `i` in place: its key maps to the new value
/// and every other key is untouched.
pub proof fn lemma_kv_update<T>(s: Seq<(Seq<u8>, T)>, i: int, e: (Seq<u8>, T))
    requires
        kv_sorted(s),
        0 <= i < s.len(),
        s[i].0 == e.0,
    ensures
        kv_sorted(s.update(i, e)),
        kv_get(s.update(i, e), e.0) == Some(e.1),
        forall|k2: Seq<u8>| k2 != e.0 ==> kv_get(s.update(i, e), k2) == kv_get(s, k2),
{
    let s2 = s.update(i, e);
    assert(forall|j: int| 0 <= j < s.len() ==> (#[trigger] s2[j]).0 == s[j].0);
    assert(kv_sorted(s2));
    lemma_kv_get_at(s2, i);
    assert forall|k2: Seq<u8>| k2 != e.0 implies kv_get(s2, k2) == kv_get(s, k2) by {
        if kv_contains(s, k2) {
            let j = kv_idx(s, k2);
            assert(0 <= j < s.len() && s[j].0 == k2);
            assert(j != i);
            assert(s2[j] == s[j]);
            lemma_kv_get_at(s, j);
            lemma_kv_get_at(s2, j);
        } else {
            if kv_contains(s2, k2) {
                let j = kv_idx(s2, k2);
                assert(s[j].0 == k2);
                assert(false);
            }
        }
    }
}

/// Removing entry `i`: its key is gone and every other key is untouched.
pub proof fn lemma_kv_remove<T>(s: Seq<(Seq<u8>, T)>, i: int)
    requires
        kv_sorted(s),
        0 <= i < s.len(),
    ensures
        kv_sorted(s.remove(i)),
        !kv_contains(s.remove(i), s[i].0),
        forall|k2: Seq<u8>| k2 != s[i].0 ==> kv_get(s.remove(i), k2) == kv_get(s, k2),
{
    let s2 = s.remove(i);
    assert(s2.len() == s.len() - 1);
    assert(forall|j: int| 0 <= j < i ==> s2[j] == s[j]);
    assert(forall|j: int| i <= j < s2.len() ==> s2[j] == s[j + 1]);
    assert forall|p: int, q: int| 0 <= p < q < s2.len() implies lex_lt(
        (#[trigger] s2[p]).0,
        (#[trigger] s2[q]).0,
    ) by {}
    lemma_kv_unique(s);
    assert forall|j: int| 0 <= j < s2.len() implies (#[trigger] s2[j]).0 != s[i].0 by {}
    assert(!kv_contains(s2, s[i].0));
    assert forall|k2: Seq<u8>| k2 != s[i].0 implies kv_get(s2, k2) == kv_get(s, k2) by {
        if kv_contains(s, k2) {
            let j = kv_idx(s, k2);
            assert(0 <= j < s.len() && s[j].0 == k2);
            assert(j != i);
            let j2 = if j < i {
                j
            } else {
                j - 1
            };
            assert(s2[j2].0 == k2 && s2[j2].1 == s[j].1);
            lemma_kv_get_at(s, j);
            lemma_kv_get_at(s2, j2);
        } else {
            if kv_contains(s2, k2) {
                let j2 = kv_idx(s2, k2);
                assert(0 <= j2 < s2.len() && s2[j2].0 == k2);
                if j2 < i {
                    assert(s[j2].0 == k2);
                } else {
                    assert(s[j2 + 1].0 == k2);
                }
                assert(false);
            }
        }
    }
}

/// A measure summed over all entries.
pub open spec fn kv_sum<T>(s: Seq<(Seq<u8>, T)>, f: spec_fn((Seq<u8>, T)) -> int) -> int
    decreases s.len(),
{
    if s.len() == 0 {
        0
    } else {
        f(s[0]) + kv_sum(s.skip(1), f)
    }
}

pub proof fn lemma_kv_sum_insert<T>(s: Seq<(Seq<u8>, T)>, p: int, e: (Seq<u8>, T), f: spec_fn(
    (Seq<u8>, T),
) -> int)
    requires
        0 <= p <= s.len(),
    ensures
        kv_sum(s.insert(p, e), f) == kv_sum(s, f) + f(e),
    decreases s.len(),
{
    let s2 = s.insert(p, e);
    if p == 0 {
        assert(s2[0] == e);
        assert(s2.skip(1) =~= s);
    } else {
        assert(s2[0] == s[0]);
        assert(s2.skip(1) =~= s.skip(1).insert(p - 1, e));
        lemma_kv_sum_insert(s.skip(1), p - 1, e, f);
    }
}

pub proof fn lemma_kv_sum_remove<T>(s: Seq<(Seq<u8>, T)>, i: int, f: spec_fn((Seq<u8>, T)) -> int)
    requires
        0 <= i < s.len(),
    ensures
        kv_sum(s.remove(i), f) == kv_sum(s, f) - f(s[i]),
    decreases s.len(),
{
    let s2 = s.remove(i);
    if i == 0 {
        assert(s2 =~= s.skip(1));
    } else {
        assert(s2[0] == s[0]);
        assert(s2.skip(1) =~= s.skip(1).remove(i - 1));
        lemma_kv_sum_remove(s.skip(1), i - 1, f);
    }
}

pub proof fn lemma_kv_sum_update<T>(s: Seq<(Seq<u8>, T)>, i: int, e: (Seq<u8>, T), f: spec_fn(
    (Seq<u8>, T),
) -> int)
    requires
        0 <= i < s.len(),
    ensures
        kv_sum(s.update(i, e), f) == kv_sum(s, f) - f(s[i]) + f(e),
{
    assert(s.update(i, e) =~= s.remove(i).insert(i, e));
    lemma_kv_sum_remove(s, i, f);
    lemma_kv_sum_insert(s.remove(i), i, e, f);
}

/// A measure that vanishes on every entry sums to nothing.
pub proof fn lemma_kv_sum_zero<T>(s: Seq<(Seq<u8>, T)>, f: spec_fn((Seq<u8>, T)) -> int)
    requires
        forall|i: int| 0 <= i < s.len() ==> f(#[trigger] s[i]) == 0,
    ensures
        kv_sum(s, f) == 0,
    decreases s.len(),
{
    if s.len() > 0 {
        assert(f(s[0]) == 0);
        assert(forall|i: int| 0 <= i < s.skip(1).len() ==> f(#[trigger] s.skip(1)[i]) == 0);
        lemma_kv_sum_zero(s.skip(1), f);
    }
}

/// A nonnegative measure is bounded below by any one entry's contribution.
pub proof fn lemma_kv_sum_bound<T>(s: Seq<(Seq<u8>, T)>, i: int, f: spec_fn((Seq<u8>, T)) -> int)
    requires
        0 <= i < s.len(),
        forall|j: int| 0 <= j < s.len() ==> f(#[trigger] s[j]) >= 0,
    ensures
        kv_sum(s, f) >= f(s[i]),
    decreases s.len(),
{
    if i == 0 {
        lemma_kv_sum_nonneg(s.skip(1), f);
    } else {
        assert(forall|j: int| 0 <= j < s.skip(1).len() ==> f(#[trigger] s.skip(1)[j]) >= 0);
        lemma_kv_sum_bound(s.skip(1), i - 1, f);
    }
}

/// A nonnegative measure sums to something nonnegative.
pub proof fn lemma_kv_sum_nonneg<T>(s: Seq<(Seq<u8>, T)>, f: spec_fn((Seq<u8>, T)) -> int)
    requires
        forall|j: int| 0 <= j < s.len() ==> f(#[trigger] s[j]) >= 0,
    ensures
        kv_sum(s, f) >= 0,
    decreases s.len(),
{
    if s.len() > 0 {
        assert(forall|j: int| 0 <= j < s.skip(1).len() ==> f(#[trigger] s.skip(1)[j]) >= 0);
        lemma_kv_sum_nonneg(s.skip(1), f);
    }
}

/// A key carrying a prefix is lexicographically at or above the prefix.
pub proof fn lemma_prefix_ge(k: Seq<u8>, p: Seq<u8>)
    requires
        has_prefix(k, p),
    ensures
        lex_le(p, k),
    decreases p.len(),
{
    if p.len() == 0 {
        if k.len() == 0 {
            assert(k =~= p);
        }
    } else {
        assert(k.take(p.len() as int)[0] == k[0]);
        assert(k[0] == p[0]);
        assert(has_prefix(k.skip(1), p.skip(1))) by {
            assert(k.skip(1).take(p.len() - 1) =~= k.take(p.len() as int).skip(1));
            assert(p.skip(1) =~= k.take(p.len() as int).skip(1));
        }
        lemma_prefix_ge(k.skip(1), p.skip(1));
        if k.skip(1) == p.skip(1) {
            assert(k =~= p) by {
                assert(k.skip(1).len() == p.skip(1).len());
                assert(forall|i: int| 1 <= i < k.len() ==> #[trigger] k[i] == k.skip(1)[i - 1]);
                assert(forall|i: int| 1 <= i < p.len() ==> #[trigger] p[i] == p.skip(1)[i - 1]);
            }
        }
    }
}

/// An ordered byte-keyed map, the shape every persisted table takes.
pub struct Store<V> {
    entries: Vec<(Vec<u8>, V)>,
}

impl<V: View> Store<V> {
    /// The entries as key/value views, in storage order.
    pub closed spec fn kseq(&self) -> Seq<(Seq<u8>, V::V)> {
        self.entries@.map_values(|e: (Vec<u8>, V)| (e.0@, e.1@))
    }

    /// Keys are held in strictly ascending lexicographic order.
    pub open spec fn wf(&self) -> bool {
        kv_sorted(self.kseq())
    }

    pub fn new() -> (s: Self)
        ensures
            s.kseq() == Seq::<(Seq<u8>, V::V)>::empty(),
            s.wf(),
    {
        let s = Store { entries: Vec::new() };
        proof {
            assert(s.kseq() =~= Seq::<(Seq<u8>, V::V)>::empty());
        }
        s
    }

    pub fn len(&self) -> (n: usize)
        ensures
            n == self.kseq().len(),
    {
        self.entries.len()
    }

    /// The entry at position `i` in key order.
    pub fn entry_at(&self, i: usize) -> (r: &(Vec<u8>, V))
        requires
            i < self.kseq().len(),
        ensures
            (r.0@, r.1@) == self.kseq()[i as int],
    {
        &self.entries[i]
    }

    /// The position of the first key at or above `k`; everything below it is
    /// strictly smaller than `k`.
    fn lower_bound(&self, k: &[u8]) -> (i: usize)
        requires
            self.wf(),
        ensures
            i <= self.kseq().len(),
            forall|j: int| 0 <= j < i ==> lex_lt((#[trigger] self.kseq()[j]).0, k@),
            i < self.kseq().len() ==> !lex_lt(self.kseq()[i as int].0, k@),
    {
        let n = self.entries.len();
        let mut i: usize = 0;
        while i < n
            invariant
                0 <= i <= n,
                n == self.kseq().len(),
                forall|j: int| 0 <= j < i ==> lex_lt((#[trigger] self.kseq()[j]).0, k@),
            decreases n - i,
        {
            proof {
                assert(self.kseq()[i as int] == (self.entries@[i as int].0@,
                self.entries@[i as int].1@));
            }
            if !lex_lt_bytes(self.entries[i].0.as_slice(), k) {
                return i;
            }
            i = i + 1;
        }
        i
    }

    pub fn get(&self, k: &[u8]) -> (r: Option<&V>)
        requires
            self.wf(),
        ensures
            match r {
                Some(v) => kv_get(self.kseq(), k@) == Some(v@),
                None => !kv_contains(self.kseq(), k@),
            },
    {
        let i = self.lower_bound(k);
        if i < self.entries.len() {
            proof {
                assert(self.kseq()[i as int] == (self.entries@[i as int].0@,
                self.entries@[i as int].1@));
            }
            if crate::shared::bytes::bytes_eq(self.entries[i].0.as_slice(), k) {
                proof {
                    lemma_kv_get_at(self.kseq(), i as int);
                }
                return Some(&self.entries[i].1);
            }
        }
        proof {
            let s = self.kseq();
            assert forall|j: int| 0 <= j < s.len() implies (#[trigger] s[j]).0 != k@ by {
                if j < i {
                    lemma_lex_irrefl(k@);
                } else if j == i {
                    lemma_lex_total(s[j].0, k@);
                    lemma_lex_irrefl(k@);
                } else {
                    assert(lex_lt(s[i as int].0, s[j].0));
                    lemma_lex_total(s[i as int].0, k@);
                    lemma_lex_trans(k@, s[i as int].0, s[j].0);
                    lemma_lex_irrefl(k@);
                }
            }
        }
        None
    }

    /// Binds `k` to `v`, replacing any previous binding.
    pub fn insert(&mut self, k: Vec<u8>, v: V)
        requires
            old(self).wf(),
        ensures
            final(self).wf(),
            kv_get(final(self).kseq(), k@) == Some(v@),
            kv_contains(final(self).kseq(), k@),
            forall|k2: Seq<u8>|
                k2 != k@ ==> kv_get(final(self).kseq(), k2) == kv_get(old(self).kseq(), k2),
            kv_contains(old(self).kseq(), k@) ==> final(self).kseq() == old(self).kseq().update(
                kv_idx(old(self).kseq(), k@),
                (k@, v@),
            ),
            !kv_contains(old(self).kseq(), k@) ==> exists|p: int|
                0 <= p <= old(self).kseq().len() && final(self).kseq() == old(
                    self,
                ).kseq().insert(p, (k@, v@)),
            final(self).kseq().len() == old(self).kseq().len() + (if kv_contains(
                old(self).kseq(),
                k@,
            ) {
                0int
            } else {
                1int
            }),
    {
        let ghost s0 = self.kseq();
        let i = self.lower_bound(k.as_slice());
        if i < self.entries.len() {
            proof {
                assert(self.kseq()[i as int] == (self.entries@[i as int].0@,
                self.entries@[i as int].1@));
            }
            if crate::shared::bytes::bytes_eq(self.entries[i].0.as_slice(), k.as_slice()) {
                proof {
                    lemma_kv_get_at(s0, i as int);
                }
                self.entries[i] = (k, v);
                proof {
                    assert(self.kseq() =~= s0.update(i as int, (k@, v@)));
                    lemma_kv_update(s0, i as int, (k@, v@));
                    assert(kv_idx(s0, k@) == i as int);
                }
                return ;
            }
        }
        proof {
            let s = self.kseq();
            if i < s.len() {
                lemma_lex_total(s[i as int].0, k@);
            }
            assert forall|j: int| i <= j < s.len() implies lex_lt(k@, (#[trigger] s[j]).0) by {
                if j > i {
                    assert(lex_lt(s[i as int].0, s[j].0));
                    lemma_lex_trans(k@, s[i as int].0, s[j].0);
                }
            }
        }
        self.entries.insert(i, (k, v));
        proof {
            assert(self.kseq() =~= s0.insert(i as int, (k@, v@)));
            lemma_kv_insert(s0, i as int, (k@, v@));
        }
    }

    /// Drops the binding of `k`, returning the stored value.
    pub fn remove(&mut self, k: &[u8]) -> (r: Option<V>)
        requires
            old(self).wf(),
        ensures
            final(self).wf(),
            !kv_contains(final(self).kseq(), k@),
            forall|k2: Seq<u8>|
                k2 != k@ ==> kv_get(final(self).kseq(), k2) == kv_get(old(self).kseq(), k2),
            match r {
                Some(v) => kv_get(old(self).kseq(), k@) == Some(v@) && final(self).kseq() == old(
                    self,
                ).kseq().remove(kv_idx(old(self).kseq(), k@)),
                None => !kv_contains(old(self).kseq(), k@) && final(self).kseq() == old(
                    self,
                ).kseq(),
            },
    {
        let ghost s0 = self.kseq();
        let i = self.lower_bound(k);
        if i < self.entries.len() {
            proof {
                assert(self.kseq()[i as int] == (self.entries@[i as int].0@,
                self.entries@[i as int].1@));
            }
            if crate::shared::bytes::bytes_eq(self.entries[i].0.as_slice(), k) {
                proof {
                    lemma_kv_get_at(s0, i as int);
                }
                let e = self.entries.remove(i);
                proof {
                    assert(self.kseq() =~= s0.remove(i as int));
                    lemma_kv_remove(s0, i as int);
                    assert(kv_idx(s0, k@) == i as int);
                }
                return Some(e.1);
            }
        }
        proof {
            let s = self.kseq();
            assert forall|j: int| 0 <= j < s.len() implies (#[trigger] s[j]).0 != k@ by {
                if j < i {
                    lemma_lex_irrefl(k@);
                } else if j == i {
                    lemma_lex_total(s[j].0, k@);
                    lemma_lex_irrefl(k@);
                } else {
                    assert(lex_lt(s[i as int].0, s[j].0));
                    lemma_lex_total(s[i as int].0, k@);
                    lemma_lex_trans(k@, s[i as int].0, s[j].0);
                    lemma_lex_irrefl(k@);
                }
            }
        }
        None
    }

    /// Whether the key of entry `i` starts with `p`.
    fn key_has_prefix(&self, i: usize, p: &[u8]) -> (r: bool)
        requires
            i < self.kseq().len(),
        ensures
            r == has_prefix(self.kseq()[i as int].0, p@),
    {
        proof {
            assert(self.kseq()[i as int] == (self.entries@[i as int].0@,
            self.entries@[i as int].1@));
        }
        is_prefix_of(self.entries[i].0.as_slice(), p)
    }

    /// Removes every binding whose key starts with `p`: the range scan begins
    /// at the first key at or above `p` and stops at the first key past the
    /// prefix block.
    pub fn remove_prefix(&mut self, p: &[u8])
        requires
            old(self).wf(),
        ensures
            final(self).wf(),
            forall|k: Seq<u8>| has_prefix(k, p@) ==> !kv_contains(final(self).kseq(), k),
            forall|k: Seq<u8>|
                !has_prefix(k, p@) ==> kv_get(final(self).kseq(), k) == kv_get(old(self).kseq(), k),
    {
        let ghost s0 = self.kseq();
        let i = self.lower_bound(p);
        proof {
            if i < self.kseq().len() {
                lemma_lex_total(self.kseq()[i as int].0, p@);
            }
            assert forall|j: int| 0 <= j < i implies !has_prefix(
                (#[trigger] self.kseq()[j]).0,
                p@,
            ) by {
                if has_prefix(self.kseq()[j].0, p@) {
                    lemma_prefix_ge(self.kseq()[j].0, p@);
                    lemma_lex_irrefl(p@);
                    if lex_lt(p@, self.kseq()[j].0) {
                        lemma_lex_trans(p@, self.kseq()[j].0, p@);
                    }
                }
            }
        }
        while i < self.entries.len() && self.key_has_prefix(i, p)
            invariant
                self.wf(),
                i <= self.kseq().len(),
                forall|j: int| 0 <= j < i ==> !has_prefix((#[trigger] self.kseq()[j]).0, p@),
                i < self.kseq().len() ==> lex_le(p@, self.kseq()[i as int].0),
                forall|k: Seq<u8>|
                    !has_prefix(k, p@) ==> kv_get(self.kseq(), k) == kv_get(s0, k),
                forall|k: Seq<u8>|
                    has_prefix(k, p@) && kv_contains(self.kseq(), k) ==> kv_contains(s0, k),
            decreases self.kseq().len() - i,
        {
            let ghost sb = self.kseq();
            let _ = self.entries.remove(i);
            proof {
                assert(self.kseq() =~= sb.remove(i as int));
                lemma_kv_remove(sb, i as int);
                assert(has_prefix(sb[i as int].0, p@));
                assert forall|k: Seq<u8>| !has_prefix(k, p@) implies kv_get(self.kseq(), k)
                    == kv_get(s0, k) by {
                    assert(k != sb[i as int].0);
                }
                if i < self.kseq().len() {
                    assert(self.kseq()[i as int] == sb[i as int + 1]);
                    assert(lex_lt(sb[i as int].0, sb[i as int + 1].0));
                    lemma_prefix_ge(sb[i as int].0, p@);
                    if lex_lt(p@, sb[i as int].0) {
                        lemma_lex_trans(p@, sb[i as int].0, self.kseq()[i as int].0);
                    }
                }
            }
        }
        proof {
            let s = self.kseq();
            assert forall|k: Seq<u8>| has_prefix(k, p@) implies !kv_contains(self.kseq(), k) by {
                if kv_contains(self.kseq(), k) {
                    let j = kv_idx(s, k);
                    assert(0 <= j < s.len() && s[j].0 == k);
                    assert(j >= i);
                    if j == i {
                        assert(!has_prefix(s[j].0, p@));
                    } else {
                        assert(lex_lt(s[i as int].0, s[j].0));
                        lemma_prefix_ge(k, p@);
                        assert(has_prefix(p@, p@)) by {
                            assert(p@.take(p@.len() as int) =~= p@);
                        }
                        lemma_prefix_between(p@, s[i as int].0, s[j].0, p@);
                        assert(!has_prefix(s[i as int].0, p@));
                        assert(false);
                    }
                }
            }
        }
    }
}

} // verus!
