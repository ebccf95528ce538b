//! The ordered map that every aggregate of a report is built on: entries
//! kept in a vector, strictly ascending by key.

use crate::key::SortKey;
use vstd::prelude::*;

verus! {

/// The entries' keys ascend strictly.
pub open spec fn ascending<K: SortKey, V>(s: Seq<(K, V)>) -> bool {
    forall|i: int, j: int|
        #![trigger s[i], s[j]]
        0 <= i < j < s.len() ==> K::before(s[i].0@, s[j].0@)
}

/// Some entry of `s` has the key `k`.
pub open spec fn has_key<K: SortKey, V>(s: Seq<(K, V)>, k: K::V) -> bool {
    exists|i: int| 0 <= i < s.len() && (#[trigger] s[i]).0@ == k
}

/// The place of the key `k` among the entries.
pub open spec fn position<K: SortKey, V>(s: Seq<(K, V)>, k: K::V) -> int {
    choose|i: int| 0 <= i < s.len() && (#[trigger] s[i]).0@ == k
}

/// The map that the entries stand for.
pub open spec fn entry_map<K: SortKey, V>(s: Seq<(K, V)>) -> Map<K::V, V> {
    Map::new(|k: K::V| has_key(s, k), |k: K::V| s[position(s, k)].1)
}

/// In ascending entries a key occurs once: the entry at `i` is the one the map gives.
pub proof fn lemma_entry_at<K: SortKey, V>(s: Seq<(K, V)>, i: int)
    requires
        ascending(s),
        0 <= i < s.len(),
    ensures
        has_key(s, s[i].0@),
        position(s, s[i].0@) == i,
        entry_map(s).contains_key(s[i].0@),
        entry_map(s)[s[i].0@] == s[i].1,
{
    K::order_laws();
    let k = s[i].0@;
    let j = position(s, k);
    assert(0 <= j < s.len() && s[j].0@ == k);
    if j < i {
        assert(K::before(s[j].0@, s[i].0@));
    } else if i < j {
        assert(K::before(s[i].0@, s[j].0@));
    }
}

/// A key that sorts between the entries before `at` and those from `at` on is new,
/// and inserting it there keeps the order and adds it to the map.
pub proof fn lemma_insert_at<K: SortKey, V>(s: Seq<(K, V)>, at: int, k: K, v: V)
    requires
        ascending(s),
        0 <= at <= s.len(),
        forall|i: int| 0 <= i < at ==> K::before((#[trigger] s[i]).0@, k@),
        forall|i: int| at <= i < s.len() ==> K::before(k@, (#[trigger] s[i]).0@),
    ensures
        !has_key(s, k@),
        ascending(s.insert(at, (k, v))),
        entry_map(s.insert(at, (k, v))) == entry_map(s).insert(k@, v),
{
    K::order_laws();
    let t = s.insert(at, (k, v));
    assert forall|i: int, j: int| 0 <= i < j < t.len() implies K::before(
        (#[trigger] t[i]).0@,
        (#[trigger] t[j]).0@,
    ) by {
        if j < at {
            assert(t[i] == s[i] && t[j] == s[j]);
        } else if j == at {
            assert(t[i] == s[i]);
        } else if i < at {
            assert(t[i] == s[i] && t[j] == s[j - 1]);
            if i < j - 1 {
            } else {
                assert(K::before(s[i].0@, k@));
                assert(K::before(k@, s[j - 1].0@));
            }
        } else if i == at {
            assert(t[j] == s[j - 1]);
        } else {
            assert(t[i] == s[i - 1] && t[j] == s[j - 1]);
        }
    }
    assert(!has_key(s, k@)) by {
        if has_key(s, k@) {
            let i = position(s, k@);
            if i < at {
                assert(K::before(s[i].0@, k@));
            } else {
                assert(K::before(k@, s[i].0@));
            }
        }
    }
    assert forall|q: K::V| has_key(t, q) <==> (q == k@ || has_key(s, q)) by {
        if has_key(t, q) {
            let i = position(t, q);
            if i < at {
                assert(s[i].0@ == q);
            } else if i > at {
                assert(s[i - 1].0@ == q);
            }
        }
        if q == k@ {
            assert(t[at].0@ == q);
        }
        if has_key(s, q) {
            let i = position(s, q);
            if i < at {
                assert(t[i].0@ == q);
            } else {
                assert(t[i + 1].0@ == q);
            }
        }
    }
    assert forall|q: K::V| has_key(t, q) implies #[trigger] entry_map(t)[q] == entry_map(
        s,
    ).insert(k@, v)[q] by {
        let i = position(t, q);
        lemma_entry_at(t, i);
        if i < at {
            lemma_entry_at(s, i);
        } else if i > at {
            lemma_entry_at(s, i - 1);
        }
    }
    assert(entry_map(t) =~= entry_map(s).insert(k@, v));
}

/// Replacing the value of the entry at `i` keeps the order and updates the map at its key.
pub proof fn lemma_update_at<K: SortKey, V>(s: Seq<(K, V)>, i: int, k: K, v: V)
    requires
        ascending(s),
        0 <= i < s.len(),
        k@ == s[i].0@,
    ensures
        ascending(s.update(i, (k, v))),
        entry_map(s.update(i, (k, v))) == entry_map(s).insert(k@, v),
{
    let t = s.update(i, (k, v));
    assert forall|a: int, b: int| 0 <= a < b < t.len() implies K::before(
        (#[trigger] t[a]).0@,
        (#[trigger] t[b]).0@,
    ) by {
        assert(t[a].0@ == s[a].0@ && t[b].0@ == s[b].0@);
    }
    assert forall|q: K::V| has_key(t, q) <==> has_key(s, q) by {
        if has_key(t, q) {
            let j = position(t, q);
            assert(s[j].0@ == q);
        }
        if has_key(s, q) {
            let j = position(s, q);
            assert(t[j].0@ == q);
        }
    }
    lemma_entry_at(s, i);
    assert forall|q: K::V| has_key(t, q) implies #[trigger] entry_map(t)[q] == entry_map(
        s,
    ).insert(k@, v)[q] by {
        let j = position(t, q);
        lemma_entry_at(t, j);
        lemma_entry_at(s, j);
    }
    assert(entry_map(t) =~= entry_map(s).insert(k@, v));
}

/// An ordered map from `K` to `V`.
///
/// Its view is the map from the keys' views to the values; `entries` gives
/// the same content in ascending key order.
#[derive(Debug, PartialEq)]
pub struct AggregateResult<K, V> {
    results: Vec<(K, V)>,
}

impl<K: SortKey, V> AggregateResult<K, V> {
    /// The entries in the order in which they are emitted.
    pub closed spec fn entries(&self) -> Seq<(K, V)> {
        self.results@
    }

    /// The keys ascend strictly, so no key occurs twice.
    pub open spec fn wf(&self) -> bool {
        ascending(self.entries())
    }

    /// The map from the views of the keys to the values.
    pub open spec fn view(&self) -> Map<K::V, V> {
        entry_map(self.entries())
    }

    /// The number of entries is the size of the map.
    pub proof fn lemma_len(&self)
        requires
            self.wf(),
        ensures
            self@.dom().finite(),
            self@.dom().len() == self.entries().len(),
    {
        lemma_entry_count(self.entries());
    }

    pub fn new() -> (r: Self)
        ensures
            r.wf(),
            r.entries() == Seq::<(K, V)>::empty(),
            r@ == Map::<K::V, V>::empty(),
    {
        let r = AggregateResult { results: Vec::new() };
        assert(r@ =~= Map::<K::V, V>::empty());
        r
    }

    /// The map that holds one entry.
    pub fn single(k: K, v: V) -> (r: Self)
        ensures
            r.wf(),
            r.entries() == seq![(k, v)],
            r@ == Map::<K::V, V>::empty().insert(k@, v),
    {
        let mut results = Vec::new();
        results.push((k, v));
        let r = AggregateResult { results };
        proof {
            lemma_insert_at(Seq::<(K, V)>::empty(), 0, k, v);
            assert(Seq::<(K, V)>::empty().insert(0, (k, v)) =~= seq![(k, v)]);
            assert(r.results@ =~= seq![(k, v)]);
            assert(entry_map(Seq::<(K, V)>::empty()) =~= Map::<K::V, V>::empty());
        }
        r
    }

    pub fn len(&self) -> (n: usize)
        ensures
            n == self.entries().len(),
    {
        self.results.len()
    }

    pub fn is_empty(&self) -> (b: bool)
        ensures
            b == (self.entries().len() == 0),
    {
        self.results.len() == 0
    }

    /// Where `key` is, or where it would have to be inserted.
    pub fn locate(&self, key: &K) -> (r: (bool, usize))
        requires
            self.wf(),
        ensures
            r.1 <= self.entries().len(),
            r.0 == self@.contains_key(key@),
            r.0 ==> r.1 < self.entries().len() && self.entries()[r.1 as int].0@ == key@
                && self@[key@] == self.entries()[r.1 as int].1,
            !r.0 ==> (forall|i: int| 0 <= i < r.1 ==> K::before(
                (#[trigger] self.entries()[i]).0@,
                key@,
            )),
            !r.0 ==> (forall|i: int|
                r.1 <= i < self.entries().len() ==> K::before(
                    key@,
                    (#[trigger] self.entries()[i]).0@,
                )),
    {
        let mut lo: usize = 0;
        let mut hi: usize = self.results.len();
        proof {
            K::order_laws();
        }
        while lo < hi
            invariant
                lo <= hi <= self.results@.len(),
                self.wf(),
                forall|i: int| 0 <= i < lo ==> K::before((#[trigger] self.results@[i]).0@, key@),
                forall|i: int|
                    hi <= i < self.results@.len() ==> K::before(
                        key@,
                        (#[trigger] self.results@[i]).0@,
                    ),
            decreases hi - lo,
        {
            let mid = lo + (hi - lo) / 2;
            if self.results[mid].0.precedes(key) {
                proof {
                    K::order_laws();
                    assert forall|i: int| 0 <= i < mid + 1 implies K::before(
                        (#[trigger] self.results@[i]).0@,
                        key@,
                    ) by {
                        if i < mid {
                            assert(K::before(self.results@[i].0@, self.results@[mid as int].0@));
                        }
                    }
                }
                lo = mid + 1;
            } else if key.precedes(&self.results[mid].0) {
                proof {
                    K::order_laws();
                    assert forall|i: int| mid <= i < self.results@.len() implies K::before(
                        key@,
                        (#[trigger] self.results@[i]).0@,
                    ) by {
                        if mid < i {
                            assert(K::before(self.results@[mid as int].0@, self.results@[i].0@));
                        }
                    }
                }
                hi = mid;
            } else {
                proof {
                    K::order_laws();
                    lemma_entry_at(self.results@, mid as int);
                }
                return (true, mid);
            }
        }
        proof {
            K::order_laws();
            if has_key(self.results@, key@) {
                let i = position(self.results@, key@);
                if i < lo {
                    assert(K::before(self.results@[i].0@, key@));
                } else {
                    assert(K::before(key@, self.results@[i].0@));
                }
            }
        }
        (false, lo)
    }

    pub fn contains_key(&self, key: &K) -> (b: bool)
        requires
            self.wf(),
        ensures
            b == self@.contains_key(key@),
    {
        self.locate(key).0
    }

    pub fn get(&self, key: &K) -> (r: Option<&V>)
        requires
            self.wf(),
        ensures
            match r {
                Some(v) => self@.contains_key(key@) && *v == self@[key@],
                None => !self@.contains_key(key@),
            },
    {
        let (found, at) = self.locate(key);
        if found {
            Some(&self.results[at].1)
        } else {
            None
        }
    }

    /// The value under `key`, to be changed in place: the map afterwards
    /// holds under `key` whatever the caller leaves there.
    pub fn get_mut(&mut self, key: &K) -> (r: Option<&mut V>)
        requires
            old(self).wf(),
        ensures
            match r {
                Some(v) => {
                    &&& old(self)@.contains_key(key@)
                    &&& *v == old(self)@[key@]
                    &&& final(self).wf()
                    &&& final(self)@ == old(self)@.insert(key@, *final(v))
                    &&& final(self).entries().len() == old(self).entries().len()
                },
                None => !old(self)@.contains_key(key@) && *final(self) == *old(self),
            },
    {
        let (found, at) = self.locate(key);
        if found {
            Some(self.value_at_mut(at))
        } else {
            None
        }
    }

    /// Puts `v` under `k`, and returns what was there before.
    pub fn insert(&mut self, k: K, v: V) -> (r: Option<V>)
        requires
            old(self).wf(),
        ensures
            final(self).wf(),
            final(self)@ == old(self)@.insert(k@, v),
            match r {
                Some(w) => old(self)@.contains_key(k@) && w == old(self)@[k@],
                None => !old(self)@.contains_key(k@),
            },
    {
        let (found, at) = self.locate(&k);
        if found {
            let mut v = v;
            let ghost before = self.results@;
            let ghost newv = v;
            let slot = &mut self.results[at];
            core::mem::swap(&mut slot.1, &mut v);
            proof {
                lemma_update_at(before, at as int, before[at as int].0, newv);
                assert(self.results@ =~= before.update(at as int, (before[at as int].0, newv)));
            }
            Some(v)
        } else {
            proof {
                lemma_insert_at(self.results@, at as int, k, v);
            }
            self.results.insert(at, (k, v));
            None
        }
    }

    /// Puts a new key where it belongs: `at` is the place that `locate` gave for it.
    pub fn insert_at(&mut self, at: usize, k: K, v: V)
        requires
            old(self).wf(),
            at <= old(self).entries().len(),
            forall|i: int| 0 <= i < at ==> K::before((#[trigger] old(self).entries()[i]).0@, k@),
            forall|i: int|
                at <= i < old(self).entries().len() ==> K::before(
                    k@,
                    (#[trigger] old(self).entries()[i]).0@,
                ),
        ensures
            final(self).wf(),
            final(self).entries() == old(self).entries().insert(at as int, (k, v)),
            final(self)@ == old(self)@.insert(k@, v),
    {
        proof {
            lemma_insert_at(self.results@, at as int, k, v);
        }
        self.results.insert(at, (k, v));
    }

    /// The key of the entry at `i`, counting in ascending key order.
    pub fn key_at(&self, i: usize) -> (k: &K)
        requires
            i < self.entries().len(),
        ensures
            *k == self.entries()[i as int].0,
    {
        &self.results[i].0
    }

    /// The value of the entry at `i`, counting in ascending key order.
    pub fn value_at(&self, i: usize) -> (v: &V)
        requires
            i < self.entries().len(),
        ensures
            *v == self.entries()[i as int].1,
    {
        &self.results[i].1
    }

    /// The value of the entry at `i`, to be changed in place.
    pub fn value_at_mut(&mut self, i: usize) -> (v: &mut V)
        requires
            old(self).wf(),
            i < old(self).entries().len(),
        ensures
            *v == old(self).entries()[i as int].1,
            final(self).wf(),
            final(self).entries() == old(self).entries().update(
                i as int,
                (old(self).entries()[i as int].0, *final(v)),
            ),
            final(self)@ == old(self)@.insert(old(self).entries()[i as int].0@, *final(v)),
    {
        proof {
            let s = self.results@;
            assert forall|w: V|
                #![trigger s.update(i as int, (s[i as int].0, w))]
                ascending(s.update(i as int, (s[i as int].0, w))) && entry_map(
                    s.update(i as int, (s[i as int].0, w)),
                ) == entry_map(s).insert(s[i as int].0@, w) by {
                lemma_update_at(s, i as int, s[i as int].0, w);
            }
        }
        let slot = &mut self.results[i];
        &mut slot.1
    }
}

/// A clone holds clones of the values under the same keys, in the same order.
impl<K: SortKey, V: Clone> Clone for AggregateResult<K, V> {
    fn clone(&self) -> (r: Self)
        ensures
            r.entries().len() == self.entries().len(),
            forall|i: int|
                0 <= i < self.entries().len() ==> (#[trigger] r.entries()[i]).0@
                    == self.entries()[i].0@ && cloned::<V>(self.entries()[i].1, r.entries()[i].1),
    {
        let n = self.results.len();
        let mut results: Vec<(K, V)> = Vec::new();
        let mut i: usize = 0;
        while i < n
            invariant
                i <= n,
                n == self.results@.len(),
                results@.len() == i,
                forall|j: int|
                    0 <= j < i ==> (#[trigger] results@[j]).0@ == self.results@[j].0@ && cloned::<V>(
                        self.results@[j].1,
                        results@[j].1,
                    ),
            decreases n - i,
        {
            let k = self.results[i].0.duplicate();
            let v = self.results[i].1.clone();
            results.push((k, v));
            i += 1;
        }
        AggregateResult { results }
    }
}

/// What can be looked up by key.
pub trait Summary<K: SortKey, V> {
    /// What is held, by the views of the keys.
    spec fn summary(&self) -> Map<K::V, V>;

    /// The internal invariant.
    spec fn orderly(&self) -> bool;

    fn contains_key(&self, k: &K) -> (b: bool)
        requires
            self.orderly(),
        ensures
            b == self.summary().contains_key(k@),
    ;

    fn get(&self, key: &K) -> (r: Option<&V>)
        requires
            self.orderly(),
        ensures
            match r {
                Some(v) => self.summary().contains_key(key@) && *v == self.summary()[key@],
                None => !self.summary().contains_key(key@),
            },
    ;

    fn len(&self) -> (n: usize)
        requires
            self.orderly(),
        ensures
            n == self.summary().dom().len(),
    ;

    fn is_empty(&self) -> (b: bool)
        requires
            self.orderly(),
        ensures
            b == (self.summary().dom().len() == 0),
    ;
}

impl<K: SortKey, V> Summary<K, V> for AggregateResult<K, V> {
    open spec fn summary(&self) -> Map<K::V, V> {
        self@
    }

    open spec fn orderly(&self) -> bool {
        self.wf()
    }

    fn contains_key(&self, k: &K) -> (b: bool) {
        self.locate(k).0
    }

    fn get(&self, key: &K) -> (r: Option<&V>) {
        let (found, at) = self.locate(key);
        if found {
            Some(self.value_at(at))
        } else {
            None
        }
    }

    fn len(&self) -> (n: usize) {
        proof {
            self.lemma_len();
        }
        self.results.len()
    }

    fn is_empty(&self) -> (b: bool) {
        proof {
            self.lemma_len();
        }
        self.results.len() == 0
    }
}

/// Ascending entries are as many as the keys of their map.
pub proof fn lemma_entry_count<K: SortKey, V>(s: Seq<(K, V)>)
    requires
        ascending(s),
    ensures
        entry_map(s).dom().finite(),
        entry_map(s).dom().len() == s.len(),
    decreases s.len(),
{
    if s.len() == 0 {
        assert(entry_map(s).dom() =~= Set::<K::V>::empty());
    } else {
        let t = s.drop_last();
        let last = s.last();
        assert forall|i: int, j: int| 0 <= i < j < t.len() implies K::before(
            (#[trigger] t[i]).0@,
            (#[trigger] t[j]).0@,
        ) by {
            assert(t[i] == s[i] && t[j] == s[j]);
        }
        lemma_entry_count(t);
        assert forall|i: int| 0 <= i < t.len() implies K::before((#[trigger] t[i]).0@, last.0@) by {
            assert(t[i] == s[i]);
            assert(last == s[s.len() - 1]);
        }
        lemma_insert_at(t, t.len() as int, last.0, last.1);
        assert(t.insert(t.len() as int, last) =~= s);
        assert(!entry_map(t).dom().contains(last.0@));
        assert(entry_map(s).dom() =~= entry_map(t).dom().insert(last.0@));
    }
}

} // verus!
