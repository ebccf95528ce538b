//! What every node of the aggregate tree can do: be merged with another node
//! of its kind. The merge is stated on mathematical models, in which counts
//! are unbounded; a node refuses a merge whose counts would leave `u32`.

use crate::key::Label;
use crate::key::SortKey;
use crate::summary::ascending;
use crate::summary::entry_map;
use crate::summary::has_key;
use crate::summary::lemma_entry_at;
use crate::summary::lemma_insert_at;
use crate::summary::position;
use crate::summary::AggregateResult;
use vstd::prelude::*;

verus! {

/// Why a merge is not carried out.
#[derive(Debug)]
pub enum Refusal<E> {
    /// The two sides agree, but a summed count would not fit its integer type.
    Overflow,
    /// The two sides disagree.
    Conflict(E),
}

/// A node of the aggregate tree.
pub trait Aggregate: Sized + Clone {
    /// The mathematical content of a node; counts in it are natural numbers.
    type Model;

    /// What a disagreement between two nodes is reported as.
    type Error;

    /// The node's internal invariant.
    spec fn inv(&self) -> bool;

    /// The node may be kept under a key with this label: a line under its
    /// number, a function under its name, anything else under any key.
    spec fn labelled(&self, label: Label) -> bool;

    spec fn model(&self) -> Self::Model;

    /// The two contents can be merged without disagreement.
    spec fn compatible(a: Self::Model, b: Self::Model) -> bool;

    /// The merge of two contents.
    spec fn merged(a: Self::Model, b: Self::Model) -> Self::Model;

    /// Every count of the content fits `u32`.
    spec fn fits(m: Self::Model) -> bool;

    /// The first disagreement between the two nodes, in emission order.
    spec fn conflict(&self, other: &Self) -> Option<Self::Error>;

    /// Two nodes disagree exactly when their contents are not compatible.
    proof fn lemma_conflict(&self, other: &Self)
        requires
            self.inv(),
            other.inv(),
        ensures
            self.conflict(other) is None <==> Self::compatible(self.model(), other.model()),
    ;

    /// What a node holds fits.
    proof fn lemma_fits(&self)
        requires
            self.inv(),
        ensures
            Self::fits(self.model()),
    ;

    /// Merging is commutative.
    proof fn law_commutative(a: Self::Model, b: Self::Model)
        requires
            Self::compatible(a, b),
        ensures
            Self::compatible(b, a),
            Self::merged(a, b) == Self::merged(b, a),
    ;

    /// Merging is associative, and where one grouping succeeds the other does.
    proof fn law_associative(a: Self::Model, b: Self::Model, c: Self::Model)
        requires
            Self::compatible(a, b),
            Self::compatible(Self::merged(a, b), c),
        ensures
            Self::compatible(b, c),
            Self::compatible(a, Self::merged(b, c)),
            Self::merged(Self::merged(a, b), c) == Self::merged(a, Self::merged(b, c)),
    ;

    /// Whether `other` can be merged into `self`, and if not, why.
    fn check(&self, other: &Self) -> (r: Option<Refusal<Self::Error>>)
        requires
            self.inv(),
            other.inv(),
        ensures
            r == (match self.conflict(other) {
                Some(e) => Some(Refusal::Conflict(e)),
                None => if Self::fits(Self::merged(self.model(), other.model())) {
                    None
                } else {
                    Some(Refusal::Overflow)
                },
            }),
    ;

    /// Merges `other` into `self`.
    fn absorb(&mut self, other: &Self)
        requires
            old(self).inv(),
            other.inv(),
            old(self).conflict(other) is None,
            Self::fits(Self::merged(old(self).model(), other.model())),
        ensures
            final(self).inv(),
            final(self).model() == Self::merged(old(self).model(), other.model()),
            forall|label: Label| old(self).labelled(label) ==> final(self).labelled(label),
    ;

    /// A clone of a node holds what the node holds.
    proof fn lemma_cloned(&self, copy: &Self)
        requires
            self.inv(),
            cloned::<Self>(*self, *copy),
        ensures
            copy.inv(),
            copy.model() == self.model(),
            forall|label: Label| self.labelled(label) ==> copy.labelled(label),
    ;
}

/// Why `b` cannot be merged into `a`, if it cannot: a disagreement comes
/// before an overflow.
pub open spec fn refusal<T: Aggregate>(a: &T, b: &T) -> Option<Refusal<T::Error>> {
    match a.conflict(b) {
        Some(e) => Some(Refusal::Conflict(e)),
        None => if T::fits(T::merged(a.model(), b.model())) {
            None
        } else {
            Some(Refusal::Overflow)
        },
    }
}

/// An execution count: its content is the count as a natural number, and two
/// counts merge by addition.
impl Aggregate for u32 {
    type Model = nat;

    type Error = ();

    open spec fn inv(&self) -> bool {
        true
    }

    open spec fn labelled(&self, label: Label) -> bool {
        true
    }

    open spec fn model(&self) -> nat {
        *self as nat
    }

    open spec fn compatible(a: nat, b: nat) -> bool {
        true
    }

    open spec fn merged(a: nat, b: nat) -> nat {
        a + b
    }

    open spec fn fits(m: nat) -> bool {
        m <= u32::MAX
    }

    open spec fn conflict(&self, other: &Self) -> Option<()> {
        None
    }

    proof fn lemma_conflict(&self, other: &Self) {
    }

    proof fn lemma_fits(&self) {
    }

    proof fn law_commutative(a: nat, b: nat) {
    }

    proof fn law_associative(a: nat, b: nat, c: nat) {
    }

    fn check(&self, other: &Self) -> (r: Option<Refusal<()>>) {
        if *other > u32::MAX - *self {
            Some(Refusal::Overflow)
        } else {
            None
        }
    }

    fn absorb(&mut self, other: &Self) {
        *self = *self + *other;
    }

    proof fn lemma_cloned(&self, copy: &Self) {
    }
}

/// Two maps are compatible where their common keys hold compatible contents.
pub open spec fn map_compatible<K, V: Aggregate>(
    a: Map<K, V::Model>,
    b: Map<K, V::Model>,
) -> bool {
    forall|k: K| #[trigger] a.contains_key(k) && b.contains_key(k) ==> V::compatible(a[k], b[k])
}

/// The merge of two maps: the union of their keys, with the contents under a
/// common key merged.
pub open spec fn map_merged<K, V: Aggregate>(a: Map<K, V::Model>, b: Map<K, V::Model>) -> Map<
    K,
    V::Model,
> {
    Map::new(
        |k: K| a.contains_key(k) || b.contains_key(k),
        |k: K|
            if a.contains_key(k) && b.contains_key(k) {
                V::merged(a[k], b[k])
            } else if a.contains_key(k) {
                a[k]
            } else {
                b[k]
            },
    )
}

/// Every content of the map fits.
pub open spec fn map_fits<K, V: Aggregate>(m: Map<K, V::Model>) -> bool {
    forall|k: K| #[trigger] m.contains_key(k) ==> V::fits(m[k])
}

/// The contents of the values of a map.
pub open spec fn map_model<K, V: Aggregate>(m: Map<K, V>) -> Map<K, V::Model> {
    Map::new(|k: K| m.contains_key(k), |k: K| m[k].model())
}

/// The first entry of `b`, from `from` on, that disagrees with what `a` holds
/// under the same key.
pub open spec fn first_conflict<K: SortKey, V: Aggregate>(
    a: Map<K::V, V>,
    b: Seq<(K, V)>,
    from: int,
) -> Option<V::Error>
    decreases b.len() - from,
{
    if from < 0 || from >= b.len() {
        None
    } else if a.contains_key(b[from].0@) && a[b[from].0@].conflict(&b[from].1) is Some {
        a[b[from].0@].conflict(&b[from].1)
    } else {
        first_conflict(a, b, from + 1)
    }
}

/// Where no entry disagrees from `from` on, none disagrees at `at`.
pub proof fn lemma_no_conflict_at<K: SortKey, V: Aggregate>(
    a: Map<K::V, V>,
    b: Seq<(K, V)>,
    from: int,
    at: int,
)
    requires
        0 <= from <= at < b.len(),
        first_conflict(a, b, from) is None,
    ensures
        a.contains_key(b[at].0@) ==> a[b[at].0@].conflict(&b[at].1) is None,
    decreases at - from,
{
    if from < at {
        lemma_no_conflict_at(a, b, from + 1, at);
    }
}

/// Where every entry agrees from `from` on, there is no first disagreement.
pub proof fn lemma_no_conflict<K: SortKey, V: Aggregate>(a: Map<K::V, V>, b: Seq<(K, V)>, from: int)
    requires
        0 <= from,
        forall|i: int|
            from <= i < b.len() && a.contains_key((#[trigger] b[i]).0@) ==> a[b[i].0@].conflict(
                &b[i].1,
            ) is None,
    ensures
        first_conflict(a, b, from) is None,
    decreases b.len() - from,
{
    if from < b.len() {
        assert(a.contains_key(b[from].0@) ==> a[b[from].0@].conflict(&b[from].1) is None);
        lemma_no_conflict(a, b, from + 1);
    }
}

/// A disagreement of two maps is the disagreement at a key that both hold:
/// the first in key order at which they disagree.
pub proof fn lemma_conflict_at<K: SortKey, V: Aggregate>(
    a: Map<K::V, V>,
    b: Seq<(K, V)>,
    from: int,
)
    requires
        ascending(b),
        0 <= from,
        first_conflict(a, b, from) is Some,
    ensures
        exists|i: int|
            {
                &&& from <= i < b.len()
                &&& a.contains_key((#[trigger] b[i]).0@)
                &&& a[b[i].0@].conflict(&b[i].1) == first_conflict(a, b, from)
                &&& forall|j: int|
                    from <= j < i && a.contains_key((#[trigger] b[j]).0@) ==> a[b[j].0@].conflict(
                        &b[j].1,
                    ) is None
            },
    decreases b.len() - from,
{
    if a.contains_key(b[from].0@) && a[b[from].0@].conflict(&b[from].1) is Some {
        assert(a.contains_key(b[from].0@));
    } else {
        lemma_conflict_at(a, b, from + 1);
        let i = choose|i: int|
            {
                &&& from + 1 <= i < b.len()
                &&& a.contains_key((#[trigger] b[i]).0@)
                &&& a[b[i].0@].conflict(&b[i].1) == first_conflict(a, b, from + 1)
                &&& forall|j: int|
                    from + 1 <= j < i && a.contains_key((#[trigger] b[j]).0@)
                        ==> a[b[j].0@].conflict(&b[j].1) is None
            };
        assert(a.contains_key(b[i].0@));
        assert forall|j: int|
            from <= j < i && a.contains_key((#[trigger] b[j]).0@) implies a[b[j].0@].conflict(
            &b[j].1,
        ) is None by {
            if j == from {
            }
        }
    }
}

/// A prefix of ascending entries ascends, and one entry more adds its key.
pub proof fn lemma_take<K: SortKey, V>(s: Seq<(K, V)>, n: int)
    requires
        ascending(s),
        0 <= n < s.len(),
    ensures
        ascending(s.take(n)),
        ascending(s.take(n + 1)),
        !has_key(s.take(n), s[n].0@),
        entry_map(s.take(n + 1)) == entry_map(s.take(n)).insert(s[n].0@, s[n].1),
{
    let t = s.take(n);
    assert forall|i: int, j: int| 0 <= i < j < t.len() implies K::before(
        (#[trigger] t[i]).0@,
        (#[trigger] t[j]).0@,
    ) by {
        assert(t[i] == s[i] && t[j] == s[j]);
    }
    assert forall|i: int| 0 <= i < n implies K::before((#[trigger] t[i]).0@, s[n].0@) by {
        assert(t[i] == s[i]);
    }
    lemma_insert_at(t, n, s[n].0, s[n].1);
    assert(t.insert(n, s[n]) =~= s.take(n + 1));
}

impl<K: SortKey, V: Aggregate> Aggregate for AggregateResult<K, V> {
    type Model = Map<K::V, V::Model>;

    type Error = V::Error;

    /// The keys ascend, and every value is well formed and kept under a
    /// key that it may be kept under.
    open spec fn inv(&self) -> bool {
        &&& self.wf()
        &&& forall|i: int|
            0 <= i < self.entries().len() ==> (#[trigger] self.entries()[i]).1.inv()
                && self.entries()[i].1.labelled(K::label(self.entries()[i].0@))
    }

    open spec fn labelled(&self, label: Label) -> bool {
        true
    }

    open spec fn model(&self) -> Map<K::V, V::Model> {
        map_model::<K::V, V>(self@)
    }

    open spec fn compatible(a: Map<K::V, V::Model>, b: Map<K::V, V::Model>) -> bool {
        map_compatible::<K::V, V>(a, b)
    }

    open spec fn merged(a: Map<K::V, V::Model>, b: Map<K::V, V::Model>) -> Map<K::V, V::Model> {
        map_merged::<K::V, V>(a, b)
    }

    open spec fn fits(m: Map<K::V, V::Model>) -> bool {
        map_fits::<K::V, V>(m)
    }

    open spec fn conflict(&self, other: &Self) -> Option<V::Error> {
        first_conflict(self@, other.entries(), 0)
    }

    proof fn lemma_conflict(&self, other: &Self) {
        let a = self@;
        let b = other.entries();
        if first_conflict(a, b, 0) is None {
            assert forall|k: K::V| #[trigger]
                self.model().contains_key(k) && other.model().contains_key(k) implies V::compatible(
                self.model()[k],
                other.model()[k],
            ) by {
                let i = position(b, k);
                lemma_entry_at(b, i);
                lemma_no_conflict_at(a, b, 0, i);
                let j = position(self.entries(), k);
                lemma_entry_at(self.entries(), j);
                a[k].lemma_conflict(&b[i].1);
            }
        }
        if Self::compatible(self.model(), other.model()) {
            assert forall|i: int|
                0 <= i < b.len() && a.contains_key((#[trigger] b[i]).0@) implies a[b[i].0@].conflict(
                &b[i].1,
            ) is None by {
                let k = b[i].0@;
                lemma_entry_at(b, i);
                let j = position(self.entries(), k);
                lemma_entry_at(self.entries(), j);
                assert(self.model().contains_key(k) && other.model().contains_key(k));
                a[k].lemma_conflict(&b[i].1);
            }
            lemma_no_conflict(a, b, 0);
        }
    }

    proof fn lemma_fits(&self) {
        assert forall|k: K::V| #[trigger] self.model().contains_key(k) implies V::fits(
            self.model()[k],
        ) by {
            let j = position(self.entries(), k);
            lemma_entry_at(self.entries(), j);
            self.entries()[j].1.lemma_fits();
        }
    }

    proof fn law_commutative(a: Map<K::V, V::Model>, b: Map<K::V, V::Model>) {
        assert forall|k: K::V| #[trigger] b.contains_key(k) && a.contains_key(k) implies V::compatible(
            b[k],
            a[k],
        ) by {
            V::law_commutative(a[k], b[k]);
        }
        assert forall|k: K::V| a.contains_key(k) && b.contains_key(k) implies V::merged(a[k], b[k])
            == V::merged(b[k], a[k]) by {
            V::law_commutative(a[k], b[k]);
        }
        assert(map_merged::<K::V, V>(a, b) =~= map_merged::<K::V, V>(b, a));
    }

    proof fn law_associative(
        a: Map<K::V, V::Model>,
        b: Map<K::V, V::Model>,
        c: Map<K::V, V::Model>,
    ) {
        let ab = map_merged::<K::V, V>(a, b);
        let bc = map_merged::<K::V, V>(b, c);
        assert forall|k: K::V|
            a.contains_key(k) && b.contains_key(k) && c.contains_key(k) implies V::compatible(
            b[k],
            c[k],
        ) && V::compatible(a[k], V::merged(b[k], c[k])) && V::merged(V::merged(a[k], b[k]), c[k])
            == V::merged(a[k], V::merged(b[k], c[k])) by {
            assert(ab.contains_key(k) && c.contains_key(k));
            V::law_associative(a[k], b[k], c[k]);
        }
        assert forall|k: K::V| #[trigger] b.contains_key(k) && c.contains_key(k) implies V::compatible(
            b[k],
            c[k],
        ) by {
            assert(ab.contains_key(k) && c.contains_key(k));
        }
        assert forall|k: K::V| #[trigger] a.contains_key(k) && bc.contains_key(k) implies V::compatible(
            a[k],
            bc[k],
        ) by {
            if b.contains_key(k) && c.contains_key(k) {
            } else if b.contains_key(k) {
                assert(a.contains_key(k) && b.contains_key(k));
            } else {
                assert(ab.contains_key(k) && c.contains_key(k));
            }
        }
        assert(map_merged::<K::V, V>(ab, c) =~= map_merged::<K::V, V>(a, bc));
    }

    fn check(&self, other: &Self) -> (r: Option<Refusal<V::Error>>) {
        let n = other.len();
        let mut overflow = false;
        let mut i: usize = 0;
        let ghost a = self@;
        let ghost b = other.entries();
        while i < n
            invariant
                i <= n,
                n == b.len(),
                a == self@,
                b == other.entries(),
                self.inv(),
                other.inv(),
                first_conflict(a, b, 0) == first_conflict(a, b, i as int),
                overflow <==> exists|j: int|
                    0 <= j < i && a.contains_key((#[trigger] b[j]).0@) && !V::fits(
                        V::merged(a[b[j].0@].model(), b[j].1.model()),
                    ),
            decreases n - i,
        {
            let key = other.key_at(i);
            let value = other.value_at(i);
            let (found, at) = self.locate(key);
            if found {
                proof {
                    lemma_entry_at(self.entries(), at as int);
                }
                match self.value_at(at).check(value) {
                    Some(Refusal::Conflict(e)) => {
                        return Some(Refusal::Conflict(e));
                    },
                    Some(Refusal::Overflow) => {
                        overflow = true;
                    },
                    None => {},
                }
            }
            i += 1;
        }
        proof {
            self.lemma_merged_fits(other);
        }
        if overflow {
            Some(Refusal::Overflow)
        } else {
            None
        }
    }

    fn absorb(&mut self, other: &Self) {
        let n = other.len();
        let mut i: usize = 0;
        let ghost a = self@;
        let ghost b = other.entries();
        proof {
            assert(b.take(0) =~= Seq::<(K, V)>::empty());
            assert(map_model::<K::V, V>(entry_map(b.take(0))) =~= Map::<K::V, V::Model>::empty());
            assert(self.model() =~= map_merged::<K::V, V>(
                map_model::<K::V, V>(a),
                map_model::<K::V, V>(entry_map(b.take(0))),
            ));
            old(self).lemma_merged_fits(other);
        }
        while i < n
            invariant
                i <= n,
                n == b.len(),
                a == old(self)@,
                b == other.entries(),
                self.inv(),
                other.inv(),
                first_conflict(a, b, 0) is None,
                forall|j: int|
                    0 <= j < b.len() && a.contains_key((#[trigger] b[j]).0@) ==> V::fits(
                        V::merged(a[b[j].0@].model(), b[j].1.model()),
                    ),
                self.model() == map_merged::<K::V, V>(
                    map_model::<K::V, V>(a),
                    map_model::<K::V, V>(entry_map(b.take(i as int))),
                ),
                forall|k: K::V|
                    !has_key(b.take(i as int), k) ==> (#[trigger] self@.contains_key(k)
                        == a.contains_key(k)) && (a.contains_key(k) ==> self@[k] == a[k]),
            decreases n - i,
        {
            let key = other.key_at(i);
            let value = other.value_at(i);
            let (found, at) = self.locate(key);
            let ghost before = self@;
            let ghost before_entries = self.entries();
            proof {
                lemma_take(b, i as int);
                lemma_no_conflict_at(a, b, 0, i as int);
                assert(self@.contains_key(key@) == a.contains_key(key@));
            }
            if found {
                proof {
                    lemma_entry_at(self.entries(), at as int);
                    assert(self@[key@] == a[key@]);
                }
                let slot = self.value_at_mut(at);
                slot.absorb(value);
                proof {
                    assert(self@ == before.insert(key@, self@[key@]));
                    assert(self@[key@].model() == V::merged(a[key@].model(), value.model()));
                    assert(self.model() =~= map_model::<K::V, V>(before).insert(
                        key@,
                        V::merged(a[key@].model(), value.model()),
                    ));
                    assert forall|j: int| 0 <= j < self.entries().len() implies (
                    #[trigger] self.entries()[j]).1.inv() && self.entries()[j].1.labelled(
                    K::label(self.entries()[j].0@),
                ) by {
                        if j != at {
                            assert(self.entries()[j] == before_entries[j]);
                        }
                    }
                }
            } else {
                let k = key.duplicate();
                let v = value.clone();
                proof {
                    value.lemma_cloned(&v);
                    lemma_insert_at(self.entries(), at as int, k, v);
                }
                self.insert_at(at, k, v);
                proof {
                    assert(!a.contains_key(key@));
                    assert(self.model() =~= map_model::<K::V, V>(before).insert(
                        key@,
                        value.model(),
                    ));
                    assert forall|j: int| 0 <= j < self.entries().len() implies (
                    #[trigger] self.entries()[j]).1.inv() && self.entries()[j].1.labelled(
                    K::label(self.entries()[j].0@),
                ) by {
                        if j < at {
                            assert(self.entries()[j] == before_entries[j]);
                        } else if j > at {
                            assert(self.entries()[j] == before_entries[j - 1]);
                        }
                    }
                }
            }
            proof {
                let m0 = map_model::<K::V, V>(a);
                let p0 = map_model::<K::V, V>(entry_map(b.take(i as int)));
                let p1 = map_model::<K::V, V>(entry_map(b.take(i + 1)));
                assert(p1 =~= p0.insert(key@, value.model()));
                assert(!p0.contains_key(key@));
                assert(m0.contains_key(key@) == a.contains_key(key@));
                assert(a.contains_key(key@) ==> m0[key@] == a[key@].model());
                assert(self.model() =~= map_merged::<K::V, V>(m0, p1));
                assert forall|k: K::V| !has_key(b.take(i + 1), k) implies (
                #[trigger] self@.contains_key(k) == a.contains_key(k)) && (a.contains_key(k)
                    ==> self@[k] == a[k]) by {
                    assert(entry_map(b.take(i + 1)).contains_key(k) == has_key(b.take(i + 1), k));
                    assert(entry_map(b.take(i as int)).contains_key(k) == has_key(
                        b.take(i as int),
                        k,
                    ));
                }
            }
            i += 1;
        }
        proof {
            assert(b.take(n as int) =~= b);
        }
    }

    proof fn lemma_cloned(&self, copy: &Self) {
        let a = self.entries();
        let b = copy.entries();
        assert forall|i: int, j: int| 0 <= i < j < b.len() implies K::before(
            (#[trigger] b[i]).0@,
            (#[trigger] b[j]).0@,
        ) by {
            assert(K::before(a[i].0@, a[j].0@));
        }
        assert forall|i: int| 0 <= i < b.len() implies (#[trigger] b[i]).1.inv() && b[i].1.model()
            == a[i].1.model() && b[i].1.labelled(K::label(b[i].0@)) by {
            a[i].1.lemma_cloned(&b[i].1);
        }
        assert forall|k: K::V| has_key(a, k) <==> has_key(b, k) by {
            if has_key(a, k) {
                let i = position(a, k);
                assert(b[i].0@ == k);
            }
            if has_key(b, k) {
                let i = position(b, k);
                assert(a[i].0@ == k);
            }
        }
        assert forall|k: K::V| has_key(a, k) implies #[trigger] copy.model()[k] == self.model()[k] by {
            let i = position(a, k);
            lemma_entry_at(a, i);
            lemma_entry_at(b, i);
        }
        assert(copy.model() =~= self.model());
    }
}

/// Why `v` cannot be merged into the map under the key `k`, if it cannot.
pub open spec fn entry_refusal<K, V: Aggregate>(m: Map<K, V>, k: K, v: &V) -> Option<
    Refusal<V::Error>,
> {
    if m.contains_key(k) {
        refusal(&m[k], v)
    } else {
        None
    }
}

/// The map with `v` merged into it under the key `k`.
pub open spec fn entry_merged<K, V: Aggregate>(m: Map<K, V::Model>, k: K, v: V::Model) -> Map<
    K,
    V::Model,
> {
    m.insert(
        k,
        if m.contains_key(k) {
            V::merged(m[k], v)
        } else {
            v
        },
    )
}

/// Merging one entry is merging the map that holds nothing else.
pub proof fn lemma_entry_merged<K, V: Aggregate>(m: Map<K, V::Model>, k: K, v: V::Model)
    ensures
        entry_merged::<K, V>(m, k, v) == map_merged::<K, V>(m, Map::empty().insert(k, v)),
        map_compatible::<K, V>(m, Map::empty().insert(k, v)) <==> (m.contains_key(k)
            ==> V::compatible(m[k], v)),
{
    let single = Map::<K, V::Model>::empty().insert(k, v);
    assert(single.contains_key(k));
    assert(entry_merged::<K, V>(m, k, v) =~= map_merged::<K, V>(m, single));
    if m.contains_key(k) ==> V::compatible(m[k], v) {
        assert forall|q: K| #[trigger] m.contains_key(q) && single.contains_key(q) implies V::compatible(
            m[q],
            single[q],
        ) by {
            assert(q == k);
        }
    }
    if map_compatible::<K, V>(m, single) {
        assert(m.contains_key(k) && single.contains_key(k) ==> V::compatible(m[k], single[k]));
    }
}

/// Merging a map of one entry into a map is merging that entry into it.
pub proof fn lemma_single<K: SortKey, V: Aggregate>(
    a: &AggregateResult<K, V>,
    single: &AggregateResult<K, V>,
    k: K,
    v: V,
)
    requires
        a.inv(),
        v.inv(),
        v.labelled(K::label(k@)),
        single.wf(),
        single.entries() == seq![(k, v)],
    ensures
        single.inv(),
        single.model() == Map::<K::V, V::Model>::empty().insert(k@, v.model()),
        refusal(a, single) == entry_refusal(a@, k@, &v),
        map_merged::<K::V, V>(a.model(), single.model()) == entry_merged::<K::V, V>(
            a.model(),
            k@,
            v.model(),
        ),
{
    reveal_with_fuel(first_conflict, 2);
    let b = single.entries();
    assert(b[0] == (k, v));
    lemma_entry_at(b, 0);
    assert(single@ =~= Map::<K::V, V>::empty().insert(k@, v)) by {
        assert forall|q: K::V| single@.contains_key(q) implies q == k@ by {
            let j = position(b, q);
            assert(j == 0);
        }
    }
    assert(single.model() =~= Map::<K::V, V::Model>::empty().insert(k@, v.model()));
    a.lemma_merged_fits(single);
    lemma_entry_merged::<K::V, V>(a.model(), k@, v.model());
    if a@.contains_key(k@) {
        assert(a.model().contains_key(k@));
        if a@[k@].conflict(&v) is None {
            if V::fits(V::merged(a@[k@].model(), v.model())) {
                assert forall|j: int|
                    0 <= j < b.len() && a@.contains_key((#[trigger] b[j]).0@) implies V::fits(
                    V::merged(a@[b[j].0@].model(), b[j].1.model()),
                ) by {
                    assert(j == 0);
                }
            } else {
                assert(a@.contains_key(b[0].0@));
            }
        }
    } else {
        assert forall|j: int|
            0 <= j < b.len() && a@.contains_key((#[trigger] b[j]).0@) implies V::fits(
            V::merged(a@[b[j].0@].model(), b[j].1.model()),
        ) by {
            assert(j == 0);
        }
    }
}

/// Merging an empty map into a map changes nothing, and nothing stands against it.
pub proof fn lemma_empty<K: SortKey, V: Aggregate>(
    a: &AggregateResult<K, V>,
    empty: &AggregateResult<K, V>,
)
    requires
        a.inv(),
        empty.entries().len() == 0,
    ensures
        empty.inv(),
        empty.model() == Map::<K::V, V::Model>::empty(),
        refusal(a, empty) is None,
        map_merged::<K::V, V>(a.model(), empty.model()) == a.model(),
        map_merged::<K::V, V>(empty.model(), a.model()) == a.model(),
{
    assert(empty.model() =~= Map::<K::V, V::Model>::empty());
    assert(map_merged::<K::V, V>(a.model(), empty.model()) =~= a.model());
    assert(map_merged::<K::V, V>(empty.model(), a.model()) =~= a.model());
    a.lemma_fits();
}

impl<K: SortKey, V: Aggregate> AggregateResult<K, V> {
    /// What a well-formed map holds under a key is well formed, and may be
    /// kept under that key.
    pub proof fn lemma_held(&self, key: K::V)
        requires
            self.inv(),
            self@.contains_key(key),
        ensures
            self@[key].inv(),
            self@[key].labelled(K::label(key)),
            self.model().contains_key(key),
            self.model()[key] == self@[key].model(),
    {
        let j = position(self.entries(), key);
        lemma_entry_at(self.entries(), j);
    }

    /// A disagreement of two maps is the disagreement of what they hold
    /// under a common key, and they agree under every common key before it.
    pub proof fn lemma_conflict_key(&self, other: &Self) -> (key: K::V)
        requires
            self.inv(),
            other.inv(),
            self.conflict(other) is Some,
        ensures
            self@.contains_key(key),
            other@.contains_key(key),
            self@[key].conflict(&other@[key]) == self.conflict(other),
            forall|k: K::V|
                self@.contains_key(k) && #[trigger] other@.contains_key(k) && K::before(k, key)
                    ==> self@[k].conflict(&other@[k]) is None,
    {
        let a = self@;
        let b = other.entries();
        lemma_conflict_at(a, b, 0);
        let i = choose|i: int|
            {
                &&& 0 <= i < b.len()
                &&& a.contains_key((#[trigger] b[i]).0@)
                &&& a[b[i].0@].conflict(&b[i].1) == first_conflict(a, b, 0)
                &&& forall|j: int|
                    0 <= j < i && a.contains_key((#[trigger] b[j]).0@) ==> a[b[j].0@].conflict(
                        &b[j].1,
                    ) is None
            };
        lemma_entry_at(b, i);
        K::order_laws();
        assert forall|k: K::V|
            self@.contains_key(k) && #[trigger] other@.contains_key(k) && K::before(
                k,
                b[i].0@,
            ) implies self@[k].conflict(&other@[k]) is None by {
            let j = position(b, k);
            lemma_entry_at(b, j);
            if j >= i {
                if j > i {
                    assert(K::before(b[i].0@, b[j].0@));
                }
            } else {
                assert(a.contains_key(b[j].0@));
            }
        }
        b[i].0@
    }

    /// Merges `value` into what the map holds under `key`, or puts it there
    /// if the key is new; on a refusal the map is left as it was. The value
    /// has to be one that may be kept under the key.
    pub fn merge_entry(&mut self, key: &K, value: V) -> (r: Result<(), Refusal<V::Error>>)
        requires
            old(self).inv(),
            value.inv(),
            value.labelled(K::label(key@)),
        ensures
            final(self).inv(),
            match r {
                Ok(()) => entry_refusal(old(self)@, key@, &value) is None && final(self).model()
                    == entry_merged::<K::V, V>(old(self).model(), key@, value.model()),
                Err(x) => entry_refusal(old(self)@, key@, &value) == Some(x) && *final(self)
                    == *old(self),
            },
    {
        let (found, at) = self.locate(key);
        let ghost before = self@;
        let ghost before_entries = self.entries();
        if found {
            proof {
                lemma_entry_at(self.entries(), at as int);
            }
            match self.value_at(at).check(&value) {
                Some(x) => {
                    return Err(x);
                },
                None => {},
            }
            let slot = self.value_at_mut(at);
            slot.absorb(&value);
            proof {
                assert(self@ == before.insert(key@, self@[key@]));
                assert(self.model() =~= entry_merged::<K::V, V>(
                    map_model::<K::V, V>(before),
                    key@,
                    value.model(),
                ));
                assert forall|j: int| 0 <= j < self.entries().len() implies (
                #[trigger] self.entries()[j]).1.inv() && self.entries()[j].1.labelled(
                    K::label(self.entries()[j].0@),
                ) by {
                    if j != at {
                        assert(self.entries()[j] == before_entries[j]);
                    }
                }
            }
        } else {
            let k = key.duplicate();
            let ghost model = value.model();
            self.insert_at(at, k, value);
            proof {
                assert(self.model() =~= entry_merged::<K::V, V>(
                    map_model::<K::V, V>(before),
                    key@,
                    model,
                ));
                assert forall|j: int| 0 <= j < self.entries().len() implies (
                #[trigger] self.entries()[j]).1.inv() && self.entries()[j].1.labelled(
                    K::label(self.entries()[j].0@),
                ) by {
                    if j < at {
                        assert(self.entries()[j] == before_entries[j]);
                    } else if j > at {
                        assert(self.entries()[j] == before_entries[j - 1]);
                    }
                }
            }
        }
        Ok(())
    }

    /// Merges `value` into what the map holds under `key`, or puts a copy of
    /// it there if the key is new; on a refusal the map is left as it was.
    pub fn merge_entry_ref(&mut self, key: &K, value: &V) -> (r: Result<(), Refusal<V::Error>>)
        requires
            old(self).inv(),
            value.inv(),
            value.labelled(K::label(key@)),
        ensures
            final(self).inv(),
            match r {
                Ok(()) => entry_refusal(old(self)@, key@, value) is None && final(self).model()
                    == entry_merged::<K::V, V>(old(self).model(), key@, value.model()),
                Err(x) => entry_refusal(old(self)@, key@, value) == Some(x) && *final(self)
                    == *old(self),
            },
    {
        let (found, at) = self.locate(key);
        let ghost before = self@;
        let ghost before_entries = self.entries();
        if found {
            proof {
                lemma_entry_at(self.entries(), at as int);
            }
            match self.value_at(at).check(value) {
                Some(x) => {
                    return Err(x);
                },
                None => {},
            }
            let slot = self.value_at_mut(at);
            slot.absorb(value);
            proof {
                assert(self@ == before.insert(key@, self@[key@]));
                assert(self.model() =~= entry_merged::<K::V, V>(
                    map_model::<K::V, V>(before),
                    key@,
                    value.model(),
                ));
                assert forall|j: int| 0 <= j < self.entries().len() implies (
                #[trigger] self.entries()[j]).1.inv() && self.entries()[j].1.labelled(
                    K::label(self.entries()[j].0@),
                ) by {
                    if j != at {
                        assert(self.entries()[j] == before_entries[j]);
                    }
                }
            }
        } else {
            let k = key.duplicate();
            let v = value.clone();
            proof {
                value.lemma_cloned(&v);
            }
            self.insert_at(at, k, v);
            proof {
                assert(self.model() =~= entry_merged::<K::V, V>(
                    map_model::<K::V, V>(before),
                    key@,
                    value.model(),
                ));
                assert forall|j: int| 0 <= j < self.entries().len() implies (
                #[trigger] self.entries()[j]).1.inv() && self.entries()[j].1.labelled(
                    K::label(self.entries()[j].0@),
                ) by {
                    if j < at {
                        assert(self.entries()[j] == before_entries[j]);
                    } else if j > at {
                        assert(self.entries()[j] == before_entries[j - 1]);
                    }
                }
            }
        }
        Ok(())
    }

    /// The merge of the two maps fits exactly when it fits under every key
    /// that both hold.
    pub proof fn lemma_merged_fits(&self, other: &Self)
        requires
            self.inv(),
            other.inv(),
        ensures
            map_fits::<K::V, V>(map_merged::<K::V, V>(self.model(), other.model())) <==> (forall|
                j: int,
            |
                0 <= j < other.entries().len() && self@.contains_key(
                    (#[trigger] other.entries()[j]).0@,
                ) ==> V::fits(
                    V::merged(self@[other.entries()[j].0@].model(), other.entries()[j].1.model()),
                )),
    {
        let a = self@;
        let b = other.entries();
        let m = map_merged::<K::V, V>(self.model(), other.model());
        self.lemma_fits();
        other.lemma_fits();
        if map_fits::<K::V, V>(m) {
            assert forall|j: int|
                0 <= j < b.len() && a.contains_key((#[trigger] b[j]).0@) implies V::fits(
                V::merged(a[b[j].0@].model(), b[j].1.model()),
            ) by {
                lemma_entry_at(b, j);
                assert(m.contains_key(b[j].0@));
            }
        }
        if forall|j: int|
            0 <= j < b.len() && a.contains_key((#[trigger] b[j]).0@) ==> V::fits(
                V::merged(a[b[j].0@].model(), b[j].1.model()),
            ) {
            assert forall|k: K::V| #[trigger] m.contains_key(k) implies V::fits(m[k]) by {
                if self.model().contains_key(k) && other.model().contains_key(k) {
                    let j = position(b, k);
                    lemma_entry_at(b, j);
                } else if self.model().contains_key(k) {
                    assert(self.model().contains_key(k));
                } else {
                    assert(other.model().contains_key(k));
                }
            }
        }
    }
}

} // verus!
