//! Counting what was found and what was hit.

use crate::key::SortKey;
use crate::summary::AggregateResult;
use vstd::prelude::*;

verus! {

/// Something that was executed or not.
pub trait Hit {
    /// It was executed at least once.
    spec fn hit(&self) -> bool;

    fn is_hit(&self) -> (hit: bool)
        ensures
            hit == self.hit(),
    ;
}

/// A collection that knows how many of its entries were hit.
pub trait HitCounter {
    /// The number of entries with a count above zero.
    spec fn hits(&self) -> nat;

    /// The collection's internal invariant.
    spec fn countable(&self) -> bool;

    fn hit_count(&self) -> (n: usize)
        requires
            self.countable(),
        ensures
            n == self.hits(),
    ;
}

/// A collection that knows how many entries it has.
pub trait FoundCounter {
    /// The number of entries.
    spec fn founds(&self) -> nat;

    /// The collection's internal invariant.
    spec fn findable(&self) -> bool;

    fn found_count(&self) -> (n: usize)
        requires
            self.findable(),
        ensures
            n == self.founds(),
    ;
}

/// A collection that counts both: it cannot have more hits than entries.
pub trait HitFoundCounter: HitCounter + FoundCounter {
    proof fn lemma_hits_within_founds(&self)
        ensures
            self.hits() <= self.founds(),
    ;
}

/// The entries that were hit.
pub open spec fn hit_entries<K, V: Hit>(s: Seq<(K, V)>) -> Seq<(K, V)> {
    s.filter(|e: (K, V)| e.1.hit())
}

/// The hits of a map are its entries with a count above zero.
impl<K: SortKey, V: Hit> HitCounter for AggregateResult<K, V> {
    open spec fn hits(&self) -> nat {
        hit_entries(self.entries()).len()
    }

    open spec fn countable(&self) -> bool {
        true
    }

    fn hit_count(&self) -> (n: usize) {
        let total = self.len();
        let mut n: usize = 0;
        let mut i: usize = 0;
        let ghost s = self.entries();
        proof {
            reveal(Seq::filter);
            assert(s.take(0) =~= Seq::<(K, V)>::empty());
        }
        while i < total
            invariant
                i <= total,
                total == s.len(),
                s == self.entries(),
                n <= i,
                n == hit_entries(s.take(i as int)).len(),
            decreases total - i,
        {
            proof {
                reveal(Seq::filter);
                assert(s.take(i + 1).drop_last() =~= s.take(i as int));
                assert(s.take(i + 1).last() == s[i as int]);
            }
            if self.value_at(i).is_hit() {
                n += 1;
            }
            i += 1;
        }
        proof {
            assert(s.take(total as int) =~= s);
        }
        n
    }
}

/// What a map has found is the number of its entries.
impl<K: SortKey, V: Hit> FoundCounter for AggregateResult<K, V> {
    open spec fn founds(&self) -> nat {
        self.entries().len()
    }

    open spec fn findable(&self) -> bool {
        true
    }

    fn found_count(&self) -> (n: usize) {
        self.len()
    }
}

impl<K: SortKey, V: Hit> HitFoundCounter for AggregateResult<K, V> {
    proof fn lemma_hits_within_founds(&self) {
        self.entries().lemma_filter_len(|e: (K, V)| e.1.hit());
    }
}

} // verus!
