//! Branch coverage: how often each outgoing edge of a conditional was taken.

use crate::aggregate::entry_merged;
use crate::aggregate::entry_refusal;
use crate::aggregate::lemma_no_conflict;
use crate::aggregate::lemma_single;
use crate::aggregate::Aggregate;
use crate::attribute::ExecutionCount;
use crate::attribute::LineNumber;
use crate::counter::FoundCounter;
use crate::counter::HitCounter;
use crate::counter::HitFoundCounter;
use crate::key::Label;
use crate::key::SortKey;
use crate::merge::Merge;
use crate::record::BranchData;
use crate::summary::lemma_entry_at;
use crate::summary::position;
use crate::summary::AggregateResult;
use vstd::prelude::*;

verus! {

/// One outgoing edge of a conditional: the block it belongs to and its
/// number inside that block.
#[derive(Debug, Clone, Copy, PartialEq, Eq, Structural, Hash, PartialOrd, Ord)]
pub struct BranchUnit(pub u32, pub u32);

impl BranchUnit {
    pub fn new(block: u32, branch: u32) -> (unit: BranchUnit)
        ensures
            unit == BranchUnit(block, branch),
    {
        BranchUnit(block, branch)
    }

    pub fn block(&self) -> (block: u32)
        ensures
            block == self.0,
    {
        self.0
    }

    pub fn branch(&self) -> (branch: u32)
        ensures
            branch == self.1,
    {
        self.1
    }
}

impl View for BranchUnit {
    type V = BranchUnit;

    open spec fn view(&self) -> BranchUnit {
        *self
    }
}

/// Branch units are ordered by block, then by branch.
impl SortKey for BranchUnit {
    open spec fn before(a: BranchUnit, b: BranchUnit) -> bool {
        a.0 < b.0 || (a.0 == b.0 && a.1 < b.1)
    }

    open spec fn label(key: BranchUnit) -> Label {
        Label::Unit
    }

    proof fn order_laws() {
    }

    fn precedes(&self, other: &Self) -> (r: bool) {
        self.0 < other.0 || (self.0 == other.0 && self.1 < other.1)
    }

    fn duplicate(&self) -> (r: Self) {
        BranchUnit(self.0, self.1)
    }
}

/// The unit that a `BRDA` record speaks of.
pub open spec fn unit_of(data: BranchData) -> BranchUnit {
    BranchUnit(data.block, data.branch)
}

/// The branches of one line, by unit.
pub type BranchBlocks = AggregateResult<BranchUnit, ExecutionCount>;

/// The branches of a source file, by line.
pub type Branches = AggregateResult<LineNumber, BranchBlocks>;

/// Branch counts never disagree.
pub proof fn lemma_blocks_agree(a: &BranchBlocks, b: &BranchBlocks)
    ensures
        a.conflict(b) is None,
{
    lemma_no_conflict(a@, b.entries(), 0);
}

/// The branches of two files never disagree.
pub proof fn lemma_branches_agree(a: &Branches, b: &Branches)
    ensures
        a.conflict(b) is None,
{
    assert forall|i: int|
        0 <= i < b.entries().len() && a@.contains_key(
            (#[trigger] b.entries()[i]).0@,
        ) implies a@[b.entries()[i].0@].conflict(&b.entries()[i].1) is None by {
        lemma_blocks_agree(&a@[b.entries()[i].0@], &b.entries()[i].1);
    }
    lemma_no_conflict(a@, b.entries(), 0);
}

impl<'a> Merge<&'a BranchData> for BranchBlocks {
    open spec fn merge_accepts(rhs: &'a BranchData) -> bool {
        true
    }

    /// The count of the unit, with `taken` added, stays within `u32`.
    open spec fn merge_fits(&self, rhs: &'a BranchData) -> bool {
        entry_refusal(self@, unit_of(*rhs), &rhs.taken) is None
    }

    /// `taken` is added to the count of the unit; a new unit starts with it.
    open spec fn merged_with(&self, rhs: &'a BranchData) -> Map<BranchUnit, nat> {
        entry_merged::<BranchUnit, ExecutionCount>(self.model(), unit_of(*rhs), rhs.taken as nat)
    }

    fn merge_checked(&mut self, rhs: &'a BranchData) -> (done: bool) {
        let unit = BranchUnit::new(rhs.block, rhs.branch);
        self.merge_entry(&unit, rhs.taken).is_ok()
    }

    fn merge(&mut self, rhs: &'a BranchData) {
        let unit = BranchUnit::new(rhs.block, rhs.branch);
        let _ = self.merge_entry(&unit, rhs.taken);
    }
}

impl<'a> Merge<&'a BranchBlocks> for BranchBlocks {
    open spec fn merge_accepts(rhs: &'a BranchBlocks) -> bool {
        rhs.inv()
    }

    open spec fn merge_fits(&self, rhs: &'a BranchBlocks) -> bool {
        Self::fits(Self::merged(self.model(), rhs.model()))
    }

    open spec fn merged_with(&self, rhs: &'a BranchBlocks) -> Map<BranchUnit, nat> {
        Self::merged(self.model(), rhs.model())
    }

    fn merge_checked(&mut self, rhs: &'a BranchBlocks) -> (done: bool) {
        proof {
            lemma_blocks_agree(self, rhs);
        }
        match self.check(rhs) {
            Some(_) => false,
            None => {
                self.absorb(rhs);
                true
            },
        }
    }

    fn merge(&mut self, rhs: &'a BranchBlocks) {
        proof {
            lemma_blocks_agree(self, rhs);
        }
        self.absorb(rhs);
    }
}

/// The content of the branches of one line that hold one unit.
pub open spec fn single_unit(data: BranchData) -> Map<BranchUnit, nat> {
    Map::<BranchUnit, nat>::empty().insert(unit_of(data), data.taken as nat)
}

impl<'a> Merge<&'a BranchData> for Branches {
    open spec fn merge_accepts(rhs: &'a BranchData) -> bool {
        true
    }

    /// The count of the unit at the line, with `taken` added, stays within `u32`.
    open spec fn merge_fits(&self, rhs: &'a BranchData) -> bool {
        self@.contains_key(rhs.line) ==> self@[rhs.line].merge_fits(rhs)
    }

    /// The record is merged into the branches of its line; a new line starts
    /// with the record's unit alone.
    open spec fn merged_with(&self, rhs: &'a BranchData) -> Map<LineNumber, Map<BranchUnit, nat>> {
        entry_merged::<LineNumber, BranchBlocks>(self.model(), rhs.line, single_unit(*rhs))
    }

    fn merge_checked(&mut self, rhs: &'a BranchData) -> (done: bool) {
        let unit = BranchUnit::new(rhs.block, rhs.branch);
        let single = BranchBlocks::single(unit, rhs.taken);
        proof {
            if self@.contains_key(rhs.line) {
                let j = position(self.entries(), rhs.line);
                lemma_entry_at(self.entries(), j);
                lemma_single(&self@[rhs.line], &single, unit, rhs.taken);
                lemma_blocks_agree(&self@[rhs.line], &single);
            } else {
                lemma_single(&single, &single, unit, rhs.taken);
            }
        }
        self.merge_entry(&rhs.line, single).is_ok()
    }

    fn merge(&mut self, rhs: &'a BranchData) {
        let _ = self.merge_checked(rhs);
    }
}

impl<'a> Merge<&'a Branches> for Branches {
    open spec fn merge_accepts(rhs: &'a Branches) -> bool {
        rhs.inv()
    }

    open spec fn merge_fits(&self, rhs: &'a Branches) -> bool {
        Self::fits(Self::merged(self.model(), rhs.model()))
    }

    open spec fn merged_with(&self, rhs: &'a Branches) -> Map<LineNumber, Map<BranchUnit, nat>> {
        Self::merged(self.model(), rhs.model())
    }

    fn merge_checked(&mut self, rhs: &'a Branches) -> (done: bool) {
        proof {
            lemma_branches_agree(self, rhs);
        }
        match self.check(rhs) {
            Some(_) => false,
            None => {
                self.absorb(rhs);
                true
            },
        }
    }

    fn merge(&mut self, rhs: &'a Branches) {
        proof {
            lemma_branches_agree(self, rhs);
        }
        self.absorb(rhs);
    }
}

/// The number of units over the first lines of a file.
pub open spec fn found_units(s: Seq<(LineNumber, BranchBlocks)>) -> nat
    decreases s.len(),
{
    if s.len() == 0 {
        0
    } else {
        found_units(s.drop_last()) + s.last().1.founds()
    }
}

/// The number of units with a count above zero over the first lines of a file.
pub open spec fn hit_units(s: Seq<(LineNumber, BranchBlocks)>) -> nat
    decreases s.len(),
{
    if s.len() == 0 {
        0
    } else {
        hit_units(s.drop_last()) + s.last().1.hits()
    }
}

/// No more units are hit than found.
pub proof fn lemma_hit_units_within_found(s: Seq<(LineNumber, BranchBlocks)>)
    ensures
        hit_units(s) <= found_units(s),
    decreases s.len(),
{
    if s.len() > 0 {
        lemma_hit_units_within_found(s.drop_last());
        s.last().1.lemma_hits_within_founds();
    }
}

/// The first lines have no more units than all of them.
pub proof fn lemma_found_units_grow(s: Seq<(LineNumber, BranchBlocks)>, n: int)
    requires
        0 <= n <= s.len(),
    ensures
        found_units(s.take(n)) <= found_units(s),
    decreases s.len() - n,
{
    if n < s.len() {
        lemma_found_units_grow(s, n + 1);
        assert(s.take(n + 1).drop_last() =~= s.take(n));
    } else {
        assert(s.take(n) =~= s);
    }
}

/// The hits of a file's branches are those of all its lines together.
impl HitCounter for Branches {
    open spec fn hits(&self) -> nat {
        hit_units(self.entries())
    }

    /// The units can be counted in a `usize`.
    open spec fn countable(&self) -> bool {
        found_units(self.entries()) <= usize::MAX
    }

    fn hit_count(&self) -> (n: usize) {
        let total = self.len();
        let mut n: usize = 0;
        let mut i: usize = 0;
        let ghost s = self.entries();
        proof {
            assert(s.take(0) =~= Seq::<(LineNumber, BranchBlocks)>::empty());
        }
        while i < total
            invariant
                i <= total,
                total == s.len(),
                s == self.entries(),
                found_units(s) <= usize::MAX,
                n == hit_units(s.take(i as int)),
            decreases total - i,
        {
            proof {
                assert(s.take(i + 1).drop_last() =~= s.take(i as int));
                assert(s.take(i + 1).last() == s[i as int]);
                lemma_hit_units_within_found(s.take(i + 1));
                lemma_found_units_grow(s, i + 1);
            }
            n = n + self.value_at(i).hit_count();
            i += 1;
        }
        proof {
            assert(s.take(total as int) =~= s);
        }
        n
    }
}

/// What a file's branches have found is what all its lines have together.
impl FoundCounter for Branches {
    open spec fn founds(&self) -> nat {
        found_units(self.entries())
    }

    /// The units can be counted in a `usize`.
    open spec fn findable(&self) -> bool {
        found_units(self.entries()) <= usize::MAX
    }

    fn found_count(&self) -> (n: usize) {
        let total = self.len();
        let mut n: usize = 0;
        let mut i: usize = 0;
        let ghost s = self.entries();
        proof {
            assert(s.take(0) =~= Seq::<(LineNumber, BranchBlocks)>::empty());
        }
        while i < total
            invariant
                i <= total,
                total == s.len(),
                s == self.entries(),
                found_units(s) <= usize::MAX,
                n == found_units(s.take(i as int)),
            decreases total - i,
        {
            proof {
                assert(s.take(i + 1).drop_last() =~= s.take(i as int));
                assert(s.take(i + 1).last() == s[i as int]);
                lemma_found_units_grow(s, i + 1);
            }
            n = n + self.value_at(i).found_count();
            i += 1;
        }
        proof {
            assert(s.take(total as int) =~= s);
        }
        n
    }
}

impl HitFoundCounter for Branches {
    proof fn lemma_hits_within_founds(&self) {
        lemma_hit_units_within_found(self.entries());
    }
}

} // verus!
