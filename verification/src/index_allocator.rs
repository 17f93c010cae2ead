//! Hands out connection ids: fresh ones in rising order, freed ones again first.

use vstd::prelude::*;

verus! {

/// Allocates `u64` ids. An id given back with [`IndexAllocator::free_index`] is
/// handed out again before any fresh one, the most recently freed first.
#[derive(Debug)]
pub struct IndexAllocator {
    index: u64,
    vacant_indices: Vec<u64>,
}

/// What an allocator holds: the smallest id never handed out, and the freed ids
/// in the order in which they came back.
pub struct IndexAllocatorView {
    pub next_fresh: u64,
    pub vacant: Seq<u64>,
}

impl IndexAllocatorView {
    /// Every freed id was handed out before, and none is listed twice.
    pub open spec fn wf(self) -> bool {
        &&& forall|i: int| 0 <= i < self.vacant.len() ==> #[trigger] self.vacant[i] < self.next_fresh
        &&& self.vacant.no_duplicates()
    }

    /// The id is in use: handed out and not given back since.
    pub open spec fn is_allocated(self, index: u64) -> bool {
        index < self.next_fresh && !self.vacant.contains(index)
    }

    /// No id is left to hand out.
    pub open spec fn is_exhausted(self) -> bool {
        self.vacant.len() == 0 && self.next_fresh == u64::MAX
    }

    /// The id that the next allocation yields.
    pub open spec fn upcoming(self) -> Option<u64> {
        if self.vacant.len() > 0 {
            Some(self.vacant.last())
        } else if self.next_fresh == u64::MAX {
            None
        } else {
            Some(self.next_fresh)
        }
    }

    /// The allocator after the next allocation.
    pub open spec fn after_allocation(self) -> IndexAllocatorView {
        if self.vacant.len() > 0 {
            IndexAllocatorView { next_fresh: self.next_fresh, vacant: self.vacant.drop_last() }
        } else if self.next_fresh == u64::MAX {
            self
        } else {
            IndexAllocatorView { next_fresh: (self.next_fresh + 1) as u64, vacant: self.vacant }
        }
    }

    /// The allocator after `index` was given back.
    pub open spec fn after_release(self, index: u64) -> IndexAllocatorView {
        if self.is_allocated(index) {
            IndexAllocatorView { next_fresh: self.next_fresh, vacant: self.vacant.push(index) }
        } else {
            self
        }
    }
}

/// An allocation hands out an id that was not in use, marks it as in use and
/// leaves every other id as it was. It fails only when no id is left.
pub proof fn lemma_allocation(allocator: IndexAllocatorView)
    requires
        allocator.wf(),
    ensures
        allocator.after_allocation().wf(),
        allocator.upcoming().is_none() <==> allocator.is_exhausted(),
        allocator.upcoming() matches Some(i) ==> !allocator.is_allocated(i)
            && allocator.after_allocation().is_allocated(i),
        forall|other: u64|
            allocator.upcoming() != Some(other) ==> (allocator.after_allocation().is_allocated(other)
                <==> allocator.is_allocated(other)),
{
    let after = allocator.after_allocation();
    if allocator.vacant.len() > 0 {
        let i = allocator.vacant.last();
        assert(allocator.vacant.contains(i));
        assert(allocator.vacant[allocator.vacant.len() - 1] < allocator.next_fresh);
        assert(!after.vacant.contains(i)) by {
            if after.vacant.contains(i) {
                let k = choose|k: int| 0 <= k < after.vacant.len() && after.vacant[k] == i;
                assert(allocator.vacant[k] == allocator.vacant[allocator.vacant.len() - 1]);
            }
        }
        assert forall|other: u64| i != other implies (after.vacant.contains(other)
            <==> allocator.vacant.contains(other)) by {
            if allocator.vacant.contains(other) {
                let k = choose|k: int|
                    0 <= k < allocator.vacant.len() && allocator.vacant[k] == other;
                assert(after.vacant[k] == other);
            }
            if after.vacant.contains(other) {
                let k = choose|k: int| 0 <= k < after.vacant.len() && after.vacant[k] == other;
                assert(allocator.vacant[k] == other);
            }
        }
        assert forall|k: int| 0 <= k < after.vacant.len() implies #[trigger] after.vacant[k]
            < after.next_fresh by {
            assert(allocator.vacant[k] < allocator.next_fresh);
        }
    } else if allocator.next_fresh == u64::MAX {
    } else {
        assert(!allocator.vacant.contains(allocator.next_fresh)) by {
            if allocator.vacant.contains(allocator.next_fresh) {
                let k = choose|k: int|
                    0 <= k < allocator.vacant.len() && allocator.vacant[k] == allocator.next_fresh;
                assert(allocator.vacant[k] < allocator.next_fresh);
            }
        }
    }
}

impl View for IndexAllocator {
    type V = IndexAllocatorView;

    closed spec fn view(&self) -> IndexAllocatorView {
        IndexAllocatorView { next_fresh: self.index, vacant: self.vacant_indices@ }
    }
}

impl IndexAllocator {
    /// The invariant that every operation keeps.
    pub open spec fn wf(&self) -> bool {
        self@.wf()
    }

    /// An allocator with no id in use.
    pub fn new() -> (allocator: IndexAllocator)
        ensures
            allocator.wf(),
            allocator@.next_fresh == 0,
            allocator@.vacant == Seq::<u64>::empty(),
    {
        IndexAllocator { index: 0, vacant_indices: Vec::new() }
    }

    /// Hands out an id that is not in use, or `None` when all are.
    pub fn next_index(&mut self) -> (index: Option<u64>)
        requires
            old(self).wf(),
        ensures
            final(self).wf(),
            index == old(self)@.upcoming(),
            final(self)@ == old(self)@.after_allocation(),
            index.is_none() <==> old(self)@.is_exhausted(),
            index matches Some(i) ==> !old(self)@.is_allocated(i) && final(self)@.is_allocated(i),
            forall|other: u64|
                index != Some(other) ==> (final(self)@.is_allocated(other) <==> old(
                    self,
                )@.is_allocated(other)),
    {
        let ghost before = self@;
        proof {
            lemma_allocation(before);
        }
        if self.vacant_indices.len() > 0 {
            let reused = self.vacant_indices.pop();
            assert(self@.vacant =~= before.vacant.drop_last());
            reused
        } else if self.index == u64::MAX {
            None
        } else {
            let fresh = self.index;
            self.index = fresh + 1;
            Some(fresh)
        }
    }

    /// Gives `index` back. Returns whether it was in use; an id that was not is
    /// left alone, so that no id can be handed out twice.
    pub fn free_index(&mut self, index: u64) -> (freed: bool)
        requires
            old(self).wf(),
        ensures
            final(self).wf(),
            freed == old(self)@.is_allocated(index),
            final(self)@ == old(self)@.after_release(index),
            !final(self)@.is_allocated(index),
            forall|other: u64|
                other != index ==> (final(self)@.is_allocated(other) <==> old(self)@.is_allocated(
                    other,
                )),
    {
        if index >= self.index || self.is_vacant(index) {
            return false;
        }
        let ghost before = self@;
        self.vacant_indices.push(index);
        proof {
            assert(self@.vacant =~= before.vacant.push(index));
            assert(self@.vacant[before.vacant.len() as int] == index);
            assert forall|other: u64| other != index implies (self@.vacant.contains(other)
                <==> before.vacant.contains(other)) by {
                if before.vacant.contains(other) {
                    let k = choose|k: int| 0 <= k < before.vacant.len() && before.vacant[k] == other;
                    assert(self@.vacant[k] == other);
                }
            }
        }
        true
    }

    /// Whether no id is left to hand out.
    pub fn is_exhausted(&self) -> (exhausted: bool)
        ensures
            exhausted == self@.is_exhausted(),
    {
        self.vacant_indices.len() == 0 && self.index == u64::MAX
    }

    /// Whether `index` is in use.
    pub fn is_allocated(&self, index: u64) -> (allocated: bool)
        ensures
            allocated == self@.is_allocated(index),
    {
        index < self.index && !self.is_vacant(index)
    }

    fn is_vacant(&self, index: u64) -> (vacant: bool)
        ensures
            vacant == self@.vacant.contains(index),
    {
        let mut i: usize = 0;
        while i < self.vacant_indices.len()
            invariant
                i <= self.vacant_indices@.len(),
                forall|j: int| 0 <= j < i ==> self.vacant_indices@[j] != index,
            decreases self.vacant_indices@.len() - i,
        {
            if self.vacant_indices[i] == index {
                return true;
            }
            i += 1;
        }
        false
    }
}

} // verus!
