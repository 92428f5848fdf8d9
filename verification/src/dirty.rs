//! Dirty-marking of items between planning runs.

use vstd::prelude::*;

verus! {

/// Tracks which items changed since the last planning run.
pub struct DirtyTracker {
    /// The items marked, each listed once.
    pub dirty_components: Vec<String>,
}

impl DirtyTracker {
    /// Whether the item is marked.
    pub open spec fn spec_is_dirty(&self, id: Seq<char>) -> bool {
        exists|k: int|
            0 <= k < self.dirty_components@.len() && self.dirty_components@[k]@ == id
    }

    /// No item is listed twice.
    pub open spec fn wf(&self) -> bool {
        forall|i: int, j: int|
            0 <= i < j < self.dirty_components@.len() ==> self.dirty_components@[i]@
                != self.dirty_components@[j]@
    }

    /// A tracker with nothing marked.
    pub fn new() -> (r: DirtyTracker)
        ensures
            r.dirty_components@.len() == 0,
            r.wf(),
            forall|d: Seq<char>| !r.spec_is_dirty(d),
    {
        DirtyTracker { dirty_components: Vec::new() }
    }

    /// Marks one item; marking again changes nothing.
    pub fn mark_dirty(&mut self, component_id: String)
        requires
            old(self).wf(),
        ensures
            final(self).wf(),
            forall|d: Seq<char>|
                final(self).spec_is_dirty(d) <==> old(self).spec_is_dirty(d) || d
                    == component_id@,
    {
        let mut i: usize = 0;
        while i < self.dirty_components.len()
            invariant
                0 <= i <= self.dirty_components@.len(),
                *self == *old(self),
                old(self).wf(),
                forall|j: int| 0 <= j < i ==> self.dirty_components@[j]@ != component_id@,
            decreases self.dirty_components@.len() - i,
        {
            if self.dirty_components[i].eq(&component_id) {
                return ;
            }
            i += 1;
        }
        let ghost before = self.dirty_components@;
        self.dirty_components.push(component_id);
        proof {
            assert forall|d: Seq<char>|
                final(self).spec_is_dirty(d) <==> old(self).spec_is_dirty(d) || d
                    == component_id@ by {
                if self.spec_is_dirty(d) {
                    let k = choose|k: int|
                        0 <= k < self.dirty_components@.len() && self.dirty_components@[k]@ == d;
                    if k < before.len() {
                        assert(old(self).dirty_components@[k]@ == d);
                    }
                }
                if old(self).spec_is_dirty(d) {
                    let k = choose|k: int|
                        0 <= k < before.len() && before[k]@ == d;
                    assert(self.dirty_components@[k]@ == d);
                }
                if d == component_id@ {
                    assert(self.dirty_components@[before.len() as int]@ == d);
                }
            }
        }
    }

    /// Whether the item is marked.
    pub fn is_dirty(&self, component_id: &String) -> (r: bool)
        ensures
            r == self.spec_is_dirty(component_id@),
    {
        let mut i: usize = 0;
        while i < self.dirty_components.len()
            invariant
                0 <= i <= self.dirty_components@.len(),
                forall|j: int| 0 <= j < i ==> self.dirty_components@[j]@ != component_id@,
            decreases self.dirty_components@.len() - i,
        {
            if self.dirty_components[i].eq(component_id) {
                return true;
            }
            i += 1;
        }
        false
    }

    /// Unmarks everything.
    pub fn clear(&mut self)
        ensures
            final(self).dirty_components@.len() == 0,
            final(self).wf(),
            forall|d: Seq<char>| !final(self).spec_is_dirty(d),
    {
        self.dirty_components = Vec::new();
    }

    /// The marked items, in marking order.
    pub fn get_dirty_components(&self) -> (r: Vec<String>)
        ensures
            r@.len() == self.dirty_components@.len(),
            forall|k: int| 0 <= k < r@.len() ==> (#[trigger] r@[k])@ == self.dirty_components@[k]@,
    {
        let mut out: Vec<String> = Vec::new();
        let mut i: usize = 0;
        while i < self.dirty_components.len()
            invariant
                0 <= i <= self.dirty_components@.len(),
                out@.len() == i,
                forall|k: int|
                    0 <= k < i ==> (#[trigger] out@[k])@ == self.dirty_components@[k]@,
            decreases self.dirty_components@.len() - i,
        {
            out.push(self.dirty_components[i].clone());
            i += 1;
        }
        out
    }
}

} // verus!
