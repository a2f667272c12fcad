//! The stakeholder registry: the ordered set of identities eligible for
//! revenue distribution and targeted by governance actions.
//!
//! The order of the list is the deterministic iteration order used by the
//! revenue distribution.  Removal swaps the last member into the vacated
//! slot and shortens the list by one, so a ban moves the last-added member
//! earlier in the distribution order; this choice is fixed here so that
//! distribution stays reproducible.

use vstd::prelude::*;

verus! {

/// The ordered set of recognized stakeholders, without duplicates.
pub struct StakeholderRegistry {
    /// Member identities in distribution order.
    pub members: Vec<u64>,
}

impl StakeholderRegistry {
    /// Well-formedness: no identity appears twice.
    pub open spec fn wf(self) -> bool {
        &&& forall|i: int, j: int|
            0 <= i < j < self.members@.len() ==> #[trigger] self.members@[i]
                != #[trigger] self.members@[j]
    }

    /// Whether `id` is a recognized stakeholder.
    pub open spec fn is_member(self, id: u64) -> bool {
        self.members@.contains(id)
    }

    /// The slot of `id` in the distribution order; meaningful only for a
    /// member, and unique because members never repeat.
    pub open spec fn slot_of(self, id: u64) -> int {
        choose|i: int| 0 <= i < self.members@.len() && self.members@[i] == id
    }

    /// Pure lookup: whether `id` is a stakeholder and at which slot of the
    /// distribution order it sits (zero when absent).
    pub fn lookup_index(&self, id: u64) -> (r: (bool, usize))
        ensures
            r.0 == self.is_member(id),
            r.0 ==> r.1 < self.members@.len() && self.members@[r.1 as int] == id,
            !r.0 ==> r.1 == 0,
    {
        let mut i: usize = 0;
        while i < self.members.len()
            invariant
                i <= self.members@.len(),
                forall|j: int| 0 <= j < i ==> self.members@[j] != id,
            decreases self.members@.len() - i,
        {
            if self.members[i] == id {
                return (true, i);
            }
            i += 1;
        }
        proof {
            assert(!self.members@.contains(id));
        }
        (false, 0)
    }

    /// Record `id` as a stakeholder unless it already is one.  Returns
    /// whether the registry grew.
    pub fn add(&mut self, id: u64) -> (added: bool)
        requires
            old(self).wf(),
        ensures
            final(self).wf(),
            added <==> !old(self).is_member(id),
            added ==> final(self).members@ == old(self).members@.push(id),
            !added ==> *final(self) == *old(self),
    {
        let (present, _) = self.lookup_index(id);
        if present {
            return false;
        }
        self.members.push(id);
        proof {
            assert(forall|j: int|
                0 <= j < old(self).members@.len() ==> self.members@[j] == old(self).members@[j]);
            assert(self.members@[old(self).members@.len() as int] == id);
        }
        true
    }

    /// Remove `id` by swapping the last member into its slot, if present.
    /// Returns whether the registry shrank.  The resulting order is fixed:
    /// the old last member moves into the vacated slot and the tail is
    /// dropped, so the distribution order after a removal is deterministic.
    pub fn remove_swap(&mut self, id: u64) -> (removed: bool)
        requires
            old(self).wf(),
        ensures
            final(self).wf(),
            removed <==> old(self).is_member(id),
            !removed ==> *final(self) == *old(self),
            removed ==> final(self).members@.len() == old(self).members@.len() - 1,
            removed ==> final(self).members@ == old(self).members@.update(
                old(self).slot_of(id),
                old(self).members@.last(),
            ).drop_last(),
            !final(self).is_member(id),
            forall|k: u64|
                k != id ==> #[trigger] final(self).is_member(k) == old(self).is_member(k),
    {
        let (present, i) = self.lookup_index(id);
        if !present {
            proof {
                assert(!self.is_member(id));
            }
            return false;
        }
        let ghost m0 = self.members@;
        self.members.swap_remove(i);
        proof {
            let m1 = self.members@;
            let w = old(self).slot_of(id);
            assert(m0[i as int] == id);
            assert(0 <= w < m0.len() && m0[w] == id);
            assert(w == i as int);
            assert(m1 =~= m0.update(i as int, m0.last()).drop_last());
            assert(forall|j: int|
                0 <= j < m1.len() && j != i ==> m1[j] == m0[j]);
            if (i as int) < m1.len() {
                assert(m1[i as int] == m0[m0.len() - 1]);
            }
            assert forall|a: int, b: int| 0 <= a < b < m1.len() implies m1[a] != m1[b] by {
                assert(m1[a] == m0[a] || m1[a] == m0[m0.len() - 1]);
                assert(m1[b] == m0[b] || m1[b] == m0[m0.len() - 1]);
            }
            assert forall|j: int| 0 <= j < m1.len() implies m1[j] != id by {
                assert(m1[j] == m0[j] || m1[j] == m0[m0.len() - 1]);
            }
            assert(!m1.contains(id));
            assert forall|k: u64| k != id implies m1.contains(k) == m0.contains(k) by {
                if m0.contains(k) {
                    let w = choose|w: int| 0 <= w < m0.len() && m0[w] == k;
                    if w < m0.len() - 1 {
                        if w == i {
                            assert(false);
                        } else {
                            assert(m1[w] == k);
                        }
                    } else {
                        if (i as int) < m1.len() {
                            assert(m1[i as int] == k);
                        } else {
                            assert(i == m0.len() - 1);
                            assert(m0[i as int] == id);
                            assert(false);
                        }
                    }
                    assert(m1.contains(k));
                }
                if m1.contains(k) {
                    let w = choose|w: int| 0 <= w < m1.len() && m1[w] == k;
                    assert(m1[w] == m0[w] || m1[w] == m0[m0.len() - 1]);
                    assert(m0.contains(k));
                }
            }
        }
        true
    }
}

} // verus!
