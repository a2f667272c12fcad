//! The revenue distributor: the pool of distributable rent revenue and the
//! revenue accrued per stakeholder.
//!
//! Rent payments feed the pool; the pro-rata distribution moves money from
//! the pool into per-stakeholder accruals; a withdrawal zeroes the caller's
//! accrual before the host pays it out.  The well-formedness bound — pool
//! plus all accruals fit the money type — is what every mutation preserves,
//! so no distribution or withdrawal can overflow.

use vstd::prelude::*;

use crate::assoc;
use crate::assoc::{keys_unique, lookup, sum128, val128};
use crate::errors::Error;

verus! {

/// Accrued revenue per identity and the undistributed pool.
pub struct RevenueDistributor {
    /// identity -> accrued revenue awaiting withdrawal; unique keys.
    pub revenues: Vec<(u64, u128)>,
    /// Distributable revenue not yet credited to any stakeholder.
    pub accumulated: u128,
}

impl RevenueDistributor {
    /// The revenue accrued by an identity, zero if never credited.
    pub open spec fn revenue_of(self, id: u64) -> int {
        val128(self.revenues@, id)
    }

    /// Well-formedness: unique keys, and all money together fits the money
    /// type.
    pub open spec fn wf(self) -> bool {
        &&& keys_unique(self.revenues@)
        &&& sum128(self.revenues@) + self.accumulated as int <= u128::MAX as int
    }

    /// Read an identity's accrued revenue.
    pub fn revenue_view(&self, id: u64) -> (r: u128)
        ensures
            r as int == self.revenue_of(id),
    {
        match assoc::get(&self.revenues, id) {
            Some(v) => v,
            None => 0,
        }
    }

    /// Add freshly collected distributable revenue to the pool.
    pub fn add_to_pool(&mut self, amount: u128)
        requires
            old(self).wf(),
            sum128(old(self).revenues@) + old(self).accumulated as int + amount as int
                <= u128::MAX as int,
        ensures
            final(self).wf(),
            final(self).accumulated == old(self).accumulated + amount,
            final(self).revenues == old(self).revenues,
    {
        proof {
            assoc::lemma_sum128_nonneg(self.revenues@);
        }
        self.accumulated = self.accumulated + amount;
    }

    /// Move `amount` out of the pool into `id`'s accrued revenue.
    pub fn pay_out(&mut self, id: u64, amount: u128)
        requires
            old(self).wf(),
            amount as int <= old(self).accumulated as int,
        ensures
            final(self).wf(),
            final(self).accumulated == old(self).accumulated - amount,
            final(self).revenue_of(id) == old(self).revenue_of(id) + amount,
            forall|k: u64| k != id ==> #[trigger] final(self).revenue_of(k) == old(self).revenue_of(k),
            sum128(final(self).revenues@) == sum128(old(self).revenues@) + amount,
    {
        let current = self.revenue_view(id);
        proof {
            assoc::lemma_val128_le_sum(self.revenues@, id);
        }
        let ghost r0 = self.revenues@;
        let i = assoc::put(&mut self.revenues, id, current + amount);
        proof {
            if assoc::has_key(r0, id) {
                assert(r0[i as int].0 == id);
                assert(forall|j: int| 0 <= j < i ==> (#[trigger] r0[j]).0 != r0[i as int].0);
                assoc::lemma_lookup_found(r0, id, i as int);
                assert(r0[i as int].1 == current);
                assoc::lemma_sum128_update(r0, i as int, (id, (current + amount) as u128));
            } else {
                assert(current == 0);
                assoc::lemma_sum128_push(r0, (id, amount));
            }
        }
        self.accumulated = self.accumulated - amount;
    }

    /// Zero the caller's accrued revenue and report what was owed; the host
    /// transfers the money afterwards.  Fails when nothing has accrued.
    pub fn withdraw(&mut self, id: u64) -> (r: Result<u128, Error>)
        requires
            old(self).wf(),
        ensures
            final(self).wf(),
            r is Err <==> old(self).revenue_of(id) == 0,
            r is Err ==> r == Err::<u128, Error>(Error::NothingToWithdraw) && *final(self) == *old(
                self,
            ),
            r matches Ok(v) ==> v as int == old(self).revenue_of(id) && final(self).revenue_of(id)
                == 0 && final(self).accumulated == old(self).accumulated && sum128(
                final(self).revenues@,
            ) == sum128(old(self).revenues@) - old(self).revenue_of(id),
            forall|k: u64| k != id ==> #[trigger] final(self).revenue_of(k) == old(self).revenue_of(k),
    {
        let owed = self.revenue_view(id);
        if owed == 0 {
            return Err(Error::NothingToWithdraw);
        }
        proof {
            assoc::lemma_val128_le_sum(self.revenues@, id);
        }
        let ghost r0 = self.revenues@;
        let i = assoc::put(&mut self.revenues, id, 0);
        proof {
            assert(assoc::has_key(r0, id));
            assert(r0[i as int].0 == id);
            assert(forall|j: int| 0 <= j < i ==> (#[trigger] r0[j]).0 != r0[i as int].0);
            assoc::lemma_lookup_found(r0, id, i as int);
            assert(r0[i as int].1 == owed);
            assoc::lemma_sum128_update(r0, i as int, (id, 0u128));
        }
        Ok(owed)
    }
}

} // verus!
