//! Rent accrual: per-tenant prepayment state and the rent-period
//! arithmetic.
//!
//! A tenant's `rent_paid_until` block and the property-wide
//! `occupied_until` block agree whenever a tenant is set; `record_payment`
//! is the only mutation and re-establishes the agreement.  The arithmetic
//! helpers compute the rent owed for a duration, the tax cut and the days
//! remaining exactly, with every intermediate step proved free of
//! overflow; a rent total too large for the money type is reported as
//! such rather than truncated.

use vstd::prelude::*;

use vstd::arithmetic::div_mod::{
    lemma_div_is_ordered, lemma_div_multiples_vanish, lemma_div_pos_is_pos,
    lemma_fundamental_div_mod, lemma_hoist_over_denominator,
};

use crate::assoc;
use crate::assoc::{keys_unique, val64};

verus! {

/// The exact rent owed for `duration` blocks: pro-rata share of the
/// 30-day rent, rounded down.
pub open spec fn rent_due_math(rent30: u128, duration: u64, blocks30: u64) -> int {
    rent30 as int * duration as int / blocks30 as int
}

/// The exact tax cut on a rent amount, in whole percent, rounded down.
pub open spec fn tax_cut_math(rent_due: u128, tax: u8) -> int {
    rent_due as int * tax as int / 100
}

/// The exact whole days covered by `diff` blocks of `avg` seconds each.
pub open spec fn days_math(diff: u64, avg: u8) -> int {
    diff as int * avg as int / 86400
}

/// Compute the rent owed for `duration` blocks, or report that it exceeds
/// the money type.
pub fn compute_rent_due(rent30: u128, duration: u64, blocks30: u64) -> (r: Option<u128>)
    requires
        blocks30 >= 1,
    ensures
        r matches Some(v) ==> v as int == rent_due_math(rent30, duration, blocks30),
        r is None ==> rent_due_math(rent30, duration, blocks30) > u128::MAX as int,
{
    let k = blocks30 as u128;
    let a = rent30 / k;
    let b = rent30 % k;
    let d = duration as u128;
    proof {
        let ki = k as int;
        let ai = a as int;
        let bi = b as int;
        let di = d as int;
        lemma_fundamental_div_mod(rent30 as int, ki);
        assert(rent30 as int == ai * ki + bi) by (nonlinear_arith)
            requires
                rent30 as int == ki * ((rent30 as int) / ki) + (rent30 as int) % ki,
                ai == (rent30 as int) / ki,
                bi == (rent30 as int) % ki,
        ;
        assert(bi * di <= u128::MAX as int) by (nonlinear_arith)
            requires
                0 <= bi < ki,
                ki <= u64::MAX as int,
                0 <= di <= u64::MAX as int,
        ;
        assert((ai * ki + bi) * di == (ai * di) * ki + bi * di) by (nonlinear_arith);
        lemma_hoist_over_denominator(bi * di, ai * di, k as nat);
        assert(rent_due_math(rent30, duration, blocks30) == ai * di + (bi * di) / ki);
        assert(bi * di >= 0) by (nonlinear_arith)
            requires
                bi >= 0,
                di >= 0,
        ;
        lemma_div_pos_is_pos(bi * di, ki);
    }
    let t2 = b * d / k;
    match a.checked_mul(d) {
        None => {
            proof {
                assert(rent_due_math(rent30, duration, blocks30) > u128::MAX as int);
            }
            None
        },
        Some(t1) => {
            match t1.checked_add(t2) {
                None => None,
                Some(total) => Some(total),
            }
        },
    }
}

/// Compute the tax cut on `rent_due` at a whole-percent rate.
pub fn compute_tax(rent_due: u128, tax: u8) -> (r: u128)
    requires
        tax <= 100,
    ensures
        r as int == tax_cut_math(rent_due, tax),
        r <= rent_due,
{
    let t = tax as u128;
    let q = rent_due / 100;
    let rr = rent_due % 100;
    proof {
        let rdi = rent_due as int;
        let ti = t as int;
        let qi = q as int;
        let rri = rr as int;
        lemma_fundamental_div_mod(rdi, 100);
        assert(rdi == qi * 100 + rri) by (nonlinear_arith)
            requires
                rdi == 100 * (rdi / 100) + rdi % 100,
                qi == rdi / 100,
                rri == rdi % 100,
        ;
        assert(qi * ti <= rdi) by (nonlinear_arith)
            requires
                rdi == qi * 100 + rri,
                0 <= ti <= 100,
                qi >= 0,
                rri >= 0,
        ;
        assert(rdi * ti == (qi * ti) * 100 + rri * ti) by (nonlinear_arith)
            requires
                rdi == qi * 100 + rri,
        ;
        lemma_hoist_over_denominator(rri * ti, qi * ti, 100);
        assert(tax_cut_math(rent_due, tax) == qi * ti + (rri * ti) / 100);
        assert(rri * ti <= 9900) by (nonlinear_arith)
            requires
                0 <= rri < 100,
                0 <= ti <= 100,
        ;
        assert(rdi * ti <= rdi * 100) by (nonlinear_arith)
            requires
                0 <= ti <= 100,
                rdi >= 0,
        ;
        lemma_div_is_ordered(rdi * ti, rdi * 100, 100);
        assert(rdi * 100 == 100 * rdi) by (nonlinear_arith);
        lemma_div_multiples_vanish(rdi, 100);
        assert(tax_cut_math(rent_due, tax) <= rdi);
    }
    let small = rr * t / 100;
    q * t + small
}

/// Compute the whole days covered by `diff` blocks of `avg` seconds each.
pub fn compute_days(diff: u64, avg: u8) -> (r: u64)
    ensures
        r as int == days_math(diff, avg),
{
    proof {
        let di = diff as int;
        let ai = avg as int;
        assert(di * ai <= u128::MAX as int) by (nonlinear_arith)
            requires
                0 <= di <= u64::MAX as int,
                0 <= ai <= 255,
        ;
        assert(di * ai <= di * 86400) by (nonlinear_arith)
            requires
                0 <= ai <= 255,
                di >= 0,
        ;
        lemma_div_is_ordered(di * ai, di * 86400, 86400);
        assert(di * 86400 == 86400 * di) by (nonlinear_arith);
        lemma_div_multiples_vanish(di, 86400);
        assert(86400 * di / 86400 == di);
        assert(di * ai >= 0) by (nonlinear_arith)
            requires
                di >= 0,
                ai >= 0,
        ;
        lemma_div_pos_is_pos(di * ai, 86400);
    }
    let p = (diff as u128) * (avg as u128);
    (p / 86400) as u64
}

/// Per-tenant prepayment state and the occupancy interval.
pub struct RentAccrual {
    /// tenant identity -> block up to which rent is paid; unique keys.
    pub rent_paid_until: Vec<(u64, u64)>,
    /// Block at which the current occupancy began.
    pub rental_begin: u64,
    /// Block up to which the property is occupied.
    pub occupied_until: u64,
    /// The identity currently occupying the property, if any.
    pub tenant: Option<u64>,
}

impl RentAccrual {
    /// The block up to which `id` has paid rent, zero if never paid.
    pub open spec fn paid_until(self, id: u64) -> int {
        val64(self.rent_paid_until@, id)
    }

    /// Well-formedness: unique keys, and the occupancy interval agrees
    /// with the current tenant's prepayment.
    pub open spec fn wf(self) -> bool {
        &&& keys_unique(self.rent_paid_until@)
        &&& match self.tenant {
            Some(t) => self.paid_until(t) == self.occupied_until as int,
            None => self.occupied_until == 0,
        }
    }

    /// Read the block up to which `id` has paid rent.
    pub fn paid_until_view(&self, id: u64) -> (r: u64)
        ensures
            r as int == self.paid_until(id),
    {
        match assoc::get(&self.rent_paid_until, id) {
            Some(v) => v,
            None => 0,
        }
    }

    /// Commit a successful rent payment: `caller` becomes the tenant, the
    /// occupancy runs from `current_block` until `new_until`, and the
    /// caller's prepayment is advanced to match.
    pub fn record_payment(&mut self, caller: u64, current_block: u64, new_until: u64)
        requires
            old(self).wf(),
        ensures
            final(self).wf(),
            final(self).tenant == Some(caller),
            final(self).rental_begin == current_block,
            final(self).occupied_until == new_until,
            final(self).paid_until(caller) == new_until as int,
            forall|k: u64| k != caller ==> #[trigger] final(self).paid_until(k) == old(self).paid_until(k),
    {
        assoc::put(&mut self.rent_paid_until, caller, new_until);
        self.tenant = Some(caller);
        self.rental_begin = current_block;
        self.occupied_until = new_until;
    }
}

} // verus!
