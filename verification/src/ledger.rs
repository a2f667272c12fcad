//! The share ledger: balances per identity and allowances per
//! (owner, spender) pair.
//!
//! The fixed pool of ownership shares lives here.  The one state-changing
//! primitive over balances is `transfer`, which debits one identity and
//! credits another and conserves the total; `seize` is the allowance-guarded
//! form of it used both by governance (banning a stakeholder) and by the
//! marketplace's forced-transfer entry point.
//!
//! An allowance is a tagged value: `Unlimited` survives any number of
//! seizures unchanged, while `Capped(n)` is decremented by every seizure
//! that consumes it.

use vstd::prelude::*;

use crate::assoc;
use crate::assoc::{keys_unique, lookup, sum64, val64};
use crate::errors::Error;

verus! {

/// What a spender may seize from an owner.
#[derive(Clone, Copy, Debug, PartialEq, Eq, Structural)]
pub enum Allowance {
    /// Seizure of any amount, never decremented.
    Unlimited,
    /// Seizure of at most the stored amount, decremented on use.
    Capped(u64),
}

/// Whether the allowance admits seizing `amount` shares.
pub open spec fn covers(a: Allowance, amount: u64) -> bool {
    match a {
        Allowance::Unlimited => true,
        Allowance::Capped(n) => amount <= n,
    }
}

/// Each (owner, spender) pair occurs at most once in the allowance list.
pub open spec fn allow_keys_unique(m: Seq<(u64, u64, Allowance)>) -> bool {
    forall|i: int, j: int|
        0 <= i < j < m.len() ==> !((#[trigger] m[i]).0 == (#[trigger] m[j]).0 && m[i].1 == m[j].1)
}

/// The allowance stored for (owner, spender), if any.
pub open spec fn allow_lookup(m: Seq<(u64, u64, Allowance)>, owner: u64, spender: u64) -> Option<
    Allowance,
>
    decreases m.len(),
{
    if m.len() == 0 {
        None
    } else if m[0].0 == owner && m[0].1 == spender {
        Some(m[0].2)
    } else {
        allow_lookup(m.drop_first(), owner, spender)
    }
}

/// A pair found at index `i`, with no earlier entry carrying it, is what
/// `allow_lookup` returns.
proof fn lemma_allow_lookup_found(m: Seq<(u64, u64, Allowance)>, owner: u64, spender: u64, i: int)
    requires
        0 <= i < m.len(),
        m[i].0 == owner,
        m[i].1 == spender,
        forall|j: int| 0 <= j < i ==> !((#[trigger] m[j]).0 == owner && m[j].1 == spender),
    ensures
        allow_lookup(m, owner, spender) == Some(m[i].2),
    decreases i,
{
    let rest = m.drop_first();
    assert(forall|j: int| 0 <= j < rest.len() ==> (#[trigger] rest[j]) == m[j + 1]);
    if i > 0 {
        lemma_allow_lookup_found(rest, owner, spender, i - 1);
    }
}

/// `allow_lookup` misses exactly when no entry carries the pair.
proof fn lemma_allow_absent(m: Seq<(u64, u64, Allowance)>, owner: u64, spender: u64)
    ensures
        allow_lookup(m, owner, spender) is None <==> forall|j: int|
            0 <= j < m.len() ==> !((#[trigger] m[j]).0 == owner && m[j].1 == spender),
    decreases m.len(),
{
    if m.len() > 0 {
        let rest = m.drop_first();
        assert(forall|j: int| 0 <= j < rest.len() ==> (#[trigger] rest[j]) == m[j + 1]);
        assert(forall|j: int| 1 <= j < m.len() ==> (#[trigger] m[j]) == rest[j - 1]);
        lemma_allow_absent(rest, owner, spender);
        if m[0].0 == owner && m[0].1 == spender {
            assert(!(allow_lookup(m, owner, spender) is None));
        }
    }
}

/// Replacing the entry at index `i` by one with the same pair changes only
/// that pair's lookup.
proof fn lemma_allow_lookup_update(m: Seq<(u64, u64, Allowance)>, i: int, a: Allowance)
    requires
        0 <= i < m.len(),
        forall|j: int|
            0 <= j < i ==> !((#[trigger] m[j]).0 == m[i].0 && m[j].1 == m[i].1),
    ensures
        allow_lookup(m.update(i, (m[i].0, m[i].1, a)), m[i].0, m[i].1) == Some(a),
        forall|o2: u64, s2: u64|
            !(o2 == m[i].0 && s2 == m[i].1) ==> #[trigger] allow_lookup(
                m.update(i, (m[i].0, m[i].1, a)),
                o2,
                s2,
            ) == allow_lookup(m, o2, s2),
    decreases i,
{
    let m2 = m.update(i, (m[i].0, m[i].1, a));
    let rest = m.drop_first();
    assert(forall|j: int| 0 <= j < rest.len() ==> (#[trigger] rest[j]) == m[j + 1]);
    if i == 0 {
        assert(m2.drop_first() =~= rest);
        assert(m2[0] == (m[0].0, m[0].1, a));
    } else {
        lemma_allow_lookup_update(rest, i - 1, a);
        assert(rest[i - 1] == m[i]);
        assert(m2.drop_first() =~= rest.update(i - 1, (rest[i - 1].0, rest[i - 1].1, a)));
        assert(m2[0] == m[0]);
        assert forall|o2: u64, s2: u64| !(o2 == m[i].0 && s2 == m[i].1) implies #[trigger]
        allow_lookup(m2, o2, s2) == allow_lookup(m, o2, s2) by {
            if !(o2 == m[0].0 && s2 == m[0].1) {
                assert(allow_lookup(m2, o2, s2) == allow_lookup(m2.drop_first(), o2, s2));
                assert(allow_lookup(m, o2, s2) == allow_lookup(rest, o2, s2));
            }
        }
    }
}

/// Appending an entry leaves every present pair's lookup unchanged and
/// serves an absent pair only through the new entry.
proof fn lemma_allow_lookup_push(
    m: Seq<(u64, u64, Allowance)>,
    p: (u64, u64, Allowance),
    o2: u64,
    s2: u64,
)
    ensures
        allow_lookup(m.push(p), o2, s2) == (if allow_lookup(m, o2, s2) is Some {
            allow_lookup(m, o2, s2)
        } else if o2 == p.0 && s2 == p.1 {
            Some(p.2)
        } else {
            None::<Allowance>
        }),
    decreases m.len(),
{
    if m.len() == 0 {
        assert(m.push(p)[0] == p);
        assert(m.push(p).drop_first() =~= Seq::<(u64, u64, Allowance)>::empty());
        assert(allow_lookup(Seq::<(u64, u64, Allowance)>::empty(), o2, s2) is None);
    } else {
        assert(m.push(p)[0] == m[0]);
        assert(m.push(p).drop_first() =~= m.drop_first().push(p));
        lemma_allow_lookup_push(m.drop_first(), p, o2, s2);
    }
}

/// Store `a` under (owner, spender), overwriting an existing entry or
/// appending a new one.
fn allow_put(m: &mut Vec<(u64, u64, Allowance)>, owner: u64, spender: u64, a: Allowance)
    requires
        allow_keys_unique(old(m)@),
    ensures
        allow_keys_unique(final(m)@),
        final(m)@.len() <= old(m)@.len() + 1,
        allow_lookup(final(m)@, owner, spender) == Some(a),
        forall|o2: u64, s2: u64|
            !(o2 == owner && s2 == spender) ==> #[trigger] allow_lookup(final(m)@, o2, s2)
                == allow_lookup(old(m)@, o2, s2),
{
    let ghost m0 = m@;
    let mut i: usize = 0;
    while i < m.len()
        invariant
            m0 == old(m)@,
            allow_keys_unique(m0),
            m@ == m0,
            i <= m@.len(),
            forall|j: int| 0 <= j < i ==> !((#[trigger] m@[j]).0 == owner && m@[j].1 == spender),
        decreases m@.len() - i,
    {
        if m[i].0 == owner && m[i].1 == spender {
            m[i] = (owner, spender, a);
            proof {
                lemma_allow_lookup_update(m0, i as int, a);
                assert((owner, spender, a) == (m0[i as int].0, m0[i as int].1, a));
                assert(m@ == m0.update(i as int, (m0[i as int].0, m0[i as int].1, a)));
                assert forall|o2: u64, s2: u64| !(o2 == owner && s2 == spender) implies #[trigger]
                allow_lookup(m@, o2, s2) == allow_lookup(m0, o2, s2) by {
                    assert(allow_lookup(
                        m0.update(i as int, (m0[i as int].0, m0[i as int].1, a)),
                        o2,
                        s2,
                    ) == allow_lookup(m0, o2, s2));
                }
                assert(forall|b: int|
                    0 <= b < m@.len() ==> (#[trigger] m@[b]).0 == m0[b].0 && m@[b].1 == m0[b].1);
            }
            return ;
        }
        i += 1;
    }
    proof {
        lemma_allow_absent(m0, owner, spender);
        assert forall|o2: u64, s2: u64| !(o2 == owner && s2 == spender) implies #[trigger]
        allow_lookup(m0.push((owner, spender, a)), o2, s2) == allow_lookup(m0, o2, s2) by {
            lemma_allow_lookup_push(m0, (owner, spender, a), o2, s2);
        }
        lemma_allow_lookup_push(m0, (owner, spender, a), owner, spender);
    }
    m.push((owner, spender, a));
}

/// Look a pair up in the allowance list.
fn allow_get(m: &Vec<(u64, u64, Allowance)>, owner: u64, spender: u64) -> (r: Option<Allowance>)
    ensures
        r == allow_lookup(m@, owner, spender),
{
    let mut i: usize = 0;
    while i < m.len()
        invariant
            i <= m@.len(),
            forall|j: int| 0 <= j < i ==> !((#[trigger] m@[j]).0 == owner && m@[j].1 == spender),
        decreases m@.len() - i,
    {
        if m[i].0 == owner && m[i].1 == spender {
            proof {
                lemma_allow_lookup_found(m@, owner, spender, i as int);
            }
            return Some(m[i].2);
        }
        i += 1;
    }
    proof {
        lemma_allow_absent(m@, owner, spender);
    }
    None
}

/// Share balances and allowances.
pub struct ShareLedger {
    /// identity -> share balance; unique keys, values summing to the total supply.
    pub shares: Vec<(u64, u64)>,
    /// (owner, spender) -> allowance; unique pairs.
    pub allowed: Vec<(u64, u64, Allowance)>,
}

impl ShareLedger {
    /// The share balance of an identity, zero if never touched.
    pub open spec fn balance(self, id: u64) -> int {
        val64(self.shares@, id)
    }

    /// The allowance granted by `owner` to `spender`, `Capped(0)` if never granted.
    pub open spec fn allowance_of(self, owner: u64, spender: u64) -> Allowance {
        match allow_lookup(self.allowed@, owner, spender) {
            Some(a) => a,
            None => Allowance::Capped(0),
        }
    }

    /// Well-formedness: unique keys and conservation of the share total.
    pub open spec fn wf(self, total_supply: u64) -> bool {
        &&& keys_unique(self.shares@)
        &&& allow_keys_unique(self.allowed@)
        &&& sum64(self.shares@) == total_supply as int
    }

    /// The ledger at instantiation: the main owner holds the whole supply
    /// and has granted the governor an unlimited allowance.
    pub fn init(main_owner: u64, gov: u64, total: u64) -> (l: ShareLedger)
        ensures
            l.wf(total),
            l.balance(main_owner) == total as int,
            forall|k: u64| k != main_owner ==> #[trigger] l.balance(k) == 0,
            l.allowance_of(main_owner, gov) == Allowance::Unlimited,
            forall|o2: u64, s2: u64|
                !(o2 == main_owner && s2 == gov) ==> #[trigger] l.allowance_of(o2, s2)
                    == Allowance::Capped(0),
    {
        let mut shares: Vec<(u64, u64)> = Vec::new();
        let ghost se = shares@;
        shares.push((main_owner, total));
        let mut allowed: Vec<(u64, u64, Allowance)> = Vec::new();
        let ghost ae = allowed@;
        allowed.push((main_owner, gov, Allowance::Unlimited));
        proof {
            assert(se.len() == 0);
            assert(lookup(se, main_owner) is None);
            assert(sum64(se) == 0);
            assoc::lemma_sum64_push(se, (main_owner, total));
            assert forall|k: u64| k != main_owner implies #[trigger] lookup(shares@, k)
                is None by {
                assoc::lemma_lookup_push(se, (main_owner, total), k);
                assert(lookup(se, k) is None);
            }
            assoc::lemma_lookup_push(se, (main_owner, total), main_owner);
            assert(ae.len() == 0);
            assert(allow_lookup(ae, main_owner, gov) is None);
            assert forall|o2: u64, s2: u64| !(o2 == main_owner && s2 == gov) implies #[trigger]
            allow_lookup(allowed@, o2, s2) is None by {
                lemma_allow_lookup_push(ae, (main_owner, gov, Allowance::Unlimited), o2, s2);
                assert(allow_lookup(ae, o2, s2) is None);
            }
            lemma_allow_lookup_push(ae, (main_owner, gov, Allowance::Unlimited), main_owner, gov);
        }
        ShareLedger { shares, allowed }
    }

    /// Read an identity's share balance.
    pub fn balance_of(&self, id: u64) -> (r: u64)
        ensures
            r as int == self.balance(id),
    {
        match assoc::get(&self.shares, id) {
            Some(v) => v,
            None => 0,
        }
    }

    /// Read the allowance granted by `owner` to `spender`.
    pub fn get_allowance(&self, owner: u64, spender: u64) -> (a: Allowance)
        ensures
            a == self.allowance_of(owner, spender),
    {
        match allow_get(&self.allowed, owner, spender) {
            Some(a) => a,
            None => Allowance::Capped(0),
        }
    }

    /// Grant `spender` the allowance `a` on `owner`'s shares, overwriting
    /// any prior grant.
    pub fn set_allowance(&mut self, owner: u64, spender: u64, a: Allowance)
        requires
            allow_keys_unique(old(self).allowed@),
        ensures
            final(self).shares == old(self).shares,
            allow_keys_unique(final(self).allowed@),
            final(self).allowed@.len() <= old(self).allowed@.len() + 1,
            final(self).allowance_of(owner, spender) == a,
            forall|o2: u64, s2: u64|
                !(o2 == owner && s2 == spender) ==> #[trigger] final(self).allowance_of(o2, s2)
                    == old(self).allowance_of(o2, s2),
    {
        allow_put(&mut self.allowed, owner, spender, a);
    }

    /// Move `amount` shares from `from` to `to`; the single balance-changing
    /// primitive.  Fails, leaving the ledger untouched, when `from` holds
    /// fewer than `amount` shares; conserves the share total otherwise.
    pub fn transfer(&mut self, from: u64, to: u64, amount: u64) -> (r: Result<(), Error>)
        requires
            keys_unique(old(self).shares@),
            sum64(old(self).shares@) <= u64::MAX as int,
        ensures
            keys_unique(final(self).shares@),
            sum64(final(self).shares@) == sum64(old(self).shares@),
            final(self).shares@.len() <= old(self).shares@.len() + 2,
            final(self).allowed == old(self).allowed,
            r is Err <==> old(self).balance(from) < amount as int,
            r is Err ==> r == Err::<(), Error>(Error::InsufficientBalance) && *final(self) == *old(
                self,
            ),
            r is Ok && from != to ==> final(self).balance(from) == old(self).balance(from)
                - amount as int && final(self).balance(to) == old(self).balance(to) + amount as int,
            r is Ok && from == to ==> forall|k: u64| final(self).balance(k) == old(self).balance(k),
            forall|k: u64|
                k != from && k != to ==> #[trigger] final(self).balance(k) == old(self).balance(k),
    {
        let bf = self.balance_of(from);
        if bf < amount {
            return Err(Error::InsufficientBalance);
        }
        proof {
            assoc::lemma_val64_le_sum(self.shares@, from);
        }
        let ghost s0 = self.shares@;
        let i = assoc::put(&mut self.shares, from, bf - amount);
        proof {
            if assoc::has_key(s0, from) {
                assert(s0[i as int].0 == from);
                assert(forall|j: int| 0 <= j < i ==> (#[trigger] s0[j]).0 != s0[i as int].0);
                assoc::lemma_lookup_found(s0, from, i as int);
                assert(s0[i as int].1 == bf);
                assoc::lemma_sum64_update(s0, i as int, (from, (bf - amount) as u64));
            } else {
                assert(bf == 0 && amount == 0);
                assoc::lemma_sum64_push(s0, (from, 0u64));
            }
            assert(sum64(self.shares@) == sum64(s0) - amount as int);
        }
        let bt = self.balance_of(to);
        proof {
            assoc::lemma_val64_le_sum(self.shares@, to);
        }
        let ghost s1 = self.shares@;
        let j = assoc::put(&mut self.shares, to, bt + amount);
        proof {
            if assoc::has_key(s1, to) {
                assert(s1[j as int].0 == to);
                assert(forall|jj: int| 0 <= jj < j ==> (#[trigger] s1[jj]).0 != s1[j as int].0);
                assoc::lemma_lookup_found(s1, to, j as int);
                assert(s1[j as int].1 == bt);
                assoc::lemma_sum64_update(s1, j as int, (to, (bt + amount) as u64));
            } else {
                assert(bt == 0);
                assoc::lemma_sum64_push(s1, (to, amount));
            }
            assert(sum64(self.shares@) == sum64(s0));
            assert forall|k: u64| k != from && k != to implies #[trigger] val64(self.shares@, k)
                == val64(s0, k) by {
                assert(lookup(self.shares@, k) == lookup(s1, k));
                assert(lookup(s1, k) == lookup(s0, k));
            }
        }
        Ok(())
    }

    /// Seize `amount` shares from `from` in favour of `to`, consuming the
    /// allowance that `from` granted to `caller`.  Fails, leaving the
    /// ledger untouched, when the allowance or the balance is insufficient;
    /// a capped allowance is decremented on success, an unlimited one is
    /// left unchanged.
    pub fn seize(&mut self, caller: u64, from: u64, to: u64, amount: u64) -> (r: Result<(), Error>)
        requires
            keys_unique(old(self).shares@),
            allow_keys_unique(old(self).allowed@),
            sum64(old(self).shares@) <= u64::MAX as int,
        ensures
            keys_unique(final(self).shares@),
            allow_keys_unique(final(self).allowed@),
            sum64(final(self).shares@) == sum64(old(self).shares@),
            final(self).shares@.len() <= old(self).shares@.len() + 2,
            final(self).allowed@.len() <= old(self).allowed@.len() + 1,
            r == Err::<(), Error>(Error::InsufficientAllowance) <==> !covers(
                old(self).allowance_of(from, caller),
                amount,
            ),
            r == Err::<(), Error>(Error::InsufficientBalance) <==> covers(
                old(self).allowance_of(from, caller),
                amount,
            ) && old(self).balance(from) < amount as int,
            r is Ok <==> covers(old(self).allowance_of(from, caller), amount) && old(self).balance(
                from,
            ) >= amount as int,
            r is Err ==> *final(self) == *old(self),
            r is Ok && from != to ==> final(self).balance(from) == old(self).balance(from)
                - amount as int && final(self).balance(to) == old(self).balance(to) + amount as int,
            r is Ok && from == to ==> forall|k: u64| final(self).balance(k) == old(self).balance(k),
            forall|k: u64|
                k != from && k != to ==> #[trigger] final(self).balance(k) == old(self).balance(k),
            r is Ok ==> match old(self).allowance_of(from, caller) {
                Allowance::Unlimited => final(self).allowed == old(self).allowed,
                Allowance::Capped(n) => final(self).allowance_of(from, caller) == Allowance::Capped(
                    (n - amount) as u64,
                ) && forall|o2: u64, s2: u64|
                    !(o2 == from && s2 == caller) ==> #[trigger] final(self).allowance_of(o2, s2)
                        == old(self).allowance_of(o2, s2),
            },
    {
        let a = self.get_allowance(from, caller);
        let allowance_ok = match a {
            Allowance::Unlimited => true,
            Allowance::Capped(n) => amount <= n,
        };
        if !allowance_ok {
            return Err(Error::InsufficientAllowance);
        }
        match self.transfer(from, to, amount) {
            Err(e) => {
                return Err(e);
            },
            Ok(()) => {},
        }
        let ghost mid = *self;
        match a {
            Allowance::Unlimited => {},
            Allowance::Capped(n) => {
                self.set_allowance(from, caller, Allowance::Capped(n - amount));
            },
        }
        proof {
            assert forall|k: u64| k != from && k != to implies #[trigger] self.balance(k) == old(
                self,
            ).balance(k) by {
                assert(mid.balance(k) == old(self).balance(k));
                assert(self.balance(k) == mid.balance(k));
            }
            if from == to {
                assert forall|k: u64| self.balance(k) == old(self).balance(k) by {
                    assert(mid.balance(k) == old(self).balance(k));
                    assert(self.balance(k) == mid.balance(k));
                }
            }
            assert(self.balance(from) == mid.balance(from));
            assert(self.balance(to) == mid.balance(to));
        }
        Ok(())
    }
}

} // verus!
