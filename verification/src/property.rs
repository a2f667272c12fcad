//! The property: the single asset whose ownership, occupancy and revenue
//! the core tracks, with every public entry point of the ledger engine.
//!
//! Every state-changing operation checks authorization first, then mutates
//! exactly one component, and reports a domain event on success.  On any
//! error the state is left exactly as it was: no partial mutation ever
//! escapes a call.

use vstd::prelude::*;

use vstd::arithmetic::div_mod::{
    lemma_div_pos_is_pos, lemma_fundamental_div_mod, lemma_mod_division_less_than_divisor,
};

use crate::assoc::{sum128, sum64, val64};
use crate::distribution::RevenueDistributor;
use crate::errors::Error;
use crate::events::Event;
use crate::ledger::{covers, Allowance, ShareLedger};
use crate::market::ShareMarketplace;
use crate::registry::StakeholderRegistry;
use crate::rent::RentAccrual;

verus! {

/// The fixed number of indivisible ownership shares.
pub const TOTAL_SUPPLY: u64 = 100;

/// The length of a 30-day period in seconds.
pub const SECONDS_PER_30_DAYS: u64 = 60 * 60 * 24 * 30;

/// Derive the length of a 30-day period in blocks from the block time.
pub fn blocks_per_30_days(avg_block_time: u8) -> (r: u64)
    requires
        avg_block_time >= 1,
    ensures
        r == SECONDS_PER_30_DAYS / (avg_block_time as u64),
        1 <= r <= SECONDS_PER_30_DAYS,
{
    proof {
        let s = avg_block_time as int;
        let total = SECONDS_PER_30_DAYS as int;
        lemma_fundamental_div_mod(total, s);
        lemma_mod_division_less_than_divisor(total, s);
        lemma_div_pos_is_pos(total, s);
        let q = total / s;
        let rem = total % s;
        assert(1 <= q && q <= total) by (nonlinear_arith)
            requires
                total == s * q + rem,
                0 <= rem < s,
                1 <= s <= 255,
                q >= 0,
                total == 2592000,
        ;
    }
    SECONDS_PER_30_DAYS / (avg_block_time as u64)
}

/// The single real-property asset: identity roles, rent parameters, and
/// the five components of the ledger engine.
pub struct Property {
    /// Human-readable property name.
    pub name: String,
    /// Ticker-style symbol.
    pub symbol: String,
    /// Share divisibility; shares are indivisible integers.
    pub decimals: u8,
    /// The governing identity, set at instantiation.
    pub gov: u64,
    /// The identity that initially holds the whole supply.
    pub main_property_owner: u64,
    /// Tax rate in whole percent, 0 to 100.
    pub tax: u8,
    /// Average seconds per block, at least 1.
    pub avg_block_time: u8,
    /// Blocks in a 30-day period, derived from the block time.
    pub blocks_per_30_day: u64,
    /// How many 30-day periods rent may run ahead.
    pub rental_limit_months: u8,
    /// The prepayment bound in blocks, derived.
    pub rental_limit_blocks: u64,
    /// The fixed share total.
    pub total_supply: u64,
    /// The rent charged per 30-day period.
    pub rent_per_30_day: u128,
    /// Share balances and allowances.
    pub ledger: ShareLedger,
    /// The recognized stakeholders, in distribution order.
    pub registry: StakeholderRegistry,
    /// Occupancy and prepayment state.
    pub rent: RentAccrual,
    /// The revenue pool and per-stakeholder accruals.
    pub distributor: RevenueDistributor,
    /// Outstanding sell offers.
    pub market: ShareMarketplace,
}

impl Property {
    /// Well-formedness of the whole state: parameter ranges, the derived
    /// period lengths, and every component invariant — in particular that
    /// the share balances always sum to the fixed total supply.
    pub open spec fn wf(self) -> bool {
        &&& self.total_supply == TOTAL_SUPPLY
        &&& self.decimals == 0
        &&& self.rental_limit_months == 12
        &&& self.tax <= 100
        &&& self.avg_block_time >= 1
        &&& self.blocks_per_30_day == SECONDS_PER_30_DAYS / (self.avg_block_time as u64)
        &&& 1 <= self.blocks_per_30_day <= SECONDS_PER_30_DAYS
        &&& self.rental_limit_blocks == 12 * self.blocks_per_30_day
        &&& self.ledger.wf(self.total_supply)
        &&& self.registry.wf()
        &&& self.rent.wf()
        &&& self.distributor.wf()
        &&& self.market.wf()
    }

    /// Instantiate the property: the caller of the instantiation becomes
    /// the governor, the main owner holds all shares and has granted the
    /// governor an unlimited allowance, and both are stakeholders.
    pub fn new(
        property_id: String,
        property_symbol: String,
        gov: u64,
        main_property_owner: u64,
        tax: u8,
        avg_block_time: u8,
    ) -> (r: Result<Property, Error>)
        ensures
            r is Err <==> tax > 100 || avg_block_time == 0,
            r is Err ==> r == Err::<Property, Error>(Error::InvalidParameter),
            r matches Ok(p) ==> {
                &&& p.wf()
                &&& p.name == property_id
                &&& p.symbol == property_symbol
                &&& p.gov == gov
                &&& p.main_property_owner == main_property_owner
                &&& p.tax == tax
                &&& p.avg_block_time == avg_block_time
                &&& p.rent_per_30_day == 0
                &&& p.ledger.balance(main_property_owner) == TOTAL_SUPPLY as int
                &&& forall|k: u64|
                    k != main_property_owner ==> #[trigger] p.ledger.balance(k) == 0
                &&& p.ledger.allowance_of(main_property_owner, gov) == Allowance::Unlimited
                &&& p.registry.members@ == (if gov == main_property_owner {
                    seq![gov]
                } else {
                    seq![gov, main_property_owner]
                })
                &&& p.registry.is_member(gov)
                &&& p.registry.is_member(main_property_owner)
                &&& p.distributor.accumulated == 0
                &&& sum128(p.distributor.revenues@) == 0
                &&& forall|k: u64| #[trigger] p.distributor.revenue_of(k) == 0
                &&& p.rent.tenant is None
                &&& p.rent.occupied_until == 0
                &&& forall|k: u64| #[trigger] p.rent.paid_until(k) == 0
                &&& forall|k: u64|
                    #[trigger] p.market.offered_of(k) == 0 && p.market.price_of(k) == 0
            },
    {
        if tax > 100 || avg_block_time == 0 {
            return Err(Error::InvalidParameter);
        }
        let ledger = ShareLedger::init(main_property_owner, gov, TOTAL_SUPPLY);
        let mut members: Vec<u64> = Vec::new();
        members.push(gov);
        if main_property_owner != gov {
            members.push(main_property_owner);
        }
        let registry = StakeholderRegistry { members };
        let rent = RentAccrual {
            rent_paid_until: Vec::new(),
            rental_begin: 0,
            occupied_until: 0,
            tenant: None,
        };
        let distributor = RevenueDistributor { revenues: Vec::new(), accumulated: 0 };
        let market = ShareMarketplace {
            shares_offered: Vec::new(),
            share_sell_price: Vec::new(),
        };
        let blocks = blocks_per_30_days(avg_block_time);
        let p = Property {
            name: property_id,
            symbol: property_symbol,
            decimals: 0,
            gov,
            main_property_owner,
            tax,
            avg_block_time,
            blocks_per_30_day: blocks,
            rental_limit_months: 12,
            rental_limit_blocks: 12 * blocks,
            total_supply: TOTAL_SUPPLY,
            rent_per_30_day: 0,
            ledger,
            registry,
            rent,
            distributor,
            market,
        };
        proof {
            if gov == main_property_owner {
                assert(p.registry.members@ =~= seq![gov]);
            } else {
                assert(p.registry.members@ =~= seq![gov, main_property_owner]);
            }
            assert(p.registry.members@[0] == gov);
            assert(p.registry.is_member(gov));
            if gov != main_property_owner {
                assert(p.registry.members@[1] == main_property_owner);
            }
            assert(p.registry.is_member(main_property_owner));
        }
        Ok(p)
    }

    /// The share balance of `owner`, zero if never touched.
    pub fn show_shares_of(&self, owner: u64) -> (r: u64)
        ensures
            r as int == self.ledger.balance(owner),
    {
        self.ledger.balance_of(owner)
    }

    /// Whether `address` is a stakeholder and at which slot of the
    /// distribution order it sits (zero when absent).
    pub fn is_stakeholder(&self, address: u64) -> (r: (bool, usize))
        ensures
            r.0 == self.registry.is_member(address),
            r.0 ==> r.1 < self.registry.members@.len() && self.registry.members@[r.1 as int]
                == address,
            !r.0 ==> r.1 == 0,
    {
        self.registry.lookup_index(address)
    }

    /// Whether `tenant_check` is the active tenant at `current_block`, and
    /// how many whole days of occupancy remain.
    pub fn current_tenant_check(&self, tenant_check: u64, current_block: u64) -> (r: (bool, u64))
        requires
            self.wf(),
        ensures
            r.0 <==> self.rent.paid_until(tenant_check) == self.rent.occupied_until as int
                && self.rent.paid_until(tenant_check) > current_block as int,
            r.0 ==> r.1 as int == crate::rent::days_math(
                (self.rent.paid_until(tenant_check) - current_block) as u64,
                self.avg_block_time,
            ),
            !r.0 ==> r.1 == 0,
    {
        let paid = self.rent.paid_until_view(tenant_check);
        if paid == self.rent.occupied_until && paid > current_block {
            let days = crate::rent::compute_days(paid - current_block, self.avg_block_time);
            (true, days)
        } else {
            (false, 0)
        }
    }

    /// Set the tax rate; governor only, whole percent only.
    pub fn set_tax(&mut self, caller: u64, tax: u8) -> (r: Result<Event, Error>)
        requires
            old(self).wf(),
        ensures
            final(self).wf(),
            r == Err::<Event, Error>(Error::Unauthorized) <==> caller != old(self).gov,
            r == Err::<Event, Error>(Error::InvalidParameter) <==> caller == old(self).gov && tax
                > 100,
            r is Ok <==> caller == old(self).gov && tax <= 100,
            r is Err ==> *final(self) == *old(self),
            r is Ok ==> *final(self) == (Property { tax, ..*old(self) }) && r == Ok::<
                Event,
                Error,
            >(Event::ChangedTax { new_tax: tax }),
    {
        if caller != self.gov {
            return Err(Error::Unauthorized);
        }
        if tax > 100 {
            return Err(Error::InvalidParameter);
        }
        self.tax = tax;
        Ok(Event::ChangedTax { new_tax: tax })
    }

    /// Set the average block time; governor only, nonzero only.  The
    /// 30-day period length and the prepayment bound are re-derived.
    pub fn set_avg_block_time(&mut self, caller: u64, seconds_per_block: u8) -> (r: Result<
        Event,
        Error,
    >)
        requires
            old(self).wf(),
        ensures
            final(self).wf(),
            r == Err::<Event, Error>(Error::Unauthorized) <==> caller != old(self).gov,
            r == Err::<Event, Error>(Error::InvalidParameter) <==> caller == old(self).gov
                && seconds_per_block == 0,
            r is Ok <==> caller == old(self).gov && seconds_per_block >= 1,
            r is Err ==> *final(self) == *old(self),
            r is Ok ==> *final(self) == (Property {
                avg_block_time: seconds_per_block,
                blocks_per_30_day: SECONDS_PER_30_DAYS / (seconds_per_block as u64),
                rental_limit_blocks: (12 * (SECONDS_PER_30_DAYS / (seconds_per_block as u64))) as u64,
                ..*old(self)
            }) && r == Ok::<Event, Error>(Event::AvgBlockTimeChangedTo { seconds: seconds_per_block }),
    {
        if caller != self.gov {
            return Err(Error::Unauthorized);
        }
        if seconds_per_block == 0 {
            return Err(Error::InvalidParameter);
        }
        let blocks = blocks_per_30_days(seconds_per_block);
        self.avg_block_time = seconds_per_block;
        self.blocks_per_30_day = blocks;
        self.rental_limit_blocks = 12 * blocks;
        Ok(Event::AvgBlockTimeChangedTo { seconds: seconds_per_block })
    }

    /// Set the rent charged per 30-day period; governor only.
    pub fn set_rent_per_30_day(&mut self, caller: u64, rent: u128) -> (r: Result<Event, Error>)
        requires
            old(self).wf(),
        ensures
            final(self).wf(),
            r is Err <==> caller != old(self).gov,
            r is Err ==> r == Err::<Event, Error>(Error::Unauthorized) && *final(self) == *old(self),
            r is Ok ==> *final(self) == (Property { rent_per_30_day: rent, ..*old(self) }) && r
                == Ok::<Event, Error>(Event::RentPer30DaySetTo { rent }),
    {
        if caller != self.gov {
            return Err(Error::Unauthorized);
        }
        self.rent_per_30_day = rent;
        Ok(Event::RentPer30DaySetTo { rent })
    }

    /// Seize `value` shares from `from` in favour of `to`, consuming the
    /// allowance `from` granted to the caller.  Fails exactly when the
    /// allowance or the balance is insufficient, and conserves the share
    /// total otherwise.
    pub fn seizure_from(&mut self, caller: u64, from: u64, to: u64, value: u64) -> (r: Result<
        Event,
        Error,
    >)
        requires
            old(self).wf(),
        ensures
            final(self).wf(),
            r == Err::<Event, Error>(Error::InsufficientAllowance) <==> !covers(
                old(self).ledger.allowance_of(from, caller),
                value,
            ),
            r == Err::<Event, Error>(Error::InsufficientBalance) <==> covers(
                old(self).ledger.allowance_of(from, caller),
                value,
            ) && old(self).ledger.balance(from) < value as int,
            r is Ok <==> covers(old(self).ledger.allowance_of(from, caller), value) && old(self).ledger.balance(from) >= value as int,
            r is Err ==> *final(self) == *old(self),
            r is Ok ==> r == Ok::<Event, Error>(Event::Seizure { seized_from: from, to, shares: value }),
            r is Ok && from != to ==> final(self).ledger.balance(from) == old(self).ledger.balance(
                from,
            ) - value as int && final(self).ledger.balance(to) == old(self).ledger.balance(to)
                + value as int,
            r is Ok && from == to ==> forall|k: u64|
                final(self).ledger.balance(k) == old(self).ledger.balance(k),
            forall|k: u64|
                k != from && k != to ==> #[trigger] final(self).ledger.balance(k) == old(self).ledger.balance(k),
            r is Ok ==> match old(self).ledger.allowance_of(from, caller) {
                Allowance::Unlimited => final(self).ledger.allowed == old(self).ledger.allowed,
                Allowance::Capped(n) => final(self).ledger.allowance_of(from, caller)
                    == Allowance::Capped((n - value) as u64) && forall|o2: u64, s2: u64|
                    !(o2 == from && s2 == caller) ==> #[trigger] final(self).ledger.allowance_of(
                        o2,
                        s2,
                    ) == old(self).ledger.allowance_of(o2, s2),
            },
            *final(self) == (Property { ledger: final(self).ledger, ..*old(self) }),
    {
        match self.ledger.seize(caller, from, to, value) {
            Err(e) => Err(e),
            Ok(()) => Ok(Event::Seizure { seized_from: from, to, shares: value }),
        }
    }

    /// Put `amount_shares` up for sale at `price_per_share`, replacing any
    /// prior offer of the caller.  The share ledger itself is untouched:
    /// only a purchase moves balances.
    pub fn offer_shares_for_sale(
        &mut self,
        caller: u64,
        amount_shares: u64,
        price_per_share: u128,
    ) -> (r: Result<Event, Error>)
        requires
            old(self).wf(),
        ensures
            final(self).wf(),
            r is Err <==> old(self).ledger.balance(caller) < amount_shares as int,
            r is Err ==> r == Err::<Event, Error>(Error::InsufficientShares) && *final(self)
                == *old(self),
            r is Ok ==> {
                &&& r == Ok::<Event, Error>(Event::SharesOffered {
                    seller: caller,
                    amount_shares,
                    price_per_share,
                })
                &&& final(self).market.offered_of(caller) == amount_shares as int
                &&& final(self).market.price_of(caller) == price_per_share as int
                &&& forall|k: u64|
                    k != caller ==> #[trigger] final(self).market.offered_of(k) == old(self).market.offered_of(k)
                &&& forall|k: u64|
                    k != caller ==> #[trigger] final(self).market.price_of(k) == old(self).market.price_of(k)
                &&& *final(self) == (Property { market: final(self).market, ..*old(self) })
            },
    {
        let balance = self.ledger.balance_of(caller);
        if balance < amount_shares {
            return Err(Error::InsufficientShares);
        }
        self.market.set_offer(caller, amount_shares, price_per_share);
        Ok(Event::SharesOffered { seller: caller, amount_shares, price_per_share })
    }

    /// Buy `amount_shares` from `seller` at the seller's asking price.
    /// The attached payment must cover the full price; the purchase moves
    /// balances directly and deliberately leaves the outstanding offer
    /// untouched, as the marketplace's published behaviour has it.
    pub fn buy_shares(
        &mut self,
        buyer: u64,
        seller: u64,
        amount_shares: u64,
        transferred_amount: u128,
    ) -> (r: Result<Event, Error>)
        requires
            old(self).wf(),
        ensures
            final(self).wf(),
            r == Err::<Event, Error>(Error::InsufficientPayment) <==> (transferred_amount as int)
                < old(self).market.price_of(seller) * amount_shares as int,
            r == Err::<Event, Error>(Error::InsufficientShares) <==> (transferred_amount as int)
                >= old(self).market.price_of(seller) * amount_shares as int && old(self).ledger.balance(seller) < amount_shares as int,
            r is Ok <==> (transferred_amount as int) >= old(self).market.price_of(seller)
                * amount_shares as int && old(self).ledger.balance(seller) >= amount_shares as int,
            r is Err ==> *final(self) == *old(self),
            r is Ok ==> r == Ok::<Event, Error>(Event::SharesSold {
                seller,
                buyer,
                shares_sold: amount_shares,
                price_per_share: old(self).market.price_of(seller) as u128,
            }),
            r is Ok && seller != buyer ==> final(self).ledger.balance(seller) == old(self).ledger.balance(seller) - amount_shares as int && final(self).ledger.balance(buyer)
                == old(self).ledger.balance(buyer) + amount_shares as int,
            r is Ok && seller == buyer ==> forall|k: u64|
                final(self).ledger.balance(k) == old(self).ledger.balance(k),
            forall|k: u64|
                k != seller && k != buyer ==> #[trigger] final(self).ledger.balance(k) == old(self).ledger.balance(k),
            final(self).ledger.allowed == old(self).ledger.allowed,
            *final(self) == (Property { ledger: final(self).ledger, ..*old(self) }),
    {
        let price = self.market.price_view(seller);
        let total = match price.checked_mul(amount_shares as u128) {
            None => {
                return Err(Error::InsufficientPayment);
            },
            Some(t) => t,
        };
        if transferred_amount < total {
            return Err(Error::InsufficientPayment);
        }
        match self.ledger.transfer(seller, buyer, amount_shares) {
            Err(_) => Err(Error::InsufficientShares),
            Ok(()) => Ok(
                Event::SharesSold { seller, buyer, shares_sold: amount_shares, price_per_share: price },
            ),
        }
    }

    /// Withdraw the caller's accrued revenue.  The accrual is zeroed here,
    /// before the host performs the outgoing transfer, so a re-entering
    /// call finds nothing left to withdraw.
    pub fn withdraw_revenue(&mut self, caller: u64) -> (r: Result<Event, Error>)
        requires
            old(self).wf(),
        ensures
            final(self).wf(),
            r is Err <==> old(self).distributor.revenue_of(caller) == 0,
            r is Err ==> r == Err::<Event, Error>(Error::NothingToWithdraw) && *final(self) == *old(self),
            r is Ok ==> {
                &&& r == Ok::<Event, Error>(Event::Withdrawal {
                    shareholder: caller,
                    withdrawn: old(self).distributor.revenue_of(caller) as u128,
                })
                &&& final(self).distributor.revenue_of(caller) == 0
                &&& final(self).distributor.accumulated == old(self).distributor.accumulated
                &&& sum128(final(self).distributor.revenues@) == sum128(
                    old(self).distributor.revenues@,
                ) - old(self).distributor.revenue_of(caller)
                &&& forall|k: u64|
                    k != caller ==> #[trigger] final(self).distributor.revenue_of(k) == old(self).distributor.revenue_of(k)
                &&& *final(self) == (Property { distributor: final(self).distributor, ..*old(self) })
            },
    {
        match self.distributor.withdraw(caller) {
            Err(e) => Err(e),
            Ok(owed) => Ok(Event::Withdrawal { shareholder: caller, withdrawn: owed }),
        }
    }

    /// Record a new stakeholder; governor only.  A present identity is a
    /// no-op reported as `Ok(None)`.  Insertion grants the governor an
    /// unlimited allowance on the new stakeholder's shares, enabling a
    /// future ban.
    pub fn add_stakeholder(&mut self, caller: u64, stakeholder: u64) -> (r: Result<
        Option<Event>,
        Error,
    >)
        requires
            old(self).wf(),
        ensures
            final(self).wf(),
            r is Err <==> caller != old(self).gov,
            r is Err ==> r == Err::<Option<Event>, Error>(Error::Unauthorized) && *final(self)
                == *old(self),
            r == Ok::<Option<Event>, Error>(None) <==> caller == old(self).gov && old(self).registry.is_member(stakeholder),
            r == Ok::<Option<Event>, Error>(None) ==> *final(self) == *old(self),
            r matches Ok(Some(ev)) <==> caller == old(self).gov && !old(self).registry.is_member(
                stakeholder,
            ),
            r matches Ok(Some(ev)) ==> {
                &&& ev == Event::NewStakeholder { stakeholder_added: stakeholder }
                &&& final(self).registry.members@ == old(self).registry.members@.push(stakeholder)
                &&& final(self).registry.is_member(stakeholder)
                &&& final(self).ledger.allowance_of(stakeholder, old(self).gov)
                    == Allowance::Unlimited
                &&& forall|o2: u64, s2: u64|
                    !(o2 == stakeholder && s2 == old(self).gov) ==> #[trigger] final(self).ledger.allowance_of(o2, s2) == old(self).ledger.allowance_of(o2, s2)
                &&& final(self).ledger.shares == old(self).ledger.shares
                &&& *final(self) == (Property {
                    registry: final(self).registry,
                    ledger: final(self).ledger,
                    ..*old(self)
                })
            },
    {
        if caller != self.gov {
            return Err(Error::Unauthorized);
        }
        let added = self.registry.add(stakeholder);
        if !added {
            return Ok(None);
        }
        let gov = self.gov;
        self.ledger.set_allowance(stakeholder, gov, Allowance::Unlimited);
        proof {
            assert(self.registry.members@[old(self).registry.members@.len() as int]
                == stakeholder);
        }
        Ok(Some(Event::NewStakeholder { stakeholder_added: stakeholder }))
    }

    /// Ban a stakeholder; governor only.  An absent identity is a no-op
    /// reported as `Ok(None)`.  The ban removes the identity from the
    /// registry (by swap, see the registry) and seizes its entire share
    /// balance for the governor through the granted allowance; if that
    /// allowance does not cover the balance the whole call fails and
    /// nothing changes.
    pub fn ban_stakeholder(&mut self, caller: u64, stakeholder: u64) -> (r: Result<
        Option<Event>,
        Error,
    >)
        requires
            old(self).wf(),
        ensures
            final(self).wf(),
            r == Err::<Option<Event>, Error>(Error::Unauthorized) <==> caller != old(self).gov,
            r == Err::<Option<Event>, Error>(Error::InsufficientAllowance) <==> caller == old(self).gov && old(self).registry.is_member(stakeholder) && !covers(
                old(self).ledger.allowance_of(stakeholder, old(self).gov),
                old(self).ledger.balance(stakeholder) as u64,
            ),
            r == Ok::<Option<Event>, Error>(None) <==> caller == old(self).gov && !old(self).registry.is_member(stakeholder),
            r matches Ok(Some(ev)) <==> caller == old(self).gov && old(self).registry.is_member(
                stakeholder,
            ) && covers(
                old(self).ledger.allowance_of(stakeholder, old(self).gov),
                old(self).ledger.balance(stakeholder) as u64,
            ),
            r is Err ==> *final(self) == *old(self),
            r == Ok::<Option<Event>, Error>(None) ==> *final(self) == *old(self),
            r matches Ok(Some(ev)) ==> {
                &&& ev == Event::StakeholderBanned {
                    banned: stakeholder,
                    seized_shares: old(self).ledger.balance(stakeholder) as u64,
                }
                &&& !final(self).registry.is_member(stakeholder)
                &&& forall|k: u64|
                    k != stakeholder ==> #[trigger] final(self).registry.is_member(k) == old(self).registry.is_member(k)
                &&& final(self).registry.members@.len() == old(self).registry.members@.len() - 1
                &&& final(self).registry.members@ == old(self).registry.members@.update(
                    old(self).registry.slot_of(stakeholder),
                    old(self).registry.members@.last(),
                ).drop_last()
                &&& match old(self).ledger.allowance_of(stakeholder, old(self).gov) {
                    Allowance::Unlimited => final(self).ledger.allowed == old(self).ledger.allowed,
                    Allowance::Capped(n) => final(self).ledger.allowance_of(
                        stakeholder,
                        old(self).gov,
                    ) == Allowance::Capped(
                        (n - old(self).ledger.balance(stakeholder)) as u64,
                    ) && forall|o2: u64, s2: u64|
                        !(o2 == stakeholder && s2 == old(self).gov) ==> #[trigger] final(self).ledger.allowance_of(o2, s2) == old(self).ledger.allowance_of(o2, s2),
                }
                &&& (stakeholder != old(self).gov ==> final(self).ledger.balance(stakeholder) == 0
                    && final(self).ledger.balance(old(self).gov) == old(self).ledger.balance(
                    old(self).gov,
                ) + old(self).ledger.balance(stakeholder))
                &&& (stakeholder == old(self).gov ==> forall|k: u64|
                    final(self).ledger.balance(k) == old(self).ledger.balance(k))
                &&& forall|k: u64|
                    k != stakeholder && k != old(self).gov ==> #[trigger] final(self).ledger.balance(k) == old(self).ledger.balance(k)
                &&& *final(self) == (Property {
                    registry: final(self).registry,
                    ledger: final(self).ledger,
                    ..*old(self)
                })
            },
    {
        if caller != self.gov {
            return Err(Error::Unauthorized);
        }
        let (present, _) = self.registry.lookup_index(stakeholder);
        if !present {
            return Ok(None);
        }
        let bal = self.ledger.balance_of(stakeholder);
        let gov = self.gov;
        let a = self.ledger.get_allowance(stakeholder, gov);
        let allowance_ok = match a {
            Allowance::Unlimited => true,
            Allowance::Capped(n) => bal <= n,
        };
        if !allowance_ok {
            return Err(Error::InsufficientAllowance);
        }
        self.registry.remove_swap(stakeholder);
        match self.ledger.seize(gov, stakeholder, gov, bal) {
            Ok(()) => {},
            Err(_) => {
                proof {
                    assert(false);
                }
            },
        }
        Ok(Some(Event::StakeholderBanned { banned: stakeholder, seized_shares: bal }))
    }

    /// The prepaid blocks still ahead of `current_block` for `caller`:
    /// zero for a lapsed tenant (saturating subtraction).
    pub open spec fn rent_duration_at(self, caller: u64, current_block: u64) -> int {
        if self.rent.paid_until(caller) > current_block as int {
            self.rent.paid_until(caller) - current_block as int
        } else {
            0
        }
    }

    /// The rent a payment at `current_block` charges `caller`: the pro-rata
    /// share of the 30-day rent for the duration being re-bought.
    pub open spec fn rent_due_at(self, caller: u64, current_block: u64) -> int {
        crate::rent::rent_due_math(
            self.rent_per_30_day,
            self.rent_duration_at(caller, current_block) as u64,
            self.blocks_per_30_day,
        )
    }

    /// Pay rent.  The caller's remaining prepaid duration is priced at the
    /// current rent rate; the attached payment must cover it.  On success
    /// the caller becomes the tenant, the occupancy is extended by that
    /// duration, the tax cut is withheld and the remainder joins the
    /// distributable pool.  The two arithmetic bounds in the preconditions
    /// are machine limits: the occupancy clock must stay within the block
    /// counter and the pool within the money type.
    pub fn pay_rent(&mut self, caller: u64, transferred_amount: u128, current_block: u64) -> (r:
        Result<Event, Error>)
        requires
            old(self).wf(),
            old(self).rent.paid_until(caller) <= u64::MAX as int / 2,
            sum128(old(self).distributor.revenues@) + old(self).distributor.accumulated as int
                + transferred_amount as int <= u128::MAX as int,
        ensures
            final(self).wf(),
            r == Err::<Event, Error>(Error::PrepaymentLimitExceeded) <==> current_block as int
                >= old(self).rent.paid_until(caller) + old(self).rental_limit_blocks as int,
            r == Err::<Event, Error>(Error::InsufficientPayment) <==> (current_block as int) < old(self).rent.paid_until(caller) + old(self).rental_limit_blocks as int && (
            transferred_amount as int) < old(self).rent_due_at(caller, current_block),
            r is Ok <==> (current_block as int) < old(self).rent.paid_until(caller) + old(self).rental_limit_blocks as int && (transferred_amount as int) >= old(self).rent_due_at(
                caller,
                current_block,
            ),
            r is Err ==> *final(self) == *old(self),
            r is Ok ==> {
                let due = old(self).rent.paid_until(caller);
                let duration = old(self).rent_duration_at(caller, current_block);
                let rent_paid = old(self).rent_due_at(caller, current_block);
                let tax_cut = crate::rent::tax_cut_math(rent_paid as u128, old(self).tax);
                &&& final(self).distributor.accumulated as int == old(self).distributor.accumulated as int + (rent_paid - tax_cut)
                &&& final(self).distributor.revenues == old(self).distributor.revenues
                &&& final(self).rent.tenant == Some(caller)
                &&& final(self).rent.rental_begin == current_block
                &&& final(self).rent.occupied_until as int == due + duration
                &&& final(self).rent.paid_until(caller) == due + duration
                &&& forall|k: u64|
                    k != caller ==> #[trigger] final(self).rent.paid_until(k) == old(self).rent.paid_until(k)
                &&& *final(self) == (Property {
                    rent: final(self).rent,
                    distributor: final(self).distributor,
                    ..*old(self)
                })
                &&& r == Ok::<Event, Error>(Event::Rental {
                    date: current_block,
                    renter: caller,
                    rent_paid: rent_paid as u128,
                    tax: tax_cut as u128,
                    distributable_revenue: (rent_paid - tax_cut) as u128,
                    rented_from: current_block,
                    rented_until: (due + duration) as u64,
                })
            },
    {
        let due = self.rent.paid_until_view(caller);
        if !(current_block < due + self.rental_limit_blocks) {
            return Err(Error::PrepaymentLimitExceeded);
        }
        let duration: u64 = if due > current_block {
            due - current_block
        } else {
            0
        };
        let rent_to_pay = match crate::rent::compute_rent_due(
            self.rent_per_30_day,
            duration,
            self.blocks_per_30_day,
        ) {
            None => {
                return Err(Error::InsufficientPayment);
            },
            Some(v) => v,
        };
        if transferred_amount < rent_to_pay {
            return Err(Error::InsufficientPayment);
        }
        let tax_amount = crate::rent::compute_tax(rent_to_pay, self.tax);
        let distributable = rent_to_pay - tax_amount;
        self.distributor.add_to_pool(distributable);
        let new_until = due + duration;
        self.rent.record_payment(caller, current_block, new_until);
        Ok(
            Event::Rental {
                date: current_block,
                renter: caller,
                rent_paid: rent_to_pay,
                tax: tax_amount,
                distributable_revenue: distributable,
                rented_from: current_block,
                rented_until: new_until,
            },
        )
    }

    /// Distribute the pool pro rata; governor only.  Every stakeholder, in
    /// registry order, is credited the per-share quotient of the pool at
    /// call start times its share balance; what the integer division
    /// truncates stays in the pool.  The payouts together never exceed the
    /// pool held at call start.
    pub fn distribute(&mut self, caller: u64) -> (r: Result<Event, Error>)
        requires
            old(self).wf(),
        ensures
            final(self).wf(),
            r is Err <==> caller != old(self).gov,
            r is Err ==> r == Err::<Event, Error>(Error::Unauthorized) && *final(self) == *old(
                self,
            ),
            r matches Ok(ev) ==> ({
                let q = old(self).distributor.accumulated as int / TOTAL_SUPPLY as int;
                let members = old(self).registry.members@;
                &&& ev matches Event::RevenuesDistributed { .. }
                &&& (ev matches Event::RevenuesDistributed { payouts, total_distributed } ==> {
                    &&& payouts@.len() == members.len()
                    &&& forall|i: int|
                        0 <= i < payouts@.len() ==> (#[trigger] payouts@[i]).0 == members[i]
                            && payouts@[i].1 as int == q * old(self).ledger.balance(members[i])
                    &&& total_distributed as int == sum128(payouts@)
                    &&& sum128(payouts@) <= old(self).distributor.accumulated as int
                    &&& final(self).distributor.accumulated as int == old(
                        self,
                    ).distributor.accumulated as int - sum128(payouts@)
                    &&& sum128(final(self).distributor.revenues@) == sum128(
                        old(self).distributor.revenues@,
                    ) + sum128(payouts@)
                })
                &&& forall|i: int|
                    0 <= i < members.len() ==> #[trigger] final(self).distributor.revenue_of(
                        members[i],
                    ) == old(self).distributor.revenue_of(members[i]) + q * old(
                        self,
                    ).ledger.balance(members[i])
                &&& forall|k: u64|
                    !members.contains(k) ==> #[trigger] final(self).distributor.revenue_of(k)
                        == old(self).distributor.revenue_of(k)
                &&& *final(self) == (Property { distributor: final(self).distributor, ..*old(self) })
            }),
    {
        if caller != self.gov {
            return Err(Error::Unauthorized);
        }
        let acc0 = self.distributor.accumulated;
        let q = acc0 / (self.total_supply as u128);
        let mut payouts: Vec<(u64, u128)> = Vec::new();
        let ghost members = self.registry.members@;
        let ghost shares0 = self.ledger.shares@;
        let ghost dist0 = self.distributor;
        let ghost qi = q as int;
        let ghost mut rest = shares0;
        proof {
            lemma_fundamental_div_mod(acc0 as int, TOTAL_SUPPLY as int);
            lemma_mod_division_less_than_divisor(acc0 as int, TOTAL_SUPPLY as int);
            lemma_div_pos_is_pos(acc0 as int, TOTAL_SUPPLY as int);
            assert(qi * (TOTAL_SUPPLY as int) <= acc0 as int) by (nonlinear_arith)
                requires
                    acc0 as int == TOTAL_SUPPLY as int * qi + acc0 as int % (TOTAL_SUPPLY as int),
                    acc0 as int % (TOTAL_SUPPLY as int) >= 0,
            ;
            assert(members.take(0) =~= Seq::<u64>::empty());
            assert forall|i: int, j: int| 0 <= i < j < members.len() implies members[i]
                != members[j] by {
                assert(old(self).registry.members@[i] != old(self).registry.members@[j]);
            }
        }
        let mut idx: usize = 0;
        while idx < self.registry.members.len()
            invariant
                old(self).wf(),
                *self == (Property { distributor: self.distributor, ..*old(self) }),
                self.distributor.wf(),
                members == old(self).registry.members@,
                shares0 == old(self).ledger.shares@,
                dist0 == old(self).distributor,
                acc0 == dist0.accumulated,
                qi == q as int,
                qi == acc0 as int / TOTAL_SUPPLY as int,
                qi >= 0,
                qi * (TOTAL_SUPPLY as int) <= acc0 as int,
                forall|i: int, j: int| 0 <= i < j < members.len() ==> members[i] != members[j],
                idx <= members.len(),
                payouts@.len() == idx,
                forall|t: int|
                    0 <= t < idx ==> (#[trigger] payouts@[t]).0 == members[t] && payouts@[t].1 as int
                        == qi * val64(shares0, members[t]),
                rest.len() == shares0.len(),
                forall|t: int| 0 <= t < rest.len() ==> (#[trigger] rest[t]).0 == shares0[t].0,
                crate::assoc::keys_unique(rest),
                0 <= sum64(rest) <= TOTAL_SUPPLY as int,
                forall|t: int|
                    idx <= t < members.len() ==> #[trigger] val64(rest, members[t]) == val64(
                        shares0,
                        members[t],
                    ),
                self.distributor.accumulated as int == acc0 as int - qi * (TOTAL_SUPPLY as int
                    - sum64(rest)),
                sum128(payouts@) == qi * (TOTAL_SUPPLY as int - sum64(rest)),
                sum128(self.distributor.revenues@) == sum128(dist0.revenues@) + sum128(payouts@),
                forall|t: int|
                    0 <= t < idx ==> #[trigger] self.distributor.revenue_of(members[t])
                        == dist0.revenue_of(members[t]) + qi * val64(shares0, members[t]),
                forall|k: u64|
                    !members.take(idx as int).contains(k)
                        ==> #[trigger] self.distributor.revenue_of(k) == dist0.revenue_of(k),
            decreases members.len() - idx,
        {
            let s = self.registry.members[idx];
            let bal = self.ledger.balance_of(s);
            proof {
                assert(val64(rest, members[idx as int]) == val64(shares0, members[idx as int]));
                crate::assoc::lemma_val64_le_sum(rest, s);
                let bi = bal as int;
                let si = sum64(rest);
                assert(qi * bi >= 0 && qi * (TOTAL_SUPPLY as int - si) >= 0 && qi * bi + qi * (
                TOTAL_SUPPLY as int - si) <= acc0 as int && qi * bi + qi * (TOTAL_SUPPLY as int
                    - si) == qi * (TOTAL_SUPPLY as int - (si - bi))) by (nonlinear_arith)
                    requires
                        qi >= 0,
                        0 <= bi <= si,
                        si <= TOTAL_SUPPLY as int,
                        qi * (TOTAL_SUPPLY as int) <= acc0 as int,
                ;
                assert(!members.take(idx as int).contains(s)) by {
                    if members.take(idx as int).contains(s) {
                        let w = choose|w: int|
                            0 <= w < idx && members.take(idx as int)[w] == s;
                        assert(members[w] == members[idx as int]);
                        assert(false);
                    }
                }
            }
            let payout = q * (bal as u128);
            let ghost dprev = self.distributor;
            self.distributor.pay_out(s, payout);
            let ghost pv0 = payouts@;
            payouts.push((s, payout));
            proof {
                crate::assoc::lemma_sum128_push(pv0, (s, payout));
                crate::assoc::lemma_set_val64(rest, s, 0);
                let rest2 = crate::assoc::set_val64(rest, s, 0);
                if !crate::assoc::has_key(rest, s) {
                    assert(val64(rest, s) == 0);
                    assert(rest2 == rest);
                }
                assert(sum64(rest2) == sum64(rest) - bal as int);
                assert(members[idx as int] == s);
                assert forall|t: int| idx + 1 <= t < members.len() implies #[trigger] val64(
                    rest2,
                    members[t],
                ) == val64(shares0, members[t]) by {
                    assert(members[t] != s);
                    assert(crate::assoc::lookup(rest2, members[t]) == crate::assoc::lookup(
                        rest,
                        members[t],
                    ));
                    assert(val64(rest, members[t]) == val64(shares0, members[t]));
                }
                assert(members.take(idx as int + 1) =~= members.take(idx as int).push(s));
                assert forall|t: int| 0 <= t < idx + 1 implies #[trigger] self.distributor.revenue_of(
                    members[t],
                ) == dist0.revenue_of(members[t]) + qi * val64(shares0, members[t]) by {
                    if t < idx {
                        assert(members[t] != s);
                        assert(self.distributor.revenue_of(members[t]) == dprev.revenue_of(
                            members[t],
                        ));
                    } else {
                        assert(dprev.revenue_of(s) == dist0.revenue_of(s));
                    }
                }
                assert forall|k: u64|
                    !members.take(idx as int + 1).contains(k) implies #[trigger] self.distributor.revenue_of(
                    k,
                ) == dist0.revenue_of(k) by {
                    assert(!members.take(idx as int).contains(k));
                    assert(members.take(idx as int + 1)[idx as int] == s);
                    assert(members.take(idx as int + 1).contains(s));
                    assert(k != s);
                    assert(self.distributor.revenue_of(k) == dprev.revenue_of(k));
                }
                rest = rest2;
            }
            idx += 1;
        }
        proof {
            assert(members.take(members.len() as int) =~= members);
            crate::assoc::lemma_sum128_nonneg(payouts@);
        }
        let total = acc0 - self.distributor.accumulated;
        Ok(Event::RevenuesDistributed { payouts, total_distributed: total })
    }
}

/// Conservation of shares: in every well-formed state the balances in the
/// ledger sum exactly to the fixed total supply, whatever sequence of
/// operations produced the state.
pub proof fn conservation_of_shares(p: Property)
    requires
        p.wf(),
    ensures
        sum64(p.ledger.shares@) == p.total_supply as int,
{
}

} // verus!
