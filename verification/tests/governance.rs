//! Governance entry points: instantiation, parameter setting, and the
//! stakeholder registry.

use real_estate::errors::Error;
use real_estate::events::Event;
use real_estate::ledger::Allowance;
use real_estate::property::Property;

const GOV: u64 = 1;
const OWNER: u64 = 2;

fn fresh() -> Property {
    Property::new("Mainstreet 1".to_string(), "MS1".to_string(), GOV, OWNER, 10, 10).unwrap()
}

#[test]
fn new_rejects_tax_above_100() {
    let r = Property::new("P".to_string(), "P".to_string(), GOV, OWNER, 101, 10);
    assert_eq!(r.err().unwrap(), Error::InvalidParameter);
}

#[test]
fn new_rejects_zero_block_time() {
    let r = Property::new("P".to_string(), "P".to_string(), GOV, OWNER, 10, 0);
    assert_eq!(r.err().unwrap(), Error::InvalidParameter);
}

#[test]
fn new_initial_state() {
    let p = fresh();
    assert_eq!(p.total_supply, 100);
    assert_eq!(p.show_shares_of(OWNER), 100);
    assert_eq!(p.show_shares_of(GOV), 0);
    assert_eq!(p.blocks_per_30_day, 259200);
    assert_eq!(p.rental_limit_blocks, 12 * 259200);
    assert_eq!(p.is_stakeholder(GOV), (true, 0));
    assert_eq!(p.is_stakeholder(OWNER), (true, 1));
    assert_eq!(p.is_stakeholder(77), (false, 0));
    assert_eq!(p.ledger.get_allowance(OWNER, GOV), Allowance::Unlimited);
}

#[test]
fn set_tax_requires_governor() {
    let mut p = fresh();
    assert_eq!(p.set_tax(OWNER, 20).err().unwrap(), Error::Unauthorized);
    assert_eq!(p.tax, 10);
}

#[test]
fn set_tax_rejects_out_of_range() {
    let mut p = fresh();
    assert_eq!(p.set_tax(GOV, 101).err().unwrap(), Error::InvalidParameter);
    assert_eq!(p.tax, 10);
}

#[test]
fn set_tax_updates_rate() {
    let mut p = fresh();
    let ev = p.set_tax(GOV, 25).unwrap();
    assert_eq!(ev, Event::ChangedTax { new_tax: 25 });
    assert_eq!(p.tax, 25);
}

#[test]
fn set_avg_block_time_rejects_zero() {
    let mut p = fresh();
    assert_eq!(p.set_avg_block_time(GOV, 0).err().unwrap(), Error::InvalidParameter);
}

#[test]
fn set_avg_block_time_rederives_periods() {
    let mut p = fresh();
    let ev = p.set_avg_block_time(GOV, 5).unwrap();
    assert_eq!(ev, Event::AvgBlockTimeChangedTo { seconds: 5 });
    assert_eq!(p.avg_block_time, 5);
    assert_eq!(p.blocks_per_30_day, 2_592_000 / 5);
    assert_eq!(p.rental_limit_blocks, 12 * (2_592_000 / 5));
}

#[test]
fn set_rent_requires_governor() {
    let mut p = fresh();
    assert_eq!(p.set_rent_per_30_day(OWNER, 3000).err().unwrap(), Error::Unauthorized);
    let ev = p.set_rent_per_30_day(GOV, 3000).unwrap();
    assert_eq!(ev, Event::RentPer30DaySetTo { rent: 3000 });
    assert_eq!(p.rent_per_30_day, 3000);
}

#[test]
fn add_stakeholder_unauthorized() {
    // totalSupply = 100, mainOwner holds everything, governor distinct.
    let mut p = fresh();
    let r = p.add_stakeholder(OWNER, 42);
    assert_eq!(r.err().unwrap(), Error::Unauthorized);
    assert_eq!(p.is_stakeholder(42), (false, 0));
}

#[test]
fn add_stakeholder_as_governor() {
    let mut p = fresh();
    let ev = p.add_stakeholder(GOV, 42).unwrap();
    assert_eq!(ev, Some(Event::NewStakeholder { stakeholder_added: 42 }));
    let (present, idx) = p.is_stakeholder(42);
    assert!(present);
    assert_eq!(idx, 2);
    // Membership grants the governor an unlimited allowance for a later ban.
    assert_eq!(p.ledger.get_allowance(42, GOV), Allowance::Unlimited);
}

#[test]
fn add_stakeholder_twice_is_noop() {
    let mut p = fresh();
    assert!(p.add_stakeholder(GOV, 42).unwrap().is_some());
    assert_eq!(p.add_stakeholder(GOV, 42).unwrap(), None);
    assert_eq!(p.registry.members.len(), 3);
}

#[test]
fn ban_stakeholder_seizes_whole_balance() {
    // banStakeholder(mainOwner) while mainOwner holds 100 shares and has
    // granted the governor an unlimited allowance.
    let mut p = fresh();
    let ev = p.ban_stakeholder(GOV, OWNER).unwrap();
    assert_eq!(ev, Some(Event::StakeholderBanned { banned: OWNER, seized_shares: 100 }));
    assert_eq!(p.show_shares_of(GOV), 100);
    assert_eq!(p.show_shares_of(OWNER), 0);
    assert_eq!(p.is_stakeholder(OWNER), (false, 0));
    assert_eq!(p.is_stakeholder(GOV), (true, 0));
    // The seizure consumed an unlimited allowance: it survives undecremented.
    assert_eq!(p.ledger.get_allowance(OWNER, GOV), Allowance::Unlimited);
}

#[test]
fn ban_decrements_a_capped_allowance() {
    let mut p = fresh();
    assert!(p.add_stakeholder(GOV, 42).unwrap().is_some());
    assert!(p.seizure_from(GOV, OWNER, 42, 60).is_ok());
    // A cap that exactly covers the balance admits the ban and is used up.
    p.ledger.set_allowance(42, GOV, Allowance::Capped(60));
    assert!(p.ban_stakeholder(GOV, 42).unwrap().is_some());
    assert_eq!(p.show_shares_of(42), 0);
    assert_eq!(p.show_shares_of(GOV), 60);
    assert_eq!(p.ledger.get_allowance(42, GOV), Allowance::Capped(0));
}

#[test]
fn ban_requires_governor() {
    let mut p = fresh();
    assert_eq!(p.ban_stakeholder(OWNER, GOV).err().unwrap(), Error::Unauthorized);
}

#[test]
fn ban_absent_is_noop() {
    let mut p = fresh();
    assert_eq!(p.ban_stakeholder(GOV, 42).unwrap(), None);
    assert_eq!(p.registry.members.len(), 2);
}

#[test]
fn ban_without_allowance_fails_atomically() {
    // A stakeholder whose unlimited allowance never existed cannot be
    // stripped: the call fails and the registry keeps the member.
    let mut p = fresh();
    assert!(p.add_stakeholder(GOV, 42).unwrap().is_some());
    // Replace the granted allowance by a cap below the balance.
    assert!(p.seizure_from(GOV, OWNER, 42, 60).is_ok());
    p.ledger.set_allowance(42, GOV, Allowance::Capped(10));
    let r = p.ban_stakeholder(GOV, 42);
    assert_eq!(r.err().unwrap(), Error::InsufficientAllowance);
    assert!(p.is_stakeholder(42).0);
    assert_eq!(p.show_shares_of(42), 60);
}

#[test]
fn ban_swaps_last_member_into_slot() {
    let mut p = fresh();
    assert!(p.add_stakeholder(GOV, 42).unwrap().is_some());
    // Registry order: [GOV, OWNER, 42]; banning OWNER swaps 42 into slot 1.
    assert!(p.ban_stakeholder(GOV, OWNER).unwrap().is_some());
    assert_eq!(p.is_stakeholder(42), (true, 1));
    assert_eq!(p.registry.members.len(), 2);
}
