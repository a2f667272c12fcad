//! Seizure, allowances and conservation of the share total.

use real_estate::errors::Error;
use real_estate::events::Event;
use real_estate::ledger::Allowance;
use real_estate::property::Property;

const GOV: u64 = 1;
const OWNER: u64 = 2;
const SPENDER: u64 = 7;
const BUYER: u64 = 9;

fn fresh() -> Property {
    Property::new("Mainstreet 1".to_string(), "MS1".to_string(), GOV, OWNER, 10, 10).unwrap()
}

fn total_of(p: &Property, ids: &[u64]) -> u64 {
    let mut sum: u64 = 0;
    for id in ids {
        sum += p.show_shares_of(*id);
    }
    sum
}

#[test]
fn seize_fails_without_allowance() {
    let mut p = fresh();
    // SPENDER was never granted anything by OWNER.
    let r = p.seizure_from(SPENDER, OWNER, SPENDER, 10);
    assert_eq!(r.err().unwrap(), Error::InsufficientAllowance);
    assert_eq!(p.show_shares_of(OWNER), 100);
    assert_eq!(p.show_shares_of(SPENDER), 0);
}

#[test]
fn seize_fails_on_short_balance() {
    let mut p = fresh();
    // The governor's allowance is unlimited, but the owner holds only 100.
    let r = p.seizure_from(GOV, OWNER, GOV, 150);
    assert_eq!(r.err().unwrap(), Error::InsufficientBalance);
    assert_eq!(p.show_shares_of(OWNER), 100);
}

#[test]
fn seize_is_balance_conserving() {
    let mut p = fresh();
    let ev = p.seizure_from(GOV, OWNER, GOV, 40).unwrap();
    assert_eq!(ev, Event::Seizure { seized_from: OWNER, to: GOV, shares: 40 });
    assert_eq!(p.show_shares_of(OWNER), 60);
    assert_eq!(p.show_shares_of(GOV), 40);
    assert_eq!(total_of(&p, &[GOV, OWNER]), 100);
}

#[test]
fn seize_decrements_capped_allowance() {
    let mut p = fresh();
    p.ledger.set_allowance(OWNER, SPENDER, Allowance::Capped(50));
    assert!(p.seizure_from(SPENDER, OWNER, SPENDER, 30).is_ok());
    assert_eq!(p.ledger.get_allowance(OWNER, SPENDER), Allowance::Capped(20));
    // 30 more would exceed the remaining 20.
    let r = p.seizure_from(SPENDER, OWNER, SPENDER, 30);
    assert_eq!(r.err().unwrap(), Error::InsufficientAllowance);
    assert_eq!(p.show_shares_of(SPENDER), 30);
}

#[test]
fn seize_keeps_unlimited_allowance() {
    let mut p = fresh();
    assert!(p.seizure_from(GOV, OWNER, GOV, 30).is_ok());
    assert!(p.seizure_from(GOV, OWNER, GOV, 30).is_ok());
    assert_eq!(p.ledger.get_allowance(OWNER, GOV), Allowance::Unlimited);
    assert_eq!(p.show_shares_of(GOV), 60);
}

#[test]
fn conservation_across_operation_sequence() {
    // Whatever sequence of operations runs, the balances of every identity
    // ever touched sum to the total supply.
    let mut p = fresh();
    let touched = [GOV, OWNER, SPENDER, BUYER, 42];
    assert_eq!(total_of(&p, &touched), 100);

    assert!(p.seizure_from(GOV, OWNER, GOV, 25).is_ok());
    assert_eq!(total_of(&p, &touched), 100);

    assert!(p.add_stakeholder(GOV, 42).unwrap().is_some());
    assert_eq!(total_of(&p, &touched), 100);

    assert!(p.seizure_from(GOV, OWNER, 42, 10).is_ok());
    assert_eq!(total_of(&p, &touched), 100);

    assert!(p.offer_shares_for_sale(OWNER, 20, 3).is_ok());
    assert_eq!(total_of(&p, &touched), 100);

    assert!(p.buy_shares(BUYER, OWNER, 20, 60).is_ok());
    assert_eq!(total_of(&p, &touched), 100);

    assert!(p.ban_stakeholder(GOV, 42).unwrap().is_some());
    assert_eq!(total_of(&p, &touched), 100);

    // A failing call changes nothing at all.
    assert!(p.seizure_from(SPENDER, OWNER, SPENDER, 5).is_err());
    assert_eq!(total_of(&p, &touched), 100);
}

#[test]
fn seize_to_self_changes_nothing() {
    let mut p = fresh();
    let r = p.seizure_from(GOV, OWNER, OWNER, 10).unwrap();
    assert_eq!(r, Event::Seizure { seized_from: OWNER, to: OWNER, shares: 10 });
    assert_eq!(p.show_shares_of(OWNER), 100);
    assert_eq!(total_of(&p, &[GOV, OWNER]), 100);
}
