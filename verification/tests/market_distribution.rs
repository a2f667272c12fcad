//! The share marketplace and the pro-rata revenue distribution.

use real_estate::errors::Error;
use real_estate::events::Event;
use real_estate::property::Property;

const GOV: u64 = 1;
const OWNER: u64 = 2;
const BUYER: u64 = 9;

fn fresh() -> Property {
    Property::new("Mainstreet 1".to_string(), "MS1".to_string(), GOV, OWNER, 10, 10).unwrap()
}

#[test]
fn offer_leaves_balances_untouched() {
    // Round-trip: offering shares never moves them; only a purchase does.
    let mut p = fresh();
    let ev = p.offer_shares_for_sale(OWNER, 10, 5).unwrap();
    assert_eq!(ev, Event::SharesOffered { seller: OWNER, amount_shares: 10, price_per_share: 5 });
    assert_eq!(p.show_shares_of(OWNER), 100);
    assert_eq!(p.market.offered_view(OWNER), 10);
    assert_eq!(p.market.price_view(OWNER), 5);
}

#[test]
fn offer_needs_backing_shares() {
    let mut p = fresh();
    let r = p.offer_shares_for_sale(OWNER, 101, 5);
    assert_eq!(r.err().unwrap(), Error::InsufficientShares);
    let r2 = p.offer_shares_for_sale(BUYER, 1, 5);
    assert_eq!(r2.err().unwrap(), Error::InsufficientShares);
}

#[test]
fn offer_replaces_prior_offer() {
    let mut p = fresh();
    assert!(p.offer_shares_for_sale(OWNER, 10, 5).is_ok());
    assert!(p.offer_shares_for_sale(OWNER, 20, 7).is_ok());
    assert_eq!(p.market.offered_view(OWNER), 20);
    assert_eq!(p.market.price_view(OWNER), 7);
}

#[test]
fn buy_moves_shares_at_asking_price() {
    let mut p = fresh();
    assert!(p.offer_shares_for_sale(OWNER, 10, 5).is_ok());
    let ev = p.buy_shares(BUYER, OWNER, 10, 50).unwrap();
    assert_eq!(
        ev,
        Event::SharesSold { seller: OWNER, buyer: BUYER, shares_sold: 10, price_per_share: 5 }
    );
    assert_eq!(p.show_shares_of(OWNER), 90);
    assert_eq!(p.show_shares_of(BUYER), 10);
    // The outstanding offer is deliberately not decremented.
    assert_eq!(p.market.offered_view(OWNER), 10);
}

#[test]
fn buy_rejects_underpayment() {
    let mut p = fresh();
    assert!(p.offer_shares_for_sale(OWNER, 10, 5).is_ok());
    let r = p.buy_shares(BUYER, OWNER, 10, 49);
    assert_eq!(r.err().unwrap(), Error::InsufficientPayment);
    assert_eq!(p.show_shares_of(OWNER), 100);
    assert_eq!(p.show_shares_of(BUYER), 0);
}

#[test]
fn buy_rejects_more_than_seller_holds() {
    let mut p = fresh();
    assert!(p.offer_shares_for_sale(OWNER, 10, 5).is_ok());
    let r = p.buy_shares(BUYER, OWNER, 101, 505);
    assert_eq!(r.err().unwrap(), Error::InsufficientShares);
    assert_eq!(p.show_shares_of(OWNER), 100);
}

#[test]
fn buy_without_offer_sells_at_price_zero() {
    // The purchase reads the stored price, zero when never set, and does
    // not validate the offered amount: the published behaviour.
    let mut p = fresh();
    assert!(p.buy_shares(BUYER, OWNER, 10, 0).is_ok());
    assert_eq!(p.show_shares_of(OWNER), 90);
    assert_eq!(p.show_shares_of(BUYER), 10);
}

#[test]
fn distribute_requires_governor() {
    let mut p = fresh();
    p.distributor.accumulated = 1000;
    assert_eq!(p.distribute(OWNER).err().unwrap(), Error::Unauthorized);
    assert_eq!(p.distributor.accumulated, 1000);
}

#[test]
fn distribute_exact_payouts() {
    let mut p = fresh();
    p.distributor.accumulated = 1000;
    // Stakeholders in registry order: [GOV, OWNER]; balances 0 and 100.
    // Per-share quotient: 1000 / 100 = 10.
    let ev = p.distribute(GOV).unwrap();
    assert_eq!(
        ev,
        Event::RevenuesDistributed {
            payouts: vec![(GOV, 0), (OWNER, 1000)],
            total_distributed: 1000,
        }
    );
    assert_eq!(p.distributor.accumulated, 0);
    assert_eq!(p.distributor.revenue_view(OWNER), 1000);
    assert_eq!(p.distributor.revenue_view(GOV), 0);
}

#[test]
fn distribute_truncation_dust_stays_in_pool() {
    let mut p = fresh();
    p.distributor.accumulated = 999;
    // Quotient 999 / 100 = 9: the owner's 100 shares earn 900, the other
    // 99 stay in the pool rather than being redistributed.
    let ev = p.distribute(GOV).unwrap();
    match ev {
        Event::RevenuesDistributed { payouts, total_distributed } => {
            assert_eq!(payouts, vec![(GOV, 0), (OWNER, 900)]);
            assert_eq!(total_distributed, 900);
            assert!(total_distributed <= 999);
        },
        _ => panic!("expected a distribution event"),
    }
    assert_eq!(p.distributor.accumulated, 99);
}

#[test]
fn distribute_follows_balances() {
    let mut p = fresh();
    assert!(p.seizure_from(GOV, OWNER, GOV, 30).is_ok());
    p.distributor.accumulated = 1000;
    let ev = p.distribute(GOV).unwrap();
    match ev {
        Event::RevenuesDistributed { payouts, total_distributed } => {
            assert_eq!(payouts, vec![(GOV, 300), (OWNER, 700)]);
            assert_eq!(total_distributed, 1000);
        },
        _ => panic!("expected a distribution event"),
    }
    assert_eq!(p.distributor.accumulated, 0);
}

#[test]
fn distribute_never_exceeds_pool_at_start() {
    let mut p = fresh();
    assert!(p.add_stakeholder(GOV, 33).unwrap().is_some());
    assert!(p.seizure_from(GOV, OWNER, 33, 7).is_ok());
    for pool in [0u128, 1, 99, 100, 101, 12345] {
        p.distributor.accumulated = pool;
        let before = p.distributor.accumulated;
        match p.distribute(GOV).unwrap() {
            Event::RevenuesDistributed { total_distributed, .. } => {
                assert!(total_distributed <= before);
                assert_eq!(p.distributor.accumulated, before - total_distributed);
            },
            _ => panic!("expected a distribution event"),
        }
    }
}

#[test]
fn accrued_revenue_adds_up_over_rounds() {
    let mut p = fresh();
    p.distributor.accumulated = 500;
    assert!(p.distribute(GOV).is_ok());
    p.distributor.accumulated += 700;
    assert!(p.distribute(GOV).is_ok());
    // Quotients 5 and 7 over the owner's 100 shares.
    assert_eq!(p.distributor.revenue_view(OWNER), 1200);
}
