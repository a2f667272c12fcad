//! Rent payment, the prepayment limit, occupancy queries and withdrawal.

use real_estate::errors::Error;
use real_estate::events::Event;
use real_estate::property::Property;

const GOV: u64 = 1;
const OWNER: u64 = 2;
const TENANT: u64 = 5;

fn fresh() -> Property {
    // avgBlockTime = 10 seconds: 30-day period = 259200 blocks; tax = 10%.
    Property::new("Mainstreet 1".to_string(), "MS1".to_string(), GOV, OWNER, 10, 10).unwrap()
}

/// Give the tenant a prepaid interval ending at `until`, as the active
/// tenant, so a later payment re-buys a nonzero duration.
fn with_prepaid(p: &mut Property, until: u64) {
    p.rent.rent_paid_until.push((TENANT, until));
    p.rent.tenant = Some(TENANT);
    p.rent.occupied_until = until;
}

#[test]
fn pay_rent_with_zero_duration_succeeds_paying_zero() {
    // avgBlockTime = 10 (30-day period = 259200 blocks), rent = 3000,
    // tax = 10%.  A first payment finds rentPaidUntil = 0, so the literal
    // arithmetic yields duration 0 and rent due 0: the call succeeds
    // trivially, paying nothing.
    let mut p = fresh();
    assert!(p.set_rent_per_30_day(GOV, 3000).is_ok());
    assert_eq!(p.blocks_per_30_day, 259200);
    let ev = p.pay_rent(TENANT, 0, 0).unwrap();
    assert_eq!(
        ev,
        Event::Rental {
            date: 0,
            renter: TENANT,
            rent_paid: 0,
            tax: 0,
            distributable_revenue: 0,
            rented_from: 0,
            rented_until: 0,
        }
    );
    assert_eq!(p.distributor.accumulated, 0);
    assert_eq!(p.rent.tenant, Some(TENANT));
}

#[test]
fn pay_rent_rejects_beyond_prepayment_limit() {
    let mut p = fresh();
    // rentPaidUntil = 0, rentalLimitBlocks = 12 * 259200 = 3110400: a call
    // at that block is no longer strictly below the bound.
    let r = p.pay_rent(TENANT, 0, 3_110_400);
    assert_eq!(r.err().unwrap(), Error::PrepaymentLimitExceeded);
    // One block earlier still passes.
    assert!(p.pay_rent(TENANT, 0, 3_110_399).is_ok());
}

#[test]
fn pay_rent_underpayment_fails_and_leaves_occupancy() {
    let mut p = fresh();
    assert!(p.set_rent_per_30_day(GOV, 2_592_000).is_ok());
    with_prepaid(&mut p, 1_000_000);
    // duration = 1_000_000 blocks, rent due = 2_592_000 * 1_000_000 / 259200
    // = 10_000_000.
    let r = p.pay_rent(TENANT, 9_999_999, 0);
    assert_eq!(r.err().unwrap(), Error::InsufficientPayment);
    assert_eq!(p.rent.occupied_until, 1_000_000);
    assert_eq!(p.distributor.accumulated, 0);
}

#[test]
fn pay_rent_exact_breakdown() {
    let mut p = fresh();
    assert!(p.set_rent_per_30_day(GOV, 2_592_000).is_ok());
    with_prepaid(&mut p, 1_000_000);
    let ev = p.pay_rent(TENANT, 10_000_000, 0).unwrap();
    assert_eq!(
        ev,
        Event::Rental {
            date: 0,
            renter: TENANT,
            rent_paid: 10_000_000,
            tax: 1_000_000,
            distributable_revenue: 9_000_000,
            rented_from: 0,
            rented_until: 2_000_000,
        }
    );
    assert_eq!(p.rent.occupied_until, 2_000_000);
    assert_eq!(p.distributor.accumulated, 9_000_000);
    assert_eq!(p.rent.tenant, Some(TENANT));
}

#[test]
fn pay_rent_truncates_fractional_rent() {
    let mut p = fresh();
    // 1000 per 30 days over 259200 blocks; 100 blocks of duration are worth
    // 1000 * 100 / 259200 = 0 after truncation.
    assert!(p.set_rent_per_30_day(GOV, 1000).is_ok());
    with_prepaid(&mut p, 100);
    let ev = p.pay_rent(TENANT, 0, 0).unwrap();
    match ev {
        Event::Rental { rent_paid, rented_until, .. } => {
            assert_eq!(rent_paid, 0);
            assert_eq!(rented_until, 200);
        },
        _ => panic!("expected a rental event"),
    }
}

#[test]
fn current_tenant_check_active_days() {
    let mut p = fresh();
    assert!(p.set_rent_per_30_day(GOV, 2_592_000).is_ok());
    with_prepaid(&mut p, 1_000_000);
    assert!(p.pay_rent(TENANT, 10_000_000, 0).is_ok());
    // rentPaidUntil = 2_000_000 blocks at 10 s each: (2_000_000 - 0) * 10 /
    // 86400 = 231 whole days.
    assert_eq!(p.current_tenant_check(TENANT, 0), (true, 231));
}

#[test]
fn current_tenant_check_expired_or_foreign() {
    let mut p = fresh();
    with_prepaid(&mut p, 1000);
    // Another identity never paid: not the active tenant.
    assert_eq!(p.current_tenant_check(OWNER, 0), (false, 0));
    // The tenant itself, but past the paid interval.
    assert_eq!(p.current_tenant_check(TENANT, 1000), (false, 0));
}

#[test]
fn withdraw_without_accrual_fails() {
    let mut p = fresh();
    assert_eq!(p.withdraw_revenue(OWNER).err().unwrap(), Error::NothingToWithdraw);
}

#[test]
fn withdraw_zeroes_before_payout() {
    let mut p = fresh();
    p.distributor.revenues.push((OWNER, 500));
    let ev = p.withdraw_revenue(OWNER).unwrap();
    assert_eq!(ev, Event::Withdrawal { shareholder: OWNER, withdrawn: 500 });
    assert_eq!(p.distributor.revenue_view(OWNER), 0);
    // A second call finds the accrual already zeroed.
    assert_eq!(p.withdraw_revenue(OWNER).err().unwrap(), Error::NothingToWithdraw);
}
