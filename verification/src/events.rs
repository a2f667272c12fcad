//! Domain events: the structured report a successful state-changing call
//! hands back for the host to transport.

use vstd::prelude::*;

verus! {

/// What a successful state-changing operation reports.
#[derive(Debug, PartialEq)]
pub enum Event {
    /// Shares moved by consuming an allowance.
    Seizure { seized_from: u64, to: u64, shares: u64 },
    /// A new stakeholder was recorded.
    NewStakeholder { stakeholder_added: u64 },
    /// A stakeholder was removed and its shares seized for the governor.
    StakeholderBanned { banned: u64, seized_shares: u64 },
    /// The tax rate changed.
    ChangedTax { new_tax: u8 },
    /// The average block time changed, re-deriving the period lengths.
    AvgBlockTimeChangedTo { seconds: u8 },
    /// The 30-day rent amount changed.
    RentPer30DaySetTo { rent: u128 },
    /// The pool was distributed pro rata; one payout per stakeholder, in
    /// registry order.
    RevenuesDistributed { payouts: Vec<(u64, u128)>, total_distributed: u128 },
    /// Rent was paid, with the full breakdown.
    Rental {
        date: u64,
        renter: u64,
        rent_paid: u128,
        tax: u128,
        distributable_revenue: u128,
        rented_from: u64,
        rented_until: u64,
    },
    /// Shares were put up for sale.
    SharesOffered { seller: u64, amount_shares: u64, price_per_share: u128 },
    /// Shares were bought at the seller's asking price.
    SharesSold { seller: u64, buyer: u64, shares_sold: u64, price_per_share: u128 },
    /// Accrued revenue was withdrawn.
    Withdrawal { shareholder: u64, withdrawn: u128 },
}

} // verus!
