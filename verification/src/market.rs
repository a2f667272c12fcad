//! The share marketplace: outstanding sell offers and asking prices.
//!
//! An offer is implicitly replaced, not accumulated, by a new call from the
//! same seller, and it is not cleared after a sale; a purchase checks the
//! seller's live balance, not the offered amount, faithfully carrying the
//! marketplace's published behaviour forward.  Placing an offer never
//! touches the share ledger.

use vstd::prelude::*;

use crate::assoc;
use crate::assoc::{keys_unique, val128, val64};

verus! {

/// Outstanding sell offers: amounts and per-share asking prices.
pub struct ShareMarketplace {
    /// seller -> number of shares offered; unique keys.
    pub shares_offered: Vec<(u64, u64)>,
    /// seller -> asking price per share; unique keys.
    pub share_sell_price: Vec<(u64, u128)>,
}

impl ShareMarketplace {
    /// The number of shares `seller` has put up for sale, zero if none.
    pub open spec fn offered_of(self, seller: u64) -> int {
        val64(self.shares_offered@, seller)
    }

    /// The asking price per share of `seller`, zero if never set.
    pub open spec fn price_of(self, seller: u64) -> int {
        val128(self.share_sell_price@, seller)
    }

    /// Well-formedness: unique keys in both maps.
    pub open spec fn wf(self) -> bool {
        &&& keys_unique(self.shares_offered@)
        &&& keys_unique(self.share_sell_price@)
    }

    /// Read the asking price per share of `seller`.
    pub fn price_view(&self, seller: u64) -> (r: u128)
        ensures
            r as int == self.price_of(seller),
    {
        match assoc::get(&self.share_sell_price, seller) {
            Some(v) => v,
            None => 0,
        }
    }

    /// Read the number of shares `seller` has put up for sale.
    pub fn offered_view(&self, seller: u64) -> (r: u64)
        ensures
            r as int == self.offered_of(seller),
    {
        match assoc::get(&self.shares_offered, seller) {
            Some(v) => v,
            None => 0,
        }
    }

    /// Record `seller`'s offer, replacing any prior one.
    pub fn set_offer(&mut self, seller: u64, amount: u64, price_per_share: u128)
        requires
            old(self).wf(),
        ensures
            final(self).wf(),
            final(self).offered_of(seller) == amount as int,
            final(self).price_of(seller) == price_per_share as int,
            forall|k: u64|
                k != seller ==> #[trigger] final(self).offered_of(k) == old(self).offered_of(k),
            forall|k: u64|
                k != seller ==> #[trigger] final(self).price_of(k) == old(self).price_of(k),
    {
        assoc::put(&mut self.shares_offered, seller, amount);
        assoc::put(&mut self.share_sell_price, seller, price_per_share);
    }
}

} // verus!
