//! Verified core of a fractional real-property ownership ledger: share
//! accounting with allowances, a stakeholder registry, rent accrual with
//! tax and revenue split, pro-rata revenue distribution, and a permissioned
//! share marketplace.
//!
//! Host concerns (message routing, storage encoding, address validation,
//! event transport) live outside this crate; the core here is a
//! deterministic state machine over plain values, invoked one call at a
//! time, and every public operation either commits all of its mutations or
//! returns an error and leaves the state untouched.

pub mod assoc;
pub mod distribution;
pub mod errors;
pub mod events;
pub mod ledger;
pub mod market;
pub mod property;
pub mod registry;
pub mod rent;

pub use errors::Error;
