//! Settlement engine for binary-outcome prediction markets: markets are
//! opened on a yes/no question, take pooled stakes until their close time,
//! are resolved once after their resolution time, and pay winners a
//! pari-mutuel share of the whole pool (or refund everyone when the outcome
//! is ruled invalid).
//!
//! Identities are account keys in text form; the host authenticates callers,
//! supplies the current time and moves funds, and hands the results to the
//! engine as plain values.
use vstd::prelude::*;

pub mod types;
pub mod payout;
pub mod ledger;
pub mod market;
pub mod laws;

pub use ledger::StakeEntry;
pub use market::{Config, FarmersMarket};
pub use payout::{odds, payout};
pub use types::{validate_amount, validate_market_timing, Error, Market, Outcome, Stake};

verus! {

} // verus!
