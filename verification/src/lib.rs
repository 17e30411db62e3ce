//! Settlement core of a two-outcome prediction-market ledger.
//!
//! Money and share quantities are exact decimals ([`amount::Amount`]). The
//! ledger ([`model::Ledger`]) holds users, markets and the append-only trade
//! history; every operation on it either completes or leaves it untouched.

pub mod amount;
pub mod model;
pub mod accounts;
pub mod trading;
pub mod history;
pub mod settlement;
pub mod laws;
pub mod pricing;
pub mod funds;
