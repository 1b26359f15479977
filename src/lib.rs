//! A pooled-wagering ledger: participants stake on one of a bet's options,
//! the organizer resolves the bet once, and each winner claims once a share
//! of the whole pool proportional to their stake.

pub mod contract;
pub mod laws;
pub mod ledger;
mod proofs;
mod wide;
