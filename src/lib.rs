//! Synthetic fund-transfer generation over a pool of accounts.
//!
//! The generator draws from a seeded ISAAC-64 source, picks a sender, a
//! distinct receiver and an amount bounded by the sender's balance, applies
//! the transfer to the pool it owns and yields the triple.

pub mod account;
pub mod envelope;
pub mod generator;
pub mod rng;
pub mod stream;
