//! A small proof-of-work cryptocurrency: signed transactions, mined blocks,
//! a chain with difficulty adjustment, halving rewards and account balances.

pub mod encoding;
pub mod clock;
pub mod crypto;
pub mod wallet;
pub mod transaction;
pub mod block;
pub mod balances;
pub mod blockchain;
