//! Stake-weighted block proposal and leader selection over a hash-linked chain.

pub mod block;
pub mod table;
pub mod chain;
