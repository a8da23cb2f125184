//! Bounded random outcomes for coin-flip and dice-roll game requests, and the
//! batch of settlement calls built from them.

pub mod uint256;
pub mod entropy;
pub mod generator;
pub mod pipeline;
