//! Discovery and evaluation of closed trading cycles over constant-product
//! liquidity pools.
//!
//! The library enumerates all 3-hop cycles that start and end at a chosen
//! base token, and simulates the output amount a cycle would yield for a
//! given input amount against a snapshot of per-pool reserves.

pub mod amm;
pub mod generate;
pub mod paths;
pub mod pool;
