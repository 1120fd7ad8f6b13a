//! Static pool descriptions and per-pool reserve state.

use vstd::prelude::*;

verus! {

/// Denominator of the pool fee fraction: fees are expressed in
/// parts per thousand of the input amount.
pub const FEE_DENOM: u64 = 1000;

/// Static description of one two-asset constant-product pool: its address,
/// its two token identifiers, each token's decimal scale, and its fee
/// numerator (over [`FEE_DENOM`]).
///
/// Addresses and token identifiers are opaque fixed-width values; only
/// equality of them matters to this library.
#[derive(Clone, Copy, Debug, PartialEq, Eq, Structural)]
pub struct Pool {
    pub address: u64,
    pub token0: u64,
    pub token1: u64,
    pub decimals0: u8,
    pub decimals1: u8,
    pub fee: u64,
}

impl Pool {
    /// A well-formed pool trades two distinct tokens and keeps its fee
    /// below the whole: upstream loading is expected to reject the rest.
    pub open spec fn wf(&self) -> bool {
        &&& self.token0 != self.token1
        &&& self.fee <= FEE_DENOM
    }
}

/// Point-in-time reserve quantities of one pool, in native token units.
#[derive(Clone, Copy, Debug, PartialEq, Eq, Structural)]
pub struct Reserve {
    pub reserve0: u128,
    pub reserve1: u128,
}

} // verus!
