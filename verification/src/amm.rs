//! The constant-product AMM output function.

use vstd::prelude::*;

use crate::pool::FEE_DENOM;

verus! {

/// What a constant-product exchange with the fee taken from the input side
/// returns: `amount_in * (FEE_DENOM - fee) * reserve_out` divided
/// (truncating) by `reserve_in * FEE_DENOM + amount_in * (FEE_DENOM - fee)`.
/// `None` when the denominator is zero or when any intermediate product or
/// sum exceeds `u128::MAX`.
pub open spec fn amount_out_spec(
    amount_in: u128,
    reserve_in: u128,
    reserve_out: u128,
    fee: u64,
) -> Option<u128>
    recommends
        fee <= FEE_DENOM,
{
    let aif: int = amount_in as int * (FEE_DENOM - fee) as int;
    let num: int = aif * reserve_out as int;
    let rin_scaled: int = reserve_in as int * FEE_DENOM as int;
    let den: int = rin_scaled + aif;
    if aif > u128::MAX as int || num > u128::MAX as int || rin_scaled > u128::MAX as int || den
        > u128::MAX as int {
        None
    } else if den == 0 {
        None
    } else {
        Some((num / den) as u128)
    }
}

/// Output amount of one constant-product swap, or `None` on a zero
/// denominator or on overflow of any intermediate value.
pub fn get_amount_out(amount_in: u128, reserve_in: u128, reserve_out: u128, fee: u64) -> (r: Option<
    u128,
>)
    requires
        fee <= FEE_DENOM,
    ensures
        r == amount_out_spec(amount_in, reserve_in, reserve_out, fee),
{
    let fee_factor: u128 = (FEE_DENOM - fee) as u128;
    let aif: u128 = match amount_in.checked_mul(fee_factor) {
        Some(v) => v,
        None => {
            return None;
        },
    };
    let num: u128 = match aif.checked_mul(reserve_out) {
        Some(v) => v,
        None => {
            return None;
        },
    };
    let rin_scaled: u128 = match reserve_in.checked_mul(FEE_DENOM as u128) {
        Some(v) => v,
        None => {
            return None;
        },
    };
    let den: u128 = match rin_scaled.checked_add(aif) {
        Some(v) => v,
        None => {
            return None;
        },
    };
    if den == 0 {
        None
    } else {
        Some(num / den)
    }
}

} // verus!
