use vstd::prelude::*;

verus! {

/// Prices are fixed-point decimals held as integer thousandths: `2800` is the price 2.8.
pub const PRICE_SCALE: u64 = 1000;

/// `floor(stake * price_from / price_to)`: the stake at `price_to` that carries the same
/// risk as `stake` at `price_from`.
pub open spec fn stake_cross_spec(stake: u64, price_from: u64, price_to: u64) -> int
    recommends
        price_to > 0,
{
    (stake as int * price_from as int) / (price_to as int)
}

/// `floor(stake * price)` for a price in thousandths.
pub open spec fn payout_spec(stake: u64, price: u64) -> int {
    (stake as int * price as int) / (PRICE_SCALE as int)
}

/// The product of two `u64` values fits in a `u128`.
pub proof fn lemma_u64_product_fits(a: u64, b: u64)
    ensures
        0 <= a as int * b as int <= u128::MAX,
{
    assert(0 <= a as int * b as int <= u64::MAX as int * u64::MAX as int) by (nonlinear_arith);
}

/// Converts a stake matched at `price_from` into the equivalent stake at `price_to`,
/// truncating. `None` when `price_to` is zero or the result does not fit in `u64`.
pub fn calculate_stake_cross(stake: u64, price_from: u64, price_to: u64) -> (r: Option<u64>)
    ensures
        r matches Some(v) <==> (price_to > 0 && stake_cross_spec(stake, price_from, price_to)
            <= u64::MAX),
        r matches Some(v) ==> v == stake_cross_spec(stake, price_from, price_to),
{
    if price_to == 0 {
        return None;
    }
    proof {
        lemma_u64_product_fits(stake, price_from);
    }
    let product: u128 = (stake as u128) * (price_from as u128);
    let q: u128 = product / (price_to as u128);
    if q > u64::MAX as u128 {
        None
    } else {
        Some(q as u64)
    }
}

/// The payout of `stake` matched at `price`, truncated to a whole unit. `None` on overflow.
pub fn calculate_payout(stake: u64, price: u64) -> (r: Option<u64>)
    ensures
        r matches Some(v) <==> payout_spec(stake, price) <= u64::MAX,
        r matches Some(v) ==> v == payout_spec(stake, price),
{
    proof {
        lemma_u64_product_fits(stake, price);
    }
    let product: u128 = (stake as u128) * (price as u128);
    let q: u128 = product / (PRICE_SCALE as u128);
    if q > u64::MAX as u128 {
        None
    } else {
        Some(q as u64)
    }
}

} // verus!
