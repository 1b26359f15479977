use alloy_primitives::U256;
use vstd::prelude::*;

verus! {

/// Relies on ruint's `U256` (through alloy-primitives): `U256::from` of a `u128`
/// is exact, `*` of two values below 2^128 does not wrap, `/` floors and only
/// panics on a zero divisor, and `to::<u128>` is exact for a value that fits.
/// With `amount <= pool` the quotient is at most `total`, so it fits.
#[verifier::external_body]
pub(crate) fn mul_div(amount: u128, total: u128, pool: u128) -> (r: u128)
    requires
        pool > 0,
        amount <= pool,
    ensures
        r as int == (amount as int * total as int) / (pool as int),
{
    let wide = U256::from(amount) * U256::from(total);
    (wide / U256::from(pool)).to::<u128>()
}

} // verus!
