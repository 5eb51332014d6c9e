//! Statements about integers that several modules make.
use vstd::prelude::*;

verus! {

/// Whether an `i64` can hold `n`.
pub open spec fn fits_i64(n: int) -> bool {
    i64::MIN <= n <= i64::MAX
}

/// Integer division rounding toward zero, for a positive divisor.
pub open spec fn trunc_div(n: int, divisor: int) -> int
    recommends
        divisor > 0,
{
    if n >= 0 {
        n / divisor
    } else {
        -((-n) / divisor)
    }
}

/// An `i64` holds the integers from `-2^63` up to `2^63 - 1`.
pub proof fn law_range_of_i64(n: int)
    ensures
        fits_i64(n) <==> -0x8000_0000_0000_0000 <= n <= 0x7fff_ffff_ffff_ffff,
{
}

/// The quotient is the largest in size whose product with the divisor does not pass the number.
pub proof fn law_quotient_is_toward_zero(n: int, divisor: int)
    requires
        divisor > 0,
    ensures
        n >= 0 ==> trunc_div(n, divisor) * divisor <= n < trunc_div(n, divisor) * divisor + divisor,
        n < 0 ==> trunc_div(n, divisor) * divisor - divisor < n <= trunc_div(n, divisor) * divisor,
{
    let m = if n >= 0 { n } else { -n };
    let q = m / divisor;
    vstd::arithmetic::div_mod::lemma_fundamental_div_mod(m, divisor);
    vstd::arithmetic::div_mod::lemma_mod_bound(m, divisor);
    assert(divisor * q == q * divisor && (-q) * divisor == -(q * divisor)) by (nonlinear_arith);
}

} // verus!
