//! Fixed-point arithmetic: an `i64` counts millionths of a unit.
//!
//! Intermediate results are computed in `i128`, where they cannot overflow, and
//! brought back to `i64` by saturation.

use vstd::prelude::*;

verus! {

/// The fixed-point representation of the number one.
pub const UNIT: i64 = 1_000_000;

/// The number one again, for arithmetic in `i128`.
pub const UNIT_WIDE: i128 = 1_000_000;

/// The value of `x` brought into the range of `i64`.
pub open spec fn saturate(x: int) -> int {
    if x < i64::MIN {
        i64::MIN as int
    } else if x > i64::MAX {
        i64::MAX as int
    } else {
        x
    }
}

/// The magnitude of `x`.
pub open spec fn magnitude(x: int) -> int {
    if x < 0 {
        -x
    } else {
        x
    }
}

/// The quotient of `n` by a positive `d`, rounded toward zero.
pub open spec fn quotient_toward_zero(n: int, d: int) -> int {
    if n >= 0 {
        n / d
    } else {
        -((-n) / d)
    }
}

/// The quotient of a non-negative `n` by a positive `d`, rounded up.
pub open spec fn quotient_up(n: int, d: int) -> int {
    if n % d == 0 {
        n / d
    } else {
        n / d + 1
    }
}

/// The quotient rounded up is the least integer whose product with the
/// divisor reaches the dividend.
pub proof fn lemma_quotient_up_is_least(n: int, d: int)
    requires
        0 <= n,
        0 < d,
    ensures
        0 <= quotient_up(n, d),
        quotient_up(n, d) * d >= n,
        (quotient_up(n, d) - 1) * d < n || n == 0,
        quotient_up(n, d) <= n,
{
    vstd::arithmetic::div_mod::lemma_fundamental_div_mod(n, d);
    vstd::arithmetic::div_mod::lemma_mod_bound(n, d);
    vstd::arithmetic::div_mod::lemma_div_pos_is_pos(n, d);
    let q = n / d;
    assert(d * q == q * d) by (nonlinear_arith);
    assert((q + 1) * d == q * d + d) by (nonlinear_arith);
    assert((q - 1) * d == q * d - d) by (nonlinear_arith);
    assert(q <= q * d) by (nonlinear_arith)
        requires
            0 <= q,
            1 <= d,
    ;
}

/// Brings a wide value into the range of `i64`.
pub fn clamp_to_i64(x: i128) -> (r: i64)
    ensures
        r == saturate(x as int),
{
    if x < -0x8000_0000_0000_0000i128 {
        i64::MIN
    } else if x > 0x7fff_ffff_ffff_ffffi128 {
        i64::MAX
    } else {
        x as i64
    }
}

/// Divides a wide value by a positive divisor, rounding toward zero.
pub fn div_toward_zero(n: i128, d: i128) -> (q: i128)
    requires
        d > 0,
        n > i128::MIN,
    ensures
        q == quotient_toward_zero(n as int, d as int),
        magnitude(q as int) <= magnitude(n as int),
{
    proof {
        vstd::arithmetic::div_mod::lemma_fundamental_div_mod(magnitude(n as int), d as int);
        vstd::arithmetic::div_mod::lemma_mod_bound(magnitude(n as int), d as int);
        vstd::arithmetic::div_mod::lemma_div_pos_is_pos(magnitude(n as int), d as int);
        let q = magnitude(n as int) / (d as int);
        assert(q <= magnitude(n as int)) by (nonlinear_arith)
            requires
                0 <= q,
                1 <= d,
                magnitude(n as int) == d * q + magnitude(n as int) % (d as int),
                0 <= magnitude(n as int) % (d as int),
        ;
    }
    if n >= 0 {
        n / d
    } else {
        -((-n) / d)
    }
}

/// Divides a non-negative wide value by a positive divisor, rounding up.
pub fn div_up(n: i128, d: i128) -> (q: i128)
    requires
        n >= 0,
        d > 0,
    ensures
        q == quotient_up(n as int, d as int),
        0 <= q <= n,
{
    proof {
        lemma_quotient_up_is_least(n as int, d as int);
    }
    if n % d == 0 {
        n / d
    } else {
        n / d + 1
    }
}

/// The remainder of `n` by a positive modulus, in the range from zero up to
/// the modulus.
pub fn rem_floor(n: i128, m: i64) -> (r: i64)
    requires
        m > 0,
        n > i128::MIN,
    ensures
        r == (n as int) % (m as int),
        0 <= r < m,
{
    let wide: i128 = m as i128;
    proof {
        vstd::arithmetic::div_mod::lemma_mod_bound(n as int, m as int);
    }
    if n >= 0 {
        (n % wide) as i64
    } else {
        let back: i128 = (-n) % wide;
        proof {
            let p = -(n as int);
            vstd::arithmetic::div_mod::lemma_fundamental_div_mod(p, m as int);
            vstd::arithmetic::div_mod::lemma_mod_bound(p, m as int);
            let q = p / (m as int);
            if back == 0 {
                assert(n as int == (-q) * (m as int) + 0) by (nonlinear_arith)
                    requires
                        p == (m as int) * q + 0,
                        p == -(n as int),
                ;
                vstd::arithmetic::div_mod::lemma_fundamental_div_mod_converse(
                    n as int,
                    m as int,
                    -q,
                    0,
                );
            } else {
                assert(n as int == (-q - 1) * (m as int) + (m as int - back as int))
                    by (nonlinear_arith)
                    requires
                        p == (m as int) * q + back as int,
                        p == -(n as int),
                ;
                vstd::arithmetic::div_mod::lemma_fundamental_div_mod_converse(
                    n as int,
                    m as int,
                    -q - 1,
                    m as int - back as int,
                );
            }
        }
        if back == 0 {
            0
        } else {
            (wide - back) as i64
        }
    }
}

} // verus!
