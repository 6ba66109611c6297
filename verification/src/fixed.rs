//! The fixed-point scalar of the solver.
//!
//! A scalar is an `i64` value `v` denoting the real number `v / SCALE`.
//! Intermediate products are carried in `i128`, and every rounding is a
//! division truncated toward zero, written `tdiv` in specifications.

use vstd::prelude::*;
use vstd::arithmetic::div_mod::lemma_div_is_ordered;
use vstd::arithmetic::div_mod::lemma_div_multiples_vanish;
use vstd::arithmetic::div_mod::lemma_div_nonincreasing;
use vstd::arithmetic::div_mod::lemma_div_of0;
use vstd::arithmetic::div_mod::lemma_div_pos_is_pos;
use vstd::arithmetic::mul::lemma_mul_nonnegative;
use vstd::arithmetic::mul::lemma_mul_upper_bound;

verus! {

/// Number of fixed-point units that stand for one: a value `v` denotes
/// the real number `v / SCALE`.
pub const SCALE: i64 = 1_000_000_000_000;

/// `SCALE` in the wide type used for intermediate products.
pub const SCALE_WIDE: i128 = 1_000_000_000_000;

/// True when `x` fits the scalar carrier type.
pub open spec fn in_i64(x: int) -> bool {
    i64::MIN <= x <= i64::MAX
}

/// Magnitude of an integer.
pub open spec fn abs_s(x: int) -> int {
    if x >= 0 {
        x
    } else {
        -x
    }
}

/// Division truncated toward zero, the rounding used by every scalar
/// operation of the solver.
pub open spec fn tdiv(n: int, d: int) -> int
    recommends
        d > 0,
{
    if n >= 0 {
        n / d
    } else {
        -((-n) / d)
    }
}

/// The fixed-point product `(a * b) / SCALE`, truncated toward zero.
pub open spec fn fx_mul_s(a: int, b: int) -> int {
    tdiv(a * b, SCALE as int)
}

/// Truncated division keeps the sign and never grows the magnitude.
pub proof fn lemma_tdiv_bounds(n: int, d: int)
    requires
        d > 0,
    ensures
        n >= 0 ==> 0 <= tdiv(n, d) <= n,
        n <= 0 ==> n <= tdiv(n, d) <= 0,
        abs_s(tdiv(n, d)) <= abs_s(n),
{
    if n >= 0 {
        lemma_div_pos_is_pos(n, d);
        lemma_div_nonincreasing(n, d);
    } else {
        lemma_div_pos_is_pos(-n, d);
        lemma_div_nonincreasing(-n, d);
    }
    if n == 0 {
        lemma_div_of0(d);
    }
}

/// Truncated division is monotone in the numerator.
pub proof fn lemma_tdiv_mono(n1: int, n2: int, d: int)
    requires
        n1 <= n2,
        d > 0,
    ensures
        tdiv(n1, d) <= tdiv(n2, d),
{
    if n1 >= 0 {
        lemma_div_is_ordered(n1, n2, d);
    } else if n2 < 0 {
        lemma_div_is_ordered(-n2, -n1, d);
    } else {
        lemma_tdiv_bounds(n1, d);
        lemma_tdiv_bounds(n2, d);
    }
}

/// Truncated division of an exact multiple recovers the factor.
pub proof fn lemma_tdiv_multiple(m: int, d: int)
    requires
        d > 0,
    ensures
        tdiv(m * d, d) == m,
{
    if m >= 0 {
        lemma_div_multiples_vanish(m, d);
        assert(d * m == m * d) by (nonlinear_arith);
    } else {
        lemma_div_multiples_vanish(-m, d);
        assert(d * (-m) == -(m * d)) by (nonlinear_arith);
    }
}

/// The product of two carrier values fits the wide type.
pub proof fn lemma_wide_product(a: int, b: int)
    requires
        in_i64(a),
        in_i64(b),
    ensures
        i128::MIN <= a * b <= i128::MAX,
        abs_s(a * b) <= abs_s(a) * abs_s(b),
{
    assert(abs_s(a * b) <= abs_s(a) * abs_s(b)) by (nonlinear_arith);
    lemma_mul_upper_bound(abs_s(a), i64::MAX as int + 1, abs_s(b), i64::MAX as int + 1);
}

/// Bound a product of nonnegative quantities by the product of their bounds.
pub proof fn lemma_prod_le(a: int, amax: int, b: int, bmax: int)
    requires
        0 <= a <= amax,
        0 <= b <= bmax,
    ensures
        0 <= a * b <= amax * bmax,
{
    lemma_mul_nonnegative(a, b);
    lemma_mul_upper_bound(a, amax, b, bmax);
}

/// Exact truncating division of the wide type by a positive divisor.
pub fn tdiv_wide(n: i128, d: i128) -> (q: i128)
    requires
        d > 0,
    ensures
        q == tdiv(n as int, d as int),
{
    proof {
        lemma_tdiv_bounds(n as int, d as int);
        if n == 0 {
            lemma_div_of0(d as int);
        }
    }
    match n.checked_div(d) {
        Some(q) => q,
        None => {
            proof {
                assert(false);
            }
            0
        },
    }
}

/// Magnitude of a carrier value, in the wide type.
pub fn abs_wide(a: i64) -> (r: i128)
    ensures
        r == abs_s(a as int),
        0 <= r <= i64::MAX as i128 + 1,
{
    if a >= 0 {
        a as i128
    } else {
        -(a as i128)
    }
}

/// Fixed-point multiply with an explicit range check: `None` reports a
/// product whose scaled value leaves the carrier range.
pub fn fx_mul(a: i64, b: i64) -> (r: Option<i64>)
    ensures
        r is Some <==> in_i64(fx_mul_s(a as int, b as int)),
        r matches Some(v) ==> v as int == fx_mul_s(a as int, b as int),
{
    proof {
        lemma_wide_product(a as int, b as int);
    }
    let p: i128 = (a as i128) * (b as i128);
    let q = tdiv_wide(p, SCALE_WIDE);
    if q > (i64::MAX as i128) || q < (i64::MIN as i128) {
        None
    } else {
        Some(q as i64)
    }
}

} // verus!
