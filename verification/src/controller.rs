//! Acceptance and step-size control.
//!
//! A trial step hands the controller its error estimate.  Each component's
//! error is divided by a tolerance weight, the largest quotient is the
//! normalized error `E`, and the step is accepted exactly when `E` is at
//! most one.  The next step size is the current one scaled by
//! `0.9 * E^(-1/q)` clamped to `[0.2, 5]`, with `q` one more than the
//! method's error order after acceptance and the error order itself after
//! rejection.  With `E` at most one the unclamped factor is at least the
//! safety factor, so an accepted step's factor is searched in
//! `[9/10, 5]` and a rejected one's in `[1/5, 9/10]`, keeping a
//! rejection's proposal strictly smaller than the step it judged.  All of
//! it is fixed point: the scaling factor is the largest value in its
//! range whose fixed-point power keeps the projected error within the
//! safety margin, found by binary search.

use vstd::prelude::*;
use vstd::arithmetic::div_mod::lemma_div_decreases;
use vstd::arithmetic::div_mod::lemma_div_pos_is_pos;
use vstd::arithmetic::mul::lemma_mul_inequality;
use crate::fixed::abs_s;
use crate::fixed::abs_wide;
use crate::fixed::in_i64;
use crate::fixed::lemma_prod_le;
use crate::fixed::lemma_tdiv_bounds;
use crate::fixed::lemma_tdiv_mono;
use crate::fixed::lemma_tdiv_multiple;
use crate::fixed::tdiv;
use crate::fixed::tdiv_wide;
use crate::fixed::SCALE;
use crate::fixed::SCALE_WIDE;
use crate::tolerances::Tolerances;

verus! {

/// Lower clamp of the step factor after a rejected step: one fifth.
pub const ONE_FIFTH: i64 = 200_000_000_000;

/// The safety factor nine tenths: ceiling of a rejected step's factor and
/// floor of an accepted one's.
pub const NINE_TENTHS: i64 = 900_000_000_000;

/// Upper clamp of the step factor after an accepted step: five.
pub const GROW_MAX: i64 = 5_000_000_000_000;

/// Largest step magnitude the controller accepts, chosen so that five
/// times a step still fits the carrier.
pub const H_CAP: i64 = 1_800_000_000_000_000_000;

/// Normalized errors beyond this ceiling ask for the same answer as the
/// ceiling itself: the factor is already at its lower clamp there.
pub const ERR_CEIL: i128 = 10_000_000_000_000_000;

/// Bound on any normalized error the controller can compute.
pub const ERR_NORM_CAP: i128 = 10_000_000_000_000_000_000_000_000_000_000;

/// Largest method error order the controller supports.
pub const MAX_ORDER: u32 = 4;

/// The controller's verdict on one trial step, carrying the proposed
/// size of the next trial.
#[derive(Clone, Copy, Debug, PartialEq, Eq, Structural)]
pub enum ControlDecision {
    /// Commit the step and continue with `next_h`.
    Accept { next_h: i64 },
    /// Discard the step and retry with the strictly smaller `next_h`.
    Shrink { next_h: i64 },
}

/// Powers of five.
pub open spec fn pow5(n: nat) -> int
    decreases n,
{
    if n == 0 {
        1
    } else {
        5 * pow5((n - 1) as nat)
    }
}

/// Fixed-point power with the controller's truncation at every multiply.
pub open spec fn fx_pow_s(f: int, q: nat) -> int
    decreases q,
{
    if q == 0 {
        SCALE as int
    } else {
        tdiv(fx_pow_s(f, (q - 1) as nat) * f, SCALE as int)
    }
}

/// Does factor `f` keep the projected error within the safety margin?
/// In real terms: `(f/SCALE)^q * (e/SCALE) <= (9/10)^q`.
pub open spec fn within_margin(f: int, e: int, q: nat) -> bool {
    tdiv(fx_pow_s(f, q) * e, SCALE as int) <= fx_pow_s(NINE_TENTHS as int, q)
}

/// Largest factor in `[lo, hi]` that keeps the margin; `lo` when none does.
pub open spec fn factor_s(e: int, q: nat, lo: int, hi: int) -> int
    decreases hi - lo,
{
    if hi <= lo {
        lo
    } else if within_margin(hi, e, q) {
        hi
    } else {
        factor_s(e, q, lo, hi - 1)
    }
}

/// A normalized error clamped to the search ceiling.
pub open spec fn clamp_err(e: int) -> int {
    if e > ERR_CEIL as int {
        ERR_CEIL as int
    } else {
        e
    }
}

/// The factor applied to the step size after an accepted step.
pub open spec fn grow_factor_s(e: int, order: nat) -> int {
    factor_s(e, (order + 1) as nat, NINE_TENTHS as int, GROW_MAX as int)
}

/// The factor applied to the step size after a rejected step.
pub open spec fn shrink_factor_s(e: int, order: nat) -> int {
    factor_s(clamp_err(e), order, ONE_FIFTH as int, NINE_TENTHS as int)
}

/// Magnitude of the next step proposed for normalized error `e` and the
/// current magnitude `hm`.
pub open spec fn next_mag_s(e: int, hm: int, order: nat) -> int {
    if e <= SCALE as int {
        tdiv(hm * grow_factor_s(e, order), SCALE as int)
    } else {
        tdiv(hm * shrink_factor_s(e, order), SCALE as int)
    }
}

/// Give `mag` the sign of `h`.
pub open spec fn apply_sign(h: int, mag: int) -> int {
    if h >= 0 {
        mag
    } else {
        -mag
    }
}

pub proof fn lemma_pow5_le(q: nat)
    requires
        q <= 5,
    ensures
        1 <= pow5(q) <= 3125,
{
    reveal_with_fuel(pow5, 6);
    if q == 0 {
    } else if q == 1 {
    } else if q == 2 {
    } else if q == 3 {
    } else if q == 4 {
    } else {
        assert(q == 5);
    }
}

/// The fixed-point power of a factor below five stays below the matching
/// power of five, scaled.
pub proof fn lemma_fx_pow_bounds(f: int, q: nat)
    requires
        0 <= f <= GROW_MAX as int,
    ensures
        0 <= fx_pow_s(f, q) <= pow5(q) * SCALE as int,
    decreases q,
{
    if q == 0 {
    } else {
        lemma_fx_pow_bounds(f, (q - 1) as nat);
        let p = fx_pow_s(f, (q - 1) as nat);
        let p5 = pow5((q - 1) as nat);
        assert(pow5(q) == 5 * p5);
        lemma_prod_le(p, p5 * SCALE as int, f, GROW_MAX as int);
        assert(p5 * SCALE as int * (GROW_MAX as int) == (5 * p5 * SCALE as int) * SCALE as int)
            by (nonlinear_arith);
        lemma_tdiv_mono(p * f, (5 * p5 * SCALE as int) * SCALE as int, SCALE as int);
        lemma_tdiv_multiple(5 * p5 * SCALE as int, SCALE as int);
        vstd::arithmetic::mul::lemma_mul_nonnegative(p, f);
        lemma_tdiv_bounds(p * f, SCALE as int);
    }
}

/// The fixed-point power is monotone in its base.
pub proof fn lemma_fx_pow_mono(f1: int, f2: int, q: nat)
    requires
        0 <= f1 <= f2,
    ensures
        0 <= fx_pow_s(f1, q) <= fx_pow_s(f2, q),
    decreases q,
{
    if q == 0 {
    } else {
        lemma_fx_pow_mono(f1, f2, (q - 1) as nat);
        let p1 = fx_pow_s(f1, (q - 1) as nat);
        let p2 = fx_pow_s(f2, (q - 1) as nat);
        lemma_prod_le(p1, p2, f1, f2);
        lemma_tdiv_mono(p1 * f1, p2 * f2, SCALE as int);
        lemma_tdiv_bounds(p1 * f1, SCALE as int);
    }
}

/// A smaller factor also keeps the margin.
pub proof fn lemma_margin_antitone(f1: int, f2: int, e: int, q: nat)
    requires
        0 <= f1 <= f2,
        0 <= e,
        within_margin(f2, e, q),
    ensures
        within_margin(f1, e, q),
{
    lemma_fx_pow_mono(f1, f2, q);
    lemma_prod_le(fx_pow_s(f1, q), fx_pow_s(f2, q), e, e);
    lemma_tdiv_mono(fx_pow_s(f1, q) * e, fx_pow_s(f2, q) * e, SCALE as int);
}

/// A factor that keeps the margin for a larger error keeps it for a
/// smaller one.
pub proof fn lemma_margin_err_mono(f: int, e1: int, e2: int, q: nat)
    requires
        0 <= f,
        0 <= e1 <= e2,
        within_margin(f, e2, q),
    ensures
        within_margin(f, e1, q),
{
    lemma_fx_pow_mono(f, f, q);
    lemma_prod_le(fx_pow_s(f, q), fx_pow_s(f, q), e1, e2);
    lemma_tdiv_mono(fx_pow_s(f, q) * e1, fx_pow_s(f, q) * e2, SCALE as int);
}

/// The searched factor stays in its clamp range.
pub proof fn lemma_factor_range(e: int, q: nat, lo: int, hi: int)
    requires
        lo <= hi,
    ensures
        lo <= factor_s(e, q, lo, hi) <= hi,
    decreases hi - lo,
{
    if hi <= lo {
    } else if within_margin(hi, e, q) {
    } else {
        lemma_factor_range(e, q, lo, hi - 1);
    }
}

/// A factor above the lower clamp was chosen because it keeps the margin.
pub proof fn lemma_factor_margin_at(e: int, q: nat, lo: int, hi: int)
    requires
        lo <= hi,
    ensures
        factor_s(e, q, lo, hi) > lo ==> within_margin(factor_s(e, q, lo, hi), e, q),
    decreases hi - lo,
{
    if hi <= lo {
    } else if within_margin(hi, e, q) {
    } else {
        lemma_factor_margin_at(e, q, lo, hi - 1);
    }
}

/// Any factor in range that keeps the margin bounds the search from below.
pub proof fn lemma_factor_ge(e: int, q: nat, lo: int, hi: int, m: int)
    requires
        lo <= m <= hi,
        within_margin(m, e, q),
    ensures
        factor_s(e, q, lo, hi) >= m,
    decreases hi - lo,
{
    if hi <= lo {
    } else if within_margin(hi, e, q) {
    } else {
        lemma_factor_ge(e, q, lo, hi - 1, m);
    }
}

/// A factor in range that breaks the margin bounds the search from above.
pub proof fn lemma_factor_notabove(e: int, q: nat, lo: int, hi: int, m: int)
    requires
        lo < m <= hi,
        0 <= lo,
        0 <= e,
        !within_margin(m, e, q),
    ensures
        factor_s(e, q, lo, hi) <= m - 1,
    decreases hi - lo,
{
    if hi <= lo {
    } else if within_margin(hi, e, q) {
        lemma_margin_antitone(m, hi, e, q);
        assert(false);
    } else {
        if m <= hi - 1 {
            lemma_factor_notabove(e, q, lo, hi - 1, m);
        } else {
            lemma_factor_range(e, q, lo, hi - 1);
        }
    }
}

/// A larger error never earns a larger factor.
pub proof fn lemma_factor_err_antitone(e1: int, e2: int, q: nat, lo: int, hi: int)
    requires
        0 <= e1 <= e2,
        0 <= lo <= hi,
    ensures
        factor_s(e2, q, lo, hi) <= factor_s(e1, q, lo, hi),
{
    let f2 = factor_s(e2, q, lo, hi);
    lemma_factor_range(e2, q, lo, hi);
    lemma_factor_range(e1, q, lo, hi);
    if f2 > lo {
        lemma_factor_margin_at(e2, q, lo, hi);
        lemma_margin_err_mono(f2, e1, e2, q);
        lemma_factor_ge(e1, q, lo, hi, f2);
    }
}

/// Raise a factor to the power `q` in fixed point.
pub fn fx_pow(f: i64, q: u32) -> (p: i64)
    requires
        0 <= f <= GROW_MAX,
        q <= 5,
    ensures
        p as int == fx_pow_s(f as int, q as nat),
        0 <= p <= 3125 * SCALE,
{
    let mut p: i128 = SCALE_WIDE;
    let mut k: u32 = 0;
    while k < q
        invariant
            k <= q <= 5,
            0 <= f <= GROW_MAX,
            p as int == fx_pow_s(f as int, k as nat),
            0 <= p,
        decreases q - k,
    {
        proof {
            lemma_pow5_le(k as nat);
            lemma_fx_pow_bounds(f as int, k as nat);
            lemma_mul_inequality(pow5(k as nat), 3125, SCALE as int);
            lemma_prod_le(p as int, 3125 * SCALE as int, f as int, GROW_MAX as int);
            vstd::arithmetic::mul::lemma_mul_nonnegative(p as int, f as int);
            lemma_tdiv_bounds(p as int * f as int, SCALE as int);
        }
        p = tdiv_wide(p * (f as i128), SCALE_WIDE);
        k = k + 1;
    }
    proof {
        lemma_pow5_le(q as nat);
        lemma_fx_pow_bounds(f as int, q as nat);
        lemma_mul_inequality(pow5(q as nat), 3125, SCALE as int);
    }
    p as i64
}

/// Decide whether factor `f` keeps the safety margin for error `e`.
pub fn margin_holds(f: i64, e: i128, q: u32) -> (b: bool)
    requires
        0 <= f <= GROW_MAX,
        1 <= q <= 5,
        0 <= e <= ERR_CEIL,
    ensures
        b == within_margin(f as int, e as int, q as nat),
{
    let p = fx_pow(f, q);
    let c = fx_pow(NINE_TENTHS, q);
    proof {
        lemma_prod_le(p as int, 3125 * SCALE as int, e as int, ERR_CEIL as int);
    }
    let lhs = tdiv_wide((p as i128) * e, SCALE_WIDE);
    lhs <= c as i128
}

/// Binary search for the largest factor in `[lo, hi]` keeping the margin.
pub fn search_factor(e: i128, q: u32, lo: i64, hi: i64) -> (f: i64)
    requires
        0 <= e <= ERR_CEIL,
        1 <= q <= 5,
        1 <= lo <= hi <= GROW_MAX,
    ensures
        f as int == factor_s(e as int, q as nat, lo as int, hi as int),
        lo <= f <= hi,
{
    let mut a = lo;
    let mut b = hi;
    while a < b
        invariant
            lo <= a <= b <= hi,
            1 <= lo <= hi <= GROW_MAX,
            0 <= e <= ERR_CEIL,
            1 <= q <= 5,
            a == lo || within_margin(a as int, e as int, q as nat),
            b == hi || !within_margin(b as int + 1, e as int, q as nat),
        decreases b - a,
    {
        let gap: i64 = b - a;
        let gap_u: u64 = gap as u64;
        let half: u64 = (gap_u + 1) / 2;
        proof {
            lemma_div_pos_is_pos(gap as int + 1, 2);
            vstd::arithmetic::div_mod::lemma_div_is_ordered(2, gap as int + 1, 2);
            vstd::arithmetic::div_mod::lemma_div_is_ordered(gap as int + 1, 2 * gap as int, 2);
            vstd::arithmetic::div_mod::lemma_div_multiples_vanish(gap as int, 2);
        }
        let mid: i64 = a + (half as i64);
        if margin_holds(mid, e, q) {
            a = mid;
        } else {
            b = mid - 1;
        }
    }
    proof {
        lemma_factor_range(e as int, q as nat, lo as int, hi as int);
        if a > lo {
            lemma_factor_ge(e as int, q as nat, lo as int, hi as int, a as int);
        }
        if a < hi {
            lemma_factor_notabove(e as int, q as nat, lo as int, hi as int, a as int + 1);
        }
    }
    a
}

/// Tolerance weight of one component:
/// `absolute + relative * (scale_y*|y| + scale_dydt*|h*dydt|)` in fixed point.
pub open spec fn weight_s(tol: Tolerances, y_i: int, dydt_i: int, hm: int) -> int {
    tol.absolute + tdiv(
        tol.relative * (tdiv(tol.scale_y * abs_s(y_i), SCALE as int) + tdiv(
            tol.scale_dydt * tdiv(hm * abs_s(dydt_i), SCALE as int),
            SCALE as int,
        )),
        SCALE as int,
    )
}

/// Normalized error of one component: `|err| / weight` in fixed point.
pub open spec fn comp_err_s(tol: Tolerances, y_err_i: int, y_i: int, dydt_i: int, hm: int) -> int {
    tdiv(abs_s(y_err_i) * SCALE as int, weight_s(tol, y_i, dydt_i, hm))
}

/// True when some component's weight vanishes, leaving its normalized
/// error indeterminate.
pub open spec fn weight_vanishes(tol: Tolerances, y: Seq<i64>, dydt: Seq<i64>, hm: int) -> bool {
    exists|j: int|
        0 <= j < y.len() && #[trigger] weight_s(tol, y[j] as int, dydt[j] as int, hm) == 0
}

/// Greatest normalized component error, the infinity norm; zero for an
/// empty state.
pub open spec fn err_norm_s(
    tol: Tolerances,
    y_err: Seq<i64>,
    y: Seq<i64>,
    dydt: Seq<i64>,
    hm: int,
) -> int
    decreases y_err.len(),
{
    if y_err.len() == 0 {
        0
    } else {
        let rest = err_norm_s(tol, y_err.drop_last(), y.drop_last(), dydt.drop_last(), hm);
        let last = comp_err_s(tol, y_err.last() as int, y.last() as int, dydt.last() as int, hm);
        if last >= rest {
            last
        } else {
            rest
        }
    }
}

/// Compute one component's tolerance weight.
pub fn weight_of(tol: &Tolerances, y_i: i64, dydt_i: i64, hm: i128) -> (w: i128)
    requires
        tol.wf(),
        0 <= hm <= H_CAP as i128,
    ensures
        w as int == weight_s(*tol, y_i as int, dydt_i as int, hm as int),
        0 <= w <= 100_000_000_000_000_000_000_000_000,
{
    let dya = abs_wide(dydt_i);
    let ya = abs_wide(y_i);
    proof {
        lemma_prod_le(hm as int, H_CAP as int, dya as int, i64::MAX as int + 1);
        lemma_tdiv_bounds(hm as int * dya as int, SCALE as int);
        lemma_tdiv_mono(hm as int * dya as int, H_CAP as int * (i64::MAX as int + 1), SCALE as int);
    }
    let d1 = tdiv_wide(hm * dya, SCALE_WIDE);
    proof {
        lemma_prod_le(tol.scale_dydt as int, SCALE as int, d1 as int, 20_000_000_000_000_000_000_000_000);
        lemma_tdiv_bounds(tol.scale_dydt as int * d1 as int, SCALE as int);
        lemma_tdiv_mono(
            tol.scale_dydt as int * d1 as int,
            SCALE as int * 20_000_000_000_000_000_000_000_000,
            SCALE as int,
        );
        lemma_tdiv_multiple(20_000_000_000_000_000_000_000_000, SCALE as int);
    }
    let d2 = tdiv_wide((tol.scale_dydt as i128) * d1, SCALE_WIDE);
    proof {
        lemma_prod_le(tol.scale_y as int, SCALE as int, ya as int, i64::MAX as int + 1);
        lemma_tdiv_bounds(tol.scale_y as int * ya as int, SCALE as int);
        lemma_tdiv_mono(
            tol.scale_y as int * ya as int,
            SCALE as int * (i64::MAX as int + 1),
            SCALE as int,
        );
    }
    let d3 = tdiv_wide((tol.scale_y as i128) * ya, SCALE_WIDE);
    let inner = d3 + d2;
    proof {
        lemma_prod_le(tol.relative as int, SCALE as int, inner as int, 30_000_000_000_000_000_000_000_000);
        lemma_tdiv_bounds(tol.relative as int * inner as int, SCALE as int);
        lemma_tdiv_mono(
            tol.relative as int * inner as int,
            SCALE as int * 30_000_000_000_000_000_000_000_000,
            SCALE as int,
        );
        lemma_tdiv_multiple(30_000_000_000_000_000_000_000_000, SCALE as int);
    }
    let d4 = tdiv_wide((tol.relative as i128) * inner, SCALE_WIDE);
    tol.absolute as i128 + d4
}

/// Evaluate one trial step: decide acceptance and propose the next size.
///
/// The verdict is a function of the normalized error `E`:
/// a vanished weight (the indeterminate case) shrinks the step to a fifth;
/// `E <= 1` accepts and `E > 1` rejects, each scaling the step by the
/// clamped factor `0.9 * E^(-1/q)`.  A rejection always proposes a
/// strictly smaller step; an acceptance proposes at most five times the
/// current one.
pub fn evaluate(
    y_err: &Vec<i64>,
    y: &Vec<i64>,
    dydt: &Vec<i64>,
    h: i64,
    tol: &Tolerances,
    order: u32,
) -> (d: ControlDecision)
    requires
        tol.wf(),
        y_err@.len() == y@.len(),
        dydt@.len() == y@.len(),
        h != 0,
        abs_s(h as int) <= H_CAP as int,
        1 <= order <= MAX_ORDER,
    ensures
        ({
            let hm = abs_s(h as int);
            let vanish = weight_vanishes(*tol, y@, dydt@, hm);
            let e = err_norm_s(*tol, y_err@, y@, dydt@, hm);
            &&& vanish ==> (d matches ControlDecision::Shrink { next_h } && next_h as int
                == apply_sign(h as int, tdiv(hm, 5)))
            &&& !vanish ==> match d {
                ControlDecision::Accept { next_h } => e <= SCALE as int && next_h as int
                    == apply_sign(h as int, next_mag_s(e, hm, order as nat)),
                ControlDecision::Shrink { next_h } => e > SCALE as int && next_h as int
                    == apply_sign(h as int, next_mag_s(e, hm, order as nat)),
            }
            &&& d matches ControlDecision::Shrink { next_h } ==> abs_s(next_h as int) < hm
            &&& d matches ControlDecision::Accept { next_h } ==> abs_s(next_h as int) <= 5 * hm
        }),
{
    let n = y.len();
    let hm = abs_wide(h);
    let mut vanish = false;
    let mut emax: i128 = 0;
    let mut i: usize = 0;
    while i < n
        invariant
            i <= n,
            n == y@.len(),
            y_err@.len() == n,
            dydt@.len() == n,
            tol.wf(),
            0 <= hm <= H_CAP as i128,
            hm == abs_s(h as int),
            vanish == weight_vanishes(*tol, y@.take(i as int), dydt@.take(i as int), hm as int),
            !vanish ==> emax as int == err_norm_s(
                *tol,
                y_err@.take(i as int),
                y@.take(i as int),
                dydt@.take(i as int),
                hm as int,
            ),
            0 <= emax <= ERR_NORM_CAP,
        decreases n - i,
    {
        let w = weight_of(tol, y[i], dydt[i], hm);
        let ghost prev_vanish = vanish;
        if w == 0 {
            vanish = true;
        } else if !vanish {
            let ea = abs_wide(y_err[i]);
            proof {
                lemma_prod_le(ea as int, i64::MAX as int + 1, SCALE as int, SCALE as int);
                lemma_tdiv_bounds(ea as int * SCALE as int, w as int);
                lemma_tdiv_mono(ea as int * SCALE as int, (i64::MAX as int + 1) * SCALE as int, 1);
                vstd::arithmetic::div_mod::lemma_div_is_ordered_by_denominator(
                    ea as int * SCALE as int,
                    1,
                    w as int,
                );
            }
            let e_i = tdiv_wide(ea * SCALE_WIDE, w);
            if e_i > emax {
                emax = e_i;
            }
        }
        proof {
            let k = i as int;
            assert(y@.take(k + 1).drop_last() =~= y@.take(k));
            assert(y_err@.take(k + 1).drop_last() =~= y_err@.take(k));
            assert(dydt@.take(k + 1).drop_last() =~= dydt@.take(k));
            assert(y@.take(k + 1).last() == y@[k]);
            assert(y_err@.take(k + 1).last() == y_err@[k]);
            assert(dydt@.take(k + 1).last() == dydt@[k]);
            if w == 0 {
                assert(weight_s(*tol, y@.take(k + 1)[k] as int, dydt@.take(k + 1)[k] as int, hm as int)
                    == 0);
                assert(weight_vanishes(*tol, y@.take(k + 1), dydt@.take(k + 1), hm as int));
            } else if prev_vanish {
                let j = choose|j: int|
                    0 <= j < y@.take(k).len() && #[trigger] weight_s(
                        *tol,
                        y@.take(k)[j] as int,
                        dydt@.take(k)[j] as int,
                        hm as int,
                    ) == 0;
                assert(weight_s(*tol, y@.take(k + 1)[j] as int, dydt@.take(k + 1)[j] as int, hm as int)
                    == 0);
                assert(weight_vanishes(*tol, y@.take(k + 1), dydt@.take(k + 1), hm as int));
            } else {
                assert(!weight_vanishes(*tol, y@.take(k + 1), dydt@.take(k + 1), hm as int)) by {
                    if weight_vanishes(*tol, y@.take(k + 1), dydt@.take(k + 1), hm as int) {
                        let j = choose|j: int|
                            0 <= j < y@.take(k + 1).len() && #[trigger] weight_s(
                                *tol,
                                y@.take(k + 1)[j] as int,
                                dydt@.take(k + 1)[j] as int,
                                hm as int,
                            ) == 0;
                        if j < k {
                            assert(weight_s(*tol, y@.take(k)[j] as int, dydt@.take(k)[j] as int, hm as int)
                                == 0);
                            assert(weight_vanishes(*tol, y@.take(k), dydt@.take(k), hm as int));
                        }
                    }
                };
            }
        }
        i = i + 1;
    }
    proof {
        assert(y@.take(n as int) =~= y@);
        assert(y_err@.take(n as int) =~= y_err@);
        assert(dydt@.take(n as int) =~= dydt@);
    }
    if vanish {
        proof {
            lemma_tdiv_bounds(hm as int, 5);
            lemma_div_decreases(hm as int, 5);
        }
        let nh_mag = tdiv_wide(hm, 5);
        let nh: i64 = if h >= 0 {
            nh_mag as i64
        } else {
            -(nh_mag as i64)
        };
        ControlDecision::Shrink { next_h: nh }
    } else if emax <= SCALE_WIDE {
        let f = search_factor(emax, order + 1, NINE_TENTHS, GROW_MAX);
        proof {
            lemma_prod_le(hm as int, hm as int, f as int, GROW_MAX as int);
            lemma_tdiv_mono(hm as int * f as int, hm as int * GROW_MAX as int, SCALE as int);
            assert(hm as int * GROW_MAX as int == (5 * hm as int) * SCALE as int)
                by (nonlinear_arith);
            lemma_tdiv_multiple(5 * hm as int, SCALE as int);
            vstd::arithmetic::mul::lemma_mul_nonnegative(hm as int, f as int);
            lemma_tdiv_bounds(hm as int * f as int, SCALE as int);
        }
        let mag = tdiv_wide(hm * (f as i128), SCALE_WIDE);
        let nh: i64 = if h >= 0 {
            mag as i64
        } else {
            -(mag as i64)
        };
        ControlDecision::Accept { next_h: nh }
    } else {
        let ec = if emax > ERR_CEIL {
            ERR_CEIL
        } else {
            emax
        };
        let f = search_factor(ec, order, ONE_FIFTH, NINE_TENTHS);
        proof {
            lemma_prod_le(hm as int, hm as int, f as int, NINE_TENTHS as int);
            lemma_tdiv_mono(hm as int * f as int, hm as int * NINE_TENTHS as int, SCALE as int);
            assert((hm as int) * (NINE_TENTHS as int) < (hm as int) * (SCALE as int))
                by (nonlinear_arith)
                requires
                    hm as int >= 1,
            ;
            vstd::arithmetic::div_mod::lemma_multiply_divide_lt(
                hm as int * NINE_TENTHS as int,
                SCALE as int,
                hm as int,
            );
            vstd::arithmetic::mul::lemma_mul_nonnegative(hm as int, f as int);
            lemma_tdiv_bounds(hm as int * f as int, SCALE as int);
        }
        let mag = tdiv_wide(hm * (f as i128), SCALE_WIDE);
        let nh: i64 = if h >= 0 {
            mag as i64
        } else {
            -(mag as i64)
        };
        ControlDecision::Shrink { next_h: nh }
    }
}

/// The proposed next magnitude is never negative.
pub proof fn lemma_next_mag_nonneg(e: int, hm: int, order: nat)
    requires
        0 <= hm,
        1 <= order <= MAX_ORDER as nat,
    ensures
        0 <= next_mag_s(e, hm, order),
{
    if e <= SCALE as int {
        lemma_factor_range(e, (order + 1) as nat, NINE_TENTHS as int, GROW_MAX as int);
        lemma_prod_le(0, hm, 0, grow_factor_s(e, order));
        vstd::arithmetic::mul::lemma_mul_nonnegative(hm, grow_factor_s(e, order));
        lemma_tdiv_bounds(hm * grow_factor_s(e, order), SCALE as int);
    } else {
        lemma_factor_range(clamp_err(e), order, ONE_FIFTH as int, NINE_TENTHS as int);
        vstd::arithmetic::mul::lemma_mul_nonnegative(hm, shrink_factor_s(e, order));
        lemma_tdiv_bounds(hm * shrink_factor_s(e, order), SCALE as int);
    }
}

/// After an accepted step the proposed next size is nonzero and keeps the
/// direction of travel.
pub proof fn lemma_accept_keeps_direction(h: int, e: int, order: nat)
    requires
        2 <= abs_s(h) <= H_CAP as int,
        0 <= e <= SCALE as int,
        1 <= order <= MAX_ORDER as nat,
    ensures
        h > 0 ==> apply_sign(h, next_mag_s(e, abs_s(h), order)) > 0,
        h < 0 ==> apply_sign(h, next_mag_s(e, abs_s(h), order)) < 0,
{
    let hm = abs_s(h);
    let f = grow_factor_s(e, order);
    lemma_factor_range(e, (order + 1) as nat, NINE_TENTHS as int, GROW_MAX as int);
    lemma_mul_inequality(NINE_TENTHS as int, f, hm);
    vstd::arithmetic::mul::lemma_mul_is_commutative(hm, f);
    vstd::arithmetic::mul::lemma_mul_is_commutative(hm, NINE_TENTHS as int);
    lemma_mul_inequality(2, hm, NINE_TENTHS as int);
    vstd::arithmetic::mul::lemma_mul_is_commutative(hm, NINE_TENTHS as int);
    lemma_tdiv_mono(2 * NINE_TENTHS as int, hm * NINE_TENTHS as int, SCALE as int);
    lemma_tdiv_mono(hm * NINE_TENTHS as int, hm * f, SCALE as int);
    assert(tdiv(2 * NINE_TENTHS as int, SCALE as int) == 1);
}

/// A larger normalized error never earns a larger next step.
pub proof fn lemma_controller_monotone(e1: int, e2: int, hm: int, order: nat)
    requires
        0 <= e1 <= e2,
        0 <= hm,
        1 <= order <= MAX_ORDER as nat,
    ensures
        next_mag_s(e2, hm, order) <= next_mag_s(e1, hm, order),
{
    if e2 <= SCALE as int {
        lemma_factor_err_antitone(e1, e2, (order + 1) as nat, NINE_TENTHS as int, GROW_MAX as int);
        lemma_factor_range(e2, (order + 1) as nat, NINE_TENTHS as int, GROW_MAX as int);
        lemma_prod_le(hm, hm, grow_factor_s(e2, order), grow_factor_s(e1, order));
        lemma_tdiv_mono(hm * grow_factor_s(e2, order), hm * grow_factor_s(e1, order), SCALE as int);
    } else if e1 <= SCALE as int {
        lemma_factor_range(e1, (order + 1) as nat, NINE_TENTHS as int, GROW_MAX as int);
        lemma_factor_range(clamp_err(e2), order, ONE_FIFTH as int, NINE_TENTHS as int);
        lemma_prod_le(hm, hm, shrink_factor_s(e2, order), grow_factor_s(e1, order));
        lemma_tdiv_mono(hm * shrink_factor_s(e2, order), hm * grow_factor_s(e1, order), SCALE as int);
    } else {
        lemma_factor_err_antitone(
            clamp_err(e1),
            clamp_err(e2),
            order,
            ONE_FIFTH as int,
            NINE_TENTHS as int,
        );
        lemma_factor_range(clamp_err(e2), order, ONE_FIFTH as int, NINE_TENTHS as int);
        lemma_prod_le(hm, hm, shrink_factor_s(e2, order), shrink_factor_s(e1, order));
        lemma_tdiv_mono(hm * shrink_factor_s(e2, order), hm * shrink_factor_s(e1, order), SCALE as int);
    }
}

} // verus!
