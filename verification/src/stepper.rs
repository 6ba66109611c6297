//! Trial steps by an embedded explicit Runge-Kutta pair.
//!
//! Both methods share the same two derivative evaluations: `k1` at the
//! step's start and `k2` at the Euler-advanced point.  The Heun average
//! gives the second-order advance, the Euler advance the first-order one,
//! and half their difference is the embedded error estimate.  Every
//! combination is fixed point with an explicit range check, and a trial
//! whose combination leaves the carrier range reports `Overflow` so the
//! driver can shrink the step instead of committing a wrapped value.

use vstd::prelude::*;
use crate::controller::H_CAP;
use crate::fixed::abs_s;
use crate::fixed::in_i64;
use crate::fixed::lemma_prod_le;
use crate::fixed::lemma_tdiv_bounds;
use crate::fixed::tdiv;
use crate::fixed::tdiv_wide;
use crate::fixed::SCALE;
use crate::fixed::SCALE_WIDE;
use crate::system::OdeSystem;

verus! {

/// Largest time magnitude the driver works with, chosen so that a time
/// plus a step still fits the carrier.
pub const T_CAP: i64 = 4_000_000_000_000_000_000;

/// The method registry: each variant names one step method, its error
/// order, and whether it consumes a Jacobian.
#[derive(Clone, Copy, Debug, PartialEq, Eq, Structural)]
pub enum StepperKind {
    /// First-order Euler advance with the embedded Heun error estimate.
    Euler,
    /// Second-order Heun advance with the embedded Euler error estimate.
    HeunEuler,
}

impl StepperKind {
    /// Error order the controller uses for this method.
    pub open spec fn order_spec(self) -> u32 {
        match self {
            StepperKind::Euler => 1,
            StepperKind::HeunEuler => 2,
        }
    }

    /// Error order the controller uses for this method.
    pub fn order(self) -> (o: u32)
        ensures
            o == self.order_spec(),
    {
        match self {
            StepperKind::Euler => 1,
            StepperKind::HeunEuler => 2,
        }
    }

    /// Whether the method consumes a Jacobian; the explicit pairs do not.
    pub open spec fn requires_jacobian_spec(self) -> bool {
        false
    }

    /// Whether the method consumes a Jacobian; the explicit pairs do not.
    pub fn requires_jacobian(self) -> (b: bool)
        ensures
            b == self.requires_jacobian_spec(),
    {
        false
    }

    /// Every method of the registry, in a fixed order.
    pub fn variants() -> (v: Vec<StepperKind>)
        ensures
            v@.len() == 2,
            v@[0] == StepperKind::Euler,
            v@[1] == StepperKind::HeunEuler,
    {
        let mut v: Vec<StepperKind> = Vec::new();
        v.push(StepperKind::Euler);
        v.push(StepperKind::HeunEuler);
        v
    }
}

/// The Euler advance of one component: `y + h*k` in fixed point.
pub open spec fn euler_next_s(h: int, y_i: int, k_i: int) -> int {
    y_i + tdiv(h * k_i, SCALE as int)
}

/// The Heun advance of one component: `y + h*(k1 + k2)/2` in fixed point.
pub open spec fn heun_next_s(h: int, y_i: int, k1_i: int, k2_i: int) -> int {
    y_i + tdiv(h * (k1_i + k2_i), 2 * SCALE as int)
}

/// The embedded error estimate of one component: `|h*(k2 - k1)/2|`.
pub open spec fn pair_err_s(h: int, k1_i: int, k2_i: int) -> int {
    abs_s(tdiv(h * (k2_i - k1_i), 2 * SCALE as int))
}

/// Whether every Euler-advanced component stays in carrier range.
pub open spec fn mids_in_range(h: int, y: Seq<i64>, k1: Seq<i64>) -> bool {
    forall|i: int|
        0 <= i < y.len() ==> in_i64(#[trigger] euler_next_s(h, y[i] as int, k1[i] as int))
}

/// The Euler-advanced state, the pair's second stage point.
pub open spec fn mid_seq_s(h: int, y: Seq<i64>, k1: Seq<i64>) -> Seq<i64> {
    Seq::new(y.len(), |i: int| euler_next_s(h, y[i] as int, k1[i] as int) as i64)
}

/// Whether both derivative evaluations of the pair succeed.
pub open spec fn stages_ok<S: OdeSystem>(sys: S, t: int, h: int, y: Seq<i64>) -> bool {
    &&& sys.f_ok(t, y)
    &&& mids_in_range(h, y, sys.f(t, y))
    &&& sys.f_ok(t + h, mid_seq_s(h, y, sys.f(t, y)))
}

/// Whether the whole trial stays in carrier range for this method.
pub open spec fn step_defined<S: OdeSystem>(
    kind: StepperKind,
    sys: S,
    t: int,
    h: int,
    y: Seq<i64>,
) -> bool {
    let k1 = sys.f(t, y);
    let k2 = sys.f(t + h, mid_seq_s(h, y, k1));
    &&& stages_ok(sys, t, h, y)
    &&& forall|i: int|
        0 <= i < y.len() ==> in_i64(#[trigger] pair_err_s(h, k1[i] as int, k2[i] as int))
    &&& (kind is HeunEuler ==> forall|i: int|
        0 <= i < y.len() ==> in_i64(
            #[trigger] heun_next_s(h, y[i] as int, k1[i] as int, k2[i] as int),
        ))
}

/// Whether some derivative evaluation fails during the trial; the first
/// failure wins.
pub open spec fn step_fails<S: OdeSystem>(sys: S, t: int, h: int, y: Seq<i64>) -> bool {
    ||| !sys.f_ok(t, y)
    ||| (sys.f_ok(t, y) && mids_in_range(h, y, sys.f(t, y)) && !sys.f_ok(
        t + h,
        mid_seq_s(h, y, sys.f(t, y)),
    ))
}

/// The code of the first failing derivative evaluation.
pub open spec fn step_fail_code<S: OdeSystem>(sys: S, t: int, h: int, y: Seq<i64>) -> u32 {
    if !sys.f_ok(t, y) {
        sys.f_code(t, y)
    } else {
        sys.f_code(t + h, mid_seq_s(h, y, sys.f(t, y)))
    }
}

/// What a successful trial hands back.
#[derive(Debug, PartialEq, Eq)]
pub enum StepAttempt {
    /// The advanced state, the embedded error estimate, and the
    /// derivative at the step's start.
    Step { y_next: Vec<i64>, y_err: Vec<i64>, dydt: Vec<i64> },
    /// Some fixed-point combination left the carrier range; the driver
    /// answers by shrinking the step.
    Overflow,
}

/// The error-estimate sequence of a trial, one scalar per component.
pub open spec fn err_seq_s(h: int, k1: Seq<i64>, k2: Seq<i64>) -> Seq<i64> {
    Seq::new(k1.len(), |i: int| pair_err_s(h, k1[i] as int, k2[i] as int) as i64)
}

/// The advanced state of a trial for this method.
pub open spec fn next_seq_s(
    kind: StepperKind,
    h: int,
    y: Seq<i64>,
    k1: Seq<i64>,
    k2: Seq<i64>,
) -> Seq<i64> {
    Seq::new(
        y.len(),
        |i: int|
            if kind is Euler {
                euler_next_s(h, y[i] as int, k1[i] as int) as i64
            } else {
                heun_next_s(h, y[i] as int, k1[i] as int, k2[i] as int) as i64
            },
    )
}

/// A completed trial's vectors are exactly the specification sequences.
pub proof fn lemma_step_values_are_seqs<S: OdeSystem>(
    kind: StepperKind,
    sys: S,
    t: int,
    h: int,
    y: Seq<i64>,
    y_next: Seq<i64>,
    y_err: Seq<i64>,
    dydt: Seq<i64>,
)
    requires
        step_defined(kind, sys, t, h, y),
        step_values_match(kind, sys, t, h, y, y_next, y_err, dydt),
    ensures
        y_err == err_seq_s(h, sys.f(t, y), sys.f(t + h, mid_seq_s(h, y, sys.f(t, y)))),
        y_next == next_seq_s(
            kind,
            h,
            y,
            sys.f(t, y),
            sys.f(t + h, mid_seq_s(h, y, sys.f(t, y))),
        ),
        dydt == sys.f(t, y),
{
    let k1 = sys.f(t, y);
    let k2 = sys.f(t + h, mid_seq_s(h, y, k1));
    assert forall|i: int| 0 <= i < y.len() implies y_err[i] == err_seq_s(h, k1, k2)[i] by {
        assert(in_i64(pair_err_s(h, k1[i] as int, k2[i] as int)));
        assert(y_err[i] as int == pair_err_s(h, k1[i] as int, k2[i] as int));
    }
    assert(y_err =~= err_seq_s(h, k1, k2));
    assert forall|i: int| 0 <= i < y.len() implies y_next[i] == next_seq_s(kind, h, y, k1, k2)[i] by {
        if kind is Euler {
            assert(in_i64(euler_next_s(h, y[i] as int, k1[i] as int)));
            assert(y_next[i] as int == euler_next_s(h, y[i] as int, k1[i] as int));
        } else {
            assert(in_i64(heun_next_s(h, y[i] as int, k1[i] as int, k2[i] as int)));
            assert(y_next[i] as int == heun_next_s(h, y[i] as int, k1[i] as int, k2[i] as int));
        }
    }
    assert(y_next =~= next_seq_s(kind, h, y, k1, k2));
}

/// The values a completed trial must carry, component by component.
pub open spec fn step_values_match<S: OdeSystem>(
    kind: StepperKind,
    sys: S,
    t: int,
    h: int,
    y: Seq<i64>,
    y_next: Seq<i64>,
    y_err: Seq<i64>,
    dydt: Seq<i64>,
) -> bool {
    let k1 = sys.f(t, y);
    let k2 = sys.f(t + h, mid_seq_s(h, y, k1));
    &&& y_next.len() == y.len()
    &&& y_err.len() == y.len()
    &&& dydt.len() == y.len()
    &&& dydt == k1
    &&& forall|i: int|
        0 <= i < y.len() ==> y_err[i] as int == #[trigger] pair_err_s(
            h,
            k1[i] as int,
            k2[i] as int,
        )
    &&& (kind is Euler ==> forall|i: int|
        0 <= i < y.len() ==> y_next[i] as int == #[trigger] euler_next_s(
            h,
            y[i] as int,
            k1[i] as int,
        ))
    &&& (kind is HeunEuler ==> forall|i: int|
        0 <= i < y.len() ==> y_next[i] as int == #[trigger] heun_next_s(
            h,
            y[i] as int,
            k1[i] as int,
            k2[i] as int,
        ))
}

/// Take one trial step of size `h` from `(t, y)`.
///
/// A failing derivative evaluation surfaces as `Err` with the system's
/// code; a combination outside the carrier range surfaces as `Overflow`;
/// otherwise the advanced state, error estimate, and starting derivative
/// come back exactly as the component formulas state.
pub fn step<S: OdeSystem>(kind: StepperKind, sys: &S, t: i64, h: i64, y: &Vec<i64>) -> (r: Result<
    StepAttempt,
    u32,
>)
    requires
        y@.len() == sys.dim_spec(),
        h != 0,
        abs_s(h as int) <= H_CAP as int,
        abs_s(t as int) <= T_CAP as int,
    ensures
        r is Err <==> step_fails(*sys, t as int, h as int, y@),
        r matches Err(c) ==> c == step_fail_code(*sys, t as int, h as int, y@),
        r matches Ok(a) ==> ((a is Step) <==> step_defined(kind, *sys, t as int, h as int, y@)),
        r matches Ok(a) ==> match a {
            StepAttempt::Step { y_next, y_err, dydt } => step_values_match(
                kind,
                *sys,
                t as int,
                h as int,
                y@,
                y_next@,
                y_err@,
                dydt@,
            ),
            StepAttempt::Overflow => true,
        },
{
    let n = y.len();
    let k1 = match sys.derivative(t, y) {
        Ok(v) => v,
        Err(c) => {
            return Err(c);
        },
    };
    let mut mid: Vec<i64> = Vec::new();
    let mut i: usize = 0;
    while i < n
        invariant
            i <= n,
            n == y@.len(),
            y@.len() == sys.dim_spec(),
            k1@.len() == n,
            sys.f_ok(t as int, y@),
            k1@ == sys.f(t as int, y@),
            abs_s(h as int) <= H_CAP as int,
            mid@.len() == i,
            forall|j: int|
                0 <= j < i as int ==> in_i64(
                    #[trigger] euler_next_s(h as int, y@[j] as int, k1@[j] as int),
                ) && mid@[j] as int == euler_next_s(h as int, y@[j] as int, k1@[j] as int),
        decreases n - i,
    {
        proof {
            lemma_prod_le(
                abs_s(h as int),
                H_CAP as int,
                abs_s(k1@[i as int] as int),
                i64::MAX as int + 1,
            );
            assert(abs_s((h as int) * (k1@[i as int] as int)) == abs_s(h as int) * abs_s(
                k1@[i as int] as int,
            )) by (nonlinear_arith);
            lemma_tdiv_bounds((h as int) * (k1@[i as int] as int), SCALE as int);
        }
        let p = (h as i128) * (k1[i] as i128);
        let v = tdiv_wide(p, SCALE_WIDE);
        let m = (y[i] as i128) + v;
        if m > i64::MAX as i128 || m < i64::MIN as i128 {
            proof {
                assert(!in_i64(euler_next_s(h as int, y@[i as int] as int, k1@[i as int] as int)));
                assert(!mids_in_range(h as int, y@, k1@));
            }
            return Ok(StepAttempt::Overflow);
        }
        mid.push(m as i64);
        i = i + 1;
    }
    proof {
        assert(mid@ =~= mid_seq_s(h as int, y@, k1@));
    }
    let t2 = t + h;
    let k2 = match sys.derivative(t2, &mid) {
        Ok(v) => v,
        Err(c) => {
            return Err(c);
        },
    };
    let heun = kind == StepperKind::HeunEuler;
    let mut y_next: Vec<i64> = Vec::new();
    let mut y_err: Vec<i64> = Vec::new();
    let mut j: usize = 0;
    while j < n
        invariant
            j <= n,
            n == y@.len(),
            y@.len() == sys.dim_spec(),
            k1@.len() == n,
            k2@.len() == n,
            mid@.len() == n,
            sys.f_ok(t as int, y@),
            k1@ == sys.f(t as int, y@),
            mid@ == mid_seq_s(h as int, y@, k1@),
            mids_in_range(h as int, y@, k1@),
            t2 == t + h,
            sys.f_ok(t2 as int, mid@),
            k2@ == sys.f(t2 as int, mid@),
            abs_s(h as int) <= H_CAP as int,
            heun == (kind is HeunEuler),
            y_next@.len() == j,
            y_err@.len() == j,
            forall|p: int|
                0 <= p < j as int ==> in_i64(
                    #[trigger] pair_err_s(h as int, k1@[p] as int, k2@[p] as int),
                ) && y_err@[p] as int == pair_err_s(h as int, k1@[p] as int, k2@[p] as int),
            kind is Euler ==> forall|p: int|
                0 <= p < j as int ==> y_next@[p] as int == #[trigger] euler_next_s(
                    h as int,
                    y@[p] as int,
                    k1@[p] as int,
                ),
            kind is HeunEuler ==> forall|p: int|
                0 <= p < j as int ==> in_i64(
                    #[trigger] heun_next_s(h as int, y@[p] as int, k1@[p] as int, k2@[p] as int),
                ) && y_next@[p] as int == heun_next_s(
                    h as int,
                    y@[p] as int,
                    k1@[p] as int,
                    k2@[p] as int,
                ),
        decreases n - j,
    {
        proof {
            lemma_prod_le(
                abs_s(h as int),
                H_CAP as int,
                abs_s((k1@[j as int] as int) + (k2@[j as int] as int)),
                2 * (i64::MAX as int + 1),
            );
            assert(abs_s((h as int) * ((k1@[j as int] as int) + (k2@[j as int] as int))) == abs_s(
                h as int,
            ) * abs_s((k1@[j as int] as int) + (k2@[j as int] as int))) by (nonlinear_arith);
            lemma_tdiv_bounds(
                (h as int) * ((k1@[j as int] as int) + (k2@[j as int] as int)),
                2 * SCALE as int,
            );
            lemma_prod_le(
                abs_s(h as int),
                H_CAP as int,
                abs_s((k2@[j as int] as int) - (k1@[j as int] as int)),
                2 * (i64::MAX as int + 1),
            );
            assert(abs_s((h as int) * ((k2@[j as int] as int) - (k1@[j as int] as int))) == abs_s(
                h as int,
            ) * abs_s((k2@[j as int] as int) - (k1@[j as int] as int))) by (nonlinear_arith);
            lemma_tdiv_bounds(
                (h as int) * ((k2@[j as int] as int) - (k1@[j as int] as int)),
                2 * SCALE as int,
            );
        }
        let s = (k1[j] as i128) + (k2[j] as i128);
        let hv = tdiv_wide((h as i128) * s, 2 * SCALE_WIDE);
        let diff = (k2[j] as i128) - (k1[j] as i128);
        let ev = tdiv_wide((h as i128) * diff, 2 * SCALE_WIDE);
        let ea = if ev >= 0 {
            ev
        } else {
            -ev
        };
        if ea > i64::MAX as i128 {
            proof {
                assert(!in_i64(pair_err_s(h as int, k1@[j as int] as int, k2@[j as int] as int)));
            }
            return Ok(StepAttempt::Overflow);
        }
        let nx: i64;
        if heun {
            let nxw = (y[j] as i128) + hv;
            if nxw > i64::MAX as i128 || nxw < i64::MIN as i128 {
                proof {
                    assert(!in_i64(
                        heun_next_s(
                            h as int,
                            y@[j as int] as int,
                            k1@[j as int] as int,
                            k2@[j as int] as int,
                        ),
                    ));
                }
                return Ok(StepAttempt::Overflow);
            }
            nx = nxw as i64;
        } else {
            nx = mid[j];
        }
        y_next.push(nx);
        y_err.push(ea as i64);
        j = j + 1;
    }
    Ok(StepAttempt::Step { y_next, y_err, dydt: k1 })
}

} // verus!
