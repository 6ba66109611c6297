//! Systems of ordinary differential equations.
//!
//! A system gives its dimension and a derivative evaluator, together with
//! specification-level views of both, so that steppers and the driver can
//! state exactly which values a trial step produces.

use vstd::prelude::*;
use crate::fixed::abs_s;
use crate::fixed::abs_wide;
use crate::fixed::fx_mul;
use crate::fixed::fx_mul_s;
use crate::fixed::in_i64;
use crate::fixed::lemma_tdiv_bounds;
use crate::fixed::tdiv;
use crate::fixed::tdiv_wide;
use crate::fixed::SCALE;
use crate::fixed::SCALE_WIDE;

verus! {

/// A first-order system `dy/dt = f(t, y)` over fixed-point scalars.
///
/// The derivative must be a pure function of `(t, y)`: the two
/// specification views `f_ok` and `f` fix one value per input, and the
/// executable evaluator is proved to return exactly that value.
pub trait OdeSystem: Sized {
    /// Number of components in the state vector.
    spec fn dim_spec(&self) -> nat;

    /// Whether the derivative is defined at `(t, y)`.
    spec fn f_ok(&self, t: int, y: Seq<i64>) -> bool;

    /// The derivative at `(t, y)`, one fixed-point scalar per component.
    spec fn f(&self, t: int, y: Seq<i64>) -> Seq<i64>;

    /// The failure code reported where the derivative is undefined.
    spec fn f_code(&self, t: int, y: Seq<i64>) -> u32;

    /// Whether a Jacobian evaluator accompanies the derivative.
    spec fn has_jacobian_spec(&self) -> bool;

    /// Number of components in the state vector.
    fn dimension(&self) -> (d: usize)
        ensures
            d as nat == self.dim_spec(),
    ;

    /// Whether a Jacobian evaluator accompanies the derivative.
    fn has_jacobian(&self) -> (b: bool)
        ensures
            b == self.has_jacobian_spec(),
    ;

    /// Evaluates `dy/dt` at `(t, y)`.
    fn derivative(&self, t: i64, y: &Vec<i64>) -> (r: Result<Vec<i64>, u32>)
        requires
            y@.len() == self.dim_spec(),
        ensures
            r is Ok <==> self.f_ok(t as int, y@),
            r matches Ok(v) ==> v@ == self.f(t as int, y@) && v@.len() == self.dim_spec(),
            r matches Err(c) ==> c == self.f_code(t as int, y@),
    ;
}

/// The scalar linear system `dy/dt = -y`.
#[derive(Clone, Copy, Debug, PartialEq, Eq, Structural)]
pub struct LinearDecay;

impl OdeSystem for LinearDecay {
    open spec fn dim_spec(&self) -> nat {
        1
    }

    open spec fn f_ok(&self, t: int, y: Seq<i64>) -> bool {
        y[0] > i64::MIN
    }

    open spec fn f(&self, t: int, y: Seq<i64>) -> Seq<i64> {
        seq![(-(y[0] as int)) as i64]
    }

    open spec fn f_code(&self, t: int, y: Seq<i64>) -> u32 {
        1
    }

    open spec fn has_jacobian_spec(&self) -> bool {
        false
    }

    fn dimension(&self) -> (d: usize) {
        1
    }

    fn has_jacobian(&self) -> (b: bool) {
        false
    }

    fn derivative(&self, t: i64, y: &Vec<i64>) -> (r: Result<Vec<i64>, u32>) {
        let y0 = y[0];
        if y0 == i64::MIN {
            Err(1)
        } else {
            let mut v: Vec<i64> = Vec::new();
            v.push(-y0);
            proof {
                assert(v@ =~= self.f(t as int, y@));
            }
            Ok(v)
        }
    }
}

/// The derivative value of [`Reciprocal`]: `-1/y`, saturated at the
/// carrier bounds, and at the negative bound where `y` vanishes.
pub open spec fn recip_s(y: int) -> int {
    if y == 0 {
        -(i64::MAX as int)
    } else {
        let m = tdiv((SCALE as int) * (SCALE as int), abs_s(y));
        let c = if m > i64::MAX as int {
            i64::MAX as int
        } else {
            m
        };
        if y > 0 {
            -c
        } else {
            c
        }
    }
}

/// The scalar system `dy/dt = -1/y`, saturated at the carrier bounds.
/// Its solution runs into the pole at `y = 0`, where no step size can
/// keep the error in check.
#[derive(Clone, Copy, Debug, PartialEq, Eq, Structural)]
pub struct Reciprocal;

impl OdeSystem for Reciprocal {
    open spec fn dim_spec(&self) -> nat {
        1
    }

    open spec fn f_ok(&self, t: int, y: Seq<i64>) -> bool {
        true
    }

    open spec fn f(&self, t: int, y: Seq<i64>) -> Seq<i64> {
        seq![recip_s(y[0] as int) as i64]
    }

    open spec fn f_code(&self, t: int, y: Seq<i64>) -> u32 {
        1
    }

    open spec fn has_jacobian_spec(&self) -> bool {
        false
    }

    fn dimension(&self) -> (d: usize) {
        1
    }

    fn has_jacobian(&self) -> (b: bool) {
        false
    }

    fn derivative(&self, t: i64, y: &Vec<i64>) -> (r: Result<Vec<i64>, u32>) {
        let y0 = y[0];
        let val: i64;
        if y0 == 0 {
            val = -i64::MAX;
        } else {
            let mag = abs_wide(y0);
            proof {
                lemma_tdiv_bounds((SCALE as int) * (SCALE as int), mag as int);
            }
            let m = tdiv_wide(SCALE_WIDE * SCALE_WIDE, mag);
            let c: i64 = if m > i64::MAX as i128 {
                i64::MAX
            } else {
                m as i64
            };
            val = if y0 > 0 {
                -c
            } else {
                c
            };
        }
        let mut v: Vec<i64> = Vec::new();
        v.push(val);
        proof {
            assert(v@ =~= self.f(t as int, y@));
        }
        Ok(v)
    }
}

/// Second stage of the Van der Pol derivative: `mu * (1 - y0^2) * y1 - y0`
/// in fixed point, truncating after each product.
pub open spec fn vdp_f1_s(mu: int, y0: int, y1: int) -> int {
    fx_mul_s(mu, fx_mul_s(SCALE as int - fx_mul_s(y0, y0), y1)) - y0
}

/// Whether every intermediate of the Van der Pol derivative stays in range.
pub open spec fn vdp_ok_s(mu: int, y0: int, y1: int) -> bool {
    &&& in_i64(fx_mul_s(y0, y0))
    &&& in_i64(fx_mul_s(SCALE as int - fx_mul_s(y0, y0), y1))
    &&& in_i64(fx_mul_s(mu, fx_mul_s(SCALE as int - fx_mul_s(y0, y0), y1)))
    &&& in_i64(vdp_f1_s(mu, y0, y1))
}

/// The Van der Pol oscillator `y0' = y1`, `y1' = mu (1 - y0^2) y1 - y0`.
#[derive(Clone, Copy, Debug, PartialEq, Eq, Structural)]
pub struct VanDerPol {
    /// Damping strength, a fixed-point scalar.
    pub mu: i64,
}

impl OdeSystem for VanDerPol {
    open spec fn dim_spec(&self) -> nat {
        2
    }

    open spec fn f_ok(&self, t: int, y: Seq<i64>) -> bool {
        vdp_ok_s(self.mu as int, y[0] as int, y[1] as int)
    }

    open spec fn f(&self, t: int, y: Seq<i64>) -> Seq<i64> {
        seq![y[1], vdp_f1_s(self.mu as int, y[0] as int, y[1] as int) as i64]
    }

    open spec fn f_code(&self, t: int, y: Seq<i64>) -> u32 {
        1
    }

    open spec fn has_jacobian_spec(&self) -> bool {
        false
    }

    fn dimension(&self) -> (d: usize) {
        2
    }

    fn has_jacobian(&self) -> (b: bool) {
        false
    }

    fn derivative(&self, t: i64, y: &Vec<i64>) -> (r: Result<Vec<i64>, u32>) {
        let y0 = y[0];
        let y1 = y[1];
        let a = match fx_mul(y0, y0) {
            Some(a) => a,
            None => {
                return Err(1);
            },
        };
        proof {
            assert((y0 as int) * (y0 as int) >= 0) by (nonlinear_arith);
            lemma_tdiv_bounds((y0 as int) * (y0 as int), SCALE as int);
        }
        let b = SCALE - a;
        let c = match fx_mul(b, y1) {
            Some(c) => c,
            None => {
                return Err(1);
            },
        };
        let d = match fx_mul(self.mu, c) {
            Some(d) => d,
            None => {
                return Err(1);
            },
        };
        let f1 = match d.checked_sub(y0) {
            Some(f1) => f1,
            None => {
                return Err(1);
            },
        };
        let mut v: Vec<i64> = Vec::new();
        v.push(y1);
        v.push(f1);
        proof {
            assert(v@ =~= self.f(t as int, y@));
        }
        Ok(v)
    }
}

} // verus!
