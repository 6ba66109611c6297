//! Tolerance weights for the error controller.

use vstd::prelude::*;
use crate::fixed::SCALE;
use crate::EvalError;

verus! {

/// Weights that turn a per-component error estimate into a dimensionless
/// quantity.  Each weight is a fixed-point scalar between zero and one,
/// and at least one of `absolute` and `relative` is positive.
#[derive(Clone, Copy, Debug, PartialEq, Eq, Structural)]
pub struct Tolerances {
    /// Floor of the error weight, independent of the state.
    pub absolute: i64,
    /// Weight of the state-dependent part.
    pub relative: i64,
    /// How strongly the state magnitude enters the weight.
    pub scale_y: i64,
    /// How strongly the scaled derivative magnitude enters the weight.
    pub scale_dydt: i64,
}

impl Tolerances {
    /// Well-formedness: all weights lie in `[0, SCALE]` and the weight of
    /// some error source is positive.
    pub open spec fn wf(self) -> bool {
        &&& 0 <= self.absolute <= SCALE
        &&& 0 <= self.relative <= SCALE
        &&& 0 <= self.scale_y <= SCALE
        &&& 0 <= self.scale_dydt <= SCALE
        &&& (self.absolute > 0 || self.relative > 0)
    }

    /// Builds validated tolerances; rejects any weight outside `[0, SCALE]`
    /// and the pair of a non-positive absolute and relative weight.
    pub fn new(absolute: i64, relative: i64, scale_y: i64, scale_dydt: i64) -> (r: Result<
        Tolerances,
        EvalError,
    >)
        ensures
            r is Ok <==> (Tolerances { absolute, relative, scale_y, scale_dydt }).wf(),
            r matches Ok(t) ==> t == (Tolerances { absolute, relative, scale_y, scale_dydt }),
            r matches Err(e) ==> e == EvalError::InvalidTolerances,
    {
        let ok = 0 <= absolute && absolute <= SCALE && 0 <= relative && relative <= SCALE && 0
            <= scale_y && scale_y <= SCALE && 0 <= scale_dydt && scale_dydt <= SCALE && (absolute
            > 0 || relative > 0);
        if ok {
            Ok(Tolerances { absolute, relative, scale_y, scale_dydt })
        } else {
            Err(EvalError::InvalidTolerances)
        }
    }
}

} // verus!
