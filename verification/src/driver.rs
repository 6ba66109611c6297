//! The step driver: repeated trial steps from the current time toward a
//! target time.
//!
//! Each round clamps the trial step so it cannot overshoot, asks the
//! stepper for a trial, and asks the controller for a verdict.  Accepted
//! steps are committed in place; rejected ones shrink the step and retry
//! the same point, and a shrink cycle that falls below the minimum step
//! reports `NoConvergence` with the state still at the last accepted
//! point.  A failing derivative evaluation aborts the call the same way.
//!
//! The contract of [`StepDriver::advance`] ties every committed value to
//! the dynamics: the final time and state are reachable from the starting
//! ones by a chain of accepted trials ([`reachable_s`]), each link a
//! non-overshooting trial whose values are the stepper's formulas and
//! whose error estimate the controller accepts; on success the retained
//! step size is the clamped proposal of the landing trial, and each error
//! names the trial that caused it.

use vstd::prelude::*;
use vstd::arithmetic::div_mod::lemma_div_decreases;
use crate::controller::err_norm_s;
use crate::controller::evaluate;
use crate::controller::next_mag_s;
use crate::controller::weight_vanishes;
use crate::controller::lemma_next_mag_nonneg;
use crate::controller::ControlDecision;
use crate::controller::H_CAP;
use crate::fixed::abs_s;
use crate::fixed::lemma_tdiv_bounds;
use crate::fixed::tdiv;
use crate::fixed::tdiv_wide;
use crate::stepper::err_seq_s;
use crate::stepper::lemma_step_values_are_seqs;
use crate::stepper::mid_seq_s;
use crate::stepper::next_seq_s;
use crate::stepper::step;
use crate::stepper::step_defined;
use crate::stepper::step_fail_code;
use crate::stepper::step_fails;
use crate::stepper::StepAttempt;
use crate::stepper::StepperKind;
use crate::stepper::T_CAP;
use crate::system::OdeSystem;
use crate::tolerances::Tolerances;
use crate::EvalError;

verus! {

/// Smallest usable step magnitude; a shrink cycle that falls below it
/// reports `NoConvergence`.
pub const H_MIN: i64 = 1_000;

/// Is `m` between `a` and `b` inclusive, in either direction?
pub open spec fn between_s(a: int, m: int, b: int) -> bool {
    (a <= m <= b) || (b <= m <= a)
}

/// A trial directed at the target from time `t`: nonzero, within the
/// step range, and not overshooting the remaining distance.
pub open spec fn directed_trial_s(target: int, t: int, trial: int) -> bool {
    &&& abs_s(trial) <= H_CAP as int
    &&& if target >= t {
        0 < trial <= target - t
    } else {
        target - t <= trial < 0
    }
}

/// A trial step from `(t, y)` that the controller accepts: directed at
/// the target, every combination in carrier range, no vanished weight,
/// and a normalized error estimate of at most one.
pub open spec fn accepted_trial_s<S: OdeSystem>(
    sys: S,
    kind: StepperKind,
    tol: Tolerances,
    target: int,
    t: int,
    y: Seq<i64>,
    trial: int,
) -> bool {
    let k1 = sys.f(t, y);
    let k2 = sys.f(t + trial, mid_seq_s(trial, y, k1));
    &&& directed_trial_s(target, t, trial)
    &&& step_defined(kind, sys, t, trial, y)
    &&& !weight_vanishes(tol, y, k1, abs_s(trial))
    &&& err_norm_s(tol, err_seq_s(trial, k1, k2), y, k1, abs_s(trial)) <= crate::fixed::SCALE as int
}

/// The state an accepted trial commits.
pub open spec fn trial_next_state_s<S: OdeSystem>(
    sys: S,
    kind: StepperKind,
    t: int,
    y: Seq<i64>,
    trial: int,
) -> Seq<i64> {
    let k1 = sys.f(t, y);
    let k2 = sys.f(t + trial, mid_seq_s(trial, y, k1));
    next_seq_s(kind, trial, y, k1, k2)
}

/// The step size retained after an accepted trial: the controller's
/// proposal clamped into the usable range, signed toward the target.
pub open spec fn accepted_step_size_s<S: OdeSystem>(
    sys: S,
    kind: StepperKind,
    tol: Tolerances,
    target: int,
    t: int,
    y: Seq<i64>,
    trial: int,
) -> int {
    let k1 = sys.f(t, y);
    let k2 = sys.f(t + trial, mid_seq_s(trial, y, k1));
    let e = err_norm_s(tol, err_seq_s(trial, k1, k2), y, k1, abs_s(trial));
    let m = next_mag_s(e, abs_s(trial), kind.order_spec() as nat);
    let mag = if m < H_MIN as int {
        H_MIN as int
    } else if m > H_CAP as int {
        H_CAP as int
    } else {
        m
    };
    if target - t > 0 {
        mag
    } else {
        -mag
    }
}

/// One committed link: `(t2, y2)` follows `(t, y)` by an accepted trial.
pub open spec fn commit_step_s<S: OdeSystem>(
    sys: S,
    kind: StepperKind,
    tol: Tolerances,
    target: int,
    t: int,
    y: Seq<i64>,
    t2: int,
    y2: Seq<i64>,
) -> bool {
    exists|trial: int|
        #[trigger] accepted_trial_s(sys, kind, tol, target, t, y, trial) && t2 == t + trial && y2
            == trial_next_state_s(sys, kind, t, y, trial)
}

/// `(t2, y2)` is reachable from `(t, y)` by a chain of `n` accepted
/// trials toward `target`: nothing else ever moves the driver.
pub open spec fn reachable_s<S: OdeSystem>(
    sys: S,
    kind: StepperKind,
    tol: Tolerances,
    target: int,
    t: int,
    y: Seq<i64>,
    t2: int,
    y2: Seq<i64>,
    n: nat,
) -> bool
    decreases n,
{
    if n == 0 {
        t2 == t && y2 == y
    } else {
        exists|tm: int, ym: Seq<i64>|
            reachable_s(sys, kind, tol, target, t, y, tm, ym, (n - 1) as nat) && #[trigger] commit_step_s(
                sys,
                kind,
                tol,
                target,
                tm,
                ym,
                t2,
                y2,
            )
    }
}

/// The magnitude a rejected trial proposes for the retry: a fifth of the
/// trial after an out-of-range combination or a vanished weight, the
/// controller's shrink proposal otherwise.
pub open spec fn reject_mag_s<S: OdeSystem>(
    sys: S,
    kind: StepperKind,
    tol: Tolerances,
    t: int,
    y: Seq<i64>,
    trial: int,
) -> int {
    let k1 = sys.f(t, y);
    let k2 = sys.f(t + trial, mid_seq_s(trial, y, k1));
    let hm = abs_s(trial);
    if !step_defined(kind, sys, t, trial, y) {
        tdiv(hm, 5)
    } else if weight_vanishes(tol, y, k1, hm) {
        tdiv(hm, 5)
    } else {
        next_mag_s(err_norm_s(tol, err_seq_s(trial, k1, k2), y, k1, hm), hm, kind.order_spec() as nat)
    }
}

/// A directed trial from `(t, y)` that is not accepted and whose retry
/// proposal falls below the minimum step: the situation that
/// `NoConvergence` reports.
pub open spec fn collapse_s<S: OdeSystem>(
    sys: S,
    kind: StepperKind,
    tol: Tolerances,
    target: int,
    t: int,
    y: Seq<i64>,
    trial: int,
) -> bool {
    &&& directed_trial_s(target, t, trial)
    &&& !step_fails(sys, t, trial, y)
    &&& !accepted_trial_s(sys, kind, tol, target, t, y, trial)
    &&& reject_mag_s(sys, kind, tol, t, y, trial) < H_MIN as int
}

/// A directed trial from `(t, y)` on which a derivative evaluation
/// fails, with its code: what `UserFunctionFailed` reports.
pub open spec fn failing_trial_s<S: OdeSystem>(
    sys: S,
    target: int,
    t: int,
    y: Seq<i64>,
    trial: int,
    code: u32,
) -> bool {
    &&& directed_trial_s(target, t, trial)
    &&& step_fails(sys, t, trial, y)
    &&& code == step_fail_code(sys, t, trial, y)
}

/// The driver can name a directed trial from its committed point on
/// which the system's evaluation failed with `code`.
pub open spec fn reports_failing_trial<S: OdeSystem>(
    d: StepDriver<S>,
    target: int,
    code: u32,
) -> bool {
    exists|trial: int|
        #[trigger] failing_trial_s(d.system, target, d.current_time as int, d.state@, trial, code)
}

/// A system, a method, tolerances, and the evolving integration state.
pub struct StepDriver<S: OdeSystem> {
    /// The system being integrated.
    pub system: S,
    /// The step method in use.
    pub kind: StepperKind,
    /// The error weights in use.
    pub tol: Tolerances,
    /// Time of the last committed state.
    pub current_time: i64,
    /// Size of the next trial step, kept in `[H_MIN, H_CAP]` by magnitude.
    pub step_size: i64,
    /// The last committed state.
    pub state: Vec<i64>,
}

impl<S: OdeSystem> StepDriver<S> {
    /// Well-formedness: valid tolerances, a state of the system's
    /// dimension, a usable step size, and a time in working range.
    pub open spec fn wf(self) -> bool {
        &&& self.tol.wf()
        &&& self.state@.len() == self.system.dim_spec()
        &&& H_MIN as int <= abs_s(self.step_size as int) <= H_CAP as int
        &&& abs_s(self.current_time as int) <= T_CAP as int
    }

    /// The requested initial step clamped into the usable range, keeping
    /// its sign; a vanishing request becomes the positive minimum.
    pub open spec fn clamp_h0_s(h: int) -> int {
        let m = abs_s(h);
        let c = if m < H_MIN as int {
            H_MIN as int
        } else if m > H_CAP as int {
            H_CAP as int
        } else {
            m
        };
        if h < 0 {
            -c
        } else {
            c
        }
    }

    /// Builds a driver at time `t0` with state `y0` and a requested
    /// first step of `h0`; rejects a method that needs a Jacobian the
    /// system does not carry.
    pub fn new(system: S, kind: StepperKind, tol: Tolerances, t0: i64, y0: Vec<i64>, h0: i64) -> (r:
        Result<StepDriver<S>, EvalError>)
        requires
            tol.wf(),
            y0@.len() == system.dim_spec(),
            abs_s(t0 as int) <= T_CAP as int,
        ensures
            r is Err <==> (kind.requires_jacobian_spec() && !system.has_jacobian_spec()),
            r matches Err(e) ==> e == EvalError::NoJacobian,
            r matches Ok(d) ==> d.wf() && d.system == system && d.kind == kind && d.tol == tol
                && d.current_time == t0 && d.state@ == y0@ && d.step_size as int == Self::clamp_h0_s(
                h0 as int,
            ),
    {
        if kind.requires_jacobian() && !system.has_jacobian() {
            return Err(EvalError::NoJacobian);
        }
        let mag: i64 = if h0 == i64::MIN {
            H_CAP
        } else {
            let a: i64 = if h0 < 0 {
                -h0
            } else {
                h0
            };
            if a < H_MIN {
                H_MIN
            } else if a > H_CAP {
                H_CAP
            } else {
                a
            }
        };
        let hs: i64 = if h0 < 0 {
            -mag
        } else {
            mag
        };
        Ok(StepDriver { system, kind, tol, current_time: t0, step_size: hs, state: y0 })
    }

    /// Advance toward `target`, committing accepted steps in place.
    ///
    /// Succeeds exactly when the target time is reached; a call whose
    /// target is already the current time changes nothing.  The final
    /// time and state — on failure too — are reachable from the starting
    /// ones by a chain of accepted trials, so the driver never commits a
    /// value the stepper and controller did not produce and accept, and
    /// never overshoots.  On success from a distance the landing trial's
    /// clamped proposal is the retained step size, signed toward the
    /// target; `NoConvergence` names a rejected trial whose retry
    /// proposal fell below the minimum step, and `UserFunctionFailed` a
    /// trial on which the system's evaluation failed with that code.
    #[verifier::rlimit(100)]
    #[verifier::spinoff_prover]
    pub fn advance(&mut self, target: i64) -> (r: Result<(), EvalError>)
        requires
            old(self).wf(),
            abs_s(target as int) <= T_CAP as int,
        ensures
            final(self).wf(),
            final(self).system == old(self).system,
            final(self).kind == old(self).kind,
            final(self).tol == old(self).tol,
            r is Ok <==> final(self).current_time == target,
            between_s(
                old(self).current_time as int,
                final(self).current_time as int,
                target as int,
            ),
            old(self).current_time == target ==> final(self).current_time == old(
                self,
            ).current_time && final(self).state@ == old(self).state@ && final(self).step_size == old(
                self,
            ).step_size,
            r matches Err(e) ==> (e matches EvalError::UserFunctionFailed(_) || e
                == EvalError::NoConvergence),
            exists|n: nat|
                #[trigger] reachable_s(
                    final(self).system,
                    final(self).kind,
                    final(self).tol,
                    target as int,
                    old(self).current_time as int,
                    old(self).state@,
                    final(self).current_time as int,
                    final(self).state@,
                    n,
                ),
            r is Ok && old(self).current_time != target ==> exists|tm: int, ym: Seq<i64>, trial: int|
                {
                    &&& exists|n: nat|
                        #[trigger] reachable_s(
                            final(self).system,
                            final(self).kind,
                            final(self).tol,
                            target as int,
                            old(self).current_time as int,
                            old(self).state@,
                            tm,
                            ym,
                            n,
                        )
                    &&& #[trigger] accepted_trial_s(
                        final(self).system,
                        final(self).kind,
                        final(self).tol,
                        target as int,
                        tm,
                        ym,
                        trial,
                    )
                    &&& tm + trial == target as int
                    &&& final(self).state@ == trial_next_state_s(
                        final(self).system,
                        final(self).kind,
                        tm,
                        ym,
                        trial,
                    )
                    &&& final(self).step_size as int == accepted_step_size_s(
                        final(self).system,
                        final(self).kind,
                        final(self).tol,
                        target as int,
                        tm,
                        ym,
                        trial,
                    )
                },
            r is Ok && target > old(self).current_time ==> final(self).step_size > 0,
            r is Ok && target < old(self).current_time ==> final(self).step_size < 0,
            r matches Err(EvalError::NoConvergence) ==> exists|trial: int|
                #[trigger] collapse_s(
                    final(self).system,
                    final(self).kind,
                    final(self).tol,
                    target as int,
                    final(self).current_time as int,
                    final(self).state@,
                    trial,
                ),
            r matches Err(EvalError::UserFunctionFailed(code)) ==> reports_failing_trial(
                *final(self),
                target as int,
                code,
            ),
    {
        if self.current_time == target {
            proof {
                assert(reachable_s(
                    self.system,
                    self.kind,
                    self.tol,
                    target as int,
                    self.current_time as int,
                    self.state@,
                    self.current_time as int,
                    self.state@,
                    0,
                ));
            }
            return Ok(());
        }
        let ghost mut links: nat = 0;
        let ghost mut last_t: int = 0;
        let ghost mut last_y: Seq<i64> = Seq::empty();
        let ghost mut last_trial: int = 0;
        while self.current_time != target
            invariant
                self.wf(),
                abs_s(target as int) <= T_CAP as int,
                old(self).current_time != target,
                self.system == old(self).system,
                self.kind == old(self).kind,
                self.tol == old(self).tol,
                between_s(old(self).current_time as int, self.current_time as int, target as int),
                reachable_s(
                    self.system,
                    self.kind,
                    self.tol,
                    target as int,
                    old(self).current_time as int,
                    old(self).state@,
                    self.current_time as int,
                    self.state@,
                    links,
                ),
                links == 0 ==> self.current_time == old(self).current_time && self.state@ == old(
                    self,
                ).state@,
                links > 0 ==> (accepted_trial_s(
                    self.system,
                    self.kind,
                    self.tol,
                    target as int,
                    last_t,
                    last_y,
                    last_trial,
                ) && self.current_time as int == last_t + last_trial && self.state@
                    == trial_next_state_s(self.system, self.kind, last_t, last_y, last_trial) && (
                exists|n: nat|
                    #[trigger] reachable_s(
                        self.system,
                        self.kind,
                        self.tol,
                        target as int,
                        old(self).current_time as int,
                        old(self).state@,
                        last_t,
                        last_y,
                        n,
                    )) && (self.current_time == target ==> self.step_size as int
                    == accepted_step_size_s(
                    self.system,
                    self.kind,
                    self.tol,
                    target as int,
                    last_t,
                    last_y,
                    last_trial,
                ))),
                self.current_time == target && target > old(self).current_time ==> self.step_size
                    > 0,
                self.current_time == target && target < old(self).current_time ==> self.step_size
                    < 0,
            decreases abs_s((target - self.current_time) as int), abs_s(self.step_size as int),
        {
            let rem: i64 = target - self.current_time;
            let mut h: i64 = self.step_size;
            if rem > 0 && h < 0 {
                h = -h;
            }
            if rem < 0 && h > 0 {
                h = -h;
            }
            let trial: i64 = if rem > 0 {
                if h > rem {
                    rem
                } else {
                    h
                }
            } else {
                if h < rem {
                    rem
                } else {
                    h
                }
            };
            let ghost pre_t = self.current_time as int;
            let ghost pre_y = self.state@;
            proof {
                assert(directed_trial_s(target as int, pre_t, trial as int));
            }
            let att = step(self.kind, &self.system, self.current_time, trial, &self.state);
            match att {
                Err(code) => {
                    proof {
                        assert(failing_trial_s(
                            self.system,
                            target as int,
                            self.current_time as int,
                            self.state@,
                            trial as int,
                            code,
                        ));
                        assert(reports_failing_trial(*self, target as int, code));
                    }
                    return Err(EvalError::UserFunctionFailed(code));
                },
                Ok(StepAttempt::Overflow) => {
                    proof {
                        lemma_tdiv_bounds(trial as int, 5);
                        lemma_tdiv_bounds(abs_s(trial as int), 5);
                        lemma_div_decreases(abs_s(trial as int), 5);
                    }
                    let nh = tdiv_wide(trial as i128, 5) as i64;
                    let nma: i64 = if nh >= 0 {
                        nh
                    } else {
                        -nh
                    };
                    proof {
                        assert(nma as int == tdiv(abs_s(trial as int), 5));
                    }
                    if nma < H_MIN {
                        proof {
                            assert(collapse_s(
                                self.system,
                                self.kind,
                                self.tol,
                                target as int,
                                pre_t,
                                pre_y,
                                trial as int,
                            ));
                        }
                        return Err(EvalError::NoConvergence);
                    }
                    self.step_size = nh;
                },
                Ok(StepAttempt::Step { y_next, y_err, dydt }) => {
                    let ord = self.kind.order();
                    proof {
                        lemma_step_values_are_seqs(
                            self.kind,
                            self.system,
                            pre_t,
                            trial as int,
                            pre_y,
                            y_next@,
                            y_err@,
                            dydt@,
                        );
                        lemma_next_mag_nonneg(
                            err_norm_s(
                                self.tol,
                                y_err@,
                                pre_y,
                                dydt@,
                                abs_s(trial as int),
                            ),
                            abs_s(trial as int),
                            ord as nat,
                        );
                        lemma_tdiv_bounds(abs_s(trial as int), 5);
                    }
                    let d = evaluate(&y_err, &self.state, &dydt, trial, &self.tol, ord);
                    match d {
                        ControlDecision::Accept { next_h } => {
                            proof {
                                assert(accepted_trial_s(
                                    self.system,
                                    self.kind,
                                    self.tol,
                                    target as int,
                                    pre_t,
                                    pre_y,
                                    trial as int,
                                ));
                            }
                            self.state = y_next;
                            self.current_time = self.current_time + trial;
                            let nm: i64 = if next_h >= 0 {
                                next_h
                            } else {
                                -next_h
                            };
                            let mut mag = nm;
                            if mag < H_MIN {
                                mag = H_MIN;
                            }
                            if mag > H_CAP {
                                mag = H_CAP;
                            }
                            self.step_size = if rem > 0 {
                                mag
                            } else {
                                -mag
                            };
                            proof {
                                assert(self.step_size as int == accepted_step_size_s(
                                    self.system,
                                    self.kind,
                                    self.tol,
                                    target as int,
                                    pre_t,
                                    pre_y,
                                    trial as int,
                                ));
                                assert(commit_step_s(
                                    self.system,
                                    self.kind,
                                    self.tol,
                                    target as int,
                                    pre_t,
                                    pre_y,
                                    self.current_time as int,
                                    self.state@,
                                ));
                                assert(reachable_s(
                                    self.system,
                                    self.kind,
                                    self.tol,
                                    target as int,
                                    old(self).current_time as int,
                                    old(self).state@,
                                    pre_t,
                                    pre_y,
                                    links,
                                ));
                                links = links + 1;
                                assert(reachable_s(
                                    self.system,
                                    self.kind,
                                    self.tol,
                                    target as int,
                                    old(self).current_time as int,
                                    old(self).state@,
                                    self.current_time as int,
                                    self.state@,
                                    links,
                                ));
                                last_t = pre_t;
                                last_y = pre_y;
                                last_trial = trial as int;
                            }
                        },
                        ControlDecision::Shrink { next_h } => {
                            let nm: i64 = if next_h >= 0 {
                                next_h
                            } else {
                                -next_h
                            };
                            if nm < H_MIN {
                                proof {
                                    assert(collapse_s(
                                        self.system,
                                        self.kind,
                                        self.tol,
                                        target as int,
                                        pre_t,
                                        pre_y,
                                        trial as int,
                                    ));
                                }
                                return Err(EvalError::NoConvergence);
                            }
                            self.step_size = next_h;
                        },
                    }
                },
            }
        }
        proof {
            if links == 0 {
                assert(reachable_s(
                    self.system,
                    self.kind,
                    self.tol,
                    target as int,
                    old(self).current_time as int,
                    old(self).state@,
                    self.current_time as int,
                    self.state@,
                    0,
                ));
                assert(false);
            }
        }
        Ok(())
    }
}

} // verus!
