//! Unit checks of the fixed-point scalar, the tolerances, the error
//! controller, and the stepper formulas, on exact expected values.

use odeint::controller::{evaluate, ControlDecision, GROW_MAX, ONE_FIFTH};
use odeint::fixed::{fx_mul, SCALE};
use odeint::stepper::{step, StepAttempt, StepperKind};
use odeint::system::LinearDecay;
use odeint::tolerances::Tolerances;
use odeint::EvalError;

#[test]
fn fixed_multiply_is_exact() {
    assert_eq!(fx_mul(2 * SCALE, 3 * SCALE), Some(6 * SCALE));
    assert_eq!(fx_mul(-2 * SCALE, 3 * SCALE), Some(-6 * SCALE));
    assert_eq!(fx_mul(SCALE / 2, SCALE / 2), Some(SCALE / 4));
    // Truncation goes toward zero.
    assert_eq!(fx_mul(-1, 1), Some(0));
    assert_eq!(fx_mul(i64::MAX, i64::MAX), None);
}

#[test]
fn tolerances_reject_bad_weights() {
    assert_eq!(
        Tolerances::new(0, 0, SCALE, 0).unwrap_err(),
        EvalError::InvalidTolerances
    );
    assert_eq!(
        Tolerances::new(-1, SCALE, SCALE, 0).unwrap_err(),
        EvalError::InvalidTolerances
    );
    assert_eq!(
        Tolerances::new(SCALE + 1, 0, SCALE, 0).unwrap_err(),
        EvalError::InvalidTolerances
    );
    let t = Tolerances::new(5, 7, SCALE, SCALE).unwrap();
    assert_eq!(t.absolute, 5);
    assert_eq!(t.relative, 7);
}

#[test]
fn zero_error_grows_step_fivefold() {
    let tol = Tolerances::new(SCALE, 0, SCALE, 0).unwrap();
    let d = evaluate(&vec![0], &vec![SCALE], &vec![0], SCALE, &tol, 2);
    match d {
        ControlDecision::Accept { next_h } => assert_eq!(next_h, GROW_MAX),
        ControlDecision::Shrink { .. } => panic!("zero error must be accepted"),
    }
}

#[test]
fn huge_error_shrinks_step_to_a_fifth() {
    let tol = Tolerances::new(1, 0, SCALE, 0).unwrap();
    let d = evaluate(&vec![i64::MAX], &vec![0], &vec![0], SCALE, &tol, 2);
    match d {
        ControlDecision::Accept { .. } => panic!("a huge error must be rejected"),
        ControlDecision::Shrink { next_h } => assert_eq!(next_h, ONE_FIFTH),
    }
}

#[test]
fn vanishing_weight_shrinks_step_to_a_fifth() {
    // A purely relative tolerance on a zero state leaves no weight.
    let tol = Tolerances::new(0, SCALE, SCALE, 0).unwrap();
    let d = evaluate(&vec![5], &vec![0], &vec![0], 10 * SCALE, &tol, 2);
    match d {
        ControlDecision::Accept { .. } => panic!("an indeterminate error must be rejected"),
        ControlDecision::Shrink { next_h } => assert_eq!(next_h, 2 * SCALE),
    }
}

#[test]
fn larger_error_never_earns_larger_step() {
    let tol = Tolerances::new(SCALE / 1000, 0, SCALE, 0).unwrap();
    let h = SCALE;
    let mut previous = i64::MAX;
    let mut err: i64 = 1;
    while err < 1_000_000_000_000_000 {
        let d = evaluate(&vec![err], &vec![SCALE], &vec![0], h, &tol, 2);
        let next = match d {
            ControlDecision::Accept { next_h } => next_h,
            ControlDecision::Shrink { next_h } => next_h,
        };
        assert!(
            next <= previous,
            "error {} proposed {} after a smaller error proposed {}",
            err,
            next,
            previous
        );
        previous = next;
        err *= 10;
    }
}

#[test]
fn accepted_step_keeps_direction() {
    let tol = Tolerances::new(SCALE, 0, SCALE, 0).unwrap();
    let forward = evaluate(&vec![100], &vec![SCALE], &vec![0], 1_000_000, &tol, 2);
    match forward {
        ControlDecision::Accept { next_h } => assert!(next_h > 0),
        ControlDecision::Shrink { .. } => panic!("tiny error must be accepted"),
    }
    let backward = evaluate(&vec![100], &vec![SCALE], &vec![0], -1_000_000, &tol, 2);
    match backward {
        ControlDecision::Accept { next_h } => assert!(next_h < 0),
        ControlDecision::Shrink { .. } => panic!("tiny error must be accepted"),
    }
}

#[test]
fn stepper_formulas_match_hand_computation() {
    let y = vec![SCALE];
    let h: i64 = 1_000_000_000;
    let euler = step(StepperKind::Euler, &LinearDecay, 0, h, &y).unwrap();
    match euler {
        StepAttempt::Step { y_next, y_err, dydt } => {
            assert_eq!(dydt[0], -SCALE);
            assert_eq!(y_next[0], SCALE - h);
            // err = |h*(k2 - k1)/2| = h^2/2 in fixed point.
            assert_eq!(y_err[0], 500_000);
        }
        StepAttempt::Overflow => panic!("no overflow expected"),
    }
    let heun = step(StepperKind::HeunEuler, &LinearDecay, 0, h, &y).unwrap();
    match heun {
        StepAttempt::Step { y_next, y_err, dydt } => {
            assert_eq!(dydt[0], -SCALE);
            assert_eq!(y_err[0], 500_000);
            assert_eq!(y_next[0], SCALE - 999_500_000);
        }
        StepAttempt::Overflow => panic!("no overflow expected"),
    }
}

#[test]
fn registry_lists_both_methods() {
    let v = StepperKind::variants();
    assert_eq!(v.len(), 2);
    assert_eq!(v[0], StepperKind::Euler);
    assert_eq!(v[1], StepperKind::HeunEuler);
    assert_eq!(StepperKind::Euler.order(), 1);
    assert_eq!(StepperKind::HeunEuler.order(), 2);
    assert!(!StepperKind::Euler.requires_jacobian());
    assert!(!StepperKind::HeunEuler.requires_jacobian());
}
