//! End-to-end integration scenarios for the adaptive driver.

use odeint::driver::StepDriver;
use odeint::fixed::SCALE;
use odeint::stepper::StepperKind;
use odeint::system::{LinearDecay, Reciprocal, VanDerPol};
use odeint::tolerances::Tolerances;
use odeint::EvalError;

fn tight_tolerances() -> Tolerances {
    // absolute and relative weights of 1e-8, state-scaled.
    Tolerances::new(10_000, 10_000, SCALE, 0).unwrap()
}

#[test]
fn decay_reaches_exp_minus_one() {
    let tol = tight_tolerances();
    let mut driver = StepDriver::new(
        LinearDecay,
        StepperKind::HeunEuler,
        tol,
        0,
        vec![SCALE],
        1_000_000_000,
    )
    .unwrap();
    let r = driver.advance(SCALE);
    assert!(r.is_ok());
    assert_eq!(driver.current_time, SCALE);
    // The retained step keeps the direction of travel.
    assert!(driver.step_size > 0);
    let expected = ((-1.0f64).exp() * SCALE as f64) as i64;
    let got = driver.state[0];
    assert!(
        (got - expected).abs() <= 1_000_000,
        "y(1) = {} but expected about {}",
        got,
        expected
    );
}

#[test]
fn decay_backward_reaches_exp_one() {
    let tol = tight_tolerances();
    let mut driver = StepDriver::new(
        LinearDecay,
        StepperKind::HeunEuler,
        tol,
        SCALE,
        vec![SCALE],
        1_000_000_000,
    )
    .unwrap();
    let r = driver.advance(0);
    assert!(r.is_ok());
    assert_eq!(driver.current_time, 0);
    // The retained step keeps the (backward) direction of travel.
    assert!(driver.step_size < 0);
    let expected = (1.0f64.exp() * SCALE as f64) as i64;
    let got = driver.state[0];
    assert!(
        (got - expected).abs() <= 3_000_000,
        "y(0) = {} but expected about {}",
        got,
        expected
    );
}

#[test]
fn decay_with_euler_pair_converges() {
    let tol = Tolerances::new(1_000_000, 1_000_000, SCALE, 0).unwrap();
    let mut driver =
        StepDriver::new(LinearDecay, StepperKind::Euler, tol, 0, vec![SCALE], 1_000_000_000)
            .unwrap();
    let r = driver.advance(SCALE);
    assert!(r.is_ok());
    let expected = ((-1.0f64).exp() * SCALE as f64) as i64;
    let got = driver.state[0];
    // The first-order method is held to a looser bound.
    assert!(
        (got - expected).abs() <= 1_000_000_000,
        "y(1) = {} but expected about {}",
        got,
        expected
    );
}

#[test]
fn advance_to_current_time_is_noop() {
    let tol = tight_tolerances();
    let mut driver = StepDriver::new(
        LinearDecay,
        StepperKind::HeunEuler,
        tol,
        7_000,
        vec![123_456_789],
        5_000_000,
    )
    .unwrap();
    let step_before = driver.step_size;
    let r = driver.advance(7_000);
    assert!(r.is_ok());
    assert_eq!(driver.current_time, 7_000);
    assert_eq!(driver.state[0], 123_456_789);
    assert_eq!(driver.step_size, step_before);
}

#[test]
fn reciprocal_pole_reports_no_convergence() {
    let tol = Tolerances::new(1_000_000, 1_000_000, SCALE, 0).unwrap();
    // y(0) = 0.1 and dy/dt = -1/y: the solution hits y = 0 at t = 0.005,
    // long before the target of t = 1.
    let mut driver = StepDriver::new(
        Reciprocal,
        StepperKind::HeunEuler,
        tol,
        0,
        vec![SCALE / 10],
        1_000_000_000,
    )
    .unwrap();
    let r = driver.advance(SCALE);
    assert_eq!(r, Err(EvalError::NoConvergence));
    // The driver stopped short of the pole, state intact and positive.
    assert!(driver.current_time < SCALE / 100);
    assert!(driver.state[0] > 0);
    // The driver stays usable from its last committed point: moving away
    // from the pole succeeds.
    let back = driver.advance(0);
    assert!(back.is_ok());
    assert_eq!(driver.current_time, 0);
    assert!(driver.state[0] > 0);
}

#[test]
fn van_der_pol_survives_one_hundred_intervals() {
    let tol = Tolerances::new(1_000_000, 1_000_000, SCALE, 0).unwrap();
    let mu = 10 * SCALE;
    let mut driver = StepDriver::new(
        VanDerPol { mu },
        StepperKind::HeunEuler,
        tol,
        0,
        vec![SCALE, 0],
        1_000_000,
    )
    .unwrap();
    let mut interval: i64 = 1;
    while interval <= 100 {
        let target = interval * SCALE;
        let r = driver.advance(target);
        assert!(r.is_ok(), "failed at interval {}", interval);
        assert_eq!(driver.current_time, target);
        // The oscillator's position stays within its limit cycle bounds.
        assert!(driver.state[0].abs() <= 3 * SCALE);
        assert!(driver.state[1].abs() <= 20 * SCALE);
        interval += 1;
    }
}

#[test]
fn failing_system_surfaces_its_code() {
    let tol = tight_tolerances();
    // The decay system rejects the one state it cannot negate.
    let mut driver = StepDriver::new(
        LinearDecay,
        StepperKind::HeunEuler,
        tol,
        0,
        vec![i64::MIN],
        1_000_000_000,
    )
    .unwrap();
    let r = driver.advance(SCALE);
    assert_eq!(r, Err(EvalError::UserFunctionFailed(1)));
    // The failure left the committed state untouched.
    assert_eq!(driver.current_time, 0);
    assert_eq!(driver.state[0], i64::MIN);
}

#[test]
fn initial_step_request_is_clamped() {
    let tol = tight_tolerances();
    let driver =
        StepDriver::new(LinearDecay, StepperKind::HeunEuler, tol, 0, vec![SCALE], 0).unwrap();
    assert_eq!(driver.step_size, 1_000);
    let driver2 =
        StepDriver::new(LinearDecay, StepperKind::HeunEuler, tol, 0, vec![SCALE], -3).unwrap();
    assert_eq!(driver2.step_size, -1_000);
    let driver3 =
        StepDriver::new(LinearDecay, StepperKind::HeunEuler, tol, 0, vec![SCALE], i64::MAX)
            .unwrap();
    assert_eq!(driver3.step_size, 1_800_000_000_000_000_000);
}
