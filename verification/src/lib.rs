//! Adaptive step-size integration of ordinary differential equations.
//!
//! The solver works on a fixed-point scalar carried in an `i64`: a value `v`
//! stands for the real number `v / SCALE`.  Every arithmetic step is an exact
//! integer operation, so each routine carries a contract that pins its result
//! down, and the acceptance and step-size rules of the controller are proved
//! rather than tested.
//!
//! A caller describes a system through the [`system::OdeSystem`] trait, picks
//! a method from [`stepper::StepperKind`], wraps both with tolerances in a
//! [`driver::StepDriver`], and repeatedly advances toward a target time.

use vstd::prelude::*;

pub mod controller;
pub mod driver;
pub mod fixed;
pub mod stepper;
pub mod system;
pub mod tolerances;

verus! {

/// Why an integration call could not proceed.
#[derive(Clone, Copy, Debug, PartialEq, Eq, Structural)]
pub enum EvalError {
    /// The system's derivative evaluation reported failure, with its code.
    UserFunctionFailed(u32),
    /// The selected method needs a Jacobian and the system carries none.
    NoJacobian,
    /// The step size collapsed below the minimum during repeated shrink cycles.
    NoConvergence,
    /// Tolerances were requested with no positive weight or a negative one.
    InvalidTolerances,
}

} // verus!
