//! Core of a stiff ODE / DAE solver library: fixed-point scalar arithmetic,
//! dense linear algebra with optional sparsity patterns, an operator framework
//! with evaluation statistics, finite-difference Jacobians with graph-coloring
//! compression, an LU linear solver, and a modified-Newton nonlinear solver
//! with an adaptive convergence test.
#![verifier::loop_isolation(false)]

use vstd::prelude::*;

pub mod scalar;
pub mod vector;
pub mod matrix;
pub mod op;
pub mod jacobian;
pub mod linear_solver;
pub mod nonlinear_solver;
pub mod ode_solver;
pub mod laws;

verus! {

/// Errors the solver core distinguishes.
#[derive(Clone, Copy, Debug, PartialEq, Eq, Structural)]
pub enum SolverError {
    /// Vector or matrix shapes were inconsistent at an API call.
    DimensionMismatch,
    /// A triplet or scatter index exceeded the declared shape.
    IndexOutOfBounds,
    /// The linear solver reported a factorization failure.
    SingularMatrix,
    /// The nonlinear solver hit its iteration budget without converging.
    MaxIterationsExceeded,
    /// The convergence test detected a growing or projected-failing sequence.
    Diverged,
}

} // verus!
