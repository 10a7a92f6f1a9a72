//! The ODE problem layer: the equations interface, the problem record with
//! its tolerances, recorded solutions, the solver state, and the integrator
//! interface consumed by concrete methods.
pub mod equations;
pub mod method;
pub mod problem;
