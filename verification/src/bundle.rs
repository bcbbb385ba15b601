//! What bundle adjustment is asked for and what it reports, as plain values.
use crate::scalar::Scalar;
use vstd::prelude::*;

verus! {

/// How large residuals are damped.
#[derive(Clone, Copy, Debug, PartialEq, Eq, Structural)]
pub enum RobustKernel {
    Off,
    Huber { delta: Scalar },
}

/// How the normal equations are solved.
#[derive(Clone, Copy, Debug, PartialEq, Eq, Structural)]
pub enum LinearSolver {
    Dense,
    Sparse,
}

/// Settings for the solver; where nothing is set the solver's own default holds.
#[derive(Clone, Copy, Debug, PartialEq, Eq, Structural)]
pub struct BaConfig {
    pub max_iterations: Option<usize>,
    pub robust_kernel: Option<RobustKernel>,
    pub linear_solver: Option<LinearSolver>,
}

/// The outcome of a solve; `I` is what the solver records of one iteration.
#[derive(Clone, Debug, PartialEq, Eq)]
pub struct BaResult<I> {
    pub initial_cost: Scalar,
    pub final_cost: Scalar,
    pub iterations: Vec<I>,
    pub converged: bool,
}

} // verus!
