//! Results of executing an APR (Aprender Portable Runtime) model in the
//! kernel for deterministic replay.
//!
//! The runtime that executes models (`KernelAprRuntime`) and the kernel's APR
//! execution state are not part of this library: both are built on the model,
//! input and runtime types of the `wos_shared` crate, which the library does
//! not depend on.

use vstd::prelude::*;

verus! {

/// APR execution result
#[derive(Clone, Debug, PartialEq)]
pub enum AprExecutionResult {
    /// Execution completed successfully
    Success {
        /// Number of steps executed
        steps: u64,
        /// Final tick
        final_tick: u64,
    },
    /// Execution failed with error
    Failed {
        /// Step at which failure occurred
        step: u64,
        /// Error description
        error: String,
    },
    /// Execution is in progress
    InProgress {
        /// Current step
        current_step: u64,
        /// Total steps
        total_steps: u64,
    },
}

} // verus!
