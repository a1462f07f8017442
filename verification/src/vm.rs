//! Limits of the script virtual machine.

use vstd::prelude::*;

verus! {

/// VM limits: an instruction budget and a call-depth limit.
#[derive(Debug, Clone, Copy, PartialEq, Eq, Structural)]
pub struct VmConfig {
    /// Instructions one execution may run.
    pub instruction_budget: u64,
    /// Deepest call nesting allowed.
    pub max_call_depth: usize,
}

} // verus!
