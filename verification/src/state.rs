//! The ephemeral execution state of one call: operand stack, linear memory
//! and input buffer. It is created at call entry and discarded at call exit,
//! never persisted.

use vstd::prelude::*;
use crate::word::U256;

verus! {

/// Scratch space for one invocation.
pub struct ExecutionState {
    pub stack: Vec<U256>,
    pub memory: Vec<u8>,
    pub input_data: Vec<u8>,
}

impl ExecutionState {
    /// A fresh state around the caller-supplied input bytes.
    pub fn new(input_data: Vec<u8>) -> (r: ExecutionState)
        ensures
            r.stack@.len() == 0,
            r.memory@.len() == 0,
            r.input_data@ == input_data@,
    {
        ExecutionState { stack: Vec::new(), memory: Vec::new(), input_data }
    }
}

} // verus!
