//! Errors of the fixed-length string buffers.

use vstd::prelude::*;

verus! {

/// Emitted where a buffer is too small for an operation.
#[derive(Debug)]
pub struct CapacityError(());

impl Clone for CapacityError {
    fn clone(&self) -> (r: Self)
        ensures
            r == *self,
    {
        CapacityError(())
    }
}

impl CapacityError {
    /// The error; it has a single value.
    pub fn new() -> (r: Self) {
        CapacityError(())
    }
}

} // verus!
