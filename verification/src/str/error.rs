//! General error types.

use vstd::prelude::*;

verus! {

/// Emitted if capacity requirements are not met.
///
/// Holds the number of additional bytes the destination buffer needs to complete
/// the operation; [`CapacityError::new`] only makes one with a non-zero count.
#[derive(Debug, Clone, Copy, PartialEq, Eq, Structural)]
pub struct CapacityError(pub usize);

impl CapacityError {
    /// `Some` exactly when `usage` exceeds `space`; it holds the missing bytes.
    pub fn new(space: usize, usage: usize) -> (r: Option<CapacityError>)
        ensures
            r is Some <==> usage > space,
            r matches Some(e) ==> e.0 == usage - space,
    {
        let missing = usage.saturating_sub(space);
        if missing == 0 {
            None
        } else {
            Some(CapacityError(missing))
        }
    }
}

} // verus!
