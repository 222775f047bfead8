//! The tagged neighbor lists of cells and the page allocation out of a static
//! scratch heap.
use vstd::prelude::*;

pub mod neighbors;
pub mod cell_memory;
pub mod static_array;

verus! {

/// The error of an allocation that cannot be served.
#[derive(Debug, Clone, Copy, PartialEq, Eq, Structural)]
pub struct AllocErr;

impl AllocErr {
    /// The allocation error.
    pub fn new() -> (r: AllocErr)
        ensures
            r == AllocErr,
    {
        AllocErr
    }
}

} // verus!
