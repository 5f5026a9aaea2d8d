use vstd::prelude::*;

use crate::mem::MemError;

verus! {

/// Failure of a frame's layout pass: the tree had no root, an element could
/// not be reached, or the arena refused an operation.
#[derive(Debug, Clone, Copy, PartialEq, Eq, Structural)]
pub enum RlayError {
    NoRoot,
    RootBorrowed,
    RootCorrupted,
    ElementBorrowed,
    ElementCorrupted,
    ElementNotFound,
    MemError(MemError),
}

} // verus!
