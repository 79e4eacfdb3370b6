//! Manual-memory and shared-ownership primitives: a growable buffer over an
//! explicit allocation primitive, an owned heap handle with manual
//! destruction, and shared graph nodes with reference counting and a
//! runtime-checked interior-mutability cell.

use vstd::prelude::*;

pub mod buffer;
pub mod cell;
pub mod cell_graph;
pub mod handle;
pub mod heap;
pub mod rc_graph;
pub mod smart_pointer;
pub mod text;
pub mod tracker;

verus! {

/// The recoverable faults of the library.
#[derive(Clone, Copy, Debug, PartialEq, Eq, Structural)]
pub enum MemError {
    /// The system could not supply the requested memory.
    AllocationFailed,
    /// The requested borrow mode is incompatible with the cell's state.
    BorrowConflict,
    /// The requested size exceeds the representable range.
    CapacityOverflow,
}

} // verus!
