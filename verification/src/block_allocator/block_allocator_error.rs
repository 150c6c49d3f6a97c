use vstd::prelude::*;

verus! {

/// Why the block allocator refused a request.
#[derive(Debug, Copy, Clone, PartialEq, Eq, Structural, Hash)]
pub enum BlockAllocatorError {
    /// There are not enough free blocks for the request.
    OutOfMemory,
    /// The request is for more than the longest chain holds.
    InvalidSize,
    /// The number of blocks is zero or more than block pointers can tell apart.
    InitializationRefusal,
}

} // verus!
