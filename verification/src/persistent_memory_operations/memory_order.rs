use vstd::prelude::*;

verus! {

/// How an atomic operation is ordered with respect to the operations around it.
#[derive(Debug, Copy, Clone, PartialEq, Eq, Structural, Hash)]
pub enum MemoryOrder {
    /// No ordering.
    Relaxed,
    /// Earlier operations are ordered before this store.
    Release,
    /// Later operations are ordered after this load.
    Acquire,
    /// Both of the above.
    AcquireRelease,
    /// All threads see all such operations in one order.
    SequentiallyConsistent,
}

} // verus!
