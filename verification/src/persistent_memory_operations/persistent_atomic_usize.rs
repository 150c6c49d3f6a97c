use crate::persistent_memory_operations::atomic_persistent_memory::AtomicPersistentMemory;
use crate::persistent_memory_operations::bit_atomic_persistent_memory::BitAtomicPersistentMemory;
use crate::persistent_memory_operations::integer_atomic_persistent_memory::IntegerAtomicPersistentMemory;
use crate::persistent_memory_operations::memory_order::MemoryOrder;
use vstd::prelude::*;

verus! {

/// A `usize` in persistent memory that is read and written atomically.
#[derive(Debug, Copy, Clone, PartialEq, Eq, Hash)]
pub struct PersistentAtomicUsize {
    /// Where the value lies.
    pub address: usize,
    /// The value.
    pub value: usize,
}

impl PersistentAtomicUsize {
    /// A `usize` that lies at `address` and holds `value`.
    pub fn new(address: usize, value: usize) -> (atomic: Self)
        ensures
            atomic.address == address,
            atomic.value == value,
    {
        PersistentAtomicUsize { address, value }
    }
}

impl AtomicPersistentMemory<usize> for PersistentAtomicUsize {
    open spec fn value(&self) -> usize {
        self.value
    }

    open spec fn address(&self) -> usize {
        self.address
    }

    fn location(&self) -> (address: usize) {
        self.address
    }

    fn load_(&self, order: MemoryOrder) -> (value: usize) {
        self.value
    }

    fn store_(&mut self, value: usize, order: MemoryOrder) {
        self.value = value;
    }

    fn swap_(&mut self, value: usize, order: MemoryOrder) -> (previous: usize) {
        let previous: usize = self.value;
        self.value = value;
        previous
    }

    fn compare_exchange_(&mut self, current: usize, new: usize, success: MemoryOrder, failure: MemoryOrder) -> (result:
        Result<usize, usize>) {
        let previous: usize = self.value;
        if previous == current {
            self.value = new;
            Ok(previous)
        } else {
            Err(previous)
        }
    }
}

impl BitAtomicPersistentMemory<usize> for PersistentAtomicUsize {
    open spec fn bit_and(left: usize, right: usize) -> usize {
        left & right
    }

    open spec fn bit_or(left: usize, right: usize) -> usize {
        left | right
    }

    open spec fn bit_xor(left: usize, right: usize) -> usize {
        left ^ right
    }

    fn fetch_and_(&mut self, increment: usize, order: MemoryOrder) -> (previous: usize) {
        let previous: usize = self.value;
        self.value = previous & increment;
        previous
    }

    fn fetch_or_(&mut self, increment: usize, order: MemoryOrder) -> (previous: usize) {
        let previous: usize = self.value;
        self.value = previous | increment;
        previous
    }

    fn fetch_xor_(&mut self, increment: usize, order: MemoryOrder) -> (previous: usize) {
        let previous: usize = self.value;
        self.value = previous ^ increment;
        previous
    }
}

impl IntegerAtomicPersistentMemory<usize> for PersistentAtomicUsize {
    open spec fn wrapping_sum(left: usize, right: usize) -> usize {
        vstd::wrapping::usize_specs::wrapping_add(left, right)
    }

    open spec fn wrapping_difference(left: usize, right: usize) -> usize {
        vstd::wrapping::usize_specs::wrapping_sub(left, right)
    }

    fn fetch_add_(&mut self, increment: usize, order: MemoryOrder) -> (previous: usize) {
        let previous: usize = self.value;
        self.value = previous.wrapping_add(increment);
        previous
    }

    fn fetch_sub_(&mut self, increment: usize, order: MemoryOrder) -> (previous: usize) {
        let previous: usize = self.value;
        self.value = previous.wrapping_sub(increment);
        previous
    }
}

} // verus!
