use crate::persistent_memory_operations::atomic_persistent_memory::AtomicPersistentMemory;
use crate::persistent_memory_operations::bit_atomic_persistent_memory::BitAtomicPersistentMemory;
use crate::persistent_memory_operations::integer_atomic_persistent_memory::IntegerAtomicPersistentMemory;
use crate::persistent_memory_operations::memory_order::MemoryOrder;
use vstd::prelude::*;

verus! {

/// A `u64` in persistent memory that is read and written atomically.
#[derive(Debug, Copy, Clone, PartialEq, Eq, Hash)]
pub struct PersistentAtomicU64 {
    /// Where the value lies.
    pub address: usize,
    /// The value.
    pub value: u64,
}

impl PersistentAtomicU64 {
    /// A `u64` that lies at `address` and holds `value`.
    pub fn new(address: usize, value: u64) -> (atomic: Self)
        ensures
            atomic.address == address,
            atomic.value == value,
    {
        PersistentAtomicU64 { address, value }
    }
}

impl AtomicPersistentMemory<u64> for PersistentAtomicU64 {
    open spec fn value(&self) -> u64 {
        self.value
    }

    open spec fn address(&self) -> usize {
        self.address
    }

    fn location(&self) -> (address: usize) {
        self.address
    }

    fn load_(&self, order: MemoryOrder) -> (value: u64) {
        self.value
    }

    fn store_(&mut self, value: u64, order: MemoryOrder) {
        self.value = value;
    }

    fn swap_(&mut self, value: u64, order: MemoryOrder) -> (previous: u64) {
        let previous: u64 = self.value;
        self.value = value;
        previous
    }

    fn compare_exchange_(&mut self, current: u64, new: u64, success: MemoryOrder, failure: MemoryOrder) -> (result:
        Result<u64, u64>) {
        let previous: u64 = self.value;
        if previous == current {
            self.value = new;
            Ok(previous)
        } else {
            Err(previous)
        }
    }
}

impl BitAtomicPersistentMemory<u64> for PersistentAtomicU64 {
    open spec fn bit_and(left: u64, right: u64) -> u64 {
        left & right
    }

    open spec fn bit_or(left: u64, right: u64) -> u64 {
        left | right
    }

    open spec fn bit_xor(left: u64, right: u64) -> u64 {
        left ^ right
    }

    fn fetch_and_(&mut self, increment: u64, order: MemoryOrder) -> (previous: u64) {
        let previous: u64 = self.value;
        self.value = previous & increment;
        previous
    }

    fn fetch_or_(&mut self, increment: u64, order: MemoryOrder) -> (previous: u64) {
        let previous: u64 = self.value;
        self.value = previous | increment;
        previous
    }

    fn fetch_xor_(&mut self, increment: u64, order: MemoryOrder) -> (previous: u64) {
        let previous: u64 = self.value;
        self.value = previous ^ increment;
        previous
    }
}

impl IntegerAtomicPersistentMemory<u64> for PersistentAtomicU64 {
    open spec fn wrapping_sum(left: u64, right: u64) -> u64 {
        vstd::wrapping::u64_specs::wrapping_add(left, right)
    }

    open spec fn wrapping_difference(left: u64, right: u64) -> u64 {
        vstd::wrapping::u64_specs::wrapping_sub(left, right)
    }

    fn fetch_add_(&mut self, increment: u64, order: MemoryOrder) -> (previous: u64) {
        let previous: u64 = self.value;
        self.value = previous.wrapping_add(increment);
        previous
    }

    fn fetch_sub_(&mut self, increment: u64, order: MemoryOrder) -> (previous: u64) {
        let previous: u64 = self.value;
        self.value = previous.wrapping_sub(increment);
        previous
    }
}

} // verus!
