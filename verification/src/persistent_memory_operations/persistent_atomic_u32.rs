use crate::persistent_memory_operations::atomic_persistent_memory::AtomicPersistentMemory;
use crate::persistent_memory_operations::bit_atomic_persistent_memory::BitAtomicPersistentMemory;
use crate::persistent_memory_operations::integer_atomic_persistent_memory::IntegerAtomicPersistentMemory;
use crate::persistent_memory_operations::memory_order::MemoryOrder;
use vstd::prelude::*;

verus! {

/// A `u32` in persistent memory that is read and written atomically.
#[derive(Debug, Copy, Clone, PartialEq, Eq, Hash)]
pub struct PersistentAtomicU32 {
    /// Where the value lies.
    pub address: usize,
    /// The value.
    pub value: u32,
}

impl PersistentAtomicU32 {
    /// A `u32` that lies at `address` and holds `value`.
    pub fn new(address: usize, value: u32) -> (atomic: Self)
        ensures
            atomic.address == address,
            atomic.value == value,
    {
        PersistentAtomicU32 { address, value }
    }
}

impl AtomicPersistentMemory<u32> for PersistentAtomicU32 {
    open spec fn value(&self) -> u32 {
        self.value
    }

    open spec fn address(&self) -> usize {
        self.address
    }

    fn location(&self) -> (address: usize) {
        self.address
    }

    fn load_(&self, order: MemoryOrder) -> (value: u32) {
        self.value
    }

    fn store_(&mut self, value: u32, order: MemoryOrder) {
        self.value = value;
    }

    fn swap_(&mut self, value: u32, order: MemoryOrder) -> (previous: u32) {
        let previous: u32 = self.value;
        self.value = value;
        previous
    }

    fn compare_exchange_(&mut self, current: u32, new: u32, success: MemoryOrder, failure: MemoryOrder) -> (result:
        Result<u32, u32>) {
        let previous: u32 = self.value;
        if previous == current {
            self.value = new;
            Ok(previous)
        } else {
            Err(previous)
        }
    }
}

impl BitAtomicPersistentMemory<u32> for PersistentAtomicU32 {
    open spec fn bit_and(left: u32, right: u32) -> u32 {
        left & right
    }

    open spec fn bit_or(left: u32, right: u32) -> u32 {
        left | right
    }

    open spec fn bit_xor(left: u32, right: u32) -> u32 {
        left ^ right
    }

    fn fetch_and_(&mut self, increment: u32, order: MemoryOrder) -> (previous: u32) {
        let previous: u32 = self.value;
        self.value = previous & increment;
        previous
    }

    fn fetch_or_(&mut self, increment: u32, order: MemoryOrder) -> (previous: u32) {
        let previous: u32 = self.value;
        self.value = previous | increment;
        previous
    }

    fn fetch_xor_(&mut self, increment: u32, order: MemoryOrder) -> (previous: u32) {
        let previous: u32 = self.value;
        self.value = previous ^ increment;
        previous
    }
}

impl IntegerAtomicPersistentMemory<u32> for PersistentAtomicU32 {
    open spec fn wrapping_sum(left: u32, right: u32) -> u32 {
        vstd::wrapping::u32_specs::wrapping_add(left, right)
    }

    open spec fn wrapping_difference(left: u32, right: u32) -> u32 {
        vstd::wrapping::u32_specs::wrapping_sub(left, right)
    }

    fn fetch_add_(&mut self, increment: u32, order: MemoryOrder) -> (previous: u32) {
        let previous: u32 = self.value;
        self.value = previous.wrapping_add(increment);
        previous
    }

    fn fetch_sub_(&mut self, increment: u32, order: MemoryOrder) -> (previous: u32) {
        let previous: u32 = self.value;
        self.value = previous.wrapping_sub(increment);
        previous
    }
}

} // verus!
