use crate::persistent_memory_operations::atomic_persistent_memory::AtomicPersistentMemory;
use crate::persistent_memory_operations::bit_atomic_persistent_memory::BitAtomicPersistentMemory;
use crate::persistent_memory_operations::bool_atomic_persistent_memory::BoolAtomicPersistentMemory;
use crate::persistent_memory_operations::memory_order::MemoryOrder;
use vstd::prelude::*;

verus! {

/// A `bool` in persistent memory that is read and written atomically.
#[derive(Debug, Copy, Clone, PartialEq, Eq, Hash)]
pub struct PersistentAtomicBool {
    /// Where the value lies.
    pub address: usize,
    /// The value.
    pub value: bool,
}

impl PersistentAtomicBool {
    /// A `bool` that lies at `address` and holds `value`.
    pub fn new(address: usize, value: bool) -> (atomic: Self)
        ensures
            atomic.address == address,
            atomic.value == value,
    {
        PersistentAtomicBool { address, value }
    }
}

impl AtomicPersistentMemory<bool> for PersistentAtomicBool {
    open spec fn value(&self) -> bool {
        self.value
    }

    open spec fn address(&self) -> usize {
        self.address
    }

    fn location(&self) -> (address: usize) {
        self.address
    }

    fn load_(&self, order: MemoryOrder) -> (value: bool) {
        self.value
    }

    fn store_(&mut self, value: bool, order: MemoryOrder) {
        self.value = value;
    }

    fn swap_(&mut self, value: bool, order: MemoryOrder) -> (previous: bool) {
        let previous = self.value;
        self.value = value;
        previous
    }

    fn compare_exchange_(&mut self, current: bool, new: bool, success: MemoryOrder, failure: MemoryOrder) -> (result:
        Result<bool, bool>) {
        let previous = self.value;
        if previous == current {
            self.value = new;
            Ok(previous)
        } else {
            Err(previous)
        }
    }
}

impl BitAtomicPersistentMemory<bool> for PersistentAtomicBool {
    open spec fn bit_and(left: bool, right: bool) -> bool {
        left && right
    }

    open spec fn bit_or(left: bool, right: bool) -> bool {
        left || right
    }

    open spec fn bit_xor(left: bool, right: bool) -> bool {
        left != right
    }

    fn fetch_and_(&mut self, increment: bool, order: MemoryOrder) -> (previous: bool) {
        let previous = self.value;
        self.value = previous && increment;
        previous
    }

    fn fetch_or_(&mut self, increment: bool, order: MemoryOrder) -> (previous: bool) {
        let previous = self.value;
        self.value = previous || increment;
        previous
    }

    fn fetch_xor_(&mut self, increment: bool, order: MemoryOrder) -> (previous: bool) {
        let previous = self.value;
        self.value = previous != increment;
        previous
    }
}

impl BoolAtomicPersistentMemory for PersistentAtomicBool {
    fn fetch_nand_(&mut self, increment: bool, order: MemoryOrder) -> (previous: bool) {
        let previous = self.value;
        self.value = !(previous && increment);
        previous
    }
}

} // verus!
