use crate::block_allocator::block_pointer::BlockPointer;
use crate::block_allocator::block_pointer::NULL_SENTINEL;
use crate::persistent_memory_operations::atomic_persistent_memory::AtomicPersistentMemory;
use crate::persistent_memory_operations::memory_order::MemoryOrder;
use crate::persistent_memory_operations::persistence_domain::PersistenceDomain;
use crate::persistent_memory_operations::persistent_fence::persistent_fence;
use crate::intrinsics::start_of_cache_line;
use crate::persistent_memory_operations::persistent_atomic_u32::PersistentAtomicU32;
use vstd::prelude::*;

verus! {

/// A block pointer in persistent memory that is read and written atomically.
#[derive(Debug, Copy, Clone, PartialEq, Eq, Hash)]
pub struct AtomicBlockPointer(pub PersistentAtomicU32);

impl Default for AtomicBlockPointer {
    fn default() -> (atomic: Self)
        ensures
            atomic.pointer() == BlockPointer::null(),
            atomic.address() == 0,
    {
        AtomicBlockPointer::new(0)
    }
}

impl AtomicBlockPointer {
    /// The block pointer held.
    pub open spec fn pointer(&self) -> BlockPointer {
        BlockPointer(self.0.value)
    }

    /// The address at which the block pointer lies.
    pub open spec fn address(&self) -> usize {
        self.0.address
    }

    /// A null block pointer that lies at `address`.
    pub fn new(address: usize) -> (atomic: Self)
        ensures
            atomic.pointer() == BlockPointer::null(),
            atomic.address() == address,
    {
        AtomicBlockPointer(PersistentAtomicU32::new(address, NULL_SENTINEL))
    }

    /// Loads the block pointer, relaxed.
    pub fn get_relaxed(&self) -> (block_pointer: BlockPointer)
        ensures
            block_pointer == self.pointer(),
    {
        BlockPointer::new(self.0.load_(MemoryOrder::Relaxed))
    }

    /// Stores `new_block_pointer`, relaxed.
    pub fn set_relaxed(&mut self, new_block_pointer: BlockPointer)
        ensures
            final(self).pointer() == new_block_pointer,
            final(self).address() == old(self).address(),
    {
        self.0.store_(new_block_pointer.0, MemoryOrder::Relaxed)
    }

    /// Loads the block pointer with acquire ordering.
    pub fn get(&self) -> (block_pointer: BlockPointer)
        ensures
            block_pointer == self.pointer(),
    {
        BlockPointer::new(self.0.load_(MemoryOrder::Acquire))
    }

    /// Loads the block pointer with acquire ordering, for persistent memory: the load, a write-back, a fence.
    pub fn persistent_get(&self, domain: &mut PersistenceDomain) -> (block_pointer: BlockPointer)
        ensures
            block_pointer == self.pointer(),
            final(domain)@ == old(domain)@.load_acquire(start_of_cache_line(self.address())),
            final(domain).instruction() == old(domain).instruction(),
            old(domain)@.is_written_back() ==> final(domain)@.is_quiescent(),
    {
        BlockPointer::new(self.0.persistent_load_acquire(domain))
    }

    /// Stores `new` if the block pointer is `current`, with acquire-release ordering, for persistent
    /// memory: the compare-and-swap between the fences that a locked operation needs, with its
    /// write-back, and a fence after them.
    pub fn persistent_compare_and_swap(&mut self, current: BlockPointer, new: BlockPointer, domain: &mut PersistenceDomain) -> (swapped:
        bool)
        ensures
            swapped == (old(self).pointer() == current),
            final(self).pointer() == if swapped {
                new
            } else {
                old(self).pointer()
            },
            final(self).address() == old(self).address(),
            final(domain)@ == old(domain)@.locked_read_modify_write(
                old(domain).instruction(),
                start_of_cache_line(old(self).address()),
            ).fence(),
            final(domain).instruction() == old(domain).instruction(),
            old(domain)@.is_written_back() ==> final(domain)@.is_quiescent(),
    {
        let result = self.0.persistent_compare_and_swap_strong_acquire_release(current.0, new.0, domain);
        persistent_fence(domain);
        result.is_ok()
    }

    /// Stores `new_block_pointer` with release ordering.
    pub fn set(&mut self, new_block_pointer: BlockPointer)
        ensures
            final(self).pointer() == new_block_pointer,
            final(self).address() == old(self).address(),
    {
        self.0.store_(new_block_pointer.0, MemoryOrder::Release)
    }
}

} // verus!
