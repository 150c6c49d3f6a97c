use crate::intrinsics::start_of_cache_line;
use crate::persistent_memory_operations::atomic_persistent_memory::AtomicPersistentMemory;
use crate::persistent_memory_operations::bit_atomic_persistent_memory::BitAtomicPersistentMemory;
use crate::persistent_memory_operations::locked_read_modify_write_operation_persistent_fence::locked_read_modify_write_operation_persistent_fence;
use crate::persistent_memory_operations::memory_order::MemoryOrder;
use crate::persistent_memory_operations::persistence_domain::PersistenceDomain;
use vstd::prelude::*;

verus! {

/// Integrates persistent memory operations on a `bool` with an atomic value.
pub trait BoolAtomicPersistentMemory: BitAtomicPersistentMemory<bool> {
    /// Replaces the value by the negation of its conjunction with `increment` and returns the previous value.
    fn fetch_nand_(&mut self, increment: bool, order: MemoryOrder) -> (previous: bool)
        ensures
            previous == old(self).value(),
            final(self).value() == !(old(self).value() && increment),
            final(self).address() == old(self).address(),
    ;

    /// A relaxed fetch-nand for persistent memory. Nothing is written back.
    fn persistent_fetch_nand_relaxed(&mut self, increment: bool, domain: &mut PersistenceDomain) -> (previous: bool)
        ensures
            previous == old(self).value(),
            final(self).value() == !(old(self).value() && increment),
            final(self).address() == old(self).address(),
            final(domain)@ == old(domain)@.locked_operation(
                old(domain).instruction(),
                start_of_cache_line(old(self).address()),
            ),
            final(domain).instruction() == old(domain).instruction(),
    {
        let previous = self.fetch_nand_(increment, MemoryOrder::Relaxed);
        domain.record_locked_operation(self.location());
        previous
    }

    /// A fetch-nand for persistent memory with the ordering `order`: the fence that a locked operation needs, the operation, a write-back, that fence again.
    fn persistent_fetch_nand_ordered(&mut self, increment: bool, order: MemoryOrder, domain: &mut PersistenceDomain) -> (previous: bool)
        ensures
            previous == old(self).value(),
            final(self).value() == !(old(self).value() && increment),
            final(self).address() == old(self).address(),
            final(domain)@ == old(domain)@.locked_read_modify_write(
                old(domain).instruction(),
                start_of_cache_line(old(self).address()),
            ),
            final(domain).instruction() == old(domain).instruction(),
    {
        locked_read_modify_write_operation_persistent_fence(domain);
        let previous = self.fetch_nand_(increment, order);
        domain.record_locked_operation(self.location());
        self.persistent_write_back_(domain);
        locked_read_modify_write_operation_persistent_fence(domain);
        previous
    }

    /// A release fetch-nand for persistent memory.
    fn persistent_fetch_nand_release(&mut self, increment: bool, domain: &mut PersistenceDomain) -> (previous: bool)
        ensures
            previous == old(self).value(),
            final(self).value() == !(old(self).value() && increment),
            final(self).address() == old(self).address(),
            final(domain)@ == old(domain)@.locked_read_modify_write(
                old(domain).instruction(),
                start_of_cache_line(old(self).address()),
            ),
            final(domain).instruction() == old(domain).instruction(),
    {
        self.persistent_fetch_nand_ordered(increment, MemoryOrder::Release, domain)
    }

    /// An acquire fetch-nand for persistent memory.
    fn persistent_fetch_nand_acquire(&mut self, increment: bool, domain: &mut PersistenceDomain) -> (previous: bool)
        ensures
            previous == old(self).value(),
            final(self).value() == !(old(self).value() && increment),
            final(self).address() == old(self).address(),
            final(domain)@ == old(domain)@.locked_read_modify_write(
                old(domain).instruction(),
                start_of_cache_line(old(self).address()),
            ),
            final(domain).instruction() == old(domain).instruction(),
    {
        self.persistent_fetch_nand_ordered(increment, MemoryOrder::Acquire, domain)
    }

    /// An acquire-release fetch-nand for persistent memory.
    fn persistent_fetch_nand_acquire_release(&mut self, increment: bool, domain: &mut PersistenceDomain) -> (previous: bool)
        ensures
            previous == old(self).value(),
            final(self).value() == !(old(self).value() && increment),
            final(self).address() == old(self).address(),
            final(domain)@ == old(domain)@.locked_read_modify_write(
                old(domain).instruction(),
                start_of_cache_line(old(self).address()),
            ),
            final(domain).instruction() == old(domain).instruction(),
    {
        self.persistent_fetch_nand_ordered(increment, MemoryOrder::AcquireRelease, domain)
    }

    /// A sequentially consistent fetch-nand for persistent memory.
    fn persistent_fetch_nand_sequentially_consistent(&mut self, increment: bool, domain: &mut PersistenceDomain) -> (previous: bool)
        ensures
            previous == old(self).value(),
            final(self).value() == !(old(self).value() && increment),
            final(self).address() == old(self).address(),
            final(domain)@ == old(domain)@.locked_read_modify_write(
                old(domain).instruction(),
                start_of_cache_line(old(self).address()),
            ),
            final(domain).instruction() == old(domain).instruction(),
    {
        self.persistent_fetch_nand_ordered(increment, MemoryOrder::SequentiallyConsistent, domain)
    }
}

} // verus!
