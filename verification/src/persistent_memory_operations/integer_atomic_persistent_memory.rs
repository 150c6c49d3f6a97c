use crate::intrinsics::start_of_cache_line;
use crate::persistent_memory_operations::atomic_persistent_memory::AtomicPersistentMemory;
use crate::persistent_memory_operations::memory_order::MemoryOrder;
use crate::persistent_memory_operations::persistence_domain::PersistenceDomain;
use crate::persistent_memory_operations::persistent_fence::persistent_fence;
use vstd::prelude::*;

verus! {

/// Integrates persistent memory operations on integers with an atomic value.
pub trait IntegerAtomicPersistentMemory<Value: Copy>: AtomicPersistentMemory<Value> {
    /// The sum of two values, wrapping around at the bounds of the type.
    spec fn wrapping_sum(left: Value, right: Value) -> Value;

    /// The difference of two values, wrapping around at the bounds of the type.
    spec fn wrapping_difference(left: Value, right: Value) -> Value;

    /// Adds `increment` to the value, wrapping around on overflow, and returns the previous value.
    fn fetch_add_(&mut self, increment: Value, order: MemoryOrder) -> (previous: Value)
        ensures
            previous == old(self).value(),
            final(self).value() == Self::wrapping_sum(old(self).value(), increment),
            final(self).address() == old(self).address(),
    ;

    /// Subtracts `increment` from the value, wrapping around on overflow, and returns the previous value.
    fn fetch_sub_(&mut self, increment: Value, order: MemoryOrder) -> (previous: Value)
        ensures
            previous == old(self).value(),
            final(self).value() == Self::wrapping_difference(old(self).value(), increment),
            final(self).address() == old(self).address(),
    ;

    /// A relaxed fetch-add for persistent memory. Nothing is written back.
    fn persistent_fetch_add_relaxed(&mut self, increment: Value, domain: &mut PersistenceDomain) -> (previous: Value)
        ensures
            previous == old(self).value(),
            final(self).value() == Self::wrapping_sum(old(self).value(), increment),
            final(self).address() == old(self).address(),
            final(domain)@ == old(domain)@.locked_operation(
                old(domain).instruction(),
                start_of_cache_line(old(self).address()),
            ),
            final(domain).instruction() == old(domain).instruction(),
    {
        let previous = self.fetch_add_(increment, MemoryOrder::Relaxed);
        domain.record_locked_operation(self.location());
        previous
    }

    /// A fetch-add for persistent memory with the ordering `order`: a fence, the operation, a write-back, a fence.
    fn persistent_fetch_add_ordered(&mut self, increment: Value, order: MemoryOrder, domain: &mut PersistenceDomain) -> (previous: Value)
        ensures
            previous == old(self).value(),
            final(self).value() == Self::wrapping_sum(old(self).value(), increment),
            final(self).address() == old(self).address(),
            final(domain)@ == old(domain)@.fenced_read_modify_write(
                old(domain).instruction(),
                start_of_cache_line(old(self).address()),
            ),
            final(domain).instruction() == old(domain).instruction(),
    {
        persistent_fence(domain);
        let previous = self.fetch_add_(increment, order);
        domain.record_locked_operation(self.location());
        self.persistent_write_back_(domain);
        persistent_fence(domain);
        previous
    }

    /// A release fetch-add for persistent memory.
    fn persistent_fetch_add_release(&mut self, increment: Value, domain: &mut PersistenceDomain) -> (previous: Value)
        ensures
            previous == old(self).value(),
            final(self).value() == Self::wrapping_sum(old(self).value(), increment),
            final(self).address() == old(self).address(),
            final(domain)@ == old(domain)@.fenced_read_modify_write(
                old(domain).instruction(),
                start_of_cache_line(old(self).address()),
            ),
            final(domain).instruction() == old(domain).instruction(),
    {
        self.persistent_fetch_add_ordered(increment, MemoryOrder::Release, domain)
    }

    /// An acquire fetch-add for persistent memory.
    fn persistent_fetch_add_acquire(&mut self, increment: Value, domain: &mut PersistenceDomain) -> (previous: Value)
        ensures
            previous == old(self).value(),
            final(self).value() == Self::wrapping_sum(old(self).value(), increment),
            final(self).address() == old(self).address(),
            final(domain)@ == old(domain)@.fenced_read_modify_write(
                old(domain).instruction(),
                start_of_cache_line(old(self).address()),
            ),
            final(domain).instruction() == old(domain).instruction(),
    {
        self.persistent_fetch_add_ordered(increment, MemoryOrder::Acquire, domain)
    }

    /// An acquire-release fetch-add for persistent memory.
    fn persistent_fetch_add_acquire_release(&mut self, increment: Value, domain: &mut PersistenceDomain) -> (previous: Value)
        ensures
            previous == old(self).value(),
            final(self).value() == Self::wrapping_sum(old(self).value(), increment),
            final(self).address() == old(self).address(),
            final(domain)@ == old(domain)@.fenced_read_modify_write(
                old(domain).instruction(),
                start_of_cache_line(old(self).address()),
            ),
            final(domain).instruction() == old(domain).instruction(),
    {
        self.persistent_fetch_add_ordered(increment, MemoryOrder::AcquireRelease, domain)
    }

    /// A sequentially consistent fetch-add for persistent memory.
    fn persistent_fetch_add_sequentially_consistent(&mut self, increment: Value, domain: &mut PersistenceDomain) -> (previous: Value)
        ensures
            previous == old(self).value(),
            final(self).value() == Self::wrapping_sum(old(self).value(), increment),
            final(self).address() == old(self).address(),
            final(domain)@ == old(domain)@.fenced_read_modify_write(
                old(domain).instruction(),
                start_of_cache_line(old(self).address()),
            ),
            final(domain).instruction() == old(domain).instruction(),
    {
        self.persistent_fetch_add_ordered(increment, MemoryOrder::SequentiallyConsistent, domain)
    }

    /// A relaxed fetch-sub for persistent memory. Nothing is written back.
    fn persistent_fetch_sub_relaxed(&mut self, increment: Value, domain: &mut PersistenceDomain) -> (previous: Value)
        ensures
            previous == old(self).value(),
            final(self).value() == Self::wrapping_difference(old(self).value(), increment),
            final(self).address() == old(self).address(),
            final(domain)@ == old(domain)@.locked_operation(
                old(domain).instruction(),
                start_of_cache_line(old(self).address()),
            ),
            final(domain).instruction() == old(domain).instruction(),
    {
        let previous = self.fetch_sub_(increment, MemoryOrder::Relaxed);
        domain.record_locked_operation(self.location());
        previous
    }

    /// A fetch-sub for persistent memory with the ordering `order`: a fence, the operation, a write-back, a fence.
    fn persistent_fetch_sub_ordered(&mut self, increment: Value, order: MemoryOrder, domain: &mut PersistenceDomain) -> (previous: Value)
        ensures
            previous == old(self).value(),
            final(self).value() == Self::wrapping_difference(old(self).value(), increment),
            final(self).address() == old(self).address(),
            final(domain)@ == old(domain)@.fenced_read_modify_write(
                old(domain).instruction(),
                start_of_cache_line(old(self).address()),
            ),
            final(domain).instruction() == old(domain).instruction(),
    {
        persistent_fence(domain);
        let previous = self.fetch_sub_(increment, order);
        domain.record_locked_operation(self.location());
        self.persistent_write_back_(domain);
        persistent_fence(domain);
        previous
    }

    /// A release fetch-sub for persistent memory.
    fn persistent_fetch_sub_release(&mut self, increment: Value, domain: &mut PersistenceDomain) -> (previous: Value)
        ensures
            previous == old(self).value(),
            final(self).value() == Self::wrapping_difference(old(self).value(), increment),
            final(self).address() == old(self).address(),
            final(domain)@ == old(domain)@.fenced_read_modify_write(
                old(domain).instruction(),
                start_of_cache_line(old(self).address()),
            ),
            final(domain).instruction() == old(domain).instruction(),
    {
        self.persistent_fetch_sub_ordered(increment, MemoryOrder::Release, domain)
    }

    /// An acquire fetch-sub for persistent memory.
    fn persistent_fetch_sub_acquire(&mut self, increment: Value, domain: &mut PersistenceDomain) -> (previous: Value)
        ensures
            previous == old(self).value(),
            final(self).value() == Self::wrapping_difference(old(self).value(), increment),
            final(self).address() == old(self).address(),
            final(domain)@ == old(domain)@.fenced_read_modify_write(
                old(domain).instruction(),
                start_of_cache_line(old(self).address()),
            ),
            final(domain).instruction() == old(domain).instruction(),
    {
        self.persistent_fetch_sub_ordered(increment, MemoryOrder::Acquire, domain)
    }

    /// An acquire-release fetch-sub for persistent memory.
    fn persistent_fetch_sub_acquire_release(&mut self, increment: Value, domain: &mut PersistenceDomain) -> (previous: Value)
        ensures
            previous == old(self).value(),
            final(self).value() == Self::wrapping_difference(old(self).value(), increment),
            final(self).address() == old(self).address(),
            final(domain)@ == old(domain)@.fenced_read_modify_write(
                old(domain).instruction(),
                start_of_cache_line(old(self).address()),
            ),
            final(domain).instruction() == old(domain).instruction(),
    {
        self.persistent_fetch_sub_ordered(increment, MemoryOrder::AcquireRelease, domain)
    }

    /// A sequentially consistent fetch-sub for persistent memory.
    fn persistent_fetch_sub_sequentially_consistent(&mut self, increment: Value, domain: &mut PersistenceDomain) -> (previous: Value)
        ensures
            previous == old(self).value(),
            final(self).value() == Self::wrapping_difference(old(self).value(), increment),
            final(self).address() == old(self).address(),
            final(domain)@ == old(domain)@.fenced_read_modify_write(
                old(domain).instruction(),
                start_of_cache_line(old(self).address()),
            ),
            final(domain).instruction() == old(domain).instruction(),
    {
        self.persistent_fetch_sub_ordered(increment, MemoryOrder::SequentiallyConsistent, domain)
    }
}

} // verus!
