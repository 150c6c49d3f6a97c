use crate::intrinsics::start_of_cache_line;
use crate::persistent_memory_operations::atomic_persistent_memory::AtomicPersistentMemory;
use crate::persistent_memory_operations::locked_read_modify_write_operation_persistent_fence::locked_read_modify_write_operation_persistent_fence;
use crate::persistent_memory_operations::memory_order::MemoryOrder;
use crate::persistent_memory_operations::persistence_domain::PersistenceDomain;
use vstd::prelude::*;

verus! {

/// Integrates persistent memory operations on bits (integers and booleans) with an atomic value.
pub trait BitAtomicPersistentMemory<Value: Copy>: AtomicPersistentMemory<Value> {
    /// The bitwise and of two values.
    spec fn bit_and(left: Value, right: Value) -> Value;

    /// The bitwise or of two values.
    spec fn bit_or(left: Value, right: Value) -> Value;

    /// The bitwise exclusive or of two values.
    spec fn bit_xor(left: Value, right: Value) -> Value;

    /// Replaces the value by its bitwise and with `increment` and returns the previous value.
    fn fetch_and_(&mut self, increment: Value, order: MemoryOrder) -> (previous: Value)
        ensures
            previous == old(self).value(),
            final(self).value() == Self::bit_and(old(self).value(), increment),
            final(self).address() == old(self).address(),
    ;

    /// Replaces the value by its bitwise or with `increment` and returns the previous value.
    fn fetch_or_(&mut self, increment: Value, order: MemoryOrder) -> (previous: Value)
        ensures
            previous == old(self).value(),
            final(self).value() == Self::bit_or(old(self).value(), increment),
            final(self).address() == old(self).address(),
    ;

    /// Replaces the value by its bitwise exclusive or with `increment` and returns the previous value.
    fn fetch_xor_(&mut self, increment: Value, order: MemoryOrder) -> (previous: Value)
        ensures
            previous == old(self).value(),
            final(self).value() == Self::bit_xor(old(self).value(), increment),
            final(self).address() == old(self).address(),
    ;

    /// A relaxed fetch-and for persistent memory. Nothing is written back.
    fn persistent_fetch_and_relaxed(&mut self, increment: Value, domain: &mut PersistenceDomain) -> (previous: Value)
        ensures
            previous == old(self).value(),
            final(self).value() == Self::bit_and(old(self).value(), increment),
            final(self).address() == old(self).address(),
            final(domain)@ == old(domain)@.locked_operation(
                old(domain).instruction(),
                start_of_cache_line(old(self).address()),
            ),
            final(domain).instruction() == old(domain).instruction(),
    {
        let previous = self.fetch_and_(increment, MemoryOrder::Relaxed);
        domain.record_locked_operation(self.location());
        previous
    }

    /// A fetch-and for persistent memory with the ordering `order`: the fence that a locked operation needs, the operation, a write-back, that fence again.
    fn persistent_fetch_and_ordered(&mut self, increment: Value, order: MemoryOrder, domain: &mut PersistenceDomain) -> (previous: Value)
        ensures
            previous == old(self).value(),
            final(self).value() == Self::bit_and(old(self).value(), increment),
            final(self).address() == old(self).address(),
            final(domain)@ == old(domain)@.locked_read_modify_write(
                old(domain).instruction(),
                start_of_cache_line(old(self).address()),
            ),
            final(domain).instruction() == old(domain).instruction(),
    {
        locked_read_modify_write_operation_persistent_fence(domain);
        let previous = self.fetch_and_(increment, order);
        domain.record_locked_operation(self.location());
        self.persistent_write_back_(domain);
        locked_read_modify_write_operation_persistent_fence(domain);
        previous
    }

    /// A release fetch-and for persistent memory.
    fn persistent_fetch_and_release(&mut self, increment: Value, domain: &mut PersistenceDomain) -> (previous: Value)
        ensures
            previous == old(self).value(),
            final(self).value() == Self::bit_and(old(self).value(), increment),
            final(self).address() == old(self).address(),
            final(domain)@ == old(domain)@.locked_read_modify_write(
                old(domain).instruction(),
                start_of_cache_line(old(self).address()),
            ),
            final(domain).instruction() == old(domain).instruction(),
    {
        self.persistent_fetch_and_ordered(increment, MemoryOrder::Release, domain)
    }

    /// An acquire fetch-and for persistent memory.
    fn persistent_fetch_and_acquire(&mut self, increment: Value, domain: &mut PersistenceDomain) -> (previous: Value)
        ensures
            previous == old(self).value(),
            final(self).value() == Self::bit_and(old(self).value(), increment),
            final(self).address() == old(self).address(),
            final(domain)@ == old(domain)@.locked_read_modify_write(
                old(domain).instruction(),
                start_of_cache_line(old(self).address()),
            ),
            final(domain).instruction() == old(domain).instruction(),
    {
        self.persistent_fetch_and_ordered(increment, MemoryOrder::Acquire, domain)
    }

    /// An acquire-release fetch-and for persistent memory.
    fn persistent_fetch_and_acquire_release(&mut self, increment: Value, domain: &mut PersistenceDomain) -> (previous: Value)
        ensures
            previous == old(self).value(),
            final(self).value() == Self::bit_and(old(self).value(), increment),
            final(self).address() == old(self).address(),
            final(domain)@ == old(domain)@.locked_read_modify_write(
                old(domain).instruction(),
                start_of_cache_line(old(self).address()),
            ),
            final(domain).instruction() == old(domain).instruction(),
    {
        self.persistent_fetch_and_ordered(increment, MemoryOrder::AcquireRelease, domain)
    }

    /// A sequentially consistent fetch-and for persistent memory.
    fn persistent_fetch_and_sequentially_consistent(&mut self, increment: Value, domain: &mut PersistenceDomain) -> (previous: Value)
        ensures
            previous == old(self).value(),
            final(self).value() == Self::bit_and(old(self).value(), increment),
            final(self).address() == old(self).address(),
            final(domain)@ == old(domain)@.locked_read_modify_write(
                old(domain).instruction(),
                start_of_cache_line(old(self).address()),
            ),
            final(domain).instruction() == old(domain).instruction(),
    {
        self.persistent_fetch_and_ordered(increment, MemoryOrder::SequentiallyConsistent, domain)
    }

    /// A relaxed fetch-or for persistent memory. Nothing is written back.
    fn persistent_fetch_or_relaxed(&mut self, increment: Value, domain: &mut PersistenceDomain) -> (previous: Value)
        ensures
            previous == old(self).value(),
            final(self).value() == Self::bit_or(old(self).value(), increment),
            final(self).address() == old(self).address(),
            final(domain)@ == old(domain)@.locked_operation(
                old(domain).instruction(),
                start_of_cache_line(old(self).address()),
            ),
            final(domain).instruction() == old(domain).instruction(),
    {
        let previous = self.fetch_or_(increment, MemoryOrder::Relaxed);
        domain.record_locked_operation(self.location());
        previous
    }

    /// A fetch-or for persistent memory with the ordering `order`: the fence that a locked operation needs, the operation, a write-back, that fence again.
    fn persistent_fetch_or_ordered(&mut self, increment: Value, order: MemoryOrder, domain: &mut PersistenceDomain) -> (previous: Value)
        ensures
            previous == old(self).value(),
            final(self).value() == Self::bit_or(old(self).value(), increment),
            final(self).address() == old(self).address(),
            final(domain)@ == old(domain)@.locked_read_modify_write(
                old(domain).instruction(),
                start_of_cache_line(old(self).address()),
            ),
            final(domain).instruction() == old(domain).instruction(),
    {
        locked_read_modify_write_operation_persistent_fence(domain);
        let previous = self.fetch_or_(increment, order);
        domain.record_locked_operation(self.location());
        self.persistent_write_back_(domain);
        locked_read_modify_write_operation_persistent_fence(domain);
        previous
    }

    /// A release fetch-or for persistent memory.
    fn persistent_fetch_or_release(&mut self, increment: Value, domain: &mut PersistenceDomain) -> (previous: Value)
        ensures
            previous == old(self).value(),
            final(self).value() == Self::bit_or(old(self).value(), increment),
            final(self).address() == old(self).address(),
            final(domain)@ == old(domain)@.locked_read_modify_write(
                old(domain).instruction(),
                start_of_cache_line(old(self).address()),
            ),
            final(domain).instruction() == old(domain).instruction(),
    {
        self.persistent_fetch_or_ordered(increment, MemoryOrder::Release, domain)
    }

    /// An acquire fetch-or for persistent memory.
    fn persistent_fetch_or_acquire(&mut self, increment: Value, domain: &mut PersistenceDomain) -> (previous: Value)
        ensures
            previous == old(self).value(),
            final(self).value() == Self::bit_or(old(self).value(), increment),
            final(self).address() == old(self).address(),
            final(domain)@ == old(domain)@.locked_read_modify_write(
                old(domain).instruction(),
                start_of_cache_line(old(self).address()),
            ),
            final(domain).instruction() == old(domain).instruction(),
    {
        self.persistent_fetch_or_ordered(increment, MemoryOrder::Acquire, domain)
    }

    /// An acquire-release fetch-or for persistent memory.
    fn persistent_fetch_or_acquire_release(&mut self, increment: Value, domain: &mut PersistenceDomain) -> (previous: Value)
        ensures
            previous == old(self).value(),
            final(self).value() == Self::bit_or(old(self).value(), increment),
            final(self).address() == old(self).address(),
            final(domain)@ == old(domain)@.locked_read_modify_write(
                old(domain).instruction(),
                start_of_cache_line(old(self).address()),
            ),
            final(domain).instruction() == old(domain).instruction(),
    {
        self.persistent_fetch_or_ordered(increment, MemoryOrder::AcquireRelease, domain)
    }

    /// A sequentially consistent fetch-or for persistent memory.
    fn persistent_fetch_or_sequentially_consistent(&mut self, increment: Value, domain: &mut PersistenceDomain) -> (previous: Value)
        ensures
            previous == old(self).value(),
            final(self).value() == Self::bit_or(old(self).value(), increment),
            final(self).address() == old(self).address(),
            final(domain)@ == old(domain)@.locked_read_modify_write(
                old(domain).instruction(),
                start_of_cache_line(old(self).address()),
            ),
            final(domain).instruction() == old(domain).instruction(),
    {
        self.persistent_fetch_or_ordered(increment, MemoryOrder::SequentiallyConsistent, domain)
    }

    /// A relaxed fetch-xor for persistent memory. Nothing is written back.
    fn persistent_fetch_xor_relaxed(&mut self, increment: Value, domain: &mut PersistenceDomain) -> (previous: Value)
        ensures
            previous == old(self).value(),
            final(self).value() == Self::bit_xor(old(self).value(), increment),
            final(self).address() == old(self).address(),
            final(domain)@ == old(domain)@.locked_operation(
                old(domain).instruction(),
                start_of_cache_line(old(self).address()),
            ),
            final(domain).instruction() == old(domain).instruction(),
    {
        let previous = self.fetch_xor_(increment, MemoryOrder::Relaxed);
        domain.record_locked_operation(self.location());
        previous
    }

    /// A fetch-xor for persistent memory with the ordering `order`: the fence that a locked operation needs, the operation, a write-back, that fence again.
    fn persistent_fetch_xor_ordered(&mut self, increment: Value, order: MemoryOrder, domain: &mut PersistenceDomain) -> (previous: Value)
        ensures
            previous == old(self).value(),
            final(self).value() == Self::bit_xor(old(self).value(), increment),
            final(self).address() == old(self).address(),
            final(domain)@ == old(domain)@.locked_read_modify_write(
                old(domain).instruction(),
                start_of_cache_line(old(self).address()),
            ),
            final(domain).instruction() == old(domain).instruction(),
    {
        locked_read_modify_write_operation_persistent_fence(domain);
        let previous = self.fetch_xor_(increment, order);
        domain.record_locked_operation(self.location());
        self.persistent_write_back_(domain);
        locked_read_modify_write_operation_persistent_fence(domain);
        previous
    }

    /// A release fetch-xor for persistent memory.
    fn persistent_fetch_xor_release(&mut self, increment: Value, domain: &mut PersistenceDomain) -> (previous: Value)
        ensures
            previous == old(self).value(),
            final(self).value() == Self::bit_xor(old(self).value(), increment),
            final(self).address() == old(self).address(),
            final(domain)@ == old(domain)@.locked_read_modify_write(
                old(domain).instruction(),
                start_of_cache_line(old(self).address()),
            ),
            final(domain).instruction() == old(domain).instruction(),
    {
        self.persistent_fetch_xor_ordered(increment, MemoryOrder::Release, domain)
    }

    /// An acquire fetch-xor for persistent memory.
    fn persistent_fetch_xor_acquire(&mut self, increment: Value, domain: &mut PersistenceDomain) -> (previous: Value)
        ensures
            previous == old(self).value(),
            final(self).value() == Self::bit_xor(old(self).value(), increment),
            final(self).address() == old(self).address(),
            final(domain)@ == old(domain)@.locked_read_modify_write(
                old(domain).instruction(),
                start_of_cache_line(old(self).address()),
            ),
            final(domain).instruction() == old(domain).instruction(),
    {
        self.persistent_fetch_xor_ordered(increment, MemoryOrder::Acquire, domain)
    }

    /// An acquire-release fetch-xor for persistent memory.
    fn persistent_fetch_xor_acquire_release(&mut self, increment: Value, domain: &mut PersistenceDomain) -> (previous: Value)
        ensures
            previous == old(self).value(),
            final(self).value() == Self::bit_xor(old(self).value(), increment),
            final(self).address() == old(self).address(),
            final(domain)@ == old(domain)@.locked_read_modify_write(
                old(domain).instruction(),
                start_of_cache_line(old(self).address()),
            ),
            final(domain).instruction() == old(domain).instruction(),
    {
        self.persistent_fetch_xor_ordered(increment, MemoryOrder::AcquireRelease, domain)
    }

    /// A sequentially consistent fetch-xor for persistent memory.
    fn persistent_fetch_xor_sequentially_consistent(&mut self, increment: Value, domain: &mut PersistenceDomain) -> (previous: Value)
        ensures
            previous == old(self).value(),
            final(self).value() == Self::bit_xor(old(self).value(), increment),
            final(self).address() == old(self).address(),
            final(domain)@ == old(domain)@.locked_read_modify_write(
                old(domain).instruction(),
                start_of_cache_line(old(self).address()),
            ),
            final(domain).instruction() == old(domain).instruction(),
    {
        self.persistent_fetch_xor_ordered(increment, MemoryOrder::SequentiallyConsistent, domain)
    }
}

} // verus!
