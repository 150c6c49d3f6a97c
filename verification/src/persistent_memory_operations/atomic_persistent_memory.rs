use crate::intrinsics::start_of_cache_line;
use crate::persistent_memory_operations::locked_read_modify_write_operation_persistent_fence::locked_read_modify_write_operation_persistent_fence;
use crate::persistent_memory_operations::memory_order::MemoryOrder;
use crate::persistent_memory_operations::persistence_domain::PersistenceDomain;
use crate::persistent_memory_operations::persistence_domain::PersistenceState;
use crate::persistent_memory_operations::persistence_domain::WriteBackInstruction;
use crate::persistent_memory_operations::persistent_fence::persistent_fence;
use crate::persistent_memory_operations::persistent_write_back::persistent_write_back;
use vstd::prelude::*;

verus! {

impl PersistenceState {
    /// A load with acquire ordering from `line`: the load, a write-back, a fence.
    pub open spec fn load_acquire(self, line: usize) -> PersistenceState {
        self.write_back(line).fence()
    }

    /// A relaxed store to `line`: the store, a write-back.
    pub open spec fn store_relaxed(self, line: usize) -> PersistenceState {
        self.store(line).write_back(line)
    }

    /// A store with release ordering to `line`: a fence, the store, a write-back.
    pub open spec fn store_release(self, line: usize) -> PersistenceState {
        self.fence().store(line).write_back(line)
    }

    /// A locked read-modify-write operation on `line` between two fences that are left out where the
    /// operation orders write-backs itself: the fence, the operation, a write-back, the fence.
    pub open spec fn locked_read_modify_write(self, instruction: WriteBackInstruction, line: usize) -> PersistenceState {
        self.locked_operation_fence(instruction).locked_operation(instruction, line).write_back(
            line,
        ).locked_operation_fence(instruction)
    }

    /// A locked read-modify-write operation on `line` between two fences: a fence, the operation, a
    /// write-back, a fence.
    pub open spec fn fenced_read_modify_write(self, instruction: WriteBackInstruction, line: usize) -> PersistenceState {
        self.fence().locked_operation(instruction, line).write_back(line).fence()
    }
}

/// What a compare-and-swap returns: the previous value, as `Ok` where it was the expected one.
pub open spec fn compare_and_swap_result<Value>(previous: Value, current: Value) -> Result<Value, Value> {
    if previous == current {
        Ok(previous)
    } else {
        Err(previous)
    }
}

/// What a compare-and-swap leaves: the new value where the previous one was the expected one.
pub open spec fn compare_and_swap_value<Value>(previous: Value, current: Value, new: Value) -> Value {
    if previous == current {
        new
    } else {
        previous
    }
}

/// Integrates persistent memory with an atomic value.
///
/// Every operation but a relaxed load tells the `PersistenceDomain` of the calling thread what it did,
/// so that the write-backs and fences that persistence asks for can be held against it.
pub trait AtomicPersistentMemory<Value: Copy>: Sized {
    /// The value held.
    spec fn value(&self) -> Value;

    /// The address at which the value lies in persistent memory.
    spec fn address(&self) -> usize;

    /// The address at which the value lies in persistent memory.
    fn location(&self) -> (address: usize)
        ensures
            address == self.address(),
    ;

    /// Loads the value.
    fn load_(&self, order: MemoryOrder) -> (value: Value)
        ensures
            value == self.value(),
    ;

    /// Stores `value`.
    fn store_(&mut self, value: Value, order: MemoryOrder)
        ensures
            final(self).value() == value,
            final(self).address() == old(self).address(),
    ;

    /// Stores `value` and returns the previous value.
    fn swap_(&mut self, value: Value, order: MemoryOrder) -> (previous: Value)
        ensures
            previous == old(self).value(),
            final(self).value() == value,
            final(self).address() == old(self).address(),
    ;

    /// Stores `new` if the value is `current`. Returns the previous value, as `Ok` if `new` was stored.
    fn compare_exchange_(&mut self, current: Value, new: Value, success: MemoryOrder, failure: MemoryOrder) -> (result:
        Result<Value, Value>)
        ensures
            result == compare_and_swap_result(old(self).value(), current),
            final(self).value() == compare_and_swap_value(old(self).value(), current, new),
            final(self).address() == old(self).address(),
    ;

    /// Writes back the cache line that holds the value.
    fn persistent_write_back_(&self, domain: &mut PersistenceDomain)
        ensures
            final(domain)@ == old(domain)@.write_back(start_of_cache_line(self.address())),
            final(domain).instruction() == old(domain).instruction(),
    {
        persistent_write_back(domain, self.location())
    }

    /// A relaxed load for persistent memory.
    fn persistent_load_relaxed(&self) -> (value: Value)
        ensures
            value == self.value(),
    {
        self.load_(MemoryOrder::Relaxed)
    }

    /// An acquire load for persistent memory.
    fn persistent_load_acquire(&self, domain: &mut PersistenceDomain) -> (value: Value)
        ensures
            value == self.value(),
            final(domain)@ == old(domain)@.load_acquire(start_of_cache_line(self.address())),
            final(domain).instruction() == old(domain).instruction(),
    {
        let value = self.load_(MemoryOrder::Acquire);
        self.persistent_write_back_(domain);
        persistent_fence(domain);
        value
    }

    /// A sequentially consistent load for persistent memory.
    fn persistent_load_sequentially_consistent(&self, domain: &mut PersistenceDomain) -> (value: Value)
        ensures
            value == self.value(),
            final(domain)@ == old(domain)@.load_acquire(start_of_cache_line(self.address())),
            final(domain).instruction() == old(domain).instruction(),
    {
        let value = self.load_(MemoryOrder::SequentiallyConsistent);
        self.persistent_write_back_(domain);
        persistent_fence(domain);
        value
    }

    /// A relaxed store for persistent memory.
    fn persistent_store_relaxed(&mut self, value: Value, domain: &mut PersistenceDomain)
        ensures
            final(self).value() == value,
            final(self).address() == old(self).address(),
            final(domain)@ == old(domain)@.store_relaxed(start_of_cache_line(old(self).address())),
            final(domain).instruction() == old(domain).instruction(),
    {
        self.store_(value, MemoryOrder::Relaxed);
        domain.record_store(self.location());
        self.persistent_write_back_(domain)
    }

    /// A release store for persistent memory.
    fn persistent_store_release(&mut self, value: Value, domain: &mut PersistenceDomain)
        ensures
            final(self).value() == value,
            final(self).address() == old(self).address(),
            final(domain)@ == old(domain)@.store_release(start_of_cache_line(old(self).address())),
            final(domain).instruction() == old(domain).instruction(),
    {
        persistent_fence(domain);
        self.store_(value, MemoryOrder::Release);
        domain.record_store(self.location());
        self.persistent_write_back_(domain)
    }

    /// A sequentially consistent store for persistent memory.
    fn persistent_store_sequentially_consistent(&mut self, value: Value, domain: &mut PersistenceDomain)
        ensures
            final(self).value() == value,
            final(self).address() == old(self).address(),
            final(domain)@ == old(domain)@.store_release(start_of_cache_line(old(self).address())),
            final(domain).instruction() == old(domain).instruction(),
    {
        persistent_fence(domain);
        self.store_(value, MemoryOrder::SequentiallyConsistent);
        domain.record_store(self.location());
        self.persistent_write_back_(domain)
    }

    /// A relaxed swap for persistent memory. Nothing is written back.
    fn persistent_swap_relaxed(&mut self, value: Value, domain: &mut PersistenceDomain) -> (previous: Value)
        ensures
            previous == old(self).value(),
            final(self).value() == value,
            final(self).address() == old(self).address(),
            final(domain)@ == old(domain)@.locked_operation(
                old(domain).instruction(),
                start_of_cache_line(old(self).address()),
            ),
            final(domain).instruction() == old(domain).instruction(),
    {
        let previous = self.swap_(value, MemoryOrder::Relaxed);
        domain.record_locked_operation(self.location());
        previous
    }

    /// A swap for persistent memory with the ordering `order`: the fence that a locked operation
    /// needs, the swap, a write-back, that fence again.
    fn persistent_swap_ordered(&mut self, value: Value, order: MemoryOrder, domain: &mut PersistenceDomain) -> (previous:
        Value)
        ensures
            previous == old(self).value(),
            final(self).value() == value,
            final(self).address() == old(self).address(),
            final(domain)@ == old(domain)@.locked_read_modify_write(
                old(domain).instruction(),
                start_of_cache_line(old(self).address()),
            ),
            final(domain).instruction() == old(domain).instruction(),
    {
        locked_read_modify_write_operation_persistent_fence(domain);
        let previous = self.swap_(value, order);
        domain.record_locked_operation(self.location());
        self.persistent_write_back_(domain);
        locked_read_modify_write_operation_persistent_fence(domain);
        previous
    }

    /// A release swap for persistent memory.
    fn persistent_swap_release(&mut self, value: Value, domain: &mut PersistenceDomain) -> (previous: Value)
        ensures
            previous == old(self).value(),
            final(self).value() == value,
            final(self).address() == old(self).address(),
            final(domain)@ == old(domain)@.locked_read_modify_write(
                old(domain).instruction(),
                start_of_cache_line(old(self).address()),
            ),
            final(domain).instruction() == old(domain).instruction(),
    {
        self.persistent_swap_ordered(value, MemoryOrder::Release, domain)
    }

    /// An acquire swap for persistent memory.
    fn persistent_swap_acquire(&mut self, value: Value, domain: &mut PersistenceDomain) -> (previous: Value)
        ensures
            previous == old(self).value(),
            final(self).value() == value,
            final(self).address() == old(self).address(),
            final(domain)@ == old(domain)@.locked_read_modify_write(
                old(domain).instruction(),
                start_of_cache_line(old(self).address()),
            ),
            final(domain).instruction() == old(domain).instruction(),
    {
        self.persistent_swap_ordered(value, MemoryOrder::Acquire, domain)
    }

    /// An acquire-release swap for persistent memory.
    fn persistent_swap_acquire_release(&mut self, value: Value, domain: &mut PersistenceDomain) -> (previous: Value)
        ensures
            previous == old(self).value(),
            final(self).value() == value,
            final(self).address() == old(self).address(),
            final(domain)@ == old(domain)@.locked_read_modify_write(
                old(domain).instruction(),
                start_of_cache_line(old(self).address()),
            ),
            final(domain).instruction() == old(domain).instruction(),
    {
        self.persistent_swap_ordered(value, MemoryOrder::AcquireRelease, domain)
    }

    /// A sequentially consistent swap for persistent memory.
    fn persistent_swap_sequentially_consistent(&mut self, value: Value, domain: &mut PersistenceDomain) -> (previous:
        Value)
        ensures
            previous == old(self).value(),
            final(self).value() == value,
            final(self).address() == old(self).address(),
            final(domain)@ == old(domain)@.locked_read_modify_write(
                old(domain).instruction(),
                start_of_cache_line(old(self).address()),
            ),
            final(domain).instruction() == old(domain).instruction(),
    {
        self.persistent_swap_ordered(value, MemoryOrder::SequentiallyConsistent, domain)
    }

    /// A relaxed-relaxed strong compare-and-swap for persistent memory. Nothing is written back.
    /// There is no weak variant: a spurious failure costs too much where persistence is added.
    fn persistent_compare_and_swap_strong_relaxed_relaxed(
        &mut self,
        current: Value,
        new: Value,
        domain: &mut PersistenceDomain,
    ) -> (result: Result<Value, Value>)
        ensures
            result == compare_and_swap_result(old(self).value(), current),
            final(self).value() == compare_and_swap_value(old(self).value(), current, new),
            final(self).address() == old(self).address(),
            final(domain)@ == old(domain)@.locked_operation(
                old(domain).instruction(),
                start_of_cache_line(old(self).address()),
            ),
            final(domain).instruction() == old(domain).instruction(),
    {
        let result = self.compare_exchange_(current, new, MemoryOrder::Relaxed, MemoryOrder::Relaxed);
        domain.record_locked_operation(self.location());
        result
    }

    /// A strong compare-and-swap for persistent memory with the orderings `success` and `failure`:
    /// the fence that a locked operation needs, the compare-and-swap, a write-back, that fence again.
    fn persistent_compare_and_swap_strong_ordered(
        &mut self,
        current: Value,
        new: Value,
        success: MemoryOrder,
        failure: MemoryOrder,
        domain: &mut PersistenceDomain,
    ) -> (result: Result<Value, Value>)
        ensures
            result == compare_and_swap_result(old(self).value(), current),
            final(self).value() == compare_and_swap_value(old(self).value(), current, new),
            final(self).address() == old(self).address(),
            final(domain)@ == old(domain)@.locked_read_modify_write(
                old(domain).instruction(),
                start_of_cache_line(old(self).address()),
            ),
            final(domain).instruction() == old(domain).instruction(),
    {
        locked_read_modify_write_operation_persistent_fence(domain);
        let result = self.compare_exchange_(current, new, success, failure);
        domain.record_locked_operation(self.location());
        self.persistent_write_back_(domain);
        locked_read_modify_write_operation_persistent_fence(domain);
        result
    }

    /// An acquire-relaxed strong compare-and-swap for persistent memory. The fence that follows the
    /// write-back is made only where the new value was stored.
    fn persistent_compare_and_swap_strong_acquire_relaxed(
        &mut self,
        current: Value,
        new: Value,
        domain: &mut PersistenceDomain,
    ) -> (result: Result<Value, Value>)
        ensures
            result == compare_and_swap_result(old(self).value(), current),
            final(self).value() == compare_and_swap_value(old(self).value(), current, new),
            final(self).address() == old(self).address(),
            final(domain)@ == if old(self).value() == current {
                old(domain)@.locked_read_modify_write(
                    old(domain).instruction(),
                    start_of_cache_line(old(self).address()),
                )
            } else {
                old(domain)@.locked_operation_fence(old(domain).instruction()).locked_operation(
                    old(domain).instruction(),
                    start_of_cache_line(old(self).address()),
                ).write_back(start_of_cache_line(old(self).address()))
            },
            final(domain).instruction() == old(domain).instruction(),
    {
        locked_read_modify_write_operation_persistent_fence(domain);
        let result = self.compare_exchange_(current, new, MemoryOrder::Acquire, MemoryOrder::Relaxed);
        domain.record_locked_operation(self.location());
        self.persistent_write_back_(domain);
        if result.is_ok() {
            locked_read_modify_write_operation_persistent_fence(domain);
        }
        result
    }

    /// An acquire-acquire strong compare-and-swap for persistent memory.
    fn persistent_compare_and_swap_strong_acquire_acquire(
        &mut self,
        current: Value,
        new: Value,
        domain: &mut PersistenceDomain,
    ) -> (result: Result<Value, Value>)
        ensures
            result == compare_and_swap_result(old(self).value(), current),
            final(self).value() == compare_and_swap_value(old(self).value(), current, new),
            final(self).address() == old(self).address(),
            final(domain)@ == old(domain)@.locked_read_modify_write(
                old(domain).instruction(),
                start_of_cache_line(old(self).address()),
            ),
            final(domain).instruction() == old(domain).instruction(),
    {
        self.persistent_compare_and_swap_strong_ordered(
            current,
            new,
            MemoryOrder::Acquire,
            MemoryOrder::Acquire,
            domain,
        )
    }

    /// An acquire-release strong compare-and-swap for persistent memory.
    fn persistent_compare_and_swap_strong_acquire_release(
        &mut self,
        current: Value,
        new: Value,
        domain: &mut PersistenceDomain,
    ) -> (result: Result<Value, Value>)
        ensures
            result == compare_and_swap_result(old(self).value(), current),
            final(self).value() == compare_and_swap_value(old(self).value(), current, new),
            final(self).address() == old(self).address(),
            final(domain)@ == old(domain)@.locked_read_modify_write(
                old(domain).instruction(),
                start_of_cache_line(old(self).address()),
            ),
            final(domain).instruction() == old(domain).instruction(),
    {
        self.persistent_compare_and_swap_strong_ordered(
            current,
            new,
            MemoryOrder::AcquireRelease,
            MemoryOrder::Acquire,
            domain,
        )
    }

    /// A sequentially consistent strong compare-and-swap for persistent memory.
    fn persistent_compare_and_swap_strong_sequentially_consistent(
        &mut self,
        current: Value,
        new: Value,
        domain: &mut PersistenceDomain,
    ) -> (result: Result<Value, Value>)
        ensures
            result == compare_and_swap_result(old(self).value(), current),
            final(self).value() == compare_and_swap_value(old(self).value(), current, new),
            final(self).address() == old(self).address(),
            final(domain)@ == old(domain)@.locked_read_modify_write(
                old(domain).instruction(),
                start_of_cache_line(old(self).address()),
            ),
            final(domain).instruction() == old(domain).instruction(),
    {
        self.persistent_compare_and_swap_strong_ordered(
            current,
            new,
            MemoryOrder::SequentiallyConsistent,
            MemoryOrder::SequentiallyConsistent,
            domain,
        )
    }
}

} // verus!
