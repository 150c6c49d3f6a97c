use crate::intrinsics::round_address_down_to_start_of_cache_line;
use crate::intrinsics::start_of_cache_line;
use std::collections::HashSet;
use vstd::prelude::*;

verus! {

broadcast use vstd::std_specs::hash::group_hash_axioms;

/// The instruction that writes a cache line back to persistent memory.
#[derive(Debug, Copy, Clone, PartialEq, Eq, Structural, Hash)]
pub enum WriteBackInstruction {
    /// Writes the cache line back and may retain it in the cache.
    CacheLineWriteBack,
    /// Writes the cache line back and invalidates it, weakly ordered.
    CacheLineFlushOptimized,
    /// Writes the cache line back and invalidates it, the legacy instruction.
    CacheLineFlush,
    /// Cleans the data cache line by virtual address, for processors that have none of the others.
    DataCacheCleanByVirtualAddress,
}

/// What a processor offers for writing cache lines back.
#[derive(Debug, Copy, Clone, PartialEq, Eq, Structural, Hash)]
pub struct ProcessorFeatures {
    /// The processor can write a cache line back and retain it.
    pub cache_line_write_back: bool,
    /// The processor has the optimized cache line flush.
    pub cache_line_flush_optimized: bool,
    /// The processor has the legacy cache line flush.
    pub cache_line_flush: bool,
}

impl WriteBackInstruction {
    /// The instruction to use on a processor with `features`: write-back before optimized flush before
    /// legacy flush, and the data cache clean where there is none of them.
    pub open spec fn preferred(features: ProcessorFeatures) -> WriteBackInstruction {
        if features.cache_line_write_back {
            WriteBackInstruction::CacheLineWriteBack
        } else if features.cache_line_flush_optimized {
            WriteBackInstruction::CacheLineFlushOptimized
        } else if features.cache_line_flush {
            WriteBackInstruction::CacheLineFlush
        } else {
            WriteBackInstruction::DataCacheCleanByVirtualAddress
        }
    }

    /// Do locked read-modify-write instructions order earlier write-backs made with this instruction?
    /// They do for the write-back and the optimized flush.
    pub open spec fn is_ordered_by_locked_operations(self) -> bool {
        self == WriteBackInstruction::CacheLineWriteBack || self
            == WriteBackInstruction::CacheLineFlushOptimized
    }

    /// Chooses the instruction for a processor.
    pub fn for_processor(features: ProcessorFeatures) -> (instruction: WriteBackInstruction)
        ensures
            instruction == WriteBackInstruction::preferred(features),
    {
        if features.cache_line_write_back {
            WriteBackInstruction::CacheLineWriteBack
        } else if features.cache_line_flush_optimized {
            WriteBackInstruction::CacheLineFlushOptimized
        } else if features.cache_line_flush {
            WriteBackInstruction::CacheLineFlush
        } else {
            WriteBackInstruction::DataCacheCleanByVirtualAddress
        }
    }

    /// Exec form of `is_ordered_by_locked_operations`.
    pub fn orders_with_locked_operations(self) -> (ordered: bool)
        ensures
            ordered == self.is_ordered_by_locked_operations(),
    {
        match self {
            WriteBackInstruction::CacheLineWriteBack => true,
            WriteBackInstruction::CacheLineFlushOptimized => true,
            WriteBackInstruction::CacheLineFlush => false,
            WriteBackInstruction::DataCacheCleanByVirtualAddress => false,
        }
    }
}

/// The cache lines of one thread that have not reached persistent memory yet.
pub struct PersistenceState {
    /// Cache lines that were stored to and not written back since.
    pub unwritten: Set<usize>,
    /// Cache lines whose write-back was started and is not ordered by a fence yet.
    pub in_flight: Set<usize>,
}

impl PersistenceState {
    /// The state in which everything has reached persistent memory.
    pub open spec fn quiescent() -> PersistenceState {
        PersistenceState { unwritten: Set::empty(), in_flight: Set::empty() }
    }

    /// A store to `line`.
    pub open spec fn store(self, line: usize) -> PersistenceState {
        PersistenceState { unwritten: self.unwritten.insert(line), in_flight: self.in_flight }
    }

    /// A write-back of `line`.
    pub open spec fn write_back(self, line: usize) -> PersistenceState {
        PersistenceState { unwritten: self.unwritten.remove(line), in_flight: self.in_flight.insert(line) }
    }

    /// A fence: every write-back that was started before it is complete.
    pub open spec fn fence(self) -> PersistenceState {
        PersistenceState { unwritten: self.unwritten, in_flight: Set::empty() }
    }

    /// A sync: it returns once every write-back that was started before it is complete.
    pub open spec fn sync(self) -> PersistenceState {
        self.fence()
    }

    /// The fence placed around a locked read-modify-write operation. It is left out where the
    /// operation itself orders write-backs made with `instruction`.
    pub open spec fn locked_operation_fence(self, instruction: WriteBackInstruction) -> PersistenceState {
        if instruction.is_ordered_by_locked_operations() {
            self
        } else {
            self.fence()
        }
    }

    /// A locked read-modify-write operation on `line`. It stores to the line, and it orders the
    /// write-backs started before it where they were made with such an `instruction`.
    pub open spec fn locked_operation(self, instruction: WriteBackInstruction, line: usize) -> PersistenceState {
        if instruction.is_ordered_by_locked_operations() {
            self.fence().store(line)
        } else {
            self.store(line)
        }
    }

    /// Has every store been written back?
    pub open spec fn is_written_back(self) -> bool {
        self.unwritten =~= Set::empty()
    }

    /// Has everything reached persistent memory?
    pub open spec fn is_quiescent(self) -> bool {
        self.unwritten =~= Set::empty() && self.in_flight =~= Set::empty()
    }
}

/// Keeps track, for one thread, of the cache lines that have not reached persistent memory.
#[derive(Debug)]
pub struct PersistenceDomain {
    instruction: WriteBackInstruction,
    unwritten: HashSet<usize>,
    in_flight: HashSet<usize>,
}

impl View for PersistenceDomain {
    type V = PersistenceState;

    closed spec fn view(&self) -> PersistenceState {
        PersistenceState { unwritten: self.unwritten@, in_flight: self.in_flight@ }
    }
}

impl PersistenceDomain {
    /// The instruction that this domain writes cache lines back with.
    pub closed spec fn instruction(&self) -> WriteBackInstruction {
        self.instruction
    }

    /// A domain in which everything has reached persistent memory.
    pub fn new(instruction: WriteBackInstruction) -> (domain: PersistenceDomain)
        ensures
            domain@ == PersistenceState::quiescent(),
            domain.instruction() == instruction,
    {
        let domain = PersistenceDomain { instruction, unwritten: HashSet::new(), in_flight: HashSet::new() };
        assert(domain@.unwritten =~= Set::empty());
        assert(domain@.in_flight =~= Set::empty());
        domain
    }

    /// The instruction that this domain writes cache lines back with.
    pub fn write_back_instruction(&self) -> (instruction: WriteBackInstruction)
        ensures
            instruction == self.instruction(),
    {
        self.instruction
    }

    /// Changes the instruction that cache lines are written back with, as after a move to another processor.
    pub fn rebind(&mut self, instruction: WriteBackInstruction)
        ensures
            final(self)@ == old(self)@,
            final(self).instruction() == instruction,
    {
        self.instruction = instruction;
    }

    /// Has every store been written back?
    pub fn is_written_back(&self) -> (written_back: bool)
        ensures
            written_back == self@.is_written_back(),
    {
        self.unwritten.is_empty()
    }

    /// Has everything reached persistent memory?
    pub fn is_quiescent(&self) -> (quiescent: bool)
        ensures
            quiescent == self@.is_quiescent(),
    {
        self.unwritten.is_empty() && self.in_flight.is_empty()
    }

    /// Is the cache line that holds `address` stored to and not written back?
    pub fn is_unwritten(&self, address: usize) -> (unwritten: bool)
        ensures
            unwritten == self@.unwritten.contains(start_of_cache_line(address)),
    {
        let line: usize = round_address_down_to_start_of_cache_line(address);
        self.unwritten.contains(&line)
    }

    /// Is the write-back of the cache line that holds `address` started and not ordered by a fence yet?
    pub fn is_in_flight(&self, address: usize) -> (in_flight: bool)
        ensures
            in_flight == self@.in_flight.contains(start_of_cache_line(address)),
    {
        let line: usize = round_address_down_to_start_of_cache_line(address);
        self.in_flight.contains(&line)
    }

    /// Records a store to the cache line that holds `address`.
    pub fn record_store(&mut self, address: usize)
        ensures
            final(self)@ == old(self)@.store(start_of_cache_line(address)),
            final(self).instruction() == old(self).instruction(),
    {
        let line: usize = round_address_down_to_start_of_cache_line(address);
        self.unwritten.insert(line);
        assert(self@.unwritten =~= old(self)@.store(line).unwritten);
    }

    /// Records a locked read-modify-write operation on the cache line that holds `address`.
    pub fn record_locked_operation(&mut self, address: usize)
        ensures
            final(self)@ == old(self)@.locked_operation(old(self).instruction(), start_of_cache_line(address)),
            final(self).instruction() == old(self).instruction(),
    {
        let line: usize = round_address_down_to_start_of_cache_line(address);
        if self.instruction.orders_with_locked_operations() {
            self.in_flight.clear();
        }
        self.unwritten.insert(line);
        assert(self@.unwritten =~= old(self)@.locked_operation(old(self).instruction(), line).unwritten);
        assert(self@.in_flight =~= old(self)@.locked_operation(old(self).instruction(), line).in_flight);
    }

    /// Records the write-back of the cache line that holds `address`.
    pub fn record_write_back(&mut self, address: usize)
        ensures
            final(self)@ == old(self)@.write_back(start_of_cache_line(address)),
            final(self).instruction() == old(self).instruction(),
    {
        let line: usize = round_address_down_to_start_of_cache_line(address);
        self.unwritten.remove(&line);
        self.in_flight.insert(line);
        assert(self@.unwritten =~= old(self)@.write_back(line).unwritten);
        assert(self@.in_flight =~= old(self)@.write_back(line).in_flight);
    }

    /// Records a fence.
    pub fn record_fence(&mut self)
        ensures
            final(self)@ == old(self)@.fence(),
            final(self).instruction() == old(self).instruction(),
    {
        self.in_flight.clear();
        assert(self@.in_flight =~= old(self)@.fence().in_flight);
    }
}

/// A store followed by the write-back of its cache line leaves nothing unwritten that was not so before.
pub proof fn lemma_store_then_write_back_is_written_back(state: PersistenceState, line: usize)
    requires
        state.is_written_back(),
    ensures
        state.store(line).write_back(line).is_written_back(),
        state.fence().store(line).write_back(line).is_written_back(),
{
}

/// After a fence, a state in which every store was written back is quiescent.
pub proof fn lemma_fence_of_written_back_is_quiescent(state: PersistenceState)
    requires
        state.is_written_back(),
    ensures
        state.fence().is_quiescent(),
        state.sync().is_quiescent(),
{
}

} // verus!
