use crate::block_allocator::block_allocator::BlockAllocator;
use crate::block_allocator::block_pointer::BlockPointer;
use crate::block_allocator::chain_bytes::lemma_byte_in_chain;
use crate::block_allocator::chain_bytes::lemma_byte_in_chain_bound;
use crate::block_allocator::chain_bytes::lemma_range_written;
use crate::block_allocator::chain_bytes::with_range_replaced;
use crate::block_allocator::chains::chain_is_owned;
use crate::block_allocator::chains::Chains;
use crate::block_allocator::chains_cursor::ChainsCursor;
use crate::intrinsics::CACHE_LINE_SIZE;
use crate::persistent_memory_operations::persistent_fence::persistent_fence;
use crate::persistent_memory_operations::persistent_sync::persistent_sync;
use crate::persistent_memory_operations::persistent_write_back::persistent_write_back;
use vstd::prelude::*;

verus! {

/// Bytes that are written into chains are the bytes that are read from the place where they were written.
pub proof fn lemma_bytes_written_are_bytes_read(before: Seq<u8>, position: int, data: Seq<u8>)
    requires
        0 <= position,
        position + data.len() <= before.len(),
    ensures
        with_range_replaced(before, position, data).subrange(position, position + data.len()) == data,
        with_range_replaced(before, position, data).len() == before.len(),
        forall|index: int|
            0 <= index < before.len() && !(position <= index < position + data.len()) ==> with_range_replaced(
                before,
                position,
                data,
            )[index] == before[index],
{
    assert(with_range_replaced(before, position, data).subrange(position, position + data.len()) =~= data);
}

/// Writing bytes and then more bytes after them is writing all of them at once.
pub proof fn lemma_ranges_replaced_one_after_the_other(before: Seq<u8>, position: int, first: Seq<u8>, second: Seq<u8>)
    requires
        0 <= position,
    ensures
        with_range_replaced(with_range_replaced(before, position, first), position + first.len(), second)
            == with_range_replaced(before, position, first + second),
{
    assert(with_range_replaced(with_range_replaced(before, position, first), position + first.len(), second)
        =~= with_range_replaced(before, position, first + second));
}

impl BlockAllocator {
    /// Does `self` differ from `other` in nothing but the bytes of the blocks and what has reached
    /// persistent memory?
    pub open spec fn differs_only_in_bytes_from(&self, other: &BlockAllocator) -> bool {
        &&& self.is_bound_like(other)
        &&& self.bags == other.bags
        &&& self.block_meta_data_items == other.block_meta_data_items
        &&& self.blocks_memory@.len() == other.blocks_memory@.len()
    }
}

impl Chains {
    /// Does one of the chains hold the byte at `index` of the bytes of the blocks?
    pub open spec fn holds_byte(&self, allocator: &BlockAllocator, index: int) -> bool {
        exists|position: int|
            0 <= position < self.heads@.len() && (#[trigger] self.heads@[position]) * allocator.block_size.bytes()
                <= index < (self.heads@[position] + allocator.words()[self.heads@[position] as int].length())
                * allocator.block_size.bytes()
    }

    /// Copy bytes into chains: a cursor at the first byte of the first chain.
    pub fn copy_bytes_into_chains_start(&self, allocator: &BlockAllocator) -> (cursor: RestartCopyIntoAt)
        requires
            allocator.is_consistent(),
            self.wf(allocator),
        ensures
            cursor.cursor.wf(self, allocator),
            cursor.cursor.position(self, allocator) == 0,
    {
        RestartCopyIntoAt { cursor: ChainsCursor::start(self, allocator) }
    }

    /// Copy bytes from chains: a cursor at the first byte of the first chain.
    pub fn copy_bytes_from_chains_start(&self, allocator: &BlockAllocator) -> (cursor: RestartCopyFromAt)
        requires
            allocator.is_consistent(),
            self.wf(allocator),
        ensures
            cursor.cursor.wf(self, allocator),
            cursor.cursor.position(self, allocator) == 0,
    {
        RestartCopyFromAt { cursor: ChainsCursor::start(self, allocator) }
    }
}

/// A cursor that copies bytes into the chains of an allocation, and goes on where it stopped.
pub struct RestartCopyIntoAt {
    /// Where the next byte goes.
    pub cursor: ChainsCursor,
}

impl RestartCopyIntoAt {
    /// Copies `bytes` into the chains from the cursor on, as far as the chains have room, and moves
    /// the cursor past them. Returns the number of bytes copied.
    ///
    /// Writes each cache line back once it is written, and makes a fence once a block is complete.
    pub fn copy_bytes_into(&mut self, chains: &Chains, allocator: &mut BlockAllocator, bytes: &[u8]) -> (copied: usize)
        requires
            old(allocator).is_consistent(),
            old(allocator).persistence_domain@.is_written_back(),
            chains.wf(old(allocator)),
            old(self).cursor.wf(chains, old(allocator)),
        ensures
            final(allocator).is_consistent(),
            final(allocator).persistence_domain@.is_written_back(),
            final(allocator).differs_only_in_bytes_from(old(allocator)),
            chains.wf(final(allocator)),
            final(self).cursor.wf(chains, final(allocator)),
            copied <= bytes@.len(),
            old(self).cursor.position(chains, old(allocator)) + copied <= chains.capacity(old(allocator)),
            copied == bytes@.len() || old(self).cursor.position(chains, old(allocator)) + copied == chains.capacity(
                old(allocator),
            ),
            final(self).cursor.position(chains, final(allocator)) == old(self).cursor.position(
                chains,
                old(allocator),
            ) + copied,
            chains.bytes(final(allocator)) == with_range_replaced(
                chains.bytes(old(allocator)),
                old(self).cursor.position(chains, old(allocator)),
                bytes@.subrange(0, copied as int),
            ),
            forall|index: int|
                0 <= index < old(allocator).blocks_memory@.len() && !chains.holds_byte(old(allocator), index)
                    ==> #[trigger] final(allocator).blocks_memory@[index] == old(allocator).blocks_memory@[index],
    {
        let ghost starts_at = self.cursor.position(chains, allocator);
        let ghost bytes_before = chains.bytes(allocator);
        let mut copied: usize = 0;
        proof {
            assert(bytes@.subrange(0, 0) =~= Seq::<u8>::empty());
            assert(bytes_before =~= with_range_replaced(bytes_before, starts_at, Seq::<u8>::empty()));
            chains.lemma_chains_lie_apart(allocator);
            Self::lemma_position_in_bytes(&self.cursor, chains, allocator);
        }
        while copied < bytes.len() && !self.cursor.is_at_end()
            invariant
                copied <= bytes@.len(),
                old(allocator).is_consistent(),
                chains.wf(old(allocator)),
                allocator.is_consistent(),
                allocator.persistence_domain@.is_written_back(),
                allocator.differs_only_in_bytes_from(old(allocator)),
                chains.wf(allocator),
                self.cursor.wf(chains, allocator),
                starts_at == old(self).cursor.position(chains, old(allocator)),
                bytes_before == chains.bytes(old(allocator)),
                self.cursor.position(chains, allocator) == starts_at + copied,
                starts_at + copied <= chains.capacity(old(allocator)),
                chains.bytes(allocator) == with_range_replaced(bytes_before, starts_at, bytes@.subrange(0, copied as int)),
                forall|index: int|
                    0 <= index < old(allocator).blocks_memory@.len() && !chains.holds_byte(old(allocator), index)
                        ==> #[trigger] allocator.blocks_memory@[index] == old(allocator).blocks_memory@[index],
            ensures
                copied <= bytes@.len(),
                allocator.is_consistent(),
                allocator.persistence_domain@.is_written_back(),
                allocator.differs_only_in_bytes_from(old(allocator)),
                chains.wf(allocator),
                self.cursor.wf(chains, allocator),
                self.cursor.position(chains, allocator) == starts_at + copied,
                starts_at + copied <= chains.capacity(old(allocator)),
                copied == bytes@.len() || self.cursor.chain == BlockPointer::null(),
                chains.bytes(allocator) == with_range_replaced(bytes_before, starts_at, bytes@.subrange(0, copied as int)),
                forall|index: int|
                    0 <= index < old(allocator).blocks_memory@.len() && !chains.holds_byte(old(allocator), index)
                        ==> #[trigger] allocator.blocks_memory@[index] == old(allocator).blocks_memory@[index],
            decreases bytes@.len() - copied,
        {
            let remaining_in_chain: usize = self.cursor.remaining_in_chain(chains, allocator);
            let remaining_in_line: usize = CACHE_LINE_SIZE - self.cursor.offset % CACHE_LINE_SIZE;
            let mut segment: usize = bytes.len() - copied;
            if remaining_in_chain < segment {
                segment = remaining_in_chain;
            }
            if remaining_in_line < segment {
                segment = remaining_in_line;
            }
            let start: usize = (self.cursor.chain.0 as usize) * allocator.block_size.as_usize() + self.cursor.offset;
            let ghost before = *allocator;
            let mut index: usize = 0;
            proof {
                allocator.lemma_block_addresses(allocator.number_of_blocks as int);
                chains.lemma_chains_lie_apart(allocator);
            }
            while index < segment
                invariant
                    index <= segment,
                    copied + segment <= bytes@.len(),
                    bytes@.len() <= usize::MAX,
                    start + segment <= allocator.blocks_memory@.len() <= usize::MAX,
                    allocator.differs_only_in_bytes_from(&before),
                    allocator.persistence_domain == before.persistence_domain,
                    allocator.blocks_memory@ == with_range_replaced(
                        before.blocks_memory@,
                        start as int,
                        bytes@.subrange(copied as int, copied + index),
                    ),
                decreases segment - index,
            {
                allocator.blocks_memory[start + index] = bytes[copied + index];
                proof {
                    assert(allocator.blocks_memory@ =~= with_range_replaced(
                        before.blocks_memory@,
                        start as int,
                        bytes@.subrange(copied as int, copied + index + 1),
                    ));
                }
                index += 1;
            }
            proof {
                allocator.lemma_block_addresses(allocator.number_of_blocks as int);
                assert(allocator.block_size.bytes() * allocator.number_of_blocks == allocator.blocks_memory@.len());
            }
            let address: usize = allocator.blocks_memory_inclusive_start_pointer + start;
            allocator.persistence_domain.record_store(address);
            persistent_write_back(&mut allocator.persistence_domain, address);
            if (self.cursor.offset + segment) % allocator.block_size.as_usize() == 0 {
                persistent_fence(&mut allocator.persistence_domain);
            }
            proof {
                let data = bytes@.subrange(copied as int, copied + segment);
                let position = self.cursor.chain_position@;
                let size = allocator.block_size.bytes() as int;
                before.lemma_stays_laid_out(&before);
                allocator.lemma_stays_laid_out(&before);
                assert(allocator.words() == before.words());
                lemma_range_written(
                    chains.heads@,
                    before.words(),
                    before.blocks_memory@,
                    allocator.blocks_memory@,
                    size,
                    position,
                    self.cursor.offset as int,
                    data,
                );
                lemma_ranges_replaced_one_after_the_other(
                    bytes_before,
                    starts_at,
                    bytes@.subrange(0, copied as int),
                    data,
                );
                assert(bytes@.subrange(0, copied as int) + data =~= bytes@.subrange(0, copied + segment));
                assert forall|position_in: int| 0 <= position_in < chains.heads@.len() implies #[trigger] chain_is_owned(
                    chains.heads@,
                    position_in,
                    allocator,
                ) by {
                    assert(chain_is_owned(chains.heads@, position_in, &before));
                }
                lemma_byte_in_chain_bound(chains.heads@, before.words(), before.blocks_memory@, size, position);
                assert(chains.capacity(&before) == chains.capacity(old(allocator)));
                assert(chains.bytes(&before).len() == chains.capacity(&before));
                assert forall|other: int|
                    0 <= other < old(allocator).blocks_memory@.len() && !chains.holds_byte(old(allocator), other) implies #[trigger] allocator.blocks_memory@[other]
                    == old(allocator).blocks_memory@[other] by {
                    if start <= other < start + segment {
                        assert(chains.heads@[position] * size <= other < (chains.heads@[position]
                            + old(allocator).words()[chains.heads@[position] as int].length()) * size) by {
                            let head = chains.heads@[position] as int;
                            let length = before.words()[head].length() as int;
                            assert((head + length) * size == head * size + length * size) by (nonlinear_arith);
                            assert(head * size == size * head) by (nonlinear_arith);
                        }
                        assert(chains.holds_byte(old(allocator), other));
                    }
                }
            }
            self.cursor.advance(chains, allocator, segment);
            copied += segment;
        }
        proof {
            if self.cursor.chain == BlockPointer::null() {
                Self::lemma_position_in_bytes(&self.cursor, chains, allocator);
                assert(chains.heads@.take(chains.heads@.len() as int) =~= chains.heads@);
            }
        }
        copied
    }

    /// A cursor lies within the bytes of the chains.
    pub proof fn lemma_position_in_bytes(cursor: &ChainsCursor, chains: &Chains, allocator: &BlockAllocator)
        requires
            allocator.is_consistent(),
            chains.wf(allocator),
            cursor.wf(chains, allocator),
        ensures
            0 <= cursor.position(chains, allocator) <= chains.capacity(allocator),
            cursor.chain == BlockPointer::null() <==> cursor.position(chains, allocator) == chains.capacity(allocator),
            cursor.chain == BlockPointer::null() <==> cursor.chain_position@ == chains.heads@.len(),
    {
        chains.lemma_chains_lie_apart(allocator);
        let position = cursor.chain_position@;
        let heads = chains.heads@;
        if position < heads.len() {
            lemma_byte_in_chain_bound(
                heads,
                allocator.words(),
                allocator.blocks_memory@,
                allocator.block_size.bytes() as int,
                position,
            );
            assert(chain_is_owned(heads, position, allocator));
        } else {
            assert(heads.take(position) =~= heads);
        }
    }

    /// Closes the cursor: returns once every byte copied has reached persistent memory.
    pub fn close(self, allocator: &mut BlockAllocator)
        requires
            old(allocator).is_consistent(),
            old(allocator).persistence_domain@.is_written_back(),
        ensures
            final(allocator).wf(),
            final(allocator).differs_only_in_bytes_from(old(allocator)),
            final(allocator).blocks_memory@ == old(allocator).blocks_memory@,
    {
        persistent_sync(&mut allocator.persistence_domain);
    }
}

/// A cursor that copies bytes from the chains of an allocation, and goes on where it stopped.
pub struct RestartCopyFromAt {
    /// Where the next byte comes from.
    pub cursor: ChainsCursor,
}

impl RestartCopyFromAt {
    /// Copies up to `length` bytes from the chains from the cursor on, as far as the chains have
    /// bytes, and moves the cursor past them.
    pub fn copy_bytes_from(&mut self, chains: &Chains, allocator: &BlockAllocator, length: usize) -> (bytes: Vec<u8>)
        requires
            allocator.is_consistent(),
            chains.wf(allocator),
            old(self).cursor.wf(chains, allocator),
        ensures
            final(self).cursor.wf(chains, allocator),
            bytes@.len() <= length,
            old(self).cursor.position(chains, allocator) + bytes@.len() <= chains.capacity(allocator),
            bytes@.len() == length || old(self).cursor.position(chains, allocator) + bytes@.len() == chains.capacity(
                allocator,
            ),
            final(self).cursor.position(chains, allocator) == old(self).cursor.position(chains, allocator)
                + bytes@.len(),
            bytes@ == chains.bytes(allocator).subrange(
                old(self).cursor.position(chains, allocator),
                old(self).cursor.position(chains, allocator) + bytes@.len(),
            ),
    {
        let ghost starts_at = self.cursor.position(chains, allocator);
        let mut bytes: Vec<u8> = Vec::new();
        proof {
            chains.lemma_chains_lie_apart(allocator);
            RestartCopyIntoAt::lemma_position_in_bytes(&self.cursor, chains, allocator);
            assert(bytes@ =~= chains.bytes(allocator).subrange(starts_at, starts_at + 0));
        }
        while bytes.len() < length && !self.cursor.is_at_end()
            invariant
                bytes@.len() <= length,
                allocator.is_consistent(),
                chains.wf(allocator),
                self.cursor.wf(chains, allocator),
                starts_at == old(self).cursor.position(chains, allocator),
                self.cursor.position(chains, allocator) == starts_at + bytes@.len(),
                0 <= starts_at,
                starts_at + bytes@.len() <= chains.capacity(allocator),
                chains.bytes(allocator).len() == chains.capacity(allocator),
                bytes@ == chains.bytes(allocator).subrange(starts_at, starts_at + bytes@.len()),
            ensures
                bytes@.len() <= length,
                self.cursor.wf(chains, allocator),
                self.cursor.position(chains, allocator) == starts_at + bytes@.len(),
                starts_at + bytes@.len() <= chains.capacity(allocator),
                bytes@.len() == length || self.cursor.chain == BlockPointer::null(),
                bytes@ == chains.bytes(allocator).subrange(starts_at, starts_at + bytes@.len()),
            decreases length - bytes@.len(),
        {
            let remaining_in_chain: usize = self.cursor.remaining_in_chain(chains, allocator);
            let start: usize = (self.cursor.chain.0 as usize) * allocator.block_size.as_usize() + self.cursor.offset;
            proof {
                chains.lemma_chains_lie_apart(allocator);
                lemma_byte_in_chain(
                    chains.heads@,
                    allocator.words(),
                    allocator.blocks_memory@,
                    allocator.block_size.bytes() as int,
                    self.cursor.chain_position@,
                    self.cursor.offset as int,
                );
            }
            bytes.push(allocator.blocks_memory[start]);
            proof {
                assert(bytes@ =~= chains.bytes(allocator).subrange(starts_at, starts_at + bytes@.len()));
            }
            self.cursor.advance(chains, allocator, 1);
        }
        proof {
            if self.cursor.chain == BlockPointer::null() {
                RestartCopyIntoAt::lemma_position_in_bytes(&self.cursor, chains, allocator);
            }
        }
        bytes
    }
}

} // verus!
