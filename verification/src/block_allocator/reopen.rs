use crate::alignment::lemma_rounded_up_to_alignment;
use crate::alignment::lemma_rounded_up_to_alignment_from_aligned;
use crate::alignment::rounded_up_to_alignment;
use crate::alignment::Alignment;
use crate::block_allocator::allocate::best_shorter_fit;
use crate::block_allocator::block_allocator::BlockAllocator;
use crate::block_allocator::block_allocator::ALIGNMENT;
use crate::block_allocator::block_allocator::OFFSET_TO_BAGS;
use crate::block_allocator::block_allocator::OFFSET_TO_START_OF_VARIABLE_LENGTH_MEMORY;
use crate::block_allocator::chains::chain_is_owned;
use crate::block_allocator::chains::Chains;
use crate::block_allocator::tiling::is_allocated_head;
use crate::persistent_memory_operations::persistence_domain::PersistenceDomain;
use crate::persistent_memory_operations::persistence_domain::WriteBackInstruction;
use vstd::prelude::*;

verus! {

impl BlockAllocator {
    /// Does `self` hold what `former` holds: the same blocks, divided into the same chains, with
    /// the same chains in the same places of the same bags?
    pub open spec fn holds_what(&self, former: &BlockAllocator) -> bool {
        &&& self.number_of_blocks == former.number_of_blocks
        &&& self.block_size == former.block_size
        &&& self.maximum_chain_length() == former.maximum_chain_length()
        &&& self.blocks_memory@ == former.blocks_memory@
        &&& self.free_lists() == former.free_lists()
        &&& self.words() == former.words()
        &&& self.block_meta_data_items.count() == former.block_meta_data_items.count()
        &&& forall|index: int|
            0 <= index < former.number_of_blocks ==> {
                &&& (#[trigger] self.block_meta_data_items.items@[index]).word()
                    == former.block_meta_data_items.items@[index].word()
                &&& self.block_meta_data_items.next_chain_at(index) == former.block_meta_data_items.next_chain_at(index)
                &&& self.block_meta_data_items.next_in_bag_at(index) == former.block_meta_data_items.next_in_bag_at(
                    index,
                )
            }
    }

    /// Opening a region again and again keeps what it holds: what is opened from what holds the
    /// same as a region holds the same as that region.
    pub proof fn lemma_reopening_keeps_what_is_held(&self, first: &BlockAllocator, former: &BlockAllocator)
        requires
            first.holds_what(former),
            self.holds_what(first),
        ensures
            self.holds_what(former),
            self.spec_maximum_free_chain_length() == former.spec_maximum_free_chain_length(),
            self.free_blocks() == former.free_blocks(),
            self.spec_blocks_in_use() == former.spec_blocks_in_use(),
    {
        assert forall|index: int| 0 <= index < former.number_of_blocks implies {
            &&& (#[trigger] self.block_meta_data_items.items@[index]).word()
                == former.block_meta_data_items.items@[index].word()
            &&& self.block_meta_data_items.next_chain_at(index) == former.block_meta_data_items.next_chain_at(index)
            &&& self.block_meta_data_items.next_in_bag_at(index) == former.block_meta_data_items.next_in_bag_at(index)
        } by {
            assert(first.block_meta_data_items.items@[index].word() == former.block_meta_data_items.items@[index].word());
        }
    }

    /// The length of the longest chain in the bags, or zero where the bags are empty.
    pub open spec fn spec_maximum_free_chain_length(&self) -> int {
        match best_shorter_fit(self.free_lists(), self.maximum_chain_length() as int) {
            Some(chain_length) => chain_length,
            None => 0,
        }
    }

    /// Opens the block allocator of a region that is mapped anew, at the first aligned address from
    /// `unaligned_address` on.
    ///
    /// What is not persistent is made anew: the addresses follow the new mapping, the allocator is
    /// used by hyper thread zero, and everything that the region holds counts as having reached
    /// persistent memory. The chains and the bags stay as they are.
    pub fn open(self, unaligned_address: usize) -> (allocator: Self)
        requires
            self.is_consistent(),
            Self::fits_in_address_space(unaligned_address, self.number_of_blocks, self.block_size),
        ensures
            allocator.wf(),
            allocator.holds_what(&self),
            allocator.address() == rounded_up_to_alignment(unaligned_address as int, ALIGNMENT as int),
            allocator.hyper_thread == 0,
            allocator.persistence_domain.instruction() == WriteBackInstruction::CacheLineFlush,
            allocator.spec_maximum_free_chain_length() == self.spec_maximum_free_chain_length(),
            allocator.free_blocks() == self.free_blocks(),
            allocator.spec_blocks_in_use() == self.spec_blocks_in_use(),
    {
        let ghost former = self;
        let mut allocator = self;
        proof {
            Self::lemma_size_of_parts(allocator.number_of_blocks as int, allocator.block_size);
            lemma_rounded_up_to_alignment(unaligned_address as int, ALIGNMENT as int);
        }
        let aligned_address: usize = unaligned_address.round_up_to_alignment(ALIGNMENT);
        proof {
            lemma_rounded_up_to_alignment_from_aligned(
                aligned_address + OFFSET_TO_START_OF_VARIABLE_LENGTH_MEMORY,
                allocator.block_size.bytes() * allocator.number_of_blocks,
                ALIGNMENT as int,
            );
            assert forall|index: int| 0 <= index < allocator.bags.bags@.len() implies (
            #[trigger] allocator.bags.bags@[index]).stripes@.len()
                == crate::hyper_thread::MAXIMUM_SUPPORTED_HYPER_THREADS by {
                assert(allocator.bags.bags@[index].wf((index + 1) as nat, &allocator.block_meta_data_items));
            }
        }
        let blocks_memory_inclusive_start_pointer: usize = aligned_address
            + Self::offset_to_start_of_variable_length_memory();
        let blocks_capacity: usize = Self::blocks_capacity(allocator.number_of_blocks, allocator.block_size);
        let blocks_memory_exclusive_end_pointer: usize = blocks_memory_inclusive_start_pointer + blocks_capacity;
        let blocks_meta_data_items_inclusive_start_pointer: usize =
            blocks_memory_exclusive_end_pointer.round_up_to_alignment(ALIGNMENT);
        allocator.blocks_memory_inclusive_start_pointer = blocks_memory_inclusive_start_pointer;
        allocator.blocks_memory_exclusive_end_pointer = blocks_memory_exclusive_end_pointer;
        allocator.bags.cto_pool_opened(aligned_address + OFFSET_TO_BAGS);
        allocator.block_meta_data_items.rebase(blocks_meta_data_items_inclusive_start_pointer);
        allocator.persistence_domain = PersistenceDomain::new(WriteBackInstruction::CacheLineFlush);
        allocator.hyper_thread = 0;
        proof {
            allocator.bags.lemma_wf_depends_on_what_is_held(
                &former.bags,
                &former.block_meta_data_items,
                &allocator.block_meta_data_items,
            );
            assert(allocator.words() =~= former.words());
            assert forall|index: int|
                0 <= index < allocator.number_of_blocks && !is_allocated_head(allocator.words(), index) implies #[trigger] allocator.block_meta_data_items.next_chain_at(
                index,
            ) == crate::block_allocator::block_pointer::BlockPointer::null() by {
                assert(allocator.block_meta_data_items.items@[index].word()
                    == former.block_meta_data_items.items@[index].word());
                assert(former.block_meta_data_items.next_chain_at(index)
                    == crate::block_allocator::block_pointer::BlockPointer::null());
            }
        }
        allocator
    }

    /// An image of the region as it is: what the region holds once everything has reached
    /// persistent memory. Open it with `open`.
    pub fn snapshot(&self) -> (image: Self)
        requires
            self.wf(),
        ensures
            image.wf(),
            image.holds_what(self),
            image.is_bound_like(self),
            image.spec_maximum_free_chain_length() == self.spec_maximum_free_chain_length(),
            image.free_blocks() == self.free_blocks(),
            image.spec_blocks_in_use() == self.spec_blocks_in_use(),
    {
        proof {
            assert forall|index: int| 0 <= index < self.bags.bags@.len() implies (#[trigger] self.bags.bags@[index]).stripes@.len()
                == crate::hyper_thread::MAXIMUM_SUPPORTED_HYPER_THREADS by {
                assert(self.bags.bags@[index].wf((index + 1) as nat, &self.block_meta_data_items));
            }
        }
        let mut blocks_memory: Vec<u8> = Vec::new();
        let mut index: usize = 0;
        while index < self.blocks_memory.len()
            invariant
                index <= self.blocks_memory@.len(),
                blocks_memory@ == self.blocks_memory@.take(index as int),
            decreases self.blocks_memory@.len() - index,
        {
            blocks_memory.push(self.blocks_memory[index]);
            assert(blocks_memory@ =~= self.blocks_memory@.take(index + 1));
            index += 1;
        }
        assert(blocks_memory@ =~= self.blocks_memory@);
        let image = BlockAllocator {
            number_of_blocks: self.number_of_blocks,
            block_size: self.block_size,
            blocks_memory_inclusive_start_pointer: self.blocks_memory_inclusive_start_pointer,
            blocks_memory_exclusive_end_pointer: self.blocks_memory_exclusive_end_pointer,
            bags: self.bags.snapshot(),
            blocks_memory,
            block_meta_data_items: self.block_meta_data_items.snapshot(),
            persistence_domain: PersistenceDomain::new(self.persistence_domain.write_back_instruction()),
            hyper_thread: self.hyper_thread,
        };
        proof {
            image.bags.lemma_wf_depends_on_what_is_held(
                &self.bags,
                &self.block_meta_data_items,
                &image.block_meta_data_items,
            );
            assert(image.words() =~= self.words());
            assert forall|index: int|
                0 <= index < image.number_of_blocks && !is_allocated_head(image.words(), index) implies #[trigger] image.block_meta_data_items.next_chain_at(
                index,
            ) == crate::block_allocator::block_pointer::BlockPointer::null() by {
                assert(self.block_meta_data_items.next_chain_at(index)
                    == crate::block_allocator::block_pointer::BlockPointer::null());
            }
            assert forall|index: int| 0 <= index < image.bags.bags@.len() implies (#[trigger] image.bags.bags@[index]).lies_at(
                image.address() + OFFSET_TO_BAGS + crate::block_allocator::bag::SIZE_OF_BAG * index,
            ) by {
                assert(self.bags.bags@[index].lies_at(
                    image.address() + OFFSET_TO_BAGS + crate::block_allocator::bag::SIZE_OF_BAG * index,
                ));
            }
        }
        image
    }

    /// Binds the allocator to the hyper thread that uses it from now on.
    pub fn bind_to_hyper_thread(&mut self, hyper_thread: usize)
        ensures
            *final(self) == (BlockAllocator { hyper_thread, ..*old(self) }),
    {
        self.hyper_thread = hyper_thread;
    }

    /// Binds the allocator to a processor that writes cache lines back with `instruction`.
    pub fn bind_to_processor(&mut self, instruction: WriteBackInstruction)
        ensures
            final(self).persistence_domain@ == old(self).persistence_domain@,
            final(self).persistence_domain.instruction() == instruction,
            final(self).number_of_blocks == old(self).number_of_blocks,
            final(self).block_size == old(self).block_size,
            final(self).blocks_memory_inclusive_start_pointer == old(self).blocks_memory_inclusive_start_pointer,
            final(self).blocks_memory_exclusive_end_pointer == old(self).blocks_memory_exclusive_end_pointer,
            final(self).bags == old(self).bags,
            final(self).blocks_memory == old(self).blocks_memory,
            final(self).block_meta_data_items == old(self).block_meta_data_items,
            final(self).hyper_thread == old(self).hyper_thread,
            old(self).wf() ==> final(self).wf(),
    {
        self.persistence_domain.rebind(instruction);
    }
}

impl Chains {
    /// The chains of an allocation are what they were once the region is opened anew: as many
    /// blocks, with the same bytes.
    pub proof fn lemma_chains_outlast_reopening(&self, before: &BlockAllocator, after: &BlockAllocator)
        requires
            before.is_consistent(),
            self.wf(before),
            after.holds_what(before),
        ensures
            self.wf(after),
            self.number_of_blocks(after) == self.number_of_blocks(before),
            self.bytes(after) == self.bytes(before),
    {
        assert forall|position: int| 0 <= position < self.heads@.len() implies #[trigger] chain_is_owned(
            self.heads@,
            position,
            after,
        ) by {
            assert(chain_is_owned(self.heads@, position, before));
            let head = self.heads@[position] as int;
            assert(after.block_meta_data_items.items@[head].word() == before.block_meta_data_items.items@[head].word());
        }
    }
}

} // verus!
