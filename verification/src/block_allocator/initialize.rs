use crate::alignment::lemma_rounded_up_to_alignment;
use crate::alignment::lemma_rounded_up_to_alignment_from_aligned;
use crate::alignment::rounded_up_to_alignment;
use crate::alignment::Alignment;
use crate::block_allocator::bags::Bags;
use crate::block_allocator::block_allocator::BlockAllocator;
use crate::block_allocator::block_allocator::ALIGNMENT;
use crate::block_allocator::block_allocator::OFFSET_TO_BAGS;
use crate::block_allocator::block_allocator::OFFSET_TO_START_OF_VARIABLE_LENGTH_MEMORY;
use crate::block_allocator::block_allocator::SIZE_OF_HEADER;
use crate::block_allocator::block_allocator_error::BlockAllocatorError;
use crate::block_allocator::block_meta_data::BlockMetaDataItems;
use crate::block_allocator::block_pointer::BlockPointer;
use crate::block_allocator::block_pointer::INCLUSIVE_MAXIMUM_NUMBER_OF_BLOCKS;
use crate::block_allocator::block_size::BlockSize;
use crate::block_allocator::chain_length::ChainLength;
use crate::block_allocator::chain_length::INCLUSIVE_MAXIMUM_CHAIN_LENGTH;
use crate::block_allocator::tiling::is_allocated_head;
use crate::block_allocator::tiling::is_free_head;
use crate::block_allocator::tiling::is_head;
use crate::block_allocator::tiling::is_tiled;
use crate::block_allocator::tiling::lemma_chain_appended_keeps_tiling;
use crate::persistent_memory_operations::flush_memory::flush_memory;
use crate::persistent_memory_operations::persistence_domain::PersistenceDomain;
use crate::persistent_memory_operations::persistence_domain::WriteBackInstruction;
use crate::persistent_memory_operations::persistent_sync::persistent_sync;
use crate::persistent_memory_operations::persistent_write_back::persistent_write_back;
use vstd::prelude::*;

verus! {

impl BlockAllocator {
    /// Is every chain among the first `limit` blocks in a bag, and as long as a chain can be, but
    /// for a last one that ends where the blocks end?
    pub open spec fn is_seeded_up_to(&self, limit: int) -> bool {
        forall|index: int|
            0 <= index < limit && is_head(self.words(), index) ==> {
                &&& #[trigger] is_free_head(self.words(), index)
                &&& (self.chain_length_at(index) == self.maximum_chain_length() || index + self.chain_length_at(index)
                    == self.number_of_blocks)
            }
    }

    /// Is the allocator as it is made: every chain in a bag, and as long as a chain can be but for
    /// the last, and every byte of every block zero?
    pub open spec fn is_seeded(&self) -> bool {
        &&& self.is_seeded_up_to(self.number_of_blocks as int)
        &&& forall|index: int| 0 <= index < self.blocks_memory@.len() ==> #[trigger] self.blocks_memory@[index] == 0u8
    }

    /// Can a block allocator of `number_of_blocks` blocks of `block_size` be made at the first
    /// aligned address from `unaligned_address` on?
    pub open spec fn fits_in_address_space(unaligned_address: usize, number_of_blocks: usize, block_size: BlockSize) -> bool {
        unaligned_address + ALIGNMENT + Self::spec_size_of(number_of_blocks as int, block_size) <= usize::MAX
    }

    /// Makes a block allocator of `number_of_blocks` blocks of `block_size` at the first aligned
    /// address from `unaligned_address` on. No chain is longer than 1024 blocks.
    /// Refuses a number of blocks that is zero or more than block pointers can tell apart.
    pub fn new(unaligned_address: usize, number_of_blocks: usize, block_size: BlockSize) -> (allocator: Result<
        Self,
        BlockAllocatorError,
    >)
        requires
            Self::fits_in_address_space(unaligned_address, number_of_blocks, block_size),
        ensures
            allocator is Err <==> number_of_blocks == 0 || number_of_blocks > INCLUSIVE_MAXIMUM_NUMBER_OF_BLOCKS,
            allocator is Err ==> allocator->Err_0 == BlockAllocatorError::InitializationRefusal,
            allocator is Ok ==> {
                &&& allocator->Ok_0.wf()
                &&& allocator->Ok_0.is_seeded()
                &&& allocator->Ok_0.number_of_blocks == number_of_blocks
                &&& allocator->Ok_0.block_size == block_size
                &&& allocator->Ok_0.maximum_chain_length() == INCLUSIVE_MAXIMUM_CHAIN_LENGTH
                &&& allocator->Ok_0.address() == rounded_up_to_alignment(unaligned_address as int, ALIGNMENT as int)
                &&& allocator->Ok_0.hyper_thread == 0
                &&& allocator->Ok_0.persistence_domain.instruction() == WriteBackInstruction::CacheLineFlush
            },
    {
        Self::with_maximum_chain_length(
            unaligned_address,
            number_of_blocks,
            block_size,
            INCLUSIVE_MAXIMUM_CHAIN_LENGTH,
        )
    }

    /// Makes a block allocator as `new` does, in which no chain is longer than `maximum_chain_length` blocks.
    pub fn with_maximum_chain_length(
        unaligned_address: usize,
        number_of_blocks: usize,
        block_size: BlockSize,
        maximum_chain_length: usize,
    ) -> (allocator: Result<Self, BlockAllocatorError>)
        requires
            Self::fits_in_address_space(unaligned_address, number_of_blocks, block_size),
            1 <= maximum_chain_length <= INCLUSIVE_MAXIMUM_CHAIN_LENGTH,
        ensures
            allocator is Err <==> number_of_blocks == 0 || number_of_blocks > INCLUSIVE_MAXIMUM_NUMBER_OF_BLOCKS,
            allocator is Err ==> allocator->Err_0 == BlockAllocatorError::InitializationRefusal,
            allocator is Ok ==> {
                &&& allocator->Ok_0.wf()
                &&& allocator->Ok_0.is_seeded()
                &&& allocator->Ok_0.number_of_blocks == number_of_blocks
                &&& allocator->Ok_0.block_size == block_size
                &&& allocator->Ok_0.maximum_chain_length() == maximum_chain_length
                &&& allocator->Ok_0.address() == rounded_up_to_alignment(unaligned_address as int, ALIGNMENT as int)
                &&& allocator->Ok_0.hyper_thread == 0
                &&& allocator->Ok_0.persistence_domain.instruction() == WriteBackInstruction::CacheLineFlush
            },
    {
        if number_of_blocks == 0 || number_of_blocks > INCLUSIVE_MAXIMUM_NUMBER_OF_BLOCKS {
            return Err(BlockAllocatorError::InitializationRefusal);
        }
        proof {
            Self::lemma_size_of_parts(number_of_blocks as int, block_size);
            lemma_rounded_up_to_alignment(unaligned_address as int, ALIGNMENT as int);
        }
        let aligned_address: usize = unaligned_address.round_up_to_alignment(ALIGNMENT);
        Ok(Self::initialize(aligned_address, number_of_blocks, block_size, maximum_chain_length))
    }

    /// Lays the region at `aligned_address` out, writes the header and the meta data back, and puts
    /// every block into a bag.
    fn initialize(
        aligned_address: usize,
        number_of_blocks: usize,
        block_size: BlockSize,
        maximum_chain_length: usize,
    ) -> (allocator: Self)
        requires
            1 <= number_of_blocks <= INCLUSIVE_MAXIMUM_NUMBER_OF_BLOCKS,
            1 <= maximum_chain_length <= INCLUSIVE_MAXIMUM_CHAIN_LENGTH,
            aligned_address as int % (ALIGNMENT as int) == 0,
            aligned_address + Self::spec_size_of(number_of_blocks as int, block_size) <= usize::MAX,
        ensures
            allocator.wf(),
            allocator.is_seeded(),
            allocator.number_of_blocks == number_of_blocks,
            allocator.block_size == block_size,
            allocator.maximum_chain_length() == maximum_chain_length,
            allocator.address() == aligned_address,
            allocator.hyper_thread == 0,
            allocator.persistence_domain.instruction() == WriteBackInstruction::CacheLineFlush,
    {
        proof {
            Self::lemma_size_of_parts(number_of_blocks as int, block_size);
            lemma_rounded_up_to_alignment_from_aligned(
                aligned_address + OFFSET_TO_START_OF_VARIABLE_LENGTH_MEMORY,
                block_size.bytes() * number_of_blocks,
                ALIGNMENT as int,
            );
        }
        let mut persistence_domain: PersistenceDomain = PersistenceDomain::new(WriteBackInstruction::CacheLineFlush);
        persistence_domain.record_store(aligned_address);
        persistent_write_back(&mut persistence_domain, aligned_address);
        flush_memory(&mut persistence_domain, aligned_address, SIZE_OF_HEADER);
        let blocks_memory_inclusive_start_pointer: usize = aligned_address
            + Self::offset_to_start_of_variable_length_memory();
        let blocks_capacity: usize = Self::blocks_capacity(number_of_blocks, block_size);
        let blocks_memory_exclusive_end_pointer: usize = blocks_memory_inclusive_start_pointer + blocks_capacity;
        let blocks_meta_data_items_inclusive_start_pointer: usize =
            blocks_memory_exclusive_end_pointer.round_up_to_alignment(ALIGNMENT);
        let bags: Bags = Bags::new(aligned_address + OFFSET_TO_BAGS, maximum_chain_length);
        let block_meta_data_items: BlockMetaDataItems = BlockMetaDataItems::initialize(
            blocks_meta_data_items_inclusive_start_pointer,
            number_of_blocks,
        );
        flush_memory(
            &mut persistence_domain,
            blocks_meta_data_items_inclusive_start_pointer,
            BlockMetaDataItems::size_of(number_of_blocks),
        );
        let blocks_memory: Vec<u8> = vec![0u8; blocks_capacity];
        assert(forall|index: int| 0 <= index < blocks_memory@.len() ==> #[trigger] blocks_memory@[index] == 0u8);
        proof {
            assert forall|index: int| 0 <= index < number_of_blocks implies #[trigger] block_meta_data_items.stripe_at(
                index,
            ) is None by {
                assert(block_meta_data_items.length_at(index) == 0);
            }
            assert forall|index: int| 0 <= index < number_of_blocks implies (#[trigger] block_meta_data_items.words()[index]).length()
                == 0 by {
                assert(block_meta_data_items.length_at(index) == 0);
            }
            assert forall|index: int| 0 <= index < number_of_blocks implies #[trigger] block_meta_data_items.next_chain_at(
                index,
            ) == BlockPointer::null() by {
                assert(block_meta_data_items.length_at(index) == 0);
            }
            bags.lemma_empty_bags_are_wf(&block_meta_data_items);
        }
        let mut allocator = BlockAllocator {
            number_of_blocks,
            block_size,
            blocks_memory_inclusive_start_pointer,
            blocks_memory_exclusive_end_pointer,
            bags,
            blocks_memory,
            block_meta_data_items,
            persistence_domain,
            hyper_thread: 0,
        };
        allocator.initialize_chains(number_of_blocks);
        persistent_sync(&mut allocator.persistence_domain);
        allocator
    }

    /// Puts every block into a bag: chains as long as a chain can be, until fewer blocks than that
    /// remain, then one chain of the blocks that remain.
    fn initialize_chains(&mut self, number_of_blocks: usize)
        requires
            old(self).is_laid_out(),
            old(self).number_of_blocks == number_of_blocks,
            old(self).bags.wf(&old(self).block_meta_data_items),
            old(self).persistence_domain@.is_written_back(),
            forall|index: int|
                0 <= index < number_of_blocks ==> (#[trigger] old(self).words()[index]).length() == 0,
            forall|index: int|
                0 <= index < number_of_blocks ==> #[trigger] old(self).block_meta_data_items.stripe_at(index) is None,
            forall|index: int|
                0 <= index < number_of_blocks ==> #[trigger] old(self).block_meta_data_items.next_chain_at(index) == BlockPointer::null(),
        ensures
            final(self).is_laid_out(),
            final(self).bags.wf(&final(self).block_meta_data_items),
            is_tiled(final(self).words(), number_of_blocks as int, final(self).maximum_chain_length() as int),
            final(self).only_allocated_chains_are_linked(),
            final(self).is_seeded_up_to(number_of_blocks as int),
            final(self).persistence_domain@.is_written_back(),
            final(self).persistence_domain.instruction() == old(self).persistence_domain.instruction(),
            final(self).number_of_blocks == old(self).number_of_blocks,
            final(self).block_size == old(self).block_size,
            final(self).maximum_chain_length() == old(self).maximum_chain_length(),
            final(self).address() == old(self).address(),
            final(self).hyper_thread == old(self).hyper_thread,
            final(self).blocks_memory == old(self).blocks_memory,
    {
        let maximum_chain_length: usize = self.bags.bags.len();
        let mut block_index: usize = 0;
        proof {
            assert forall|index: int| 0 <= index < self.words().len() && (#[trigger] self.words()[index]).length()
                == 0 implies self.words()[index].stripe() is None by {
                assert(self.block_meta_data_items.stripe_at(index) is None);
            }
        }
        while number_of_blocks - block_index >= maximum_chain_length
            invariant
                block_index <= number_of_blocks,
                maximum_chain_length == self.maximum_chain_length(),
                self.is_laid_out(),
                self.number_of_blocks == number_of_blocks,
                self.bags.wf(&self.block_meta_data_items),
                self.bags.lies_where(&old(self).bags),
                self.persistence_domain@.is_written_back(),
                self.persistence_domain.instruction() == old(self).persistence_domain.instruction(),
                is_tiled(self.words(), block_index as int, maximum_chain_length as int),
                self.is_seeded_up_to(block_index as int),
                forall|index: int|
                    0 <= index < block_index && is_head(self.words(), index) ==> #[trigger] self.chain_length_at(index)
                        == maximum_chain_length,
                forall|index: int|
                    0 <= index < number_of_blocks ==> #[trigger] self.block_meta_data_items.next_chain_at(index) == BlockPointer::null(),
                forall|index: int|
                    block_index <= index < number_of_blocks ==> #[trigger] self.block_meta_data_items.stripe_at(index)
                        is None,
                self.block_size == old(self).block_size,
                self.address() == old(self).address(),
                self.blocks_memory_exclusive_end_pointer == old(self).blocks_memory_exclusive_end_pointer,
                self.hyper_thread == old(self).hyper_thread,
                self.blocks_memory == old(self).blocks_memory,
            decreases number_of_blocks - block_index,
        {
            let ghost former = *self;
            let add_block: BlockPointer = BlockPointer::new(block_index as u32);
            self.bags.add(
                &mut self.block_meta_data_items,
                ChainLength::from_length(maximum_chain_length),
                add_block,
                &mut self.persistence_domain,
            );
            proof {
                self.lemma_seeding_step(former, block_index as int, maximum_chain_length as int);
            }
            block_index += maximum_chain_length;
        }
        let odd_length_chain: usize = number_of_blocks - block_index;
        if odd_length_chain != 0 {
            let ghost former = *self;
            let add_block: BlockPointer = BlockPointer::new(block_index as u32);
            self.bags.add(
                &mut self.block_meta_data_items,
                ChainLength::from_length(odd_length_chain),
                add_block,
                &mut self.persistence_domain,
            );
            proof {
                self.lemma_seeding_step(former, block_index as int, odd_length_chain as int);
            }
        }
        proof {
            assert forall|index: int|
                0 <= index < self.number_of_blocks && !is_allocated_head(self.words(), index) implies #[trigger] self.block_meta_data_items.next_chain_at(
                index,
            ) == BlockPointer::null() by {}
        }
    }

    /// What putting one more chain into a bag keeps, while the allocator is made.
    proof fn lemma_seeding_step(&self, former: BlockAllocator, block_index: int, chain_length: int)
        requires
            0 <= block_index,
            1 <= chain_length <= self.maximum_chain_length(),
            block_index + chain_length <= self.number_of_blocks,
            chain_length == self.maximum_chain_length() || block_index + chain_length == self.number_of_blocks,
            former.block_meta_data_items.count() == self.number_of_blocks,
            former.number_of_blocks == self.number_of_blocks,
            is_tiled(former.words(), block_index, self.maximum_chain_length() as int),
            self.block_meta_data_items.differs_only_at(&former.block_meta_data_items, block_index),
            self.block_meta_data_items.length_at(block_index) == chain_length,
            self.block_meta_data_items.stripe_at(block_index) is Some,
            self.block_meta_data_items.next_chain_at(block_index) == former.block_meta_data_items.next_chain_at(block_index),
            former.block_meta_data_items.is_laid_out(),
            self.bags.lies_where(&former.bags),
            former.bags.lies_at(self.address() + OFFSET_TO_BAGS),
            former.is_seeded_up_to(block_index),
            forall|index: int|
                0 <= index < block_index && is_head(former.words(), index) ==> #[trigger] former.chain_length_at(index)
                    == self.maximum_chain_length(),
            forall|index: int|
                0 <= index < self.number_of_blocks ==> #[trigger] former.block_meta_data_items.next_chain_at(index) == BlockPointer::null(),
            forall|index: int|
                block_index <= index < self.number_of_blocks ==> #[trigger] former.block_meta_data_items.stripe_at(index)
                    is None,
        ensures
            is_tiled(self.words(), block_index + chain_length, self.maximum_chain_length() as int),
            self.is_seeded_up_to(block_index + chain_length),
            self.block_meta_data_items.is_laid_out(),
            self.bags.lies_at(self.address() + OFFSET_TO_BAGS),
            forall|index: int|
                0 <= index < block_index + chain_length && is_head(self.words(), index) ==> #[trigger] self.chain_length_at(
                    index,
                ) == (if index == block_index {
                    chain_length as nat
                } else {
                    self.maximum_chain_length()
                }),
            forall|index: int|
                0 <= index < self.number_of_blocks ==> #[trigger] self.block_meta_data_items.next_chain_at(index) == BlockPointer::null(),
            forall|index: int|
                block_index + chain_length <= index < self.number_of_blocks
                    ==> #[trigger] self.block_meta_data_items.stripe_at(index) is None,
    {
        let after = self.block_meta_data_items;
        let before = former.block_meta_data_items;
        let former_bags = former.bags;
        assert forall|index: int| 0 <= index < before.count() && index != block_index implies #[trigger] after.words()[index]
            == before.words()[index] by {
            assert(after.items@[index] == before.items@[index]);
        }
        lemma_chain_appended_keeps_tiling(
            before.words(),
            after.words(),
            block_index,
            self.maximum_chain_length() as int,
            chain_length,
        );
        assert forall|index: int| 0 <= index < block_index + chain_length && is_head(self.words(), index) implies {
            &&& #[trigger] is_free_head(self.words(), index)
            &&& (self.chain_length_at(index) == self.maximum_chain_length() || index + self.chain_length_at(index)
                == self.number_of_blocks)
        } by {
            if index != block_index {
                assert(after.items@[index] == before.items@[index]);
                assert(after.words()[index] == before.words()[index]);
                if index > block_index {
                    assert(before.words()[index].length() == 0);
                } else {
                    assert(is_free_head(former.words(), index));
                    assert(former.chain_length_at(index) == self.maximum_chain_length());
                }
            }
        }
        assert forall|index: int|
            0 <= index < block_index + chain_length && is_head(self.words(), index) implies #[trigger] self.chain_length_at(
            index,
        ) == (if index == block_index {
            chain_length as nat
        } else {
            self.maximum_chain_length()
        }) by {
            if index != block_index {
                assert(after.items@[index] == before.items@[index]);
                assert(after.words()[index] == before.words()[index]);
                if index > block_index {
                    assert(before.words()[index].length() == 0);
                } else {
                    assert(former.chain_length_at(index) == self.maximum_chain_length());
                }
            }
        }
        assert forall|index: int| 0 <= index < self.number_of_blocks implies #[trigger] self.block_meta_data_items.next_chain_at(index)
            == BlockPointer::null() by {
            if index != block_index {
                assert(after.items@[index] == before.items@[index]);
            }
            assert(former.block_meta_data_items.next_chain_at(index) == BlockPointer::null());
        }
        assert forall|index: int|
            block_index + chain_length <= index < self.number_of_blocks implies #[trigger] self.block_meta_data_items.stripe_at(
            index,
        ) is None by {
            assert(after.items@[index] == before.items@[index]);
            assert(former.block_meta_data_items.stripe_at(index) is None);
        }
        assert forall|index: int| 0 <= index < after.items@.len() implies (#[trigger] after.items@[index]).lies_at(
            after.inclusive_start_pointer + crate::block_allocator::block_meta_data::SIZE_OF_BLOCK_META_DATA * index,
        ) by {
            assert(after.items@[index].lies_where(&before.items@[index]));
            assert(before.items@[index].lies_at(
                before.inclusive_start_pointer + crate::block_allocator::block_meta_data::SIZE_OF_BLOCK_META_DATA * index,
            ));
        }
        assert forall|index: int| 0 <= index < self.bags.bags@.len() implies (#[trigger] self.bags.bags@[index]).lies_at(
            self.address() + OFFSET_TO_BAGS + crate::block_allocator::bag::SIZE_OF_BAG * index,
        ) by {
            assert(self.bags.bags@[index].lies_where(&former_bags.bags@[index]));
            assert(former_bags.bags@[index].lies_at(
                self.address() + OFFSET_TO_BAGS + crate::block_allocator::bag::SIZE_OF_BAG * index,
            ));
            let bag = self.bags.bags@[index];
            assert forall|stripe: int| 0 <= stripe < bag.stripes@.len() implies (#[trigger] bag.stripes@[stripe]).address()
                == self.address() + OFFSET_TO_BAGS + crate::block_allocator::bag::SIZE_OF_BAG * index
                + crate::block_allocator::bag::SIZE_OF_BLOCK_POINTER * stripe by {
                assert(former_bags.bags@[index].stripes@[stripe].address() == self.address() + OFFSET_TO_BAGS
                    + crate::block_allocator::bag::SIZE_OF_BAG * index
                    + crate::block_allocator::bag::SIZE_OF_BLOCK_POINTER * stripe);
            }
        }
    }
}

} // verus!
