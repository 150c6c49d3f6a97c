use crate::alignment::checked_round_up_to_alignment;
use crate::alignment::is_power_of_two;
use crate::alignment::lemma_rounded_up_to_alignment;
use crate::alignment::rounded_up_to_alignment;
use crate::alignment::Alignment;
use crate::block_allocator::bag::SIZE_OF_BAG;
use crate::block_allocator::bags::Bags;
use crate::block_allocator::block_meta_data::BlockMetaData;
use crate::block_allocator::block_meta_data::BlockMetaDataItems;
use crate::block_allocator::block_meta_data::SIZE_OF_BLOCK_META_DATA;
use crate::block_allocator::block_pointer::BlockPointer;
use crate::block_allocator::block_pointer::INCLUSIVE_MAXIMUM_NUMBER_OF_BLOCKS;
use crate::block_allocator::block_size::BlockSize;
use crate::block_allocator::chain_length::ChainLengthAndBagStripeIndex;
use crate::block_allocator::chain_length::INCLUSIVE_MAXIMUM_CHAIN_LENGTH;
use crate::block_allocator::tiling::blocks_counted;
use crate::block_allocator::tiling::is_allocated_head;
use crate::block_allocator::tiling::is_free_head;
use crate::block_allocator::tiling::is_tiled;
use crate::persistent_memory_operations::persistence_domain::PersistenceDomain;
use vstd::prelude::*;

verus! {

/// The alignment of the header, of the blocks and of the meta data of a block allocator.
pub const ALIGNMENT: usize = 4096;

/// Offset, from the start of the header, of the bags. Before them lie the version, the block size,
/// the number of blocks, and the offsets of the blocks and of the meta data.
pub const OFFSET_TO_BAGS: usize = 32;

/// The size of the header: what lies before the bags, and a bag for each chain length.
pub const SIZE_OF_HEADER: usize = 65568;

/// Offset, from the start of the header, of the blocks: the size of the header, rounded up to the alignment.
pub const OFFSET_TO_START_OF_VARIABLE_LENGTH_MEMORY: usize = 69632;

/// A block allocator over a region of persistent memory.
///
/// The region holds a header, then the blocks, then the meta data of the blocks. The header holds
/// the free list: a bag for each chain length.
pub struct BlockAllocator {
    /// How many blocks there are.
    pub number_of_blocks: usize,
    /// The size of each block.
    pub block_size: BlockSize,
    /// The address of the first block.
    pub blocks_memory_inclusive_start_pointer: usize,
    /// The address after the last block.
    pub blocks_memory_exclusive_end_pointer: usize,
    /// The free list.
    pub bags: Bags,
    /// The bytes of the blocks.
    pub blocks_memory: Vec<u8>,
    /// The meta data of the blocks.
    pub block_meta_data_items: BlockMetaDataItems,
    /// What has not reached persistent memory yet. Not persistent.
    pub persistence_domain: PersistenceDomain,
    /// The hyper thread that uses the allocator. Not persistent.
    pub hyper_thread: usize,
}

impl BlockAllocator {
    /// The size in bytes of a block allocator of `number_of_blocks` blocks of `block_size`: the
    /// header, the blocks and the meta data, each rounded up to the alignment but the last.
    pub open spec fn spec_size_of(number_of_blocks: int, block_size: BlockSize) -> int {
        OFFSET_TO_START_OF_VARIABLE_LENGTH_MEMORY + rounded_up_to_alignment(
            block_size.bytes() * number_of_blocks,
            ALIGNMENT as int,
        ) + BlockMetaDataItems::spec_size_of(number_of_blocks)
    }

    /// The number of blocks of `block_size` that a region of `memory_capacity_available_in_bytes`
    /// bytes is reckoned to hold. The reckoning is made for blocks of 4096 bytes, each with its meta
    /// data, and scaled to the block size.
    pub open spec fn spec_maximum_number_of_blocks(memory_capacity_available_in_bytes: int, block_size: BlockSize) -> int {
        if memory_capacity_available_in_bytes <= OFFSET_TO_START_OF_VARIABLE_LENGTH_MEMORY {
            0
        } else {
            let reckoned = ((memory_capacity_available_in_bytes - OFFSET_TO_START_OF_VARIABLE_LENGTH_MEMORY) / (4096int
                + SIZE_OF_BLOCK_META_DATA as int)) * (4096int / block_size.bytes() as int);
            if reckoned <= INCLUSIVE_MAXIMUM_NUMBER_OF_BLOCKS {
                reckoned
            } else {
                INCLUSIVE_MAXIMUM_NUMBER_OF_BLOCKS as int
            }
        }
    }

    /// The address of the header.
    pub open spec fn address(&self) -> int {
        self.blocks_memory_inclusive_start_pointer - OFFSET_TO_START_OF_VARIABLE_LENGTH_MEMORY
    }

    /// The length of the longest chain that this allocator makes.
    pub open spec fn maximum_chain_length(&self) -> nat {
        self.bags.maximum_chain_length()
    }

    /// The packed word of the meta data of each block.
    pub open spec fn words(&self) -> Seq<ChainLengthAndBagStripeIndex> {
        self.block_meta_data_items.words()
    }

    /// The chain length of the block at `index`: zero for a block that is not the head of a chain.
    pub open spec fn chain_length_at(&self, index: int) -> nat {
        self.block_meta_data_items.length_at(index)
    }

    /// The head of the chain after the chain headed by the block at `index`, in an allocation of several chains.
    pub open spec fn next_chain_at(&self, index: int) -> BlockPointer {
        self.block_meta_data_items.next_chain_at(index)
    }

    /// Does the block at `index` head a chain in a bag?
    pub open spec fn is_free_chain(&self, index: int) -> bool {
        0 <= index < self.number_of_blocks && is_free_head(self.words(), index)
    }

    /// Does the block at `index` head a chain that a caller owns?
    pub open spec fn is_allocated_chain(&self, index: int) -> bool {
        0 <= index < self.number_of_blocks && is_allocated_head(self.words(), index)
    }

    /// The blocks in each stripe of each bag.
    pub open spec fn free_lists(&self) -> Seq<Seq<Seq<u32>>> {
        self.bags.free_lists()
    }

    /// The number of blocks in the chains that are in bags.
    pub open spec fn free_blocks(&self) -> nat {
        blocks_counted(self.words(), self.number_of_blocks as int, true)
    }

    /// The number of blocks in the chains that callers own.
    pub open spec fn spec_blocks_in_use(&self) -> nat {
        blocks_counted(self.words(), self.number_of_blocks as int, false)
    }

    /// Do the header, the blocks and the meta data lie one after the other, each at the alignment?
    pub open spec fn is_laid_out(&self) -> bool {
        &&& 1 <= self.number_of_blocks <= INCLUSIVE_MAXIMUM_NUMBER_OF_BLOCKS
        &&& self.blocks_memory_inclusive_start_pointer >= OFFSET_TO_START_OF_VARIABLE_LENGTH_MEMORY
        &&& self.address() % (ALIGNMENT as int) == 0
        &&& self.blocks_memory_exclusive_end_pointer == self.blocks_memory_inclusive_start_pointer
            + self.block_size.bytes() * self.number_of_blocks
        &&& self.block_meta_data_items.inclusive_start_pointer == rounded_up_to_alignment(
            self.blocks_memory_exclusive_end_pointer as int,
            ALIGNMENT as int,
        )
        &&& self.block_meta_data_items.count() == self.number_of_blocks
        &&& self.block_meta_data_items.is_laid_out()
        &&& self.blocks_memory@.len() == self.block_size.bytes() * self.number_of_blocks
        &&& self.bags.lies_at(self.address() + OFFSET_TO_BAGS)
    }

    /// Is the allocator over the same region as `other`, with the same division into blocks, used
    /// by the same hyper thread of the same processor?
    pub open spec fn is_bound_like(&self, other: &BlockAllocator) -> bool {
        &&& self.number_of_blocks == other.number_of_blocks
        &&& self.block_size == other.block_size
        &&& self.blocks_memory_inclusive_start_pointer == other.blocks_memory_inclusive_start_pointer
        &&& self.blocks_memory_exclusive_end_pointer == other.blocks_memory_exclusive_end_pointer
        &&& self.block_meta_data_items.inclusive_start_pointer == other.block_meta_data_items.inclusive_start_pointer
        &&& self.block_meta_data_items.count() == other.block_meta_data_items.count()
        &&& self.maximum_chain_length() == other.maximum_chain_length()
        &&& self.hyper_thread == other.hyper_thread
        &&& self.persistence_domain.instruction() == other.persistence_domain.instruction()
    }

    /// Do the heads of the bags and the meta data lie where those of `other` lie?
    pub open spec fn lies_where(&self, other: &BlockAllocator) -> bool {
        &&& self.bags.lies_where(&other.bags)
        &&& self.block_meta_data_items.is_laid_out_like(&other.block_meta_data_items)
    }

    /// An allocator that is bound like a laid out one, and lies where it lies, is laid out,
    /// where it has the bytes of as many blocks.
    pub proof fn lemma_stays_laid_out(&self, former: &BlockAllocator)
        requires
            former.is_laid_out(),
            self.is_bound_like(former),
            self.lies_where(former),
            self.blocks_memory@.len() == former.blocks_memory@.len(),
        ensures
            self.is_laid_out(),
    {
        let after = self.block_meta_data_items;
        let before = former.block_meta_data_items;
        assert forall|index: int| 0 <= index < after.items@.len() implies (#[trigger] after.items@[index]).lies_at(
            after.inclusive_start_pointer + SIZE_OF_BLOCK_META_DATA * index,
        ) by {
            assert(after.items@[index].lies_where(&before.items@[index]));
            assert(before.items@[index].lies_at(before.inclusive_start_pointer + SIZE_OF_BLOCK_META_DATA * index));
        }
        assert forall|index: int| 0 <= index < self.bags.bags@.len() implies (#[trigger] self.bags.bags@[index]).lies_at(
            self.address() + OFFSET_TO_BAGS + SIZE_OF_BAG * index,
        ) by {
            assert(self.bags.bags@[index].lies_where(&former.bags.bags@[index]));
            assert(former.bags.bags@[index].lies_at(self.address() + OFFSET_TO_BAGS + SIZE_OF_BAG * index));
            let bag = self.bags.bags@[index];
            assert forall|stripe: int| 0 <= stripe < bag.stripes@.len() implies (#[trigger] bag.stripes@[stripe]).address()
                == self.address() + OFFSET_TO_BAGS + SIZE_OF_BAG * index
                + crate::block_allocator::bag::SIZE_OF_BLOCK_POINTER * stripe by {
                assert(former.bags.bags@[index].stripes@[stripe].address() == self.address() + OFFSET_TO_BAGS
                    + SIZE_OF_BAG * index + crate::block_allocator::bag::SIZE_OF_BLOCK_POINTER * stripe);
            }
        }
    }

    /// Is every block that does not head an allocated chain without a next chain?
    pub open spec fn only_allocated_chains_are_linked(&self) -> bool {
        forall|index: int|
            0 <= index < self.number_of_blocks && !is_allocated_head(self.words(), index)
                ==> #[trigger] self.block_meta_data_items.next_chain_at(index) == BlockPointer::null()
    }

    /// Is the region laid out, are the bags well-formed, and are the blocks divided into chains?
    pub open spec fn is_consistent(&self) -> bool {
        &&& self.is_laid_out()
        &&& self.bags.wf(&self.block_meta_data_items)
        &&& is_tiled(self.words(), self.number_of_blocks as int, self.maximum_chain_length() as int)
        &&& self.only_allocated_chains_are_linked()
    }

    /// Is the allocator well-formed? It is where it is consistent and everything has reached
    /// persistent memory.
    pub open spec fn wf(&self) -> bool {
        &&& self.is_consistent()
        &&& self.persistence_domain@.is_quiescent()
    }

    /// Calculate how many blocks can be assigned.
    /// Returns 0 (zero) if nothing is possible.
    pub fn maximum_number_of_blocks(memory_capacity_available_in_bytes: usize, block_size: BlockSize) -> (number_of_blocks:
        usize)
        ensures
            number_of_blocks == Self::spec_maximum_number_of_blocks(
                memory_capacity_available_in_bytes as int,
                block_size,
            ),
            number_of_blocks <= INCLUSIVE_MAXIMUM_NUMBER_OF_BLOCKS,
    {
        let struct_size: usize = Self::offset_to_start_of_variable_length_memory();
        if memory_capacity_available_in_bytes <= struct_size {
            return 0;
        }
        let number_of_4096_sized_blocks: usize = (memory_capacity_available_in_bytes - struct_size) / (4096
            + SIZE_OF_BLOCK_META_DATA);
        let scalar: usize = 4096 / block_size.as_usize();
        assert(scalar <= 64);
        proof {
            let available = (memory_capacity_available_in_bytes - struct_size) as int;
            vstd::arithmetic::div_mod::lemma_fundamental_div_mod(available, 4112);
            vstd::arithmetic::div_mod::lemma_mod_pos_bound(available, 4112);
            assert(number_of_4096_sized_blocks * scalar <= usize::MAX) by (nonlinear_arith)
                requires
                    available == 4112 * (number_of_4096_sized_blocks as int) + available % 4112,
                    0 <= available % 4112,
                    available <= usize::MAX,
                    0 <= scalar <= 64,
                    number_of_4096_sized_blocks >= 0,
            ;
        }
        let number_of_blocks: usize = number_of_4096_sized_blocks * scalar;
        if number_of_blocks <= INCLUSIVE_MAXIMUM_NUMBER_OF_BLOCKS {
            number_of_blocks
        } else {
            INCLUSIVE_MAXIMUM_NUMBER_OF_BLOCKS
        }
    }

    /// Size of this object: the header, the blocks and their meta data.
    pub fn size_of(number_of_blocks: usize, block_size: BlockSize) -> (size: usize)
        requires
            Self::spec_size_of(number_of_blocks as int, block_size) <= usize::MAX,
        ensures
            size == Self::spec_size_of(number_of_blocks as int, block_size),
    {
        proof {
            Self::lemma_size_of_parts(number_of_blocks as int, block_size);
        }
        let aligned_struct: usize = Self::offset_to_start_of_variable_length_memory();
        let blocks_capacity: usize = Self::blocks_capacity(number_of_blocks, block_size).round_up_to_alignment(
            ALIGNMENT,
        );
        let meta_data: usize = BlockMetaDataItems::size_of(number_of_blocks);
        aligned_struct + blocks_capacity + meta_data
    }

    /// Size of this object, or `None` where it is more than a `usize` holds.
    pub fn checked_size_of(number_of_blocks: usize, block_size: BlockSize) -> (size: Option<usize>)
        ensures
            size is Some <==> Self::spec_size_of(number_of_blocks as int, block_size) <= usize::MAX,
            size is Some ==> size->Some_0 == Self::spec_size_of(number_of_blocks as int, block_size),
    {
        proof {
            Self::lemma_size_of_parts(number_of_blocks as int, block_size);
        }
        let blocks_capacity: usize = match block_size.as_usize().checked_mul(number_of_blocks) {
            Some(blocks_capacity) => blocks_capacity,
            None => {
                return None;
            },
        };
        let aligned_blocks_capacity: usize = match checked_round_up_to_alignment(blocks_capacity, ALIGNMENT) {
            Some(aligned_blocks_capacity) => aligned_blocks_capacity,
            None => {
                return None;
            },
        };
        let meta_data: usize = match SIZE_OF_BLOCK_META_DATA.checked_mul(number_of_blocks) {
            Some(meta_data) => meta_data,
            None => {
                return None;
            },
        };
        match Self::offset_to_start_of_variable_length_memory().checked_add(aligned_blocks_capacity) {
            Some(size) => size.checked_add(meta_data),
            None => None,
        }
    }

    /// Can a block allocator of `number_of_blocks` blocks of `block_size` be made at the first
    /// aligned address from `unaligned_address` on, as far as the addresses go that a `usize` holds?
    pub fn can_be_made_at(unaligned_address: usize, number_of_blocks: usize, block_size: BlockSize) -> (fits: bool)
        ensures
            fits == (unaligned_address + ALIGNMENT + Self::spec_size_of(number_of_blocks as int, block_size)
                <= usize::MAX),
    {
        match Self::checked_size_of(number_of_blocks, block_size) {
            None => false,
            Some(size) => match size.checked_add(ALIGNMENT) {
                None => false,
                Some(size) => unaligned_address <= usize::MAX - size,
            },
        }
    }

    /// None of the parts of the size of a block allocator is larger than the whole.
    pub proof fn lemma_size_of_parts(number_of_blocks: int, block_size: BlockSize)
        requires
            number_of_blocks >= 0,
        ensures
            is_power_of_two(ALIGNMENT),
            0 <= block_size.bytes() * number_of_blocks <= rounded_up_to_alignment(
                block_size.bytes() * number_of_blocks,
                ALIGNMENT as int,
            ) <= Self::spec_size_of(number_of_blocks, block_size),
            0 <= BlockMetaDataItems::spec_size_of(number_of_blocks) <= Self::spec_size_of(
                number_of_blocks,
                block_size,
            ),
            number_of_blocks <= block_size.bytes() * number_of_blocks,
    {
        assert(is_power_of_two(4096usize)) by (bit_vector);
        assert(block_size.bytes() * number_of_blocks >= number_of_blocks) by (nonlinear_arith)
            requires
                number_of_blocks >= 0,
                block_size.bytes() >= 64,
        ;
        lemma_rounded_up_to_alignment(block_size.bytes() * number_of_blocks, ALIGNMENT as int);
    }

    /// Offset, from the start of the header, of the blocks.
    pub fn offset_to_start_of_variable_length_memory() -> (offset: usize)
        ensures
            offset == OFFSET_TO_START_OF_VARIABLE_LENGTH_MEMORY,
            offset == rounded_up_to_alignment(SIZE_OF_HEADER as int, ALIGNMENT as int),
            SIZE_OF_HEADER == OFFSET_TO_BAGS + SIZE_OF_BAG * INCLUSIVE_MAXIMUM_CHAIN_LENGTH,
    {
        assert(is_power_of_two(4096usize)) by (bit_vector);
        SIZE_OF_HEADER.round_up_to_alignment(ALIGNMENT)
    }

    /// The number of bytes that `number_of_blocks` blocks of `block_size` occupy.
    pub fn blocks_capacity(number_of_blocks: usize, block_size: BlockSize) -> (capacity: usize)
        requires
            block_size.bytes() * number_of_blocks <= usize::MAX,
        ensures
            capacity == block_size.bytes() * number_of_blocks,
    {
        block_size.total_memory_required_in_bytes(number_of_blocks)
    }

    /// The meta data of the blocks.
    pub fn block_meta_data_items(&self) -> (block_meta_data_items: &BlockMetaDataItems)
        ensures
            *block_meta_data_items == self.block_meta_data_items,
    {
        &self.block_meta_data_items
    }

    /// The meta data of the block that `block_pointer` points to.
    pub fn block_meta_data_unchecked(&self, block_pointer: BlockPointer) -> (block_meta_data: &BlockMetaData)
        requires
            block_pointer.index() < self.block_meta_data_items.count(),
        ensures
            *block_meta_data == self.block_meta_data_items.items@[block_pointer.index()],
    {
        block_pointer.expand_to_pointer_to_meta_data_unchecked(self.block_meta_data_items())
    }

    /// The meta data of the blocks, to change it.
    pub fn block_meta_data_items_mut(&mut self) -> (block_meta_data_items: &mut BlockMetaDataItems)
        ensures
            *block_meta_data_items == old(self).block_meta_data_items,
            *final(self) == (BlockAllocator { block_meta_data_items: *final(block_meta_data_items), ..*old(self) }),
    {
        &mut self.block_meta_data_items
    }
}

} // verus!
