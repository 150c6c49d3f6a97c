use crate::block_allocator::atomic_block_pointer::AtomicBlockPointer;
use crate::block_allocator::block_pointer::BlockPointer;
use crate::block_allocator::chain_length::ChainLength;
use crate::block_allocator::chain_length::ChainLengthAndBagStripeIndex;
use crate::block_allocator::chain_length::INCLUSIVE_MAXIMUM_CHAIN_LENGTH;
use crate::block_allocator::chain_length::NOT_IN_A_BAG;
use crate::intrinsics::start_of_cache_line;
use crate::persistent_memory_operations::atomic_persistent_memory::AtomicPersistentMemory;
use crate::persistent_memory_operations::persistence_domain::PersistenceDomain;
use crate::persistent_memory_operations::persistent_atomic_u32::PersistentAtomicU32;
use crate::persistent_memory_operations::persistent_fence::persistent_fence;
use vstd::prelude::*;

verus! {

/// The number of bytes that the meta data of one block occupies: three words of four bytes, aligned to 16.
pub const SIZE_OF_BLOCK_META_DATA: usize = 16;

/// Offset of the pointer to the next block in the bag stripe, from the start of the meta data.
pub const OFFSET_OF_NEXT_IN_BAG: usize = 4;

/// Offset of the pointer to the next chain of an allocation, from the start of the meta data.
pub const OFFSET_OF_NEXT_CHAIN: usize = 8;

/// The meta data of one block.
#[derive(Debug, Copy, Clone, PartialEq, Eq, Hash)]
pub struct BlockMetaData {
    /// The chain length and the index of the bag stripe, packed into one word.
    /// The chain length is zero for a block that is not the head of a chain.
    pub chain_length_and_bag_stripe_index: PersistentAtomicU32,
    /// While the block is in a bag, the next block in its stripe.
    pub next_in_bag: AtomicBlockPointer,
    /// While the block heads a chain of an allocation of several chains, the head of the next chain.
    pub next_chain: AtomicBlockPointer,
}

impl BlockMetaData {
    /// The packed word.
    pub open spec fn word(&self) -> ChainLengthAndBagStripeIndex {
        ChainLengthAndBagStripeIndex(self.chain_length_and_bag_stripe_index.value)
    }

    /// The chain length: zero for a block that is not the head of a chain.
    pub open spec fn length(&self) -> nat {
        self.word().length()
    }

    /// The stripe that holds the block, or `None` for a block that is not in a bag.
    pub open spec fn stripe(&self) -> Option<nat> {
        self.word().stripe()
    }

    /// Does the block head a chain that is not in a bag, that is, a chain that a caller owns?
    pub open spec fn heads_allocated_chain(&self) -> bool {
        self.length() > 0 && self.stripe() is None
    }

    /// Does the meta data lie at `address`?
    pub open spec fn lies_at(&self, address: int) -> bool {
        &&& self.chain_length_and_bag_stripe_index.address == address
        &&& self.next_in_bag.address() == address + OFFSET_OF_NEXT_IN_BAG
        &&& self.next_chain.address() == address + OFFSET_OF_NEXT_CHAIN
    }

    /// Does the meta data lie where `other` lies?
    pub open spec fn lies_where(&self, other: &BlockMetaData) -> bool {
        &&& self.chain_length_and_bag_stripe_index.address == other.chain_length_and_bag_stripe_index.address
        &&& self.next_in_bag.address() == other.next_in_bag.address()
        &&& self.next_chain.address() == other.next_chain.address()
    }

    /// The line of the cache that holds the packed word.
    pub open spec fn word_line(&self) -> usize {
        start_of_cache_line(self.chain_length_and_bag_stripe_index.address)
    }

    /// The line of the cache that holds the pointer to the next block in the bag stripe.
    pub open spec fn next_in_bag_line(&self) -> usize {
        start_of_cache_line(self.next_in_bag.address())
    }

    /// The line of the cache that holds the pointer to the next chain.
    pub open spec fn next_chain_line(&self) -> usize {
        start_of_cache_line(self.next_chain.address())
    }

    /// The meta data, at `address`, of a block that is not the head of a chain and not in a bag.
    pub fn new(address: usize) -> (block_meta_data: Self)
        requires
            address + SIZE_OF_BLOCK_META_DATA <= usize::MAX,
        ensures
            block_meta_data.lies_at(address as int),
            block_meta_data.length() == 0,
            block_meta_data.stripe() is None,
            block_meta_data.next_in_bag.pointer() == BlockPointer::null(),
            block_meta_data.next_chain.pointer() == BlockPointer::null(),
    {
        BlockMetaData {
            chain_length_and_bag_stripe_index: PersistentAtomicU32::new(
                address,
                ChainLengthAndBagStripeIndex::not_a_head().0,
            ),
            next_in_bag: AtomicBlockPointer::new(address + OFFSET_OF_NEXT_IN_BAG),
            next_chain: AtomicBlockPointer::new(address + OFFSET_OF_NEXT_CHAIN),
        }
    }

    /// Loads the packed word with acquire ordering.
    pub fn chain_length_and_bag_stripe_index(&self, domain: &mut PersistenceDomain) -> (word:
        ChainLengthAndBagStripeIndex)
        ensures
            word == self.word(),
            final(domain)@ == old(domain)@.load_acquire(self.word_line()),
            final(domain).instruction() == old(domain).instruction(),
            old(domain)@.is_written_back() ==> final(domain)@.is_quiescent(),
    {
        ChainLengthAndBagStripeIndex(self.chain_length_and_bag_stripe_index.persistent_load_acquire(domain))
    }

    /// The chain length of a block that is the head of a chain.
    pub fn chain_length(&self, domain: &mut PersistenceDomain) -> (chain_length: ChainLength)
        ensures
            chain_length.0 == self.length(),
            final(domain)@ == old(domain)@.load_acquire(self.word_line()),
            final(domain).instruction() == old(domain).instruction(),
            old(domain)@.is_written_back() ==> final(domain)@.is_quiescent(),
    {
        ChainLength(self.chain_length_and_bag_stripe_index(domain).chain_length())
    }

    /// Makes the block the head of a chain of `chain_length` blocks that is not in a bag:
    /// a store of the packed word with release ordering, and a write-back.
    pub fn acquire(&mut self, chain_length: ChainLength, domain: &mut PersistenceDomain)
        requires
            chain_length.0 <= INCLUSIVE_MAXIMUM_CHAIN_LENGTH,
        ensures
            final(self).length() == chain_length.0,
            final(self).stripe() is None,
            final(self).next_in_bag == old(self).next_in_bag,
            final(self).next_chain == old(self).next_chain,
            final(self).lies_where(old(self)),
            final(domain)@ == old(domain)@.store_release(old(self).word_line()),
            final(domain).instruction() == old(domain).instruction(),
            old(domain)@.is_written_back() ==> final(domain)@.is_written_back(),
    {
        self.chain_length_and_bag_stripe_index.persistent_store_release(
            ChainLengthAndBagStripeIndex::not_in_a_bag(chain_length.0).0,
            domain,
        );
    }

    /// Makes the block a block that is not the head of a chain, as when its chain is merged
    /// onto the end of the chain before it.
    pub fn release(&mut self, domain: &mut PersistenceDomain)
        ensures
            final(self).length() == 0,
            final(self).stripe() is None,
            final(self).next_in_bag == old(self).next_in_bag,
            final(self).next_chain == old(self).next_chain,
            final(self).lies_where(old(self)),
            final(domain)@ == old(domain)@.store_release(old(self).word_line()),
            final(domain).instruction() == old(domain).instruction(),
            old(domain)@.is_written_back() ==> final(domain)@.is_written_back(),
    {
        self.chain_length_and_bag_stripe_index.persistent_store_release(
            ChainLengthAndBagStripeIndex::not_a_head().0,
            domain,
        );
    }

    /// Makes the block the head of a chain of `chain_length` blocks in the stripe `bag_stripe_index`
    /// of the bag for that length: a store of the packed word with release ordering, and a write-back.
    pub fn enter_bag(&mut self, chain_length: ChainLength, bag_stripe_index: usize, domain: &mut PersistenceDomain)
        requires
            chain_length.0 <= INCLUSIVE_MAXIMUM_CHAIN_LENGTH,
            bag_stripe_index < NOT_IN_A_BAG,
        ensures
            final(self).length() == chain_length.0,
            final(self).stripe() == Some(bag_stripe_index as nat),
            final(self).next_in_bag == old(self).next_in_bag,
            final(self).next_chain == old(self).next_chain,
            final(self).lies_where(old(self)),
            final(domain)@ == old(domain)@.store_release(old(self).word_line()),
            final(domain).instruction() == old(domain).instruction(),
            old(domain)@.is_written_back() ==> final(domain)@.is_written_back(),
    {
        self.chain_length_and_bag_stripe_index.persistent_store_release(
            ChainLengthAndBagStripeIndex::in_a_bag(chain_length.0, bag_stripe_index).0,
            domain,
        );
    }

    /// Marks the block as not in a bag and keeps its chain length: a store of the packed word with
    /// release ordering, a write-back, and a fence.
    pub fn leave_bag(&mut self, domain: &mut PersistenceDomain)
        ensures
            final(self).length() == old(self).length(),
            final(self).stripe() is None,
            final(self).next_in_bag == old(self).next_in_bag,
            final(self).next_chain == old(self).next_chain,
            final(self).lies_where(old(self)),
            final(domain)@ == old(domain)@.store_release(old(self).word_line()).fence(),
            final(domain).instruction() == old(domain).instruction(),
            old(domain)@.is_written_back() ==> final(domain)@.is_quiescent(),
    {
        let chain_length: usize = self.word_now().chain_length();
        self.chain_length_and_bag_stripe_index.persistent_store_release(
            ChainLengthAndBagStripeIndex::not_in_a_bag(chain_length).0,
            domain,
        );
        persistent_fence(domain);
    }

    /// Clears the pointer to the next block in the bag stripe and the pointer to the next chain:
    /// two relaxed stores, each with its write-back.
    pub fn reset_before_add_to_bag(&mut self, domain: &mut PersistenceDomain)
        ensures
            final(self).word() == old(self).word(),
            final(self).next_in_bag.pointer() == BlockPointer::null(),
            final(self).next_chain.pointer() == BlockPointer::null(),
            final(self).lies_where(old(self)),
            final(domain)@ == old(domain)@.store_relaxed(old(self).next_in_bag_line()).store_relaxed(
                old(self).next_chain_line(),
            ),
            final(domain).instruction() == old(domain).instruction(),
            old(domain)@.is_written_back() ==> final(domain)@.is_written_back(),
    {
        self.next_in_bag.0.persistent_store_relaxed(BlockPointer::null_pointer().0, domain);
        self.next_chain.0.persistent_store_relaxed(BlockPointer::null_pointer().0, domain);
    }

    /// Sets the pointer to the next block in the bag stripe: a relaxed store with its write-back.
    pub fn set_next_in_bag(&mut self, next_in_bag: BlockPointer, domain: &mut PersistenceDomain)
        ensures
            final(self).word() == old(self).word(),
            final(self).next_in_bag.pointer() == next_in_bag,
            final(self).next_chain == old(self).next_chain,
            final(self).lies_where(old(self)),
            final(domain)@ == old(domain)@.store_relaxed(old(self).next_in_bag_line()),
            final(domain).instruction() == old(domain).instruction(),
            old(domain)@.is_written_back() ==> final(domain)@.is_written_back(),
    {
        self.next_in_bag.0.persistent_store_relaxed(next_in_bag.0, domain);
    }

    /// Loads the pointer to the next block in the bag stripe with acquire ordering.
    pub fn get_next_in_bag(&self, domain: &mut PersistenceDomain) -> (next_in_bag: BlockPointer)
        ensures
            next_in_bag == self.next_in_bag.pointer(),
            final(domain)@ == old(domain)@.load_acquire(self.next_in_bag_line()),
            final(domain).instruction() == old(domain).instruction(),
            old(domain)@.is_written_back() ==> final(domain)@.is_quiescent(),
    {
        BlockPointer::new(self.next_in_bag.0.persistent_load_acquire(domain))
    }

    /// Sets the pointer to the next chain: a store with release ordering, a write-back, and a fence.
    pub fn set_next_chain(&mut self, next_chain: BlockPointer, domain: &mut PersistenceDomain)
        ensures
            final(self).word() == old(self).word(),
            final(self).next_in_bag == old(self).next_in_bag,
            final(self).next_chain.pointer() == next_chain,
            final(self).lies_where(old(self)),
            final(domain)@ == old(domain)@.store_release(old(self).next_chain_line()).fence(),
            final(domain).instruction() == old(domain).instruction(),
            old(domain)@.is_written_back() ==> final(domain)@.is_quiescent(),
    {
        self.next_chain.0.persistent_store_release(next_chain.0, domain);
        persistent_fence(domain);
    }

    /// Loads the pointer to the next chain with acquire ordering.
    pub fn get_next_chain(&self, domain: &mut PersistenceDomain) -> (next_chain: BlockPointer)
        ensures
            next_chain == self.next_chain.pointer(),
            final(domain)@ == old(domain)@.load_acquire(self.next_chain_line()),
            final(domain).instruction() == old(domain).instruction(),
            old(domain)@.is_written_back() ==> final(domain)@.is_quiescent(),
    {
        BlockPointer::new(self.next_chain.0.persistent_load_acquire(domain))
    }

    /// The packed word, loaded relaxed.
    pub fn word_now(&self) -> (word: ChainLengthAndBagStripeIndex)
        ensures
            word == self.word(),
    {
        ChainLengthAndBagStripeIndex(self.chain_length_and_bag_stripe_index.persistent_load_relaxed())
    }
}

/// The meta data of all blocks, one after the other, indexed by block pointer.
#[derive(Debug, Clone, PartialEq, Eq, Hash)]
pub struct BlockMetaDataItems {
    /// The address at which the meta data of the first block lies.
    pub inclusive_start_pointer: usize,
    /// The meta data of each block.
    pub items: Vec<BlockMetaData>,
}

impl BlockMetaDataItems {
    /// The number of blocks.
    pub open spec fn count(&self) -> int {
        self.items@.len() as int
    }

    /// The chain length of the block at `index`: zero for a block that is not the head of a chain.
    pub open spec fn length_at(&self, index: int) -> nat {
        self.items@[index].length()
    }

    /// The stripe that holds the block at `index`, or `None` where it is not in a bag.
    pub open spec fn stripe_at(&self, index: int) -> Option<nat> {
        self.items@[index].stripe()
    }

    /// The block after the block at `index` in its bag stripe.
    pub open spec fn next_in_bag_at(&self, index: int) -> BlockPointer {
        self.items@[index].next_in_bag.pointer()
    }

    /// The head of the chain after the chain headed by the block at `index`.
    pub open spec fn next_chain_at(&self, index: int) -> BlockPointer {
        self.items@[index].next_chain.pointer()
    }

    /// Does the meta data of each block lie where the layout puts it?
    pub open spec fn is_laid_out(&self) -> bool {
        &&& self.inclusive_start_pointer + SIZE_OF_BLOCK_META_DATA * self.items@.len() <= usize::MAX
        &&& forall|index: int|
            0 <= index < self.items@.len() ==> (#[trigger] self.items@[index]).lies_at(
                self.inclusive_start_pointer + SIZE_OF_BLOCK_META_DATA * index,
            )
    }

    /// Do the two hold the meta data of as many blocks at the same places?
    pub open spec fn is_laid_out_like(&self, other: &BlockMetaDataItems) -> bool {
        &&& self.inclusive_start_pointer == other.inclusive_start_pointer
        &&& self.items@.len() == other.items@.len()
        &&& forall|index: int|
            0 <= index < self.items@.len() ==> (#[trigger] self.items@[index]).lies_where(&other.items@[index])
    }

    /// Is the meta data of every block but the one at `index` the same in both?
    pub open spec fn differs_only_at(&self, other: &BlockMetaDataItems, index: int) -> bool {
        &&& self.is_laid_out_like(other)
        &&& forall|other_index: int|
            0 <= other_index < self.items@.len() && other_index != index ==> #[trigger] self.items@[other_index]
                == other.items@[other_index]
    }

    /// Do the two agree on the packed word and on the next chain of every block but the one at `index`?
    pub open spec fn agrees_except_at(&self, other: &BlockMetaDataItems, index: int) -> bool {
        &&& self.is_laid_out_like(other)
        &&& forall|other_index: int|
            0 <= other_index < self.items@.len() && other_index != index ==> {
                &&& (#[trigger] self.items@[other_index]).word() == other.items@[other_index].word()
                &&& self.items@[other_index].next_chain == other.items@[other_index].next_chain
            }
    }

    /// The size in bytes of the meta data of `number_of_blocks` blocks.
    pub open spec fn spec_size_of(number_of_blocks: int) -> int {
        SIZE_OF_BLOCK_META_DATA * number_of_blocks
    }

    /// The size in bytes of the meta data of `number_of_blocks` blocks.
    pub fn size_of(number_of_blocks: usize) -> (size: usize)
        requires
            Self::spec_size_of(number_of_blocks as int) <= usize::MAX,
        ensures
            size == Self::spec_size_of(number_of_blocks as int),
    {
        SIZE_OF_BLOCK_META_DATA * number_of_blocks
    }

    /// The meta data, starting at `inclusive_start_pointer`, of `number_of_blocks` blocks of which
    /// none is the head of a chain and none is in a bag.
    pub fn initialize(inclusive_start_pointer: usize, number_of_blocks: usize) -> (block_meta_data_items: Self)
        requires
            inclusive_start_pointer + SIZE_OF_BLOCK_META_DATA * number_of_blocks <= usize::MAX,
        ensures
            block_meta_data_items.inclusive_start_pointer == inclusive_start_pointer,
            block_meta_data_items.count() == number_of_blocks,
            block_meta_data_items.is_laid_out(),
            forall|index: int|
                0 <= index < number_of_blocks ==> {
                    &&& #[trigger] block_meta_data_items.length_at(index) == 0
                    &&& block_meta_data_items.stripe_at(index) is None
                    &&& block_meta_data_items.next_in_bag_at(index) == BlockPointer::null()
                    &&& block_meta_data_items.next_chain_at(index) == BlockPointer::null()
                },
    {
        let mut items: Vec<BlockMetaData> = Vec::new();
        let mut index: usize = 0;
        while index < number_of_blocks
            invariant
                index <= number_of_blocks,
                inclusive_start_pointer + SIZE_OF_BLOCK_META_DATA * number_of_blocks <= usize::MAX,
                items@.len() == index,
                forall|other: int|
                    0 <= other < index ==> {
                        &&& (#[trigger] items@[other]).lies_at(
                            inclusive_start_pointer + SIZE_OF_BLOCK_META_DATA * other,
                        )
                        &&& items@[other].length() == 0
                        &&& items@[other].stripe() is None
                        &&& items@[other].next_in_bag.pointer() == BlockPointer::null()
                        &&& items@[other].next_chain.pointer() == BlockPointer::null()
                    },
            decreases number_of_blocks - index,
        {
            items.push(BlockMetaData::new(inclusive_start_pointer + SIZE_OF_BLOCK_META_DATA * index));
            index += 1;
        }
        BlockMetaDataItems { inclusive_start_pointer, items }
    }

    /// The meta data of the block at `index`.
    pub fn get_unchecked(&self, index: usize) -> (block_meta_data: &BlockMetaData)
        requires
            index < self.count(),
        ensures
            *block_meta_data == self.items@[index as int],
    {
        &self.items[index]
    }

    /// The address of the meta data of the block at `index`.
    pub fn get_unchecked_raw(&self, index: usize) -> (address: usize)
        requires
            self.inclusive_start_pointer + SIZE_OF_BLOCK_META_DATA * index <= usize::MAX,
        ensures
            address == self.inclusive_start_pointer + SIZE_OF_BLOCK_META_DATA * index,
    {
        self.inclusive_start_pointer + SIZE_OF_BLOCK_META_DATA * index
    }

    /// A copy of the meta data, as it is in an image of the region.
    pub fn snapshot(&self) -> (block_meta_data_items: Self)
        ensures
            block_meta_data_items.inclusive_start_pointer == self.inclusive_start_pointer,
            block_meta_data_items.items@ == self.items@,
    {
        let mut items: Vec<BlockMetaData> = Vec::new();
        let mut index: usize = 0;
        while index < self.items.len()
            invariant
                index <= self.items@.len(),
                items@ == self.items@.take(index as int),
            decreases self.items@.len() - index,
        {
            items.push(self.items[index]);
            assert(items@ =~= self.items@.take(index + 1));
            index += 1;
        }
        assert(items@ =~= self.items@);
        BlockMetaDataItems { inclusive_start_pointer: self.inclusive_start_pointer, items }
    }

    /// Moves the meta data to `inclusive_start_pointer`, as when the region is mapped at another address.
    /// What the meta data holds stays as it is.
    pub fn rebase(&mut self, inclusive_start_pointer: usize)
        requires
            inclusive_start_pointer + SIZE_OF_BLOCK_META_DATA * old(self).items@.len() <= usize::MAX,
        ensures
            final(self).inclusive_start_pointer == inclusive_start_pointer,
            final(self).count() == old(self).count(),
            final(self).is_laid_out(),
            forall|index: int|
                0 <= index < old(self).count() ==> {
                    &&& (#[trigger] final(self).items@[index]).word() == old(self).items@[index].word()
                    &&& final(self).next_in_bag_at(index) == old(self).next_in_bag_at(index)
                    &&& final(self).next_chain_at(index) == old(self).next_chain_at(index)
                },
    {
        let number_of_blocks: usize = self.items.len();
        let mut index: usize = 0;
        while index < number_of_blocks
            invariant
                index <= number_of_blocks,
                number_of_blocks == self.items@.len(),
                self.items@.len() == old(self).items@.len(),
                inclusive_start_pointer + SIZE_OF_BLOCK_META_DATA * number_of_blocks <= usize::MAX,
                forall|other: int|
                    0 <= other < index ==> (#[trigger] self.items@[other]).lies_at(
                        inclusive_start_pointer + SIZE_OF_BLOCK_META_DATA * other,
                    ),
                forall|other: int|
                    0 <= other < number_of_blocks ==> {
                        &&& (#[trigger] self.items@[other]).word() == old(self).items@[other].word()
                        &&& self.items@[other].next_in_bag.pointer() == old(self).items@[other].next_in_bag.pointer()
                        &&& self.items@[other].next_chain.pointer() == old(self).items@[other].next_chain.pointer()
                    },
            decreases number_of_blocks - index,
        {
            let address: usize = inclusive_start_pointer + SIZE_OF_BLOCK_META_DATA * index;
            self.items[index].chain_length_and_bag_stripe_index.address = address;
            self.items[index].next_in_bag.0.address = address + OFFSET_OF_NEXT_IN_BAG;
            self.items[index].next_chain.0.address = address + OFFSET_OF_NEXT_CHAIN;
            index += 1;
        }
        self.inclusive_start_pointer = inclusive_start_pointer;
    }
}

} // verus!
