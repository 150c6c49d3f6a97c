use crate::block_allocator::block_meta_data::BlockMetaData;
use crate::block_allocator::block_meta_data::BlockMetaDataItems;
use crate::block_allocator::block_meta_data::SIZE_OF_BLOCK_META_DATA;
use crate::block_allocator::block_size::BlockSize;
use crate::block_allocator::chain_length::ChainLength;
use vstd::prelude::*;

verus! {

/// The value of a block pointer that points to no block.
pub const NULL_SENTINEL: u32 = 0xFFFF_FFFF;

/// Every block pointer that points to a block is below this.
pub const EXCLUSIVE_MAXIMUM_BLOCK_POINTER: usize = 0xFFFF_FFFF;

/// The largest number of blocks that block pointers can tell apart.
pub const INCLUSIVE_MAXIMUM_NUMBER_OF_BLOCKS: usize = 0xFFFF_FFFE;

/// A compressed pointer, representing an index into the blocks.
#[derive(Debug, Copy, Clone, PartialEq, Eq, Structural, PartialOrd, Ord, Hash)]
pub struct BlockPointer(pub u32);

impl Default for BlockPointer {
    fn default() -> (block_pointer: Self)
        ensures
            block_pointer == BlockPointer::null(),
    {
        BlockPointer(NULL_SENTINEL)
    }
}

impl BlockPointer {
    /// The block pointer that points to no block.
    pub open spec fn null() -> BlockPointer {
        BlockPointer(NULL_SENTINEL)
    }

    /// The index of the block pointed to.
    pub open spec fn index(self) -> int {
        self.0 as int
    }

    /// The address of the block pointed to, where the blocks start at `memory_base_pointer`.
    pub open spec fn memory_address(self, memory_base_pointer: usize, block_size: BlockSize) -> int {
        memory_base_pointer + block_size.bytes() * self.0
    }

    /// The address of the meta data of the block pointed to, where the meta data starts at `meta_data_base_pointer`.
    pub open spec fn meta_data_address(self, meta_data_base_pointer: usize) -> int {
        meta_data_base_pointer + SIZE_OF_BLOCK_META_DATA * self.0
    }

    /// The null block pointer.
    pub fn null_pointer() -> (block_pointer: Self)
        ensures
            block_pointer == BlockPointer::null(),
            block_pointer.0 == NULL_SENTINEL,
    {
        BlockPointer(NULL_SENTINEL)
    }

    /// The address at which the chain that follows this chain of `chain_length` blocks starts.
    pub fn subsequent_chain_start_address(
        &self,
        memory_base_pointer: usize,
        chain_length: ChainLength,
        block_size: BlockSize,
    ) -> (address: usize)
        requires
            *self != BlockPointer::null(),
            self.memory_address(memory_base_pointer, block_size) + block_size.bytes() * chain_length.0
                <= usize::MAX,
        ensures
            address == self.memory_address(memory_base_pointer, block_size) + block_size.bytes()
                * chain_length.0,
            address == memory_base_pointer + block_size.bytes() * (self.0 + chain_length.0),
    {
        proof {
            assert(block_size.bytes() * (self.0 + chain_length.0) == block_size.bytes() * self.0
                + block_size.bytes() * chain_length.0) by (nonlinear_arith);
            assert(block_size.bytes() * chain_length.0 >= 0) by (nonlinear_arith);
        }
        self.expand_to_pointer_to_memory_unchecked(memory_base_pointer, block_size) + chain_length.as_capacity(
            block_size,
        )
    }

    /// The pointer to the block that starts at `block_address`, where the blocks start at `memory_base_pointer`.
    /// It is the inverse of `expand_to_pointer_to_memory_unchecked`.
    pub fn block_address_to_block_pointer(
        memory_base_pointer: usize,
        block_address: usize,
        block_size: BlockSize,
    ) -> (block_pointer: Self)
        requires
            block_address >= memory_base_pointer,
            (block_address - memory_base_pointer) % (block_size.bytes() as int) == 0,
            (block_address - memory_base_pointer) / (block_size.bytes() as int) < EXCLUSIVE_MAXIMUM_BLOCK_POINTER,
        ensures
            block_pointer != BlockPointer::null(),
            block_pointer.index() == (block_address - memory_base_pointer) / (block_size.bytes() as int),
            block_pointer.memory_address(memory_base_pointer, block_size) == block_address,
    {
        let relative_memory_address: usize = block_address - memory_base_pointer;
        let index: u32 = block_size.block_index(relative_memory_address);
        proof {
            vstd::arithmetic::div_mod::lemma_fundamental_div_mod(
                relative_memory_address as int,
                block_size.bytes() as int,
            );
        }
        BlockPointer::new(index)
    }

    /// The address of the block pointed to, where the blocks start at `memory_base_pointer`.
    pub fn expand_to_pointer_to_memory_unchecked(self, memory_base_pointer: usize, block_size: BlockSize) -> (address:
        usize)
        requires
            self != BlockPointer::null(),
            self.memory_address(memory_base_pointer, block_size) <= usize::MAX,
        ensures
            address == self.memory_address(memory_base_pointer, block_size),
    {
        proof {
            assert(block_size.bytes() * self.0 >= 0) by (nonlinear_arith);
        }
        memory_base_pointer + block_size.relative_memory_address(self.0)
    }

    /// The meta data of the block pointed to, or `None` for the null pointer.
    pub fn expand_to_pointer_to_meta_data(self, block_meta_data_items: &BlockMetaDataItems) -> (block_meta_data: Option<
        &BlockMetaData,
    >)
        requires
            self != BlockPointer::null() ==> self.index() < block_meta_data_items.items@.len(),
        ensures
            self == BlockPointer::null() <==> block_meta_data is None,
            self != BlockPointer::null() ==> block_meta_data == Some(
                &block_meta_data_items.items@[self.index()],
            ),
    {
        if self.is_null() {
            None
        } else {
            Some(self.expand_to_pointer_to_meta_data_unchecked(block_meta_data_items))
        }
    }

    /// The meta data of the block pointed to.
    pub fn expand_to_pointer_to_meta_data_unchecked(self, block_meta_data_items: &BlockMetaDataItems) -> (block_meta_data:
        &BlockMetaData)
        requires
            self.index() < block_meta_data_items.items@.len(),
        ensures
            *block_meta_data == block_meta_data_items.items@[self.index()],
    {
        block_meta_data_items.get_unchecked(self.0 as usize)
    }

    /// The address of the meta data of the block pointed to, or `None` for the null pointer.
    pub fn expand_to_pointer_to_meta_data_raw(self, block_meta_data_items: &BlockMetaDataItems) -> (address: Option<
        usize,
    >)
        requires
            self != BlockPointer::null() ==> self.meta_data_address(block_meta_data_items.inclusive_start_pointer)
                <= usize::MAX,
        ensures
            self == BlockPointer::null() <==> address is None,
            self != BlockPointer::null() ==> address == Some(
                self.meta_data_address(block_meta_data_items.inclusive_start_pointer) as usize,
            ),
    {
        if self.is_null() {
            None
        } else {
            Some(self.expand_to_pointer_to_meta_data_raw_unchecked(block_meta_data_items))
        }
    }

    /// The address of the meta data of the block pointed to.
    pub fn expand_to_pointer_to_meta_data_raw_unchecked(self, block_meta_data_items: &BlockMetaDataItems) -> (address:
        usize)
        requires
            self != BlockPointer::null(),
            self.meta_data_address(block_meta_data_items.inclusive_start_pointer) <= usize::MAX,
        ensures
            address == self.meta_data_address(block_meta_data_items.inclusive_start_pointer),
    {
        block_meta_data_items.get_unchecked_raw(self.0 as usize)
    }

    /// Do the two pointers point to the same block, or both to none?
    pub fn equals(self, other: Self) -> (equal: bool)
        ensures
            equal == (self == other),
    {
        self.0 == other.0
    }

    /// Do the two pointers differ?
    pub fn does_not_equal(self, other: Self) -> (different: bool)
        ensures
            different == (self != other),
    {
        self.0 != other.0
    }

    /// Does the pointer point to a block?
    pub fn is_not_null(self) -> (is_not_null: bool)
        ensures
            is_not_null == (self != BlockPointer::null()),
    {
        self.does_not_equal(BlockPointer::null_pointer())
    }

    /// Does the pointer point to no block?
    pub fn is_null(self) -> (is_null: bool)
        ensures
            is_null == (self == BlockPointer::null()),
    {
        self.equals(BlockPointer::null_pointer())
    }

    /// The pointer to the block at index `value`, or the null pointer for the null sentinel.
    pub fn new(value: u32) -> (block_pointer: Self)
        ensures
            block_pointer.0 == value,
    {
        BlockPointer(value)
    }
}

/// Expanding a block pointer to the address of its block and compressing that address gives the pointer back.
pub proof fn lemma_block_address_round_trip(block_pointer: BlockPointer, memory_base_pointer: usize, block_size: BlockSize)
    requires
        block_pointer != BlockPointer::null(),
    ensures
        (block_pointer.memory_address(memory_base_pointer, block_size) - memory_base_pointer) % (
        block_size.bytes() as int) == 0,
        (block_pointer.memory_address(memory_base_pointer, block_size) - memory_base_pointer) / (
        block_size.bytes() as int) == block_pointer.index(),
{
    let b = block_size.bytes() as int;
    let i = block_pointer.0 as int;
    vstd::arithmetic::div_mod::lemma_fundamental_div_mod_converse(b * i, b, i, 0);
}

} // verus!
