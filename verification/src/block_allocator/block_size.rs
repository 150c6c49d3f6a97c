use vstd::prelude::*;

verus! {

/// Represents a block size in bytes.
/// The default is 256 bytes, which is a sensible default for modern systems with AVX2.
#[derive(Debug, Copy, Clone, PartialEq, Eq, Structural, PartialOrd, Ord, Hash)]
pub enum BlockSize {
    /// Choose this for allocating small blocks that align to the cache.
    _64,
    /// Choose this for allocating small blocks that double-align to the cache to avoid false sharing.
    _128,
    /// Choose this for systems with AVX2 instructions.
    _256,
    /// Choose this for systems with AVX-512 instructions.
    _512,
    /// Do not use this ordinarily.
    _4096,
}

impl Default for BlockSize {
    fn default() -> (block_size: Self)
        ensures
            block_size == BlockSize::_256,
    {
        BlockSize::_256
    }
}

/// Is `alignment` the size of one of the block sizes?
pub open spec fn is_block_size(alignment: usize) -> bool {
    alignment == 64 || alignment == 128 || alignment == 256 || alignment == 512 || alignment == 4096
}

/// The number of blocks of `block_size_in_bytes` bytes needed to hold `requested_size` bytes.
pub open spec fn blocks_required(requested_size: int, block_size_in_bytes: int) -> int
    recommends
        block_size_in_bytes > 0,
{
    if requested_size % block_size_in_bytes == 0 {
        requested_size / block_size_in_bytes
    } else {
        requested_size / block_size_in_bytes + 1
    }
}

/// `blocks_required` is the least number of blocks whose capacity holds the requested size.
pub proof fn lemma_blocks_required_is_least(requested_size: int, block_size_in_bytes: int)
    requires
        requested_size >= 0,
        block_size_in_bytes > 0,
    ensures
        blocks_required(requested_size, block_size_in_bytes) * block_size_in_bytes >= requested_size,
        (blocks_required(requested_size, block_size_in_bytes) - 1) * block_size_in_bytes < requested_size
            || requested_size == 0,
        blocks_required(requested_size, block_size_in_bytes) >= 0,
        requested_size == 0 <==> blocks_required(requested_size, block_size_in_bytes) == 0,
{
    let b = block_size_in_bytes;
    let q = requested_size / b;
    let r = requested_size % b;
    vstd::arithmetic::div_mod::lemma_fundamental_div_mod(requested_size, b);
    vstd::arithmetic::div_mod::lemma_mod_pos_bound(requested_size, b);
    assert(requested_size == b * q + r);
    assert(q >= 0) by (nonlinear_arith)
        requires
            requested_size == b * q + r,
            0 <= r < b,
            requested_size >= 0,
    ;
    assert(q * b == b * q) by (nonlinear_arith);
    assert((q + 1) * b == b * q + b) by (nonlinear_arith);
    assert((q - 1) * b == b * q - b) by (nonlinear_arith);
    if requested_size == 0 {
        assert(q == 0) by (nonlinear_arith)
            requires
                0 == b * q + r,
                0 <= r < b,
                q >= 0,
        ;
    }
}

impl BlockSize {
    /// The size of a block in bytes, as a number.
    pub open spec fn bytes(self) -> nat {
        match self {
            BlockSize::_64 => 64,
            BlockSize::_128 => 128,
            BlockSize::_256 => 256,
            BlockSize::_512 => 512,
            BlockSize::_4096 => 4096,
        }
    }

    /// The block size whose size in bytes is `alignment`.
    /// There is none for an alignment that is not 64, 128, 256, 512 or 4096.
    pub fn for_alignment(alignment: usize) -> (block_size: Self)
        requires
            is_block_size(alignment),
        ensures
            block_size.bytes() == alignment,
    {
        if alignment == 64 {
            BlockSize::_64
        } else if alignment == 128 {
            BlockSize::_128
        } else if alignment == 256 {
            BlockSize::_256
        } else if alignment == 512 {
            BlockSize::_512
        } else {
            BlockSize::_4096
        }
    }

    /// Number of bytes that `number_of_blocks` blocks occupy.
    pub fn total_memory_required_in_bytes(self, number_of_blocks: usize) -> (total: usize)
        requires
            self.bytes() * number_of_blocks <= usize::MAX,
        ensures
            total == self.bytes() * number_of_blocks,
    {
        self.as_usize() * number_of_blocks
    }

    /// Offset, in bytes from the start of the blocks, of the block at `block_index`.
    pub fn relative_memory_address(self, block_index: u32) -> (offset: usize)
        requires
            self.bytes() * block_index <= usize::MAX,
        ensures
            offset == self.bytes() * block_index,
    {
        self.as_usize() * (block_index as usize)
    }

    /// Number of bytes in a chain of `length_of_chain` blocks.
    pub fn size_of_chain_in_bytes(self, length_of_chain: usize) -> (size: usize)
        requires
            self.bytes() * length_of_chain <= usize::MAX,
        ensures
            size == self.bytes() * length_of_chain,
    {
        self.as_usize() * length_of_chain
    }

    /// Does `relative_memory_address` lie at the start of a block?
    pub fn offset_into_block_is_zero(self, relative_memory_address: usize) -> (is_zero: bool)
        ensures
            is_zero == (relative_memory_address as int % self.bytes() as int == 0),
    {
        (relative_memory_address % self.as_usize()) == 0
    }

    /// Index of the block that holds the byte at `relative_memory_address`.
    pub fn block_index(self, relative_memory_address: usize) -> (index: u32)
        requires
            relative_memory_address as int / self.bytes() as int <= u32::MAX,
        ensures
            index == relative_memory_address as int / self.bytes() as int,
    {
        (relative_memory_address / self.as_usize()) as u32
    }

    /// Number of blocks needed to hold `requested_size` bytes: the size divided by the block size, rounded up.
    pub fn number_of_blocks_required(self, requested_size: usize) -> (number_of_blocks: usize)
        ensures
            number_of_blocks == blocks_required(requested_size as int, self.bytes() as int),
            number_of_blocks * self.bytes() >= requested_size,
            requested_size == 0 <==> number_of_blocks == 0,
    {
        proof {
            lemma_blocks_required_is_least(requested_size as int, self.bytes() as int);
        }
        let block_size_in_bytes: usize = self.as_usize();
        let remainder: usize = requested_size % block_size_in_bytes;
        if remainder == 0 {
            requested_size / block_size_in_bytes
        } else {
            proof {
                let b = block_size_in_bytes as int;
                vstd::arithmetic::div_mod::lemma_fundamental_div_mod(requested_size as int, b);
                assert(b * (requested_size as int / b) + remainder == requested_size);
                assert(requested_size as int / b < usize::MAX) by (nonlinear_arith)
                    requires
                        b * (requested_size as int / b) + remainder == requested_size,
                        b >= 64,
                        remainder >= 0,
                        requested_size <= usize::MAX,
                ;
            }
            (requested_size / block_size_in_bytes) + 1
        }
    }

    /// The size of a block in bytes.
    pub fn as_usize(self) -> (size: usize)
        ensures
            size == self.bytes(),
            is_block_size(size),
    {
        match self {
            BlockSize::_64 => 64,
            BlockSize::_128 => 128,
            BlockSize::_256 => 256,
            BlockSize::_512 => 512,
            BlockSize::_4096 => 4096,
        }
    }
}

} // verus!
