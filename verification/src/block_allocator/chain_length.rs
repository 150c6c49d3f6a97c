use crate::block_allocator::block_size::BlockSize;
use vstd::prelude::*;

verus! {

/// The largest number of blocks that a chain can have.
pub const INCLUSIVE_MAXIMUM_CHAIN_LENGTH: usize = 1024;

/// The stripe index that stands for "not in a bag" in the packed word of a block's meta data.
pub const NOT_IN_A_BAG: u32 = 0xFFFF;

/// The packed word of a block's meta data holds the chain length in the bits below this.
pub const CHAIN_LENGTH_RANGE: u32 = 0x1_0000;

/// The number of physically adjacent blocks of one allocation or of one entry of the free list.
#[derive(Debug, Copy, Clone, PartialEq, Eq, Structural, PartialOrd, Ord, Hash)]
pub struct ChainLength(pub usize);

impl ChainLength {
    /// The chain length of `length` blocks.
    pub fn from_length(length: usize) -> (chain_length: Self)
        requires
            1 <= length <= INCLUSIVE_MAXIMUM_CHAIN_LENGTH,
        ensures
            chain_length.0 == length,
    {
        ChainLength(length)
    }

    /// The number of blocks.
    pub fn as_usize(self) -> (length: usize)
        ensures
            length == self.0,
    {
        self.0
    }

    /// The number of bytes in a chain of this length.
    pub fn as_capacity(self, block_size: BlockSize) -> (capacity: usize)
        requires
            block_size.bytes() * self.0 <= usize::MAX,
        ensures
            capacity == block_size.bytes() * self.0,
    {
        block_size.size_of_chain_in_bytes(self.0)
    }

    /// Is the chain shorter than the longest chain allowed?
    pub fn is_less_than_inclusive_maximum(self, maximum_chain_length: usize) -> (is_less: bool)
        ensures
            is_less == (self.0 < maximum_chain_length),
    {
        self.0 < maximum_chain_length
    }

    /// The length of this chain with a chain of `extra` blocks merged onto its end, or `None` where
    /// that is more than `maximum_chain_length`.
    pub fn add_if_maximum_length_not_exceeded(self, extra: ChainLength, maximum_chain_length: usize) -> (combined:
        Option<ChainLength>)
        requires
            self.0 <= maximum_chain_length,
        ensures
            combined is Some <==> self.0 + extra.0 <= maximum_chain_length,
            combined is Some ==> combined->Some_0.0 == self.0 + extra.0,
    {
        if extra.0 <= maximum_chain_length - self.0 {
            Some(ChainLength(self.0 + extra.0))
        } else {
            None
        }
    }

    /// The index, in the array of bags, of the bag for chains of this length.
    pub fn bag_index(self) -> (index: usize)
        requires
            self.0 >= 1,
        ensures
            index == self.0 - 1,
    {
        self.0 - 1
    }
}

/// The packed word of a block's meta data: the chain length in the low 16 bits, the index of the
/// bag stripe that holds the block in the high 16 bits.
#[derive(Debug, Copy, Clone, PartialEq, Eq, Structural, Hash)]
pub struct ChainLengthAndBagStripeIndex(pub u32);

impl ChainLengthAndBagStripeIndex {
    /// The chain length in the word: zero for a block that is not the head of a chain.
    #[verifier::opaque]
    pub open spec fn length(self) -> nat {
        (self.0 % CHAIN_LENGTH_RANGE) as nat
    }

    /// The stripe in the word, or `None` for a block that is not in a bag.
    #[verifier::opaque]
    pub open spec fn stripe(self) -> Option<nat> {
        if self.0 / CHAIN_LENGTH_RANGE == NOT_IN_A_BAG {
            None
        } else {
            Some((self.0 / CHAIN_LENGTH_RANGE) as nat)
        }
    }

    /// The word for a chain length and a stripe.
    pub open spec fn pack(length: nat, stripe: Option<nat>) -> ChainLengthAndBagStripeIndex {
        match stripe {
            None => ChainLengthAndBagStripeIndex((NOT_IN_A_BAG * CHAIN_LENGTH_RANGE + length) as u32),
            Some(stripe) => ChainLengthAndBagStripeIndex((stripe * CHAIN_LENGTH_RANGE + length) as u32),
        }
    }

    /// Packing and unpacking are inverse to each other.
    pub proof fn lemma_pack_unpack(length: nat, stripe: Option<nat>)
        requires
            length < CHAIN_LENGTH_RANGE,
            stripe is Some ==> stripe->Some_0 < NOT_IN_A_BAG,
        ensures
            Self::pack(length, stripe).length() == length,
            Self::pack(length, stripe).stripe() == stripe,
    {
        reveal(ChainLengthAndBagStripeIndex::length);
        reveal(ChainLengthAndBagStripeIndex::stripe);
    }

    /// A word is the packing of its chain length and its stripe.
    pub proof fn lemma_unpack_pack(self)
        ensures
            self == Self::pack(self.length(), self.stripe()),
            self.length() < CHAIN_LENGTH_RANGE,
            self.stripe() is Some ==> self.stripe()->Some_0 < NOT_IN_A_BAG,
    {
        reveal(ChainLengthAndBagStripeIndex::length);
        reveal(ChainLengthAndBagStripeIndex::stripe);
    }

    /// The word of a block that is not the head of a chain and not in a bag.
    pub fn not_a_head() -> (word: Self)
        ensures
            word == Self::pack(0, None),
            word.length() == 0,
            word.stripe() is None,
    {
        proof {
            reveal(ChainLengthAndBagStripeIndex::length);
            reveal(ChainLengthAndBagStripeIndex::stripe);
        }
        ChainLengthAndBagStripeIndex(NOT_IN_A_BAG * CHAIN_LENGTH_RANGE)
    }

    /// The word of the head of a chain of `chain_length` blocks that is not in a bag.
    pub fn not_in_a_bag(chain_length: usize) -> (word: Self)
        requires
            chain_length < CHAIN_LENGTH_RANGE,
        ensures
            word == Self::pack(chain_length as nat, None),
            word.length() == chain_length,
            word.stripe() is None,
    {
        proof {
            reveal(ChainLengthAndBagStripeIndex::length);
            reveal(ChainLengthAndBagStripeIndex::stripe);
        }
        ChainLengthAndBagStripeIndex(NOT_IN_A_BAG * CHAIN_LENGTH_RANGE + chain_length as u32)
    }

    /// The word of the head of a chain of `chain_length` blocks that is in the stripe `bag_stripe_index` of a bag.
    pub fn in_a_bag(chain_length: usize, bag_stripe_index: usize) -> (word: Self)
        requires
            chain_length < CHAIN_LENGTH_RANGE,
            bag_stripe_index < NOT_IN_A_BAG,
        ensures
            word == Self::pack(chain_length as nat, Some(bag_stripe_index as nat)),
            word.length() == chain_length,
            word.stripe() == Some(bag_stripe_index as nat),
    {
        proof {
            reveal(ChainLengthAndBagStripeIndex::length);
            reveal(ChainLengthAndBagStripeIndex::stripe);
        }
        ChainLengthAndBagStripeIndex(bag_stripe_index as u32 * CHAIN_LENGTH_RANGE + chain_length as u32)
    }

    /// The chain length in the word.
    pub fn chain_length(self) -> (chain_length: usize)
        ensures
            chain_length == self.length(),
            chain_length < CHAIN_LENGTH_RANGE,
    {
        proof {
            reveal(ChainLengthAndBagStripeIndex::length);
        }
        (self.0 % CHAIN_LENGTH_RANGE) as usize
    }

    /// The stripe in the word, or `None` for a block that is not in a bag.
    pub fn bag_stripe_index(self) -> (bag_stripe_index: Option<usize>)
        ensures
            bag_stripe_index is Some <==> self.stripe() is Some,
            bag_stripe_index is Some ==> bag_stripe_index->Some_0 == self.stripe()->Some_0,
            bag_stripe_index is Some ==> bag_stripe_index->Some_0 < NOT_IN_A_BAG,
    {
        proof {
            reveal(ChainLengthAndBagStripeIndex::stripe);
        }
        let stripe: u32 = self.0 / CHAIN_LENGTH_RANGE;
        if stripe == NOT_IN_A_BAG {
            None
        } else {
            Some(stripe as usize)
        }
    }
}

} // verus!
