use crate::block_allocator::allocate::lemma_best_shorter_fit_skips_empty_bags;
use crate::block_allocator::bag::block_is_linked;
use crate::block_allocator::bag::lemma_successor_in;
use crate::block_allocator::block_allocator::BlockAllocator;
use crate::block_allocator::block_pointer::BlockPointer;
use crate::block_allocator::chain_length::ChainLength;
use crate::block_allocator::chain_length::ChainLengthAndBagStripeIndex;
use crate::block_allocator::tiling::blocks_counted;
use crate::block_allocator::tiling::lemma_every_block_is_counted_once;
use crate::hyper_thread::MAXIMUM_SUPPORTED_HYPER_THREADS;
use vstd::prelude::*;

verus! {

/// The number of chains in the first `count` of `stripes`.
pub open spec fn chains_in(stripes: Seq<Seq<u32>>, count: int) -> nat
    decreases count,
{
    if count <= 0 {
        0
    } else {
        chains_in(stripes, count - 1) + stripes[count - 1].len()
    }
}

/// The count of blocks grows with the number of blocks looked at.
pub proof fn lemma_blocks_counted_grows(words: Seq<ChainLengthAndBagStripeIndex>, fewer: int, limit: int, free: bool)
    requires
        0 <= fewer <= limit <= words.len(),
    ensures
        blocks_counted(words, fewer, free) <= blocks_counted(words, limit, free),
    decreases limit - fewer,
{
    if fewer < limit {
        lemma_blocks_counted_grows(words, fewer, limit - 1, free);
    }
}

/// A chain of blocks in which no block occurs twice has no more blocks than there are.
pub proof fn lemma_chain_is_no_longer_than_blocks(chain: Seq<u32>, count: int)
    requires
        chain.no_duplicates(),
        0 <= count,
        forall|position: int| 0 <= position < chain.len() ==> (#[trigger] chain[position]) < count,
    ensures
        chain.len() <= count,
{
    let indices = Seq::new(chain.len(), |position: int| chain[position] as int);
    assert(indices.no_duplicates());
    indices.unique_seq_to_set();
    vstd::set_lib::lemma_int_range(0, count);
    assert(indices.to_set().subset_of(vstd::set_lib::set_int_range(0, count))) by {
        assert forall|index: int| indices.to_set().contains(index) implies vstd::set_lib::set_int_range(
            0,
            count,
        ).contains(index) by {
            let position = choose|position: int| 0 <= position < indices.len() && indices[position] == index;
            assert(chain[position] < count);
        }
    }
    vstd::set_lib::lemma_len_subset(indices.to_set(), vstd::set_lib::set_int_range(0, count));
}

impl BlockAllocator {
    /// The number of chains of `chain_length` blocks in the bags.
    pub open spec fn spec_number_of_free_chains(&self, chain_length: int) -> nat {
        chains_in(self.free_lists()[chain_length - 1], MAXIMUM_SUPPORTED_HYPER_THREADS as int)
    }

    /// The length of the longest chain in the bags, or zero where the bags are empty.
    pub fn maximum_free_chain_length(&self) -> (chain_length: usize)
        requires
            self.is_consistent(),
        ensures
            chain_length == self.spec_maximum_free_chain_length(),
            chain_length <= self.maximum_chain_length(),
    {
        let mut search_for_chain_length: usize = self.bags.bags.len();
        while search_for_chain_length > 0
            invariant
                search_for_chain_length <= self.maximum_chain_length(),
                self.is_consistent(),
                forall|chain_length: int|
                    search_for_chain_length < chain_length <= self.maximum_chain_length()
                        ==> crate::block_allocator::bag::all_stripes_empty(
                        #[trigger] self.free_lists()[chain_length - 1],
                    ),
            decreases search_for_chain_length,
        {
            assert(self.free_lists()[search_for_chain_length - 1] == self.bags.bags@[search_for_chain_length
                - 1].chains@);
            if !self.bags.has_no_chain_of(
                &self.block_meta_data_items,
                ChainLength::from_length(search_for_chain_length),
            ) {
                proof {
                    lemma_best_shorter_fit_skips_empty_bags(
                        self.free_lists(),
                        self.maximum_chain_length() as int,
                        search_for_chain_length as int,
                    );
                }
                return search_for_chain_length;
            }
            search_for_chain_length -= 1;
        }
        proof {
            lemma_best_shorter_fit_skips_empty_bags(self.free_lists(), self.maximum_chain_length() as int, 0);
        }
        0
    }

    /// The number of blocks in the chains that are in bags, if `free`, or that callers own, if not.
    pub fn count_blocks(&self, free: bool) -> (count: usize)
        requires
            self.is_consistent(),
        ensures
            count == blocks_counted(self.words(), self.number_of_blocks as int, free),
            count <= self.number_of_blocks,
    {
        let mut count: usize = 0;
        let mut index: usize = 0;
        proof {
            lemma_every_block_is_counted_once(
                self.words(),
                self.number_of_blocks as int,
                self.maximum_chain_length() as int,
            );
        }
        while index < self.number_of_blocks
            invariant
                index <= self.number_of_blocks,
                self.is_consistent(),
                count == blocks_counted(self.words(), index as int, free),
                blocks_counted(self.words(), self.number_of_blocks as int, free) <= self.number_of_blocks,
            decreases self.number_of_blocks - index,
        {
            let word: ChainLengthAndBagStripeIndex = self.block_meta_data_items.items[index].word_now();
            proof {
                lemma_blocks_counted_grows(self.words(), index + 1, self.number_of_blocks as int, free);
                assert(self.words()[index as int] == word);
            }
            if word.bag_stripe_index().is_some() == free {
                count = count + word.chain_length();
            }
            index += 1;
        }
        count
    }

    /// The number of blocks in the chains that callers own.
    pub fn blocks_in_use(&self) -> (count: usize)
        requires
            self.is_consistent(),
        ensures
            count == self.spec_blocks_in_use(),
            count <= self.number_of_blocks,
    {
        self.count_blocks(false)
    }

    /// The number of blocks in the chains that are in bags.
    pub fn number_of_free_blocks(&self) -> (count: usize)
        requires
            self.is_consistent(),
        ensures
            count == self.free_blocks(),
            count == self.number_of_blocks - self.spec_blocks_in_use(),
    {
        proof {
            lemma_every_block_is_counted_once(
                self.words(),
                self.number_of_blocks as int,
                self.maximum_chain_length() as int,
            );
        }
        self.count_blocks(true)
    }

    /// The number of chains of `chain_length` blocks in the bags. Walks each stripe of the bag for that length.
    pub fn number_of_free_chains(&self, chain_length: usize) -> (count: u64)
        requires
            self.is_consistent(),
            1 <= chain_length <= self.maximum_chain_length(),
        ensures
            count == self.spec_number_of_free_chains(chain_length as int),
    {
        let ghost stripes = self.free_lists()[chain_length - 1];
        assert(stripes == self.bags.bags@[chain_length - 1].chains@);
        assert(self.bags.bags@[chain_length - 1].wf(chain_length as nat, &self.block_meta_data_items));
        let mut count: u64 = 0;
        let mut stripe: usize = 0;
        while stripe < MAXIMUM_SUPPORTED_HYPER_THREADS
            invariant
                stripe <= MAXIMUM_SUPPORTED_HYPER_THREADS,
                1 <= chain_length <= self.maximum_chain_length(),
                self.is_consistent(),
                stripes == self.bags.bags@[chain_length - 1].chains@,
                self.bags.bags@[chain_length - 1].wf(chain_length as nat, &self.block_meta_data_items),
                count == chains_in(stripes, stripe as int),
                count <= stripe * 0xFFFF_FFFF,
            decreases MAXIMUM_SUPPORTED_HYPER_THREADS - stripe,
        {
            let ghost chain = stripes[stripe as int];
            assert(self.bags.bags@[chain_length - 1].stripe_is_linked(
                stripe as int,
                chain_length as nat,
                &self.block_meta_data_items,
            ));
            let mut block: BlockPointer = self.bags.bags[chain_length - 1].stripes[stripe].get();
            let mut position: usize = 0;
            proof {
                if chain.len() > 0 {
                    assert(block_is_linked(chain, 0, stripe as int, chain_length as nat, &self.block_meta_data_items));
                }
                assert forall|place: int| 0 <= place < chain.len() implies (#[trigger] chain[place])
                    < self.number_of_blocks by {
                    assert(block_is_linked(chain, place, stripe as int, chain_length as nat, &self.block_meta_data_items));
                }
                lemma_chain_is_no_longer_than_blocks(chain, self.number_of_blocks as int);
            }
            while block.is_not_null()
                invariant
                    0 <= position <= chain.len(),
                    chain.len() <= self.number_of_blocks,
                    chain == stripes[stripe as int],
                    self.is_consistent(),
                    crate::block_allocator::bag::chain_is_linked(
                        chain,
                        stripe as int,
                        chain_length as nat,
                        &self.block_meta_data_items,
                    ),
                    position < chain.len() ==> block == BlockPointer(chain[position as int]) && block
                        != BlockPointer::null(),
                    position == chain.len() ==> block == BlockPointer::null(),
                    count == chains_in(stripes, stripe as int) + position,
                    chains_in(stripes, stripe as int) <= stripe * 0xFFFF_FFFF,
                    stripe < MAXIMUM_SUPPORTED_HYPER_THREADS,
                ensures
                    position == chain.len(),
                    count == chains_in(stripes, stripe as int) + position,
                decreases chain.len() - position,
            {
                proof {
                    assert(block_is_linked(
                        chain,
                        position as int,
                        stripe as int,
                        chain_length as nat,
                        &self.block_meta_data_items,
                    ));
                    lemma_successor_in(chain, position as int);
                    if position + 1 < chain.len() {
                        assert(block_is_linked(
                            chain,
                            position + 1,
                            stripe as int,
                            chain_length as nat,
                            &self.block_meta_data_items,
                        ));
                    }
                }
                block = self.block_meta_data_items.items[block.0 as usize].next_in_bag.get();
                position += 1;
                count += 1;
            }
            stripe += 1;
        }
        count
    }
}

} // verus!
