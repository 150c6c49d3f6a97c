use crate::block_allocator::block_allocator::BlockAllocator;
use crate::block_allocator::block_pointer::BlockPointer;
use crate::block_allocator::chain_length::ChainLengthAndBagStripeIndex;
use crate::block_allocator::tiling::head_of;
use crate::block_allocator::tiling::is_head;
use crate::block_allocator::tiling::lemma_block_lies_in_one_chain;
use crate::block_allocator::tiling::lemma_every_block_is_counted_once;
use crate::hyper_thread::MAXIMUM_SUPPORTED_HYPER_THREADS;
use vstd::prelude::*;

verus! {

impl BlockAllocator {
    /// Is the block at `block` at `position` in the stripe `stripe` of the bag for chains of `chain_length` blocks?
    pub open spec fn is_in_bag_at(&self, block: int, chain_length: int, stripe: int, position: int) -> bool {
        &&& 1 <= chain_length <= self.maximum_chain_length()
        &&& 0 <= stripe < MAXIMUM_SUPPORTED_HYPER_THREADS
        &&& 0 <= position < self.free_lists()[chain_length - 1][stripe].len()
        &&& self.free_lists()[chain_length - 1][stripe][position] == block
    }

    /// Every block is accounted for once: it lies in one chain, and that chain is either owned by
    /// a caller or in one place of one stripe of one bag. The blocks of the chains that callers own
    /// and the blocks of the chains in the bags are, together, all the blocks.
    pub proof fn lemma_block_conservation(&self, index: int)
        requires
            self.wf(),
            0 <= index < self.number_of_blocks,
        ensures
            ({
                let head = head_of(self.words(), index);
                &&& 0 <= head <= index < head + self.chain_length_at(head)
                &&& self.is_allocated_chain(head) != self.is_free_chain(head)
                &&& forall|other: int|
                    0 <= other <= index && index < other + (#[trigger] self.words()[other]).length() ==> other == head
                &&& self.is_allocated_chain(head) ==> forall|chain_length: int, stripe: int, position: int|
                    !#[trigger] self.is_in_bag_at(head, chain_length, stripe, position)
                &&& self.is_free_chain(head) ==> {
                    &&& exists|position: int|
                        #[trigger] self.is_in_bag_at(
                            head,
                            self.chain_length_at(head) as int,
                            self.block_meta_data_items.stripe_at(head)->Some_0 as int,
                            position,
                        )
                    &&& forall|chain_length: int, stripe: int, position: int, other_position: int|
                        #[trigger] self.is_in_bag_at(head, chain_length, stripe, position) && #[trigger] self.is_in_bag_at(
                            head,
                            self.chain_length_at(head) as int,
                            self.block_meta_data_items.stripe_at(head)->Some_0 as int,
                            other_position,
                        ) ==> chain_length == self.chain_length_at(head) && stripe
                            == self.block_meta_data_items.stripe_at(head)->Some_0 && position == other_position
                }
            }),
            self.free_blocks() + self.spec_blocks_in_use() == self.number_of_blocks,
    {
        let words = self.words();
        let count = self.number_of_blocks as int;
        let head = head_of(words, index);
        lemma_block_lies_in_one_chain(words, count, self.maximum_chain_length() as int, index);
        lemma_every_block_is_counted_once(words, count, self.maximum_chain_length() as int);
        assert(words[head] == self.block_meta_data_items.items@[head].word());
        assert forall|chain_length: int, stripe: int, position: int| #[trigger]
            self.is_in_bag_at(head, chain_length, stripe, position) implies self.is_free_chain(head) && chain_length
            == self.chain_length_at(head) && stripe == self.block_meta_data_items.stripe_at(head)->Some_0 by {
            assert(self.free_lists()[chain_length - 1] == self.bags.bags@[chain_length - 1].chains@);
            self.bags.lemma_block_in_stripe(&self.block_meta_data_items, chain_length, stripe, position);
        }
        if self.is_free_chain(head) {
            let chain_length = self.chain_length_at(head) as int;
            let stripe = self.block_meta_data_items.stripe_at(head)->Some_0 as int;
            assert(self.bags.holds_in_its_stripe(head, &self.block_meta_data_items));
            assert(self.free_lists()[chain_length - 1] == self.bags.bags@[chain_length - 1].chains@);
            let chain = self.free_lists()[chain_length - 1][stripe];
            let position = chain.index_of(head as u32);
            assert(self.is_in_bag_at(head, chain_length, stripe, position));
            assert(self.bags.bags@[chain_length - 1].wf(chain_length as nat, &self.block_meta_data_items));
            assert(self.bags.bags@[chain_length - 1].stripe_is_linked(
                stripe,
                chain_length as nat,
                &self.block_meta_data_items,
            ));
            assert(chain.no_duplicates());
        }
    }

    /// The chain headed by a block lies within the blocks, is no longer than a chain can be, and
    /// no other of its blocks carries a chain length or is in a bag.
    pub proof fn lemma_chain_validity(&self, head: int)
        requires
            self.wf(),
            0 <= head < self.number_of_blocks,
            is_head(self.words(), head),
        ensures
            1 <= self.chain_length_at(head) <= self.maximum_chain_length(),
            head + self.chain_length_at(head) <= self.number_of_blocks,
            forall|index: int|
                head < index < head + self.chain_length_at(head) ==> (
                #[trigger] self.block_meta_data_items.items@[index]).word() == ChainLengthAndBagStripeIndex::pack(
                    0,
                    None,
                ),
    {
        let words = self.words();
        assert(words[head] == self.block_meta_data_items.items@[head].word());
        assert forall|index: int| head < index < head + self.chain_length_at(head) implies (
        #[trigger] self.block_meta_data_items.items@[index]).word() == ChainLengthAndBagStripeIndex::pack(0, None) by {
            assert(words[index].length() == 0);
            assert(words[index].stripe() is None);
            Self::lemma_word_of_block_in_chain(words[index]);
        }
    }

    /// Every block in a stripe of a bag carries, in its packed word, the chain length of the bag and
    /// the index of the stripe.
    pub proof fn lemma_bag_identity(&self, chain_length: int, stripe: int, position: int)
        requires
            self.wf(),
            1 <= chain_length <= self.maximum_chain_length(),
            0 <= stripe < MAXIMUM_SUPPORTED_HYPER_THREADS,
            0 <= position < self.free_lists()[chain_length - 1][stripe].len(),
        ensures
            self.free_lists()[chain_length - 1][stripe][position] < self.number_of_blocks,
            self.block_meta_data_items.items@[self.free_lists()[chain_length - 1][stripe][position] as int].word()
                == ChainLengthAndBagStripeIndex::pack(chain_length as nat, Some(stripe as nat)),
    {
        assert(self.free_lists()[chain_length - 1] == self.bags.bags@[chain_length - 1].chains@);
        self.bags.lemma_block_in_stripe(&self.block_meta_data_items, chain_length, stripe, position);
        let block = self.free_lists()[chain_length - 1][stripe][position] as int;
        self.block_meta_data_items.items@[block].word().lemma_unpack_pack();
    }

    /// A chain that is given back is, in the bags, no shorter than it was, and no longer than a chain can be.
    pub proof fn lemma_coalescing_bound(&self, former: &BlockAllocator, block: int)
        requires
            former.wf(),
            former.is_allocated_chain(block),
            self.is_after_release(former, block),
        ensures
            self.is_free_chain(block),
            former.chain_length_at(block) <= self.chain_length_at(block) <= self.maximum_chain_length(),
    {
    }

    /// Gives the allocated chain headed by `block` back. See `receive_solitary_chain_back`.
    pub fn release_chain(&mut self, block: BlockPointer)
        requires
            old(self).wf(),
            old(self).is_allocated_chain(block.index()),
        ensures
            final(self).wf(),
            final(self).lies_where(old(self)),
            final(self).is_after_release(old(self), block.index()),
    {
        self.receive_solitary_chain_back(block)
    }
}

} // verus!
