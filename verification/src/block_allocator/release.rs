use crate::block_allocator::block_allocator::BlockAllocator;
use crate::block_allocator::block_pointer::BlockPointer;
use crate::block_allocator::chain_length::ChainLength;
use crate::block_allocator::chain_length::ChainLengthAndBagStripeIndex;
use crate::block_allocator::bags::with_chain_added;
use crate::block_allocator::tiling::is_allocated_head;
use crate::hyper_thread::MAXIMUM_SUPPORTED_HYPER_THREADS;
use crate::block_allocator::tiling::is_free_head;
use crate::block_allocator::tiling::lemma_blocks_counted_update;
use crate::block_allocator::tiling::lemma_merge_keeps_tiling;
use crate::block_allocator::tiling::lemma_same_lengths_keep_tiling;
use vstd::prelude::*;

verus! {

/// The length that the chain of `length` blocks headed by the block at `block` has once the chains
/// after it are merged onto its end: each chain that is in a bag, as long as the merged chain is
/// no longer than `maximum_chain_length`.
pub open spec fn coalesced_length(
    words: Seq<ChainLengthAndBagStripeIndex>,
    maximum_chain_length: int,
    block: int,
    length: int,
) -> int
    decreases maximum_chain_length - length,
{
    let next = block + length;
    if 1 <= length < maximum_chain_length && 0 <= next < words.len() && is_free_head(words, next) && length
        + words[next].length() <= maximum_chain_length {
        coalesced_length(words, maximum_chain_length, block, length + words[next].length())
    } else {
        length
    }
}

/// A chain gets no shorter where chains are merged onto its end, and no longer than a chain can be.
pub proof fn lemma_coalesced_length_bounds(
    words: Seq<ChainLengthAndBagStripeIndex>,
    maximum_chain_length: int,
    block: int,
    length: int,
)
    requires
        1 <= length <= maximum_chain_length,
    ensures
        length <= coalesced_length(words, maximum_chain_length, block, length) <= maximum_chain_length,
    decreases maximum_chain_length - length,
{
    let next = block + length;
    if 1 <= length < maximum_chain_length && 0 <= next < words.len() && is_free_head(words, next) && length
        + words[next].length() <= maximum_chain_length {
        lemma_coalesced_length_bounds(words, maximum_chain_length, block, length + words[next].length());
    }
}

impl BlockAllocator {
    /// Is `self` what `former` becomes where the allocated chain headed by `block` is given back:
    /// the chain, with the free chains after it merged onto its end, is in a bag, and every other
    /// chain is as it was?
    pub open spec fn is_after_release(&self, former: &BlockAllocator, block: int) -> bool {
        let merged = coalesced_length(
            former.words(),
            former.maximum_chain_length() as int,
            block,
            former.chain_length_at(block) as int,
        );
        &&& self.is_bound_like(former)
        &&& self.blocks_memory@ == former.blocks_memory@
        &&& former.chain_length_at(block) <= merged <= former.maximum_chain_length()
        &&& block + merged <= former.number_of_blocks
        &&& self.is_free_chain(block)
        &&& self.chain_length_at(block) == merged
        &&& self.next_chain_at(block) == BlockPointer::null()
        &&& self.block_meta_data_items.stripe_at(block)->Some_0 < MAXIMUM_SUPPORTED_HYPER_THREADS
        &&& self.free_lists()[merged - 1][self.block_meta_data_items.stripe_at(block)->Some_0 as int].len() > 0
        &&& self.free_lists()[merged - 1][self.block_meta_data_items.stripe_at(block)->Some_0 as int][0] == block
        &&& forall|index: int|
            block < index < block + merged ==> (#[trigger] self.block_meta_data_items.items@[index]).word()
                == ChainLengthAndBagStripeIndex::pack(0, None)
        &&& forall|index: int|
            0 <= index < former.number_of_blocks && !(block <= index < block + merged) ==> {
                &&& (#[trigger] self.block_meta_data_items.items@[index]).length()
                    == former.block_meta_data_items.items@[index].length()
                &&& self.block_meta_data_items.items@[index].stripe() is Some
                    == former.block_meta_data_items.items@[index].stripe() is Some
                &&& self.block_meta_data_items.items@[index].next_chain.pointer()
                    == former.block_meta_data_items.items@[index].next_chain.pointer()
            }
        &&& forall|index: int|
            block < index < block + merged ==> !(#[trigger] former.block_meta_data_items.items@[index]).heads_allocated_chain()
        &&& self.free_blocks() == former.free_blocks() + former.chain_length_at(block)
        &&& self.spec_blocks_in_use() == former.spec_blocks_in_use() - former.chain_length_at(block)
    }

    /// Where the blocks lie: no block lies after the end of the blocks, and the address of a block gives its index.
    pub proof fn lemma_block_addresses(&self, index: int)
        requires
            self.is_laid_out(),
            0 <= index <= self.number_of_blocks,
        ensures
            self.blocks_memory_inclusive_start_pointer + self.block_size.bytes() * index
                <= self.blocks_memory_exclusive_end_pointer <= usize::MAX,
            index < self.number_of_blocks ==> self.blocks_memory_inclusive_start_pointer + self.block_size.bytes()
                * index < self.blocks_memory_exclusive_end_pointer,
            (self.block_size.bytes() * index) % (self.block_size.bytes() as int) == 0,
            (self.block_size.bytes() * index) / (self.block_size.bytes() as int) == index,
            self.block_size.bytes() * index >= 0,
    {
        let size = self.block_size.bytes() as int;
        let count = self.number_of_blocks as int;
        assert(size * index <= size * count) by (nonlinear_arith)
            requires
                0 <= index <= count,
                size > 0,
        ;
        if index < count {
            assert(size * index < size * count) by (nonlinear_arith)
                requires
                    0 <= index < count,
                    size > 0,
            ;
        }
        assert(size * index >= 0) by (nonlinear_arith)
            requires
                0 <= index,
                size > 0,
        ;
        vstd::arithmetic::div_mod::lemma_fundamental_div_mod_converse(size * index, size, index, 0);
    }

    /// What putting the allocated chain headed by `block` into a bag keeps and changes.
    pub proof fn lemma_chain_put(&self, former: &BlockAllocator, block: int)
        requires
            former.is_consistent(),
            self.is_bound_like(former),
            self.bags.lies_where(&former.bags),
            self.blocks_memory@ == former.blocks_memory@,
            self.bags.wf(&self.block_meta_data_items),
            former.is_allocated_chain(block),
            self.block_meta_data_items.agrees_except_at(&former.block_meta_data_items, block),
            self.block_meta_data_items.length_at(block) == former.block_meta_data_items.length_at(block),
            self.block_meta_data_items.stripe_at(block) is Some,
            self.block_meta_data_items.next_chain_at(block) == BlockPointer::null(),
        ensures
            self.is_consistent(),
            self.lies_where(former),
            self.is_free_chain(block),
            self.free_blocks() == former.free_blocks() + former.chain_length_at(block),
            self.spec_blocks_in_use() == former.spec_blocks_in_use() - former.chain_length_at(block),
    {
        let before = former.words();
        let after = self.words();
        assert forall|index: int| 0 <= index < before.len() implies (#[trigger] after[index]).length() == before[index].length() by {
            if index != block {
                assert(self.block_meta_data_items.items@[index].word() == former.block_meta_data_items.items@[index].word());
            }
        }
        assert forall|index: int| 0 <= index < before.len() && (#[trigger] after[index]).length() == 0 implies after[index].stripe()
            is None by {
            if index != block {
                assert(self.block_meta_data_items.items@[index].word() == former.block_meta_data_items.items@[index].word());
                assert(before[index].length() == 0);
            }
        }
        lemma_same_lengths_keep_tiling(
            before,
            after,
            former.number_of_blocks as int,
            former.maximum_chain_length() as int,
        );
        self.lemma_stays_laid_out(former);
        assert forall|index: int|
            0 <= index < self.number_of_blocks && !is_allocated_head(self.words(), index) implies #[trigger] self.block_meta_data_items.next_chain_at(
            index,
        ) == BlockPointer::null() by {
            if index != block {
                assert(self.block_meta_data_items.items@[index].word() == former.block_meta_data_items.items@[index].word());
                assert(!is_allocated_head(former.words(), index));
                assert(former.block_meta_data_items.next_chain_at(index) == BlockPointer::null());
            }
        }
        assert(after =~= before.update(block, after[block])) by {
            assert forall|index: int| 0 <= index < before.len() implies after[index] == before.update(block, after[block])[index] by {
                if index != block {
                    assert(self.block_meta_data_items.items@[index].word()
                        == former.block_meta_data_items.items@[index].word());
                }
            }
        }
        lemma_blocks_counted_update(before, former.number_of_blocks as int, true, block, after[block]);
        lemma_blocks_counted_update(before, former.number_of_blocks as int, false, block, after[block]);
    }

    /// What merging the allocated chain after the allocated chain headed by `block` onto its end
    /// keeps and changes.
    pub proof fn lemma_chain_merged(&self, former: &BlockAllocator, block: int)
        requires
            former.is_consistent(),
            self.is_bound_like(former),
            self.lies_where(former),
            self.blocks_memory@ == former.blocks_memory@,
            self.bags == former.bags,
            former.is_allocated_chain(block),
            former.is_allocated_chain(block + former.chain_length_at(block)),
            former.chain_length_at(block) + former.chain_length_at(block + former.chain_length_at(block))
                <= former.maximum_chain_length(),
            former.next_chain_at(block + former.chain_length_at(block)) == BlockPointer::null(),
            forall|index: int|
                0 <= index < former.number_of_blocks && index != block && index != block + former.chain_length_at(block)
                    ==> #[trigger] self.block_meta_data_items.items@[index]
                    == former.block_meta_data_items.items@[index],
            self.block_meta_data_items.length_at(block) == former.chain_length_at(block) + former.chain_length_at(
                block + former.chain_length_at(block),
            ),
            self.block_meta_data_items.stripe_at(block) is None,
            self.block_meta_data_items.length_at(block + former.chain_length_at(block)) == 0,
            self.block_meta_data_items.stripe_at(block + former.chain_length_at(block)) is None,
            self.block_meta_data_items.next_chain_at(block + former.chain_length_at(block)) == BlockPointer::null(),
        ensures
            self.is_consistent(),
            self.is_allocated_chain(block),
            self.free_blocks() == former.free_blocks(),
            self.spec_blocks_in_use() == former.spec_blocks_in_use(),
            self.words()[block + former.chain_length_at(block)] == ChainLengthAndBagStripeIndex::pack(0, None),
    {
        let before = former.words();
        let after = self.words();
        let merged = block + former.chain_length_at(block);
        assert(before[block].length() == former.chain_length_at(block));
        assert(merged < former.number_of_blocks);
        assert forall|index: int| 0 <= index < before.len() && index != block && index != merged implies #[trigger] after[index]
            == before[index] by {
            assert(self.block_meta_data_items.items@[index] == former.block_meta_data_items.items@[index]);
        }
        lemma_merge_keeps_tiling(
            before,
            after,
            former.number_of_blocks as int,
            former.maximum_chain_length() as int,
            block,
        );
        former.bags.lemma_bags_stay_wf(&former.block_meta_data_items, &self.block_meta_data_items);
        self.lemma_stays_laid_out(former);
        assert forall|index: int|
            0 <= index < self.number_of_blocks && !is_allocated_head(self.words(), index) implies #[trigger] self.block_meta_data_items.next_chain_at(
            index,
        ) == BlockPointer::null() by {
            if index != block && index != merged {
                assert(after[index] == before[index]);
                assert(self.block_meta_data_items.items@[index] == former.block_meta_data_items.items@[index]);
                assert(former.block_meta_data_items.next_chain_at(index) == BlockPointer::null());
            }
        }
        let halfway = before.update(block, after[block]);
        assert(after =~= halfway.update(merged, after[merged]));
        lemma_blocks_counted_update(before, former.number_of_blocks as int, true, block, after[block]);
        lemma_blocks_counted_update(before, former.number_of_blocks as int, false, block, after[block]);
        lemma_blocks_counted_update(halfway, former.number_of_blocks as int, true, merged, after[merged]);
        lemma_blocks_counted_update(halfway, former.number_of_blocks as int, false, merged, after[merged]);
        Self::lemma_word_of_block_in_chain(after[merged]);
    }

    /// Does the block at `block` head a chain that a caller owns, so that the chain can be given back?
    pub fn is_allocated_chain_head(&self, block: BlockPointer) -> (is_allocated: bool)
        requires
            self.is_laid_out(),
        ensures
            is_allocated == (block != BlockPointer::null() && self.is_allocated_chain(block.index())),
    {
        if block.is_null() || block.0 as usize >= self.number_of_blocks {
            return false;
        }
        let word: ChainLengthAndBagStripeIndex = self.block_meta_data_items.items[block.0 as usize].word_now();
        word.chain_length() > 0 && word.bag_stripe_index().is_none()
    }

    /// Puts the allocated chain of `solitary_chain_length` blocks headed by
    /// `solitary_chain_block_pointer` into the bag for its length.
    pub fn nothing_to_merge_with_so_add_to_free_list(
        &mut self,
        solitary_chain_block_pointer: BlockPointer,
        solitary_chain_length: ChainLength,
    )
        requires
            old(self).is_consistent(),
            old(self).persistence_domain@.is_written_back(),
            old(self).is_allocated_chain(solitary_chain_block_pointer.index()),
            old(self).chain_length_at(solitary_chain_block_pointer.index()) == solitary_chain_length.0,
        ensures
            final(self).wf(),
            final(self).is_bound_like(old(self)),
            final(self).lies_where(old(self)),
            final(self).blocks_memory@ == old(self).blocks_memory@,
            final(self).block_meta_data_items.agrees_except_at(
                &old(self).block_meta_data_items,
                solitary_chain_block_pointer.index(),
            ),
            final(self).is_free_chain(solitary_chain_block_pointer.index()),
            final(self).chain_length_at(solitary_chain_block_pointer.index()) == solitary_chain_length.0,
            final(self).next_chain_at(solitary_chain_block_pointer.index()) == BlockPointer::null(),
            final(self).block_meta_data_items.stripe_at(solitary_chain_block_pointer.index())->Some_0
                < MAXIMUM_SUPPORTED_HYPER_THREADS,
            final(self).free_lists() == with_chain_added(
                old(self).free_lists(),
                solitary_chain_length.0 as int,
                final(self).block_meta_data_items.stripe_at(solitary_chain_block_pointer.index())->Some_0 as int,
                solitary_chain_block_pointer.0,
            ),
            final(self).free_blocks() == old(self).free_blocks() + solitary_chain_length.0,
            final(self).spec_blocks_in_use() == old(self).spec_blocks_in_use() - solitary_chain_length.0,
    {
        let index: usize = solitary_chain_block_pointer.0 as usize;
        assert(old(self).words()[index as int].length() == solitary_chain_length.0);
        self.block_meta_data_items.items[index].reset_before_add_to_bag(&mut self.persistence_domain);
        let ghost reset = self.block_meta_data_items;
        proof {
            old(self).bags.lemma_bags_stay_wf(&old(self).block_meta_data_items, &self.block_meta_data_items);
        }
        self.bags.add(
            &mut self.block_meta_data_items,
            solitary_chain_length,
            solitary_chain_block_pointer,
            &mut self.persistence_domain,
        );
        proof {
            assert forall|other: int| 0 <= other < self.block_meta_data_items.items@.len() implies (
            #[trigger] self.block_meta_data_items.items@[other]).lies_where(
                &old(self).block_meta_data_items.items@[other],
            ) by {
                assert(self.block_meta_data_items.items@[other].lies_where(&reset.items@[other]));
                assert(reset.items@[other].lies_where(&old(self).block_meta_data_items.items@[other]));
            }
            assert forall|other: int|
                0 <= other < self.block_meta_data_items.items@.len() && other
                    != solitary_chain_block_pointer.index() implies {
                &&& (#[trigger] self.block_meta_data_items.items@[other]).word() == old(
                    self,
                ).block_meta_data_items.items@[other].word()
                &&& self.block_meta_data_items.items@[other].next_chain == old(
                    self,
                ).block_meta_data_items.items@[other].next_chain
            } by {
                assert(self.block_meta_data_items.items@[other] == reset.items@[other]);
                assert(reset.items@[other] == old(self).block_meta_data_items.items@[other]);
            }
            self.lemma_chain_put(old(self), solitary_chain_block_pointer.index());
        }
    }

    /// Is `self` what `former` has become while the allocated chain headed by `block` is given
    /// back, once the chain has grown to `length` blocks?
    pub open spec fn is_during_release(&self, former: &BlockAllocator, block: int, length: int) -> bool {
        let maximum_chain_length = former.maximum_chain_length() as int;
        &&& self.is_bound_like(former)
        &&& self.blocks_memory@ == former.blocks_memory@
        &&& self.is_allocated_chain(block)
        &&& self.chain_length_at(block) == length
        &&& former.chain_length_at(block) <= length <= maximum_chain_length
        &&& coalesced_length(former.words(), maximum_chain_length, block, length) == coalesced_length(
            former.words(),
            maximum_chain_length,
            block,
            former.chain_length_at(block) as int,
        )
        &&& self.next_chain_at(block) == former.next_chain_at(block)
        &&& forall|index: int|
            block < index < block + length ==> (#[trigger] self.block_meta_data_items.items@[index]).word()
                == ChainLengthAndBagStripeIndex::pack(0, None)
        &&& forall|index: int|
            0 <= index < former.number_of_blocks && !(block <= index < block + length) ==> {
                &&& (#[trigger] self.block_meta_data_items.items@[index]).length()
                    == former.block_meta_data_items.items@[index].length()
                &&& self.block_meta_data_items.items@[index].stripe() is Some
                    == former.block_meta_data_items.items@[index].stripe() is Some
                &&& self.block_meta_data_items.items@[index].next_chain.pointer()
                    == former.block_meta_data_items.items@[index].next_chain.pointer()
            }
        &&& forall|index: int|
            block < index < block + length ==> !(#[trigger] former.block_meta_data_items.items@[index]).heads_allocated_chain()
        &&& self.free_blocks() == former.free_blocks() - (length - former.chain_length_at(block))
        &&& self.spec_blocks_in_use() == former.spec_blocks_in_use() + (length - former.chain_length_at(block))
    }

    /// A block that neither heads a chain nor is in a bag has the packed word of such a block.
    pub proof fn lemma_word_of_block_in_chain(word: ChainLengthAndBagStripeIndex)
        requires
            word.length() == 0,
            word.stripe() is None,
        ensures
            word == ChainLengthAndBagStripeIndex::pack(0, None),
    {
        word.lemma_unpack_pack();
    }

    /// Giving a chain back starts with the allocator as it is.
    pub proof fn lemma_release_starts(&self, block: int)
        requires
            self.is_consistent(),
            self.is_allocated_chain(block),
        ensures
            self.is_during_release(self, block, self.chain_length_at(block) as int),
    {
        let words = self.words();
        assert(words[block].length() == self.chain_length_at(block));
        assert forall|index: int| block < index < block + self.chain_length_at(block) implies (
        #[trigger] self.block_meta_data_items.items@[index]).word() == ChainLengthAndBagStripeIndex::pack(0, None) by {
            assert(block + words[block].length() <= self.number_of_blocks);
            assert(words[index].length() == 0);
            assert(words[index].stripe() is None);
            Self::lemma_word_of_block_in_chain(words[index]);
        }
        assert forall|index: int| block < index < block + self.chain_length_at(block) implies !(
        #[trigger] self.block_meta_data_items.items@[index]).heads_allocated_chain() by {
            assert(block + words[block].length() <= self.number_of_blocks);
            assert(words[index].length() == 0);
        }
    }

    /// Receives the allocated chain headed by `solitary_chain_block_pointer` back.
    ///
    /// Merges the chains that follow it onto its end, one after the other, as long as the next chain
    /// is in a bag and the merged chain is no longer than a chain can be; then puts the chain into the
    /// bag for its length.
    pub fn receive_solitary_chain_back(&mut self, solitary_chain_block_pointer: BlockPointer)
        requires
            old(self).wf(),
            old(self).is_allocated_chain(solitary_chain_block_pointer.index()),
        ensures
            final(self).wf(),
            final(self).lies_where(old(self)),
            final(self).is_after_release(old(self), solitary_chain_block_pointer.index()),
    {
        let index: usize = solitary_chain_block_pointer.0 as usize;
        let maximum_chain_length: usize = self.bags.bags.len();
        let ghost block = solitary_chain_block_pointer.index();
        proof {
            self.lemma_release_starts(block);
            assert(self.words()[block].length() == self.chain_length_at(block));
            lemma_coalesced_length_bounds(
                self.words(),
                maximum_chain_length as int,
                block,
                self.chain_length_at(block) as int,
            );
        }
        let mut solitary_chain_length: ChainLength = self.block_meta_data_items.items[index].chain_length(
            &mut self.persistence_domain,
        );
        while solitary_chain_length.is_less_than_inclusive_maximum(maximum_chain_length)
            invariant
                old(self).wf(),
                old(self).is_allocated_chain(block),
                block == solitary_chain_block_pointer.index(),
                index == block,
                maximum_chain_length == old(self).maximum_chain_length(),
                self.is_consistent(),
                self.persistence_domain@.is_written_back(),
                self.lies_where(old(self)),
                self.is_during_release(old(self), block, solitary_chain_length.0 as int),
            ensures
                self.is_consistent(),
                self.persistence_domain@.is_written_back(),
                self.lies_where(old(self)),
                self.is_during_release(old(self), block, solitary_chain_length.0 as int),
                coalesced_length(
                    old(self).words(),
                    maximum_chain_length as int,
                    block,
                    solitary_chain_length.0 as int,
                ) == solitary_chain_length.0,
            decreases maximum_chain_length - solitary_chain_length.0,
        {
            let ghost length = solitary_chain_length.0 as int;
            proof {
                assert(self.words()[block].length() == length);
                assert(block + length <= self.number_of_blocks);
                self.lemma_block_addresses(block + length);
                self.lemma_block_addresses(block);
                let size = self.block_size.bytes() as int;
                assert(size * (block + length) == size * block + size * length) by (nonlinear_arith);
            }
            let subsequent_chain_start_address: usize = solitary_chain_block_pointer.subsequent_chain_start_address(
                self.blocks_memory_inclusive_start_pointer,
                solitary_chain_length,
                self.block_size,
            );
            if subsequent_chain_start_address == self.blocks_memory_exclusive_end_pointer {
                proof {
                    if block + length < self.number_of_blocks {
                        assert(false);
                    }
                }
                break ;
            }
            proof {
                if block + length == self.number_of_blocks {
                    assert(false);
                }
            }
            let cut_chain_block_pointer: BlockPointer = BlockPointer::block_address_to_block_pointer(
                self.blocks_memory_inclusive_start_pointer,
                subsequent_chain_start_address,
                self.block_size,
            );
            assert(cut_chain_block_pointer.index() == block + length);
            let ghost next = block + length;
            let ghost before_cut = *self;
            proof {
                assert(self.block_meta_data_items.items@[next].length() == old(self).block_meta_data_items.items@[next].length());
                assert(old(self).words()[next] == old(self).block_meta_data_items.items@[next].word());
                assert(self.words()[next] == self.block_meta_data_items.items@[next].word());
            }
            if self.bags.try_to_cut(
                &mut self.block_meta_data_items,
                cut_chain_block_pointer,
                &mut self.persistence_domain,
            ) {
                proof {
                    self.lemma_chain_taken(&before_cut, next);
                }
                let cut_index: usize = cut_chain_block_pointer.0 as usize;
                let cut_chain_length: ChainLength = self.block_meta_data_items.items[cut_index].chain_length(
                    &mut self.persistence_domain,
                );
                let ghost extra = cut_chain_length.0 as int;
                assert(extra == old(self).words()[next].length());
                assert(is_free_head(old(self).words(), next));
                match solitary_chain_length.add_if_maximum_length_not_exceeded(cut_chain_length, maximum_chain_length) {
                    None => {
                        let ghost before_put = *self;
                        self.nothing_to_merge_with_so_add_to_free_list(cut_chain_block_pointer, cut_chain_length);
                        proof {
                            assert forall|other: int|
                                0 <= other < self.number_of_blocks && other != next implies {
                                &&& (#[trigger] self.block_meta_data_items.items@[other]).word()
                                    == before_cut.block_meta_data_items.items@[other].word()
                                &&& self.block_meta_data_items.items@[other].next_chain
                                    == before_cut.block_meta_data_items.items@[other].next_chain
                            } by {
                                assert(self.block_meta_data_items.items@[other].word()
                                    == before_put.block_meta_data_items.items@[other].word());
                                assert(before_put.block_meta_data_items.items@[other].word()
                                    == before_cut.block_meta_data_items.items@[other].word());
                            }
                            assert(before_cut.block_meta_data_items.next_chain_at(next) == BlockPointer::null());
                            assert(self.words()[block] == self.block_meta_data_items.items@[block].word());
                            assert(self.is_during_release(old(self), block, length));
                            assert forall|other: int| 0 <= other < self.block_meta_data_items.items@.len() implies (
                            #[trigger] self.block_meta_data_items.items@[other]).lies_where(
                                &old(self).block_meta_data_items.items@[other],
                            ) by {
                                assert(self.block_meta_data_items.items@[other].lies_where(
                                    &before_put.block_meta_data_items.items@[other],
                                ));
                                assert(before_put.block_meta_data_items.items@[other].lies_where(
                                    &before_cut.block_meta_data_items.items@[other],
                                ));
                                assert(before_cut.block_meta_data_items.items@[other].lies_where(
                                    &old(self).block_meta_data_items.items@[other],
                                ));
                            }
                            assert forall|stripe_index: int| 0 <= stripe_index < self.bags.bags@.len() implies (
                            #[trigger] self.bags.bags@[stripe_index]).lies_where(&old(self).bags.bags@[stripe_index]) by {
                                assert(self.bags.bags@[stripe_index].lies_where(&before_put.bags.bags@[stripe_index]));
                                assert(before_put.bags.bags@[stripe_index].lies_where(
                                    &before_cut.bags.bags@[stripe_index],
                                ));
                                assert(before_cut.bags.bags@[stripe_index].lies_where(
                                    &old(self).bags.bags@[stripe_index],
                                ));
                            }
                        }
                        break ;
                    },
                    Some(combined_chain_length) => {
                        let ghost before_merge = *self;
                        assert(before_merge.words()[block] == before_merge.block_meta_data_items.items@[block].word());
                        assert(before_merge.words()[next] == before_merge.block_meta_data_items.items@[next].word());
                        self.block_meta_data_items.items[index].acquire(
                            combined_chain_length,
                            &mut self.persistence_domain,
                        );
                        self.block_meta_data_items.items[cut_index].release(&mut self.persistence_domain);
                        proof {
                            assert(before_merge.block_meta_data_items.next_chain_at(next) == BlockPointer::null());
                            self.lemma_chain_merged(&before_merge, block);
                            assert forall|other: int| 0 <= other < self.block_meta_data_items.items@.len() implies (
                            #[trigger] self.block_meta_data_items.items@[other]).lies_where(
                                &old(self).block_meta_data_items.items@[other],
                            ) by {
                                assert(before_merge.block_meta_data_items.items@[other].lies_where(
                                    &before_cut.block_meta_data_items.items@[other],
                                ));
                                assert(before_cut.block_meta_data_items.items@[other].lies_where(
                                    &old(self).block_meta_data_items.items@[other],
                                ));
                            }
                            assert forall|stripe_index: int| 0 <= stripe_index < self.bags.bags@.len() implies (
                            #[trigger] self.bags.bags@[stripe_index]).lies_where(&old(self).bags.bags@[stripe_index]) by {
                                assert(before_merge.bags.bags@[stripe_index].lies_where(
                                    &before_cut.bags.bags@[stripe_index],
                                ));
                                assert(before_cut.bags.bags@[stripe_index].lies_where(
                                    &old(self).bags.bags@[stripe_index],
                                ));
                            }
                            self.lemma_release_step(old(self), &before_cut, block, length, extra);
                        }
                        solitary_chain_length = combined_chain_length;
                    },
                }
            } else {
                proof {
                    self.lemma_stays_laid_out(&before_cut);
                    assert(!is_free_head(old(self).words(), next));
                }
                break ;
            }
        }
        let ghost merged = *self;
        self.nothing_to_merge_with_so_add_to_free_list(solitary_chain_block_pointer, solitary_chain_length);
        proof {
            assert forall|other: int| 0 <= other < self.block_meta_data_items.items@.len() implies (
            #[trigger] self.block_meta_data_items.items@[other]).lies_where(
                &old(self).block_meta_data_items.items@[other],
            ) by {
                assert(self.block_meta_data_items.items@[other].lies_where(&merged.block_meta_data_items.items@[other]));
                assert(merged.block_meta_data_items.items@[other].lies_where(
                    &old(self).block_meta_data_items.items@[other],
                ));
            }
            assert forall|stripe_index: int| 0 <= stripe_index < self.bags.bags@.len() implies (
            #[trigger] self.bags.bags@[stripe_index]).lies_where(&old(self).bags.bags@[stripe_index]) by {
                assert(self.bags.bags@[stripe_index].lies_where(&merged.bags.bags@[stripe_index]));
                assert(merged.bags.bags@[stripe_index].lies_where(&old(self).bags.bags@[stripe_index]));
            }
            assert(merged.words()[block].length() == solitary_chain_length.0);
            assert(block + solitary_chain_length.0 <= merged.number_of_blocks);
            let stripe = self.block_meta_data_items.stripe_at(block)->Some_0 as int;
            assert(merged.free_lists()[solitary_chain_length.0 - 1] == merged.bags.bags@[solitary_chain_length.0
                - 1].chains@);
            assert(merged.bags.bags@[solitary_chain_length.0 - 1].wf(
                solitary_chain_length.0 as nat,
                &merged.block_meta_data_items,
            ));
            assert(self.free_lists()[solitary_chain_length.0 - 1][stripe][0] == block);
            assert forall|other: int| block < other < block + solitary_chain_length.0 implies (
            #[trigger] self.block_meta_data_items.items@[other]).word() == ChainLengthAndBagStripeIndex::pack(0, None) by {
                assert(self.block_meta_data_items.items@[other].word() == merged.block_meta_data_items.items@[other].word());
            }
            assert forall|other: int|
                0 <= other < old(self).number_of_blocks && !(block <= other < block + solitary_chain_length.0) implies {
                &&& (#[trigger] self.block_meta_data_items.items@[other]).length() == old(
                    self,
                ).block_meta_data_items.items@[other].length()
                &&& self.block_meta_data_items.items@[other].stripe() is Some == old(
                    self,
                ).block_meta_data_items.items@[other].stripe() is Some
                &&& self.block_meta_data_items.items@[other].next_chain.pointer() == old(
                    self,
                ).block_meta_data_items.items@[other].next_chain.pointer()
            } by {
                assert(self.block_meta_data_items.items@[other].word() == merged.block_meta_data_items.items@[other].word());
                assert(self.block_meta_data_items.items@[other].next_chain
                    == merged.block_meta_data_items.items@[other].next_chain);
            }
        }
    }

    /// What one merge keeps, while a chain is given back.
    pub proof fn lemma_release_step(
        &self,
        former: &BlockAllocator,
        before: &BlockAllocator,
        block: int,
        length: int,
        extra: int,
    )
        requires
            former.is_consistent(),
            former.is_allocated_chain(block),
            before.is_consistent(),
            before.is_during_release(former, block, length),
            self.is_bound_like(before),
            self.blocks_memory@ == before.blocks_memory@,
            self.is_consistent(),
            1 <= extra,
            length + extra <= former.maximum_chain_length(),
            block + length < former.number_of_blocks,
            before.is_free_chain(block + length),
            before.chain_length_at(block + length) == extra,
            self.is_allocated_chain(block),
            self.chain_length_at(block) == length + extra,
            self.next_chain_at(block) == before.next_chain_at(block),
            self.block_meta_data_items.items@[block + length].word() == ChainLengthAndBagStripeIndex::pack(0, None),
            forall|index: int|
                0 <= index < former.number_of_blocks && index != block && index != block + length ==> {
                    &&& (#[trigger] self.block_meta_data_items.items@[index]).word()
                        == before.block_meta_data_items.items@[index].word()
                    &&& self.block_meta_data_items.items@[index].next_chain
                        == before.block_meta_data_items.items@[index].next_chain
                },
            self.free_blocks() == before.free_blocks() - extra,
            self.spec_blocks_in_use() == before.spec_blocks_in_use() + extra,
        ensures
            self.is_during_release(former, block, length + extra),
    {
        let next = block + length;
        let maximum_chain_length = former.maximum_chain_length() as int;
        assert(before.words()[next] == before.block_meta_data_items.items@[next].word());
        assert(former.words()[next] == former.block_meta_data_items.items@[next].word());
        assert(before.block_meta_data_items.items@[next].length() == former.block_meta_data_items.items@[next].length());
        assert(is_free_head(former.words(), next));
        assert(former.words()[next].length() == extra);
        assert(coalesced_length(former.words(), maximum_chain_length, block, length) == coalesced_length(
            former.words(),
            maximum_chain_length,
            block,
            length + extra,
        ));
        assert forall|index: int| block < index < block + length + extra implies (
        #[trigger] self.block_meta_data_items.items@[index]).word() == ChainLengthAndBagStripeIndex::pack(0, None) by {
            if index < next {
                assert(before.block_meta_data_items.items@[index].word() == ChainLengthAndBagStripeIndex::pack(0, None));
            } else if index > next {
                assert(next + former.words()[next].length() <= former.number_of_blocks);
                assert(former.words()[index].length() == 0);
                assert(former.words()[index].stripe() is None);
                assert(before.block_meta_data_items.items@[index].length() == 0);
                assert(!(before.block_meta_data_items.items@[index].stripe() is Some));
                Self::lemma_word_of_block_in_chain(before.block_meta_data_items.items@[index].word());
            }
        }
        assert forall|index: int|
            0 <= index < former.number_of_blocks && !(block <= index < block + length + extra) implies {
            &&& (#[trigger] self.block_meta_data_items.items@[index]).length()
                == former.block_meta_data_items.items@[index].length()
            &&& self.block_meta_data_items.items@[index].stripe() is Some
                == former.block_meta_data_items.items@[index].stripe() is Some
            &&& self.block_meta_data_items.items@[index].next_chain.pointer()
                == former.block_meta_data_items.items@[index].next_chain.pointer()
        } by {
            assert(self.block_meta_data_items.items@[index].word() == before.block_meta_data_items.items@[index].word());
            assert(before.block_meta_data_items.items@[index].length()
                == former.block_meta_data_items.items@[index].length());
        }
        assert forall|index: int| block < index < block + length + extra implies !(
        #[trigger] former.block_meta_data_items.items@[index]).heads_allocated_chain() by {
            if index > next {
                assert(next + former.words()[next].length() <= former.number_of_blocks);
                assert(former.words()[index].length() == 0);
            }
        }
    }
}

} // verus!
