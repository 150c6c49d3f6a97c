use crate::block_allocator::bag::all_stripes_empty;
use crate::block_allocator::bag::first_stripe_in_use;
use crate::block_allocator::bags::with_chain_added;
use crate::block_allocator::bags::with_first_chain_removed;
use crate::block_allocator::block_allocator::BlockAllocator;
use crate::block_allocator::block_allocator_error::BlockAllocatorError;
use crate::block_allocator::block_pointer::BlockPointer;
use crate::block_allocator::block_size::blocks_required;
use crate::block_allocator::chain_length::ChainLength;
use crate::block_allocator::tiling::is_allocated_head;
use crate::block_allocator::tiling::lemma_blocks_counted_update;
use crate::block_allocator::tiling::lemma_same_lengths_keep_tiling;
use crate::block_allocator::tiling::lemma_split_keeps_tiling;
use crate::hyper_thread::stripe_for;
use crate::hyper_thread::MAXIMUM_SUPPORTED_HYPER_THREADS;
use vstd::prelude::*;

verus! {

/// The shortest chain length from `from` on whose bag holds a chain, or `None` where the bags
/// for all those lengths are empty.
pub open spec fn first_fit(free_lists: Seq<Seq<Seq<u32>>>, from: int) -> Option<int>
    decreases free_lists.len() + 1 - from,
{
    if from < 1 || from > free_lists.len() {
        None
    } else if !all_stripes_empty(free_lists[from - 1]) {
        Some(from)
    } else {
        first_fit(free_lists, from + 1)
    }
}

/// The longest chain length up to `from` whose bag holds a chain, or `None` where the bags for
/// all those lengths are empty.
pub open spec fn best_shorter_fit(free_lists: Seq<Seq<Seq<u32>>>, from: int) -> Option<int>
    decreases from,
{
    if from < 1 || from > free_lists.len() {
        None
    } else if !all_stripes_empty(free_lists[from - 1]) {
        Some(from)
    } else {
        best_shorter_fit(free_lists, from - 1)
    }
}

/// The first fit from `from` on is the first fit from `search` on, where the bags between them are empty.
pub proof fn lemma_first_fit_skips_empty_bags(free_lists: Seq<Seq<Seq<u32>>>, from: int, search: int)
    requires
        1 <= from <= search <= free_lists.len() + 1,
        forall|chain_length: int| from <= chain_length < search ==> all_stripes_empty(#[trigger] free_lists[chain_length - 1]),
    ensures
        first_fit(free_lists, from) == first_fit(free_lists, search),
        search <= free_lists.len() && !all_stripes_empty(free_lists[search - 1]) ==> first_fit(free_lists, from) == Some(
            search,
        ),
        search == free_lists.len() + 1 ==> first_fit(free_lists, from) is None,
    decreases search - from,
{
    if from < search {
        assert(all_stripes_empty(free_lists[from - 1]));
        lemma_first_fit_skips_empty_bags(free_lists, from + 1, search);
    }
}

/// The best shorter fit up to `from` is the best shorter fit up to `search`, where the bags between them are empty.
pub proof fn lemma_best_shorter_fit_skips_empty_bags(free_lists: Seq<Seq<Seq<u32>>>, from: int, search: int)
    requires
        0 <= search <= from <= free_lists.len(),
        forall|chain_length: int| search < chain_length <= from ==> all_stripes_empty(#[trigger] free_lists[chain_length - 1]),
    ensures
        best_shorter_fit(free_lists, from) == best_shorter_fit(free_lists, search),
        search >= 1 && !all_stripes_empty(free_lists[search - 1]) ==> best_shorter_fit(free_lists, from) == Some(search),
        search == 0 ==> best_shorter_fit(free_lists, from) is None,
    decreases from - search,
{
    if search < from {
        assert(all_stripes_empty(free_lists[from - 1]));
        lemma_best_shorter_fit_skips_empty_bags(free_lists, from - 1, search);
    }
}

/// Where there is a first fit, its bag holds a chain; where there is none, the bags from `from` on are empty.
pub proof fn lemma_first_fit(free_lists: Seq<Seq<Seq<u32>>>, from: int)
    requires
        1 <= from,
    ensures
        first_fit(free_lists, from) is Some ==> from <= first_fit(free_lists, from)->Some_0 <= free_lists.len()
            && !all_stripes_empty(free_lists[first_fit(free_lists, from)->Some_0 - 1]),
        first_fit(free_lists, from) is None ==> forall|chain_length: int|
            from <= chain_length <= free_lists.len() ==> all_stripes_empty(#[trigger] free_lists[chain_length - 1]),
    decreases free_lists.len() + 1 - from,
{
    if from <= free_lists.len() && all_stripes_empty(free_lists[from - 1]) {
        lemma_first_fit(free_lists, from + 1);
    }
}

/// Where there is a best shorter fit, its bag holds a chain; where there is none, the bags up to `from` are empty.
pub proof fn lemma_best_shorter_fit(free_lists: Seq<Seq<Seq<u32>>>, from: int)
    requires
        from <= free_lists.len(),
    ensures
        best_shorter_fit(free_lists, from) is Some ==> 1 <= best_shorter_fit(free_lists, from)->Some_0 <= from
            && !all_stripes_empty(free_lists[best_shorter_fit(free_lists, from)->Some_0 - 1]),
        best_shorter_fit(free_lists, from) is None ==> forall|chain_length: int|
            1 <= chain_length <= from ==> all_stripes_empty(#[trigger] free_lists[chain_length - 1]),
    decreases from,
{
    if from >= 1 && all_stripes_empty(free_lists[from - 1]) {
        lemma_best_shorter_fit(free_lists, from - 1);
    }
}

impl BlockAllocator {
    /// Are all bags empty?
    pub open spec fn has_no_free_chain(&self) -> bool {
        forall|chain_length: int|
            1 <= chain_length <= self.free_lists().len() ==> all_stripes_empty(
                #[trigger] self.free_lists()[chain_length - 1],
            )
    }

    /// The bags are empty where no block is counted as free, and only there.
    pub proof fn lemma_no_free_chain_means_no_free_block(&self)
        requires
            self.is_consistent(),
        ensures
            self.has_no_free_chain() <==> self.free_blocks() == 0,
    {
        let words = self.words();
        let count = self.number_of_blocks as int;
        if self.free_blocks() > 0 {
            let index = crate::block_allocator::tiling::lemma_blocks_counted_has_head(words, count, true);
            assert(words[index] == self.block_meta_data_items.items@[index].word());
            assert(self.block_meta_data_items.stripe_at(index) is Some);
            assert(self.bags.holds_in_its_stripe(index, &self.block_meta_data_items));
            let chain_length = self.block_meta_data_items.length_at(index) as int;
            let stripe = self.block_meta_data_items.stripe_at(index)->Some_0 as int;
            assert(self.free_lists()[chain_length - 1] == self.bags.bags@[chain_length - 1].chains@);
            assert(self.free_lists()[chain_length - 1][stripe].len() > 0);
            assert(!all_stripes_empty(self.free_lists()[chain_length - 1]));
        }
        if !self.has_no_free_chain() {
            let chain_length = choose|chain_length: int|
                1 <= chain_length <= self.free_lists().len() && !all_stripes_empty(
                    #[trigger] self.free_lists()[chain_length - 1],
                );
            let stripes = self.free_lists()[chain_length - 1];
            assert(stripes == self.bags.bags@[chain_length - 1].chains@);
            assert(self.bags.bags@[chain_length - 1].wf(chain_length as nat, &self.block_meta_data_items));
            let stripe = choose|stripe: int| 0 <= stripe < stripes.len() && (#[trigger] stripes[stripe]).len() != 0;
            self.bags.lemma_block_in_stripe(&self.block_meta_data_items, chain_length, stripe, 0);
            let index = stripes[stripe][0] as int;
            assert(words[index] == self.block_meta_data_items.items@[index].word());
            crate::block_allocator::tiling::lemma_blocks_counted_bounds(words, count, true, index);
        }
    }

    /// The stripe from which a chain of `chain_length` blocks is taken: the first in use, looking
    /// from the stripe of the hyper thread on.
    pub open spec fn stripe_taken_from(&self, chain_length: int) -> int {
        first_stripe_in_use(self.free_lists()[chain_length - 1], stripe_for(self.hyper_thread) as int, 0)->Some_0
    }

    /// The head of the chain of `chain_length` blocks that is taken: the first in that stripe.
    pub open spec fn chain_taken(&self, chain_length: int) -> u32 {
        self.free_lists()[chain_length - 1][self.stripe_taken_from(chain_length)][0]
    }

    /// Is `self` what `former` becomes where the chain of `chain_length` blocks headed by `block` is
    /// taken from the bags and its first `taken` blocks are allocated, the others put back as a
    /// chain of their own?
    pub open spec fn is_after_allocation(&self, former: &BlockAllocator, chain_length: int, block: int, taken: int) -> bool {
        let stripe = former.stripe_taken_from(chain_length);
        let rest = block + taken;
        &&& self.is_bound_like(former)
        &&& self.blocks_memory@ == former.blocks_memory@
        &&& former.is_free_chain(block)
        &&& former.chain_length_at(block) == chain_length
        &&& block == former.chain_taken(chain_length)
        &&& self.is_allocated_chain(block)
        &&& self.chain_length_at(block) == taken
        &&& self.next_chain_at(block) == BlockPointer::null()
        &&& forall|index: int|
            0 <= index < self.number_of_blocks && index != block && !(taken < chain_length && index == rest) ==> {
                &&& (#[trigger] self.block_meta_data_items.items@[index]).word()
                    == former.block_meta_data_items.items@[index].word()
                &&& self.block_meta_data_items.items@[index].next_chain
                    == former.block_meta_data_items.items@[index].next_chain
            }
        &&& taken < chain_length ==> former.block_meta_data_items.items@[rest].length() == 0
        &&& taken == chain_length ==> self.free_lists() == with_first_chain_removed(
            former.free_lists(),
            chain_length,
            stripe,
        )
        &&& taken < chain_length ==> {
            &&& self.is_free_chain(rest)
            &&& self.chain_length_at(rest) == chain_length - taken
            &&& self.next_chain_at(rest) == BlockPointer::null()
            &&& self.block_meta_data_items.stripe_at(rest)->Some_0 < MAXIMUM_SUPPORTED_HYPER_THREADS
            &&& self.free_lists() == with_chain_added(
                with_first_chain_removed(former.free_lists(), chain_length, stripe),
                chain_length - taken,
                self.block_meta_data_items.stripe_at(rest)->Some_0 as int,
                rest as u32,
            )
        }
        &&& self.free_blocks() == former.free_blocks() - taken
        &&& self.spec_blocks_in_use() == former.spec_blocks_in_use() + taken
    }

    /// Is `self` the same as `former`, but for what has reached persistent memory?
    pub open spec fn is_unchanged_from(&self, former: &BlockAllocator) -> bool {
        &&& self.is_bound_like(former)
        &&& self.blocks_memory@ == former.blocks_memory@
        &&& self.block_meta_data_items == former.block_meta_data_items
        &&& self.free_lists() == former.free_lists()
    }

    /// Allocate a chain.
    ///
    /// The chain has as many blocks as hold `requested_size` bytes. It is cut from the shortest
    /// chain in the bags that has as many blocks; what is left of that chain goes back into the bags.
    /// Returns the null pointer and zero for a size of zero, for a size of more blocks than the longest
    /// chain has, and where no chain in the bags has as many blocks.
    /// The second part of the result is the number of blocks in the allocation.
    pub fn allocate_chain(&mut self, requested_size: usize) -> (allocation: (BlockPointer, usize))
        requires
            old(self).wf(),
        ensures
            final(self).wf(),
            ({
                let number_of_blocks = blocks_required(requested_size as int, old(self).block_size.bytes() as int);
                let found = first_fit(old(self).free_lists(), number_of_blocks);
                if number_of_blocks > old(self).maximum_chain_length() || found is None {
                    &&& allocation == (BlockPointer::null(), 0usize)
                    &&& final(self).is_unchanged_from(old(self))
                } else {
                    &&& allocation.0 != BlockPointer::null()
                    &&& allocation.1 == number_of_blocks
                    &&& final(self).is_after_allocation(
                        old(self),
                        found->Some_0,
                        allocation.0.index(),
                        number_of_blocks,
                    )
                }
            }),
    {
        let number_of_blocks_required: usize = self.block_size.number_of_blocks_required(requested_size);
        self.grab_a_chain_exactly_for(number_of_blocks_required)
    }

    /// Allocate a chain, as `allocate_chain` does, and say why where there is none.
    ///
    /// Fails with `InvalidSize` for a size of zero and for a size of more blocks than the longest
    /// chain has, and with `OutOfMemory` where no chain in the bags has as many blocks.
    pub fn try_allocate_chain(&mut self, requested_size: usize) -> (allocation: Result<
        (BlockPointer, usize),
        BlockAllocatorError,
    >)
        requires
            old(self).wf(),
        ensures
            final(self).wf(),
            ({
                let number_of_blocks = blocks_required(requested_size as int, old(self).block_size.bytes() as int);
                let found = first_fit(old(self).free_lists(), number_of_blocks);
                if number_of_blocks == 0 || number_of_blocks > old(self).maximum_chain_length() {
                    &&& allocation == Err::<(BlockPointer, usize), BlockAllocatorError>(BlockAllocatorError::InvalidSize)
                    &&& final(self).is_unchanged_from(old(self))
                } else if found is None {
                    &&& allocation == Err::<(BlockPointer, usize), BlockAllocatorError>(BlockAllocatorError::OutOfMemory)
                    &&& final(self).is_unchanged_from(old(self))
                } else {
                    &&& allocation is Ok
                    &&& allocation->Ok_0.0 != BlockPointer::null()
                    &&& allocation->Ok_0.1 == number_of_blocks
                    &&& final(self).is_after_allocation(
                        old(self),
                        found->Some_0,
                        allocation->Ok_0.0.index(),
                        number_of_blocks,
                    )
                }
            }),
    {
        let number_of_blocks_required: usize = self.block_size.number_of_blocks_required(requested_size);
        if number_of_blocks_required == 0 || number_of_blocks_required > self.bags.bags.len() {
            return Err(BlockAllocatorError::InvalidSize);
        }
        let allocation: (BlockPointer, usize) = self.take_first_fit(number_of_blocks_required);
        if allocation.0.is_null() {
            Err(BlockAllocatorError::OutOfMemory)
        } else {
            Ok(allocation)
        }
    }

    /// Takes a chain of exactly `number_of_blocks` blocks: the front of the shortest chain in the
    /// bags that has as many blocks. What is left of that chain goes back into the bags.
    pub fn grab_a_chain_exactly_for(&mut self, number_of_blocks: usize) -> (allocation: (BlockPointer, usize))
        requires
            old(self).wf(),
        ensures
            final(self).wf(),
            ({
                let found = first_fit(old(self).free_lists(), number_of_blocks as int);
                if number_of_blocks > old(self).maximum_chain_length() || found is None {
                    &&& allocation == (BlockPointer::null(), 0usize)
                    &&& final(self).is_unchanged_from(old(self))
                } else {
                    &&& allocation.0 != BlockPointer::null()
                    &&& allocation.1 == number_of_blocks
                    &&& final(self).is_after_allocation(
                        old(self),
                        found->Some_0,
                        allocation.0.index(),
                        number_of_blocks as int,
                    )
                }
            }),
    {
        let maximum_chain_length: usize = self.bags.bags.len();
        if number_of_blocks == 0 || number_of_blocks > maximum_chain_length {
            return (BlockPointer::null_pointer(), 0);
        }
        self.take_first_fit(number_of_blocks)
    }

    /// Takes a chain of exactly `number_of_blocks` blocks, as `grab_a_chain_exactly_for` does, for
    /// a number of blocks that a chain can have.
    pub fn take_first_fit(&mut self, number_of_blocks: usize) -> (allocation: (BlockPointer, usize))
        requires
            old(self).wf(),
            1 <= number_of_blocks <= old(self).maximum_chain_length(),
        ensures
            final(self).wf(),
            ({
                let found = first_fit(old(self).free_lists(), number_of_blocks as int);
                if found is None {
                    &&& allocation == (BlockPointer::null(), 0usize)
                    &&& final(self).is_unchanged_from(old(self))
                } else {
                    &&& allocation.0 != BlockPointer::null()
                    &&& allocation.1 == number_of_blocks
                    &&& final(self).is_after_allocation(
                        old(self),
                        found->Some_0,
                        allocation.0.index(),
                        number_of_blocks as int,
                    )
                }
            }),
    {
        let maximum_chain_length: usize = self.bags.bags.len();
        let mut search_for_chain_length: usize = number_of_blocks;
        while search_for_chain_length <= maximum_chain_length
            invariant
                1 <= number_of_blocks <= search_for_chain_length <= maximum_chain_length + 1,
                maximum_chain_length == old(self).maximum_chain_length(),
                self.wf(),
                old(self).wf(),
                self.is_unchanged_from(old(self)),
                self.lies_where(old(self)),
                forall|chain_length: int|
                    number_of_blocks <= chain_length < search_for_chain_length ==> all_stripes_empty(
                        #[trigger] self.free_lists()[chain_length - 1],
                    ),
            decreases maximum_chain_length + 1 - search_for_chain_length,
        {
            let our_shorter_chain_length: ChainLength = ChainLength::from_length(search_for_chain_length);
            let ghost former = *self;
            let chain: BlockPointer = self.bags.remove(
                &mut self.block_meta_data_items,
                our_shorter_chain_length,
                &mut self.persistence_domain,
                self.hyper_thread,
            );
            assert(former.free_lists()[search_for_chain_length - 1] == former.bags.bags@[search_for_chain_length
                - 1].chains@);
            if chain.is_not_null() {
                proof {
                    lemma_first_fit_skips_empty_bags(
                        old(self).free_lists(),
                        number_of_blocks as int,
                        search_for_chain_length as int,
                    );
                    self.lemma_chain_taken(&former, chain.index());
                    assert(former.free_blocks() == old(self).free_blocks());
                    assert(former.spec_blocks_in_use() == old(self).spec_blocks_in_use());
                }
                proof {
                    if search_for_chain_length != number_of_blocks {
                        let block = chain.index();
                        let rest = block + number_of_blocks;
                        let words = old(self).words();
                        assert(words[block] == old(self).block_meta_data_items.items@[block].word());
                        assert(words[block].length() == search_for_chain_length);
                        assert(block + words[block].length() <= old(self).number_of_blocks);
                        assert(words[rest].length() == 0);
                        assert(words[rest] == old(self).block_meta_data_items.items@[rest].word());
                    }
                }
                if search_for_chain_length != number_of_blocks {
                    self.snap_off_back_if_longer_than_required_capacity_and_recycle_into_block_allocator(
                        chain,
                        our_shorter_chain_length,
                        ChainLength::from_length(number_of_blocks),
                    );
                }
                return (chain, number_of_blocks);
            }
            proof {
                self.lemma_stays_laid_out(&former);
            }
            search_for_chain_length += 1;
        }
        proof {
            lemma_first_fit_skips_empty_bags(
                old(self).free_lists(),
                number_of_blocks as int,
                search_for_chain_length as int,
            );
        }
        (BlockPointer::null_pointer(), 0)
    }

    /// What taking the chain headed by `block` out of its bag keeps and changes.
    pub proof fn lemma_chain_taken(&self, former: &BlockAllocator, block: int)
        requires
            former.is_consistent(),
            self.is_bound_like(former),
            self.bags.lies_where(&former.bags),
            self.blocks_memory@ == former.blocks_memory@,
            self.bags.wf(&self.block_meta_data_items),
            0 <= block < former.number_of_blocks,
            former.block_meta_data_items.stripe_at(block) is Some,
            former.block_meta_data_items.length_at(block) >= 1,
            self.block_meta_data_items.agrees_except_at(&former.block_meta_data_items, block),
            self.block_meta_data_items.length_at(block) == former.block_meta_data_items.length_at(block),
            self.block_meta_data_items.stripe_at(block) is None,
            self.block_meta_data_items.next_chain_at(block) == former.block_meta_data_items.next_chain_at(block),
        ensures
            self.is_consistent(),
            self.lies_where(former),
            former.is_free_chain(block),
            self.is_allocated_chain(block),
            self.next_chain_at(block) == BlockPointer::null(),
            self.free_blocks() == former.free_blocks() - former.chain_length_at(block),
            self.spec_blocks_in_use() == former.spec_blocks_in_use() + former.chain_length_at(block),
    {
        let before = former.words();
        let after = self.words();
        assert forall|index: int| 0 <= index < before.len() implies (#[trigger] after[index]).length() == before[index].length() by {
            if index != block {
                assert(self.block_meta_data_items.items@[index].word() == former.block_meta_data_items.items@[index].word());
            }
        }
        assert forall|index: int| 0 <= index < before.len() && (#[trigger] after[index]).length() == 0 implies after[index].stripe()
            is None by {
            if index != block {
                assert(self.block_meta_data_items.items@[index].word() == former.block_meta_data_items.items@[index].word());
                assert(before[index].length() == 0);
            }
        }
        lemma_same_lengths_keep_tiling(
            before,
            after,
            former.number_of_blocks as int,
            former.maximum_chain_length() as int,
        );
        self.lemma_stays_laid_out(former);
        assert(former.block_meta_data_items.next_chain_at(block) == BlockPointer::null());
        assert forall|index: int|
            0 <= index < self.number_of_blocks && !is_allocated_head(self.words(), index) implies #[trigger] self.block_meta_data_items.next_chain_at(
            index,
        ) == BlockPointer::null() by {
            assert(self.block_meta_data_items.items@[index].word() == former.block_meta_data_items.items@[index].word());
            assert(!is_allocated_head(former.words(), index));
            assert(former.block_meta_data_items.next_chain_at(index) == BlockPointer::null());
        }
        assert(after =~= before.update(block, after[block])) by {
            assert forall|index: int| 0 <= index < before.len() implies after[index] == before.update(block, after[block])[index] by {
                if index != block {
                    assert(self.block_meta_data_items.items@[index].word()
                        == former.block_meta_data_items.items@[index].word());
                }
            }
        }
        lemma_blocks_counted_update(before, former.number_of_blocks as int, true, block, after[block]);
        lemma_blocks_counted_update(before, former.number_of_blocks as int, false, block, after[block]);
    }

    /// Cuts the chain headed by `chain`, which has `longer` blocks and is allocated, down to
    /// `required` blocks, and puts the blocks cut off its back into the bags as a chain of their own.
    pub fn snap_off_back_if_longer_than_required_capacity_and_recycle_into_block_allocator(
        &mut self,
        chain: BlockPointer,
        longer: ChainLength,
        required: ChainLength,
    )
        requires
            old(self).is_consistent(),
            old(self).persistence_domain@.is_written_back(),
            old(self).is_allocated_chain(chain.index()),
            old(self).chain_length_at(chain.index()) == longer.0,
            1 <= required.0 < longer.0,
        ensures
            final(self).wf(),
            final(self).is_bound_like(old(self)),
            final(self).lies_where(old(self)),
            final(self).blocks_memory@ == old(self).blocks_memory@,
            final(self).is_allocated_chain(chain.index()),
            final(self).chain_length_at(chain.index()) == required.0,
            final(self).next_chain_at(chain.index()) == old(self).next_chain_at(chain.index()),
            final(self).is_free_chain(chain.index() + required.0),
            final(self).chain_length_at(chain.index() + required.0) == longer.0 - required.0,
            final(self).next_chain_at(chain.index() + required.0) == BlockPointer::null(),
            final(self).block_meta_data_items.stripe_at(chain.index() + required.0)->Some_0
                < MAXIMUM_SUPPORTED_HYPER_THREADS,
            final(self).free_lists() == with_chain_added(
                old(self).free_lists(),
                longer.0 - required.0,
                final(self).block_meta_data_items.stripe_at(chain.index() + required.0)->Some_0 as int,
                (chain.index() + required.0) as u32,
            ),
            forall|index: int|
                0 <= index < old(self).number_of_blocks && index != chain.index() && index != chain.index()
                    + required.0 ==> #[trigger] final(self).block_meta_data_items.items@[index] == old(
                    self,
                ).block_meta_data_items.items@[index],
            final(self).free_blocks() == old(self).free_blocks() + (longer.0 - required.0),
            final(self).spec_blocks_in_use() == old(self).spec_blocks_in_use() - (longer.0 - required.0),
    {
        let index: usize = chain.0 as usize;
        let ghost whole = old(self).words();
        proof {
            assert(whole[index as int].length() == longer.0);
            assert(chain.index() + longer.0 <= self.number_of_blocks);
            assert(whole[chain.index() + required.0].length() == 0);
            assert(self.block_meta_data_items.stripe_at(chain.index() + required.0) is None);
        }
        self.block_meta_data_items.items[index].acquire(required, &mut self.persistence_domain);
        let ghost cut = self.block_meta_data_items;
        proof {
            old(self).bags.lemma_bags_stay_wf(&old(self).block_meta_data_items, &self.block_meta_data_items);
        }
        let rest: BlockPointer = BlockPointer::new((index + required.0) as u32);
        self.bags.add(
            &mut self.block_meta_data_items,
            ChainLength::from_length(longer.0 - required.0),
            rest,
            &mut self.persistence_domain,
        );
        proof {
            let after = self.words();
            let front = required.0 as int;
            assert forall|other: int|
                0 <= other < whole.len() && other != chain.index() && other != chain.index() + front implies #[trigger] after[other]
                == whole[other] by {
                assert(self.block_meta_data_items.items@[other] == cut.items@[other]);
                assert(cut.items@[other] == old(self).block_meta_data_items.items@[other]);
            }
            assert(self.block_meta_data_items.items@[chain.index()] == cut.items@[chain.index()]);
            lemma_split_keeps_tiling(
                whole,
                after,
                self.number_of_blocks as int,
                self.maximum_chain_length() as int,
                chain.index(),
                front,
            );
            assert forall|other: int| 0 <= other < self.block_meta_data_items.items@.len() implies (
            #[trigger] self.block_meta_data_items.items@[other]).lies_where(
                &old(self).block_meta_data_items.items@[other],
            ) by {
                assert(self.block_meta_data_items.items@[other].lies_where(&cut.items@[other]));
                assert(cut.items@[other].lies_where(&old(self).block_meta_data_items.items@[other]));
            }
            self.lemma_stays_laid_out(old(self));
            assert forall|other: int|
                0 <= other < self.number_of_blocks && !is_allocated_head(self.words(), other) implies #[trigger] self.block_meta_data_items.next_chain_at(
                other,
            ) == BlockPointer::null() by {
                if other == chain.index() + front {
                    assert(cut.items@[other] == old(self).block_meta_data_items.items@[other]);
                    assert(!is_allocated_head(whole, other));
                    assert(old(self).block_meta_data_items.next_chain_at(other) == BlockPointer::null());
                } else {
                    assert(after[other] == whole[other]);
                    assert(self.block_meta_data_items.items@[other] == cut.items@[other]);
                    assert(cut.items@[other] == old(self).block_meta_data_items.items@[other]);
                    assert(old(self).block_meta_data_items.next_chain_at(other) == BlockPointer::null());
                }
            }
            assert(cut.items@[chain.index() + front] == old(self).block_meta_data_items.items@[chain.index() + front]);
            assert(old(self).block_meta_data_items.next_chain_at(chain.index() + front) == BlockPointer::null());
            let halfway = whole.update(chain.index(), after[chain.index()]);
            assert(after =~= halfway.update(chain.index() + front, after[chain.index() + front]));
            lemma_blocks_counted_update(whole, self.number_of_blocks as int, true, chain.index(), after[chain.index()]);
            lemma_blocks_counted_update(whole, self.number_of_blocks as int, false, chain.index(), after[chain.index()]);
            lemma_blocks_counted_update(
                halfway,
                self.number_of_blocks as int,
                true,
                chain.index() + front,
                after[chain.index() + front],
            );
            lemma_blocks_counted_update(
                halfway,
                self.number_of_blocks as int,
                false,
                chain.index() + front,
                after[chain.index() + front],
            );
        }
    }

    /// Takes a chain of at most `number_of_blocks` blocks: the longest chain in the bags that is no
    /// longer than that, whole.
    pub fn take_best_shorter_fit(&mut self, number_of_blocks: usize) -> (allocation: (BlockPointer, usize))
        requires
            old(self).wf(),
            1 <= number_of_blocks <= old(self).maximum_chain_length(),
        ensures
            final(self).wf(),
            ({
                let found = best_shorter_fit(old(self).free_lists(), number_of_blocks as int);
                if found is None {
                    &&& allocation == (BlockPointer::null(), 0usize)
                    &&& final(self).is_unchanged_from(old(self))
                } else {
                    &&& allocation.0 != BlockPointer::null()
                    &&& allocation.1 == found->Some_0
                    &&& final(self).is_after_allocation(old(self), found->Some_0, allocation.0.index(), found->Some_0)
                }
            }),
    {
        let mut search_for_chain_length: usize = number_of_blocks;
        while search_for_chain_length > 0
            invariant
                0 <= search_for_chain_length <= number_of_blocks <= old(self).maximum_chain_length(),
                self.wf(),
                old(self).wf(),
                self.is_unchanged_from(old(self)),
                self.lies_where(old(self)),
                forall|chain_length: int|
                    search_for_chain_length < chain_length <= number_of_blocks ==> all_stripes_empty(
                        #[trigger] self.free_lists()[chain_length - 1],
                    ),
            decreases search_for_chain_length,
        {
            let ghost former = *self;
            let chain: BlockPointer = self.bags.remove(
                &mut self.block_meta_data_items,
                ChainLength::from_length(search_for_chain_length),
                &mut self.persistence_domain,
                self.hyper_thread,
            );
            assert(former.free_lists()[search_for_chain_length - 1] == former.bags.bags@[search_for_chain_length
                - 1].chains@);
            if chain.is_not_null() {
                proof {
                    lemma_best_shorter_fit_skips_empty_bags(
                        old(self).free_lists(),
                        number_of_blocks as int,
                        search_for_chain_length as int,
                    );
                    self.lemma_chain_taken(&former, chain.index());
                    assert(former.free_blocks() == old(self).free_blocks());
                    assert(former.spec_blocks_in_use() == old(self).spec_blocks_in_use());
                }
                return (chain, search_for_chain_length);
            }
            proof {
                self.lemma_stays_laid_out(&former);
            }
            search_for_chain_length -= 1;
        }
        proof {
            lemma_best_shorter_fit_skips_empty_bags(old(self).free_lists(), number_of_blocks as int, 0);
        }
        (BlockPointer::null_pointer(), 0)
    }

    /// Takes a chain for an allocation of several chains, of which `ideal_number_of_blocks` blocks
    /// are still to be found.
    ///
    /// First tries to get a chain of exactly that many blocks, or of as many as a chain can have if
    /// that is fewer: the front of the shortest chain in the bags that has as many blocks. Failing
    /// that, takes the longest chain in the bags that is shorter, whole.
    /// Returns the null pointer and zero where the bags are empty.
    pub fn grab_a_chain(&mut self, ideal_number_of_blocks: usize) -> (allocation: (BlockPointer, usize))
        requires
            old(self).wf(),
            ideal_number_of_blocks >= 1,
        ensures
            final(self).wf(),
            ({
                let capped_chain_length = if ideal_number_of_blocks <= old(self).maximum_chain_length() {
                    ideal_number_of_blocks as int
                } else {
                    old(self).maximum_chain_length() as int
                };
                let found = first_fit(old(self).free_lists(), capped_chain_length);
                let shorter = best_shorter_fit(old(self).free_lists(), capped_chain_length);
                if found is Some {
                    &&& allocation.0 != BlockPointer::null()
                    &&& allocation.1 == capped_chain_length
                    &&& final(self).is_after_allocation(
                        old(self),
                        found->Some_0,
                        allocation.0.index(),
                        capped_chain_length,
                    )
                } else if shorter is Some {
                    &&& allocation.0 != BlockPointer::null()
                    &&& allocation.1 == shorter->Some_0
                    &&& final(self).is_after_allocation(
                        old(self),
                        shorter->Some_0,
                        allocation.0.index(),
                        shorter->Some_0,
                    )
                } else {
                    &&& allocation == (BlockPointer::null(), 0usize)
                    &&& final(self).is_unchanged_from(old(self))
                }
            }),
            allocation.0 == BlockPointer::null() <==> old(self).free_blocks() == 0,
            allocation.0 != BlockPointer::null() ==> 1 <= allocation.1 <= ideal_number_of_blocks,
    {
        let maximum_chain_length: usize = self.bags.bags.len();
        let capped_chain_length: usize = if ideal_number_of_blocks <= maximum_chain_length {
            ideal_number_of_blocks
        } else {
            maximum_chain_length
        };
        proof {
            old(self).lemma_no_free_chain_means_no_free_block();
            lemma_first_fit(old(self).free_lists(), capped_chain_length as int);
            lemma_best_shorter_fit(old(self).free_lists(), capped_chain_length as int);
        }
        let ghost former = *self;
        let allocation: (BlockPointer, usize) = self.take_first_fit(capped_chain_length);
        if allocation.0.is_not_null() {
            return allocation;
        }
        proof {
            assert(self.free_lists() == old(self).free_lists());
        }
        let ghost halfway = *self;
        let allocation: (BlockPointer, usize) = self.take_best_shorter_fit(capped_chain_length);
        proof {
            assert(halfway.free_blocks() == old(self).free_blocks());
            assert(halfway.spec_blocks_in_use() == old(self).spec_blocks_in_use());
            if allocation.0 != BlockPointer::null() {
                let found = best_shorter_fit(old(self).free_lists(), capped_chain_length as int)->Some_0;
                assert(halfway.stripe_taken_from(found) == old(self).stripe_taken_from(found));
                assert(halfway.chain_taken(found) == old(self).chain_taken(found));
                assert(halfway.block_meta_data_items == old(self).block_meta_data_items);
                assert(self.is_after_allocation(old(self), found, allocation.0.index(), found));
            }
        }
        allocation
    }

    /// The length of the chain in the bags from which `grab_a_chain` takes a chain, where
    /// `ideal_number_of_blocks` blocks are still to be found and the bags are not empty.
    pub open spec fn length_of_chain_to_grab(&self, ideal_number_of_blocks: int) -> int {
        let capped_chain_length = if ideal_number_of_blocks <= self.maximum_chain_length() {
            ideal_number_of_blocks
        } else {
            self.maximum_chain_length() as int
        };
        let found = first_fit(self.free_lists(), capped_chain_length);
        let shorter = best_shorter_fit(self.free_lists(), capped_chain_length);
        if found is Some {
            found->Some_0
        } else {
            shorter->Some_0
        }
    }

    /// The chain that `grab_a_chain` takes is no longer than the chain in the bags that it is taken from.
    pub proof fn lemma_chain_to_grab(&self, ideal_number_of_blocks: int)
        requires
            self.is_consistent(),
            ideal_number_of_blocks >= 1,
        ensures
            ({
                let capped_chain_length = if ideal_number_of_blocks <= self.maximum_chain_length() {
                    ideal_number_of_blocks
                } else {
                    self.maximum_chain_length() as int
                };
                let found = first_fit(self.free_lists(), capped_chain_length);
                let shorter = best_shorter_fit(self.free_lists(), capped_chain_length);
                &&& found is Some ==> capped_chain_length <= found->Some_0
                &&& found is None && shorter is Some ==> 1 <= shorter->Some_0
            }),
    {
        let capped_chain_length = if ideal_number_of_blocks <= self.maximum_chain_length() {
            ideal_number_of_blocks
        } else {
            self.maximum_chain_length() as int
        };
        lemma_first_fit(self.free_lists(), capped_chain_length);
        lemma_best_shorter_fit(self.free_lists(), capped_chain_length);
    }
}

} // verus!
