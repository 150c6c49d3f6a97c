use crate::block_allocator::bag::block_is_linked;
use crate::block_allocator::bag::first_stripe_in_use;
use crate::block_allocator::bag::Bag;
use crate::block_allocator::bag::SIZE_OF_BAG;
use crate::block_allocator::block_meta_data::BlockMetaDataItems;
use crate::block_allocator::block_pointer::BlockPointer;
use crate::block_allocator::block_pointer::INCLUSIVE_MAXIMUM_NUMBER_OF_BLOCKS;
use crate::block_allocator::chain_length::ChainLength;
use crate::block_allocator::chain_length::ChainLengthAndBagStripeIndex;
use crate::block_allocator::chain_length::INCLUSIVE_MAXIMUM_CHAIN_LENGTH;
use crate::hyper_thread::stripe_for;
use crate::hyper_thread::MAXIMUM_SUPPORTED_HYPER_THREADS;
use crate::persistent_memory_operations::persistence_domain::PersistenceDomain;
use vstd::prelude::*;

verus! {

/// The free lists with the block `block` put at the front of the stripe `stripe` of the bag for
/// chains of `chain_length` blocks.
pub open spec fn with_chain_added(
    free_lists: Seq<Seq<Seq<u32>>>,
    chain_length: int,
    stripe: int,
    block: u32,
) -> Seq<Seq<Seq<u32>>> {
    free_lists.update(
        chain_length - 1,
        free_lists[chain_length - 1].update(stripe, seq![block] + free_lists[chain_length - 1][stripe]),
    )
}

/// The free lists with the block at the front of the stripe `stripe` of the bag for chains of
/// `chain_length` blocks taken out.
pub open spec fn with_first_chain_removed(free_lists: Seq<Seq<Seq<u32>>>, chain_length: int, stripe: int) -> Seq<
    Seq<Seq<u32>>,
> {
    free_lists.update(
        chain_length - 1,
        free_lists[chain_length - 1].update(stripe, free_lists[chain_length - 1][stripe].drop_first()),
    )
}

/// The free lists with the block `block` taken out of the stripe `stripe` of the bag for chains of
/// `chain_length` blocks.
pub open spec fn with_chain_cut(free_lists: Seq<Seq<Seq<u32>>>, chain_length: int, stripe: int, block: u32) -> Seq<
    Seq<Seq<u32>>,
> {
    free_lists.update(
        chain_length - 1,
        free_lists[chain_length - 1].update(
            stripe,
            free_lists[chain_length - 1][stripe].remove(free_lists[chain_length - 1][stripe].index_of(block)),
        ),
    )
}

/// The free list: one bag for each chain length from one to the longest.
pub struct Bags {
    /// The bag for chains of one block, of two blocks, and so on.
    pub bags: Vec<Bag>,
}

impl Bags {
    /// The blocks in each stripe of each bag: the bag for chains of one block first.
    pub open spec fn free_lists(&self) -> Seq<Seq<Seq<u32>>> {
        Seq::new(self.bags@.len(), |index: int| self.bags@[index].chains@)
    }

    /// The longest chain that the bags can hold.
    pub open spec fn maximum_chain_length(&self) -> nat {
        self.bags@.len()
    }

    /// Is the block at `index`, whose meta data says that it is in a bag, in the stripe of the bag
    /// that its meta data names?
    pub open spec fn holds_in_its_stripe(&self, index: int, block_meta_data_items: &BlockMetaDataItems) -> bool {
        let chain_length = block_meta_data_items.length_at(index);
        let stripe = block_meta_data_items.stripe_at(index)->Some_0;
        &&& 1 <= chain_length <= self.bags@.len()
        &&& stripe < MAXIMUM_SUPPORTED_HYPER_THREADS
        &&& self.bags@[chain_length - 1].chains@[stripe as int].contains(index as u32)
    }

    /// Is every bag well-formed, and is every block whose meta data says so in a bag?
    pub open spec fn wf(&self, block_meta_data_items: &BlockMetaDataItems) -> bool {
        &&& 1 <= self.bags@.len() <= INCLUSIVE_MAXIMUM_CHAIN_LENGTH
        &&& block_meta_data_items.count() <= INCLUSIVE_MAXIMUM_NUMBER_OF_BLOCKS
        &&& forall|index: int|
            0 <= index < self.bags@.len() ==> (#[trigger] self.bags@[index]).wf(
                (index + 1) as nat,
                block_meta_data_items,
            )
        &&& forall|index: int|
            0 <= index < block_meta_data_items.count() && block_meta_data_items.stripe_at(index) is Some
                ==> #[trigger] self.holds_in_its_stripe(index, block_meta_data_items)
    }

    /// Do the bags lie one after the other from `address` on?
    pub open spec fn lies_at(&self, address: int) -> bool {
        forall|index: int|
            0 <= index < self.bags@.len() ==> (#[trigger] self.bags@[index]).lies_at(address + SIZE_OF_BAG * index)
    }

    /// Do the bags lie where those of `other` lie?
    pub open spec fn lies_where(&self, other: &Bags) -> bool {
        &&& self.bags@.len() == other.bags@.len()
        &&& forall|index: int|
            0 <= index < self.bags@.len() ==> (#[trigger] self.bags@[index]).lies_where(&other.bags@[index])
    }

    /// Is the bag for chains of `chain_length` blocks empty?
    pub open spec fn is_empty_at(&self, chain_length: int) -> bool {
        self.bags@[chain_length - 1].is_empty()
    }

    /// A block in a stripe of a bag is marked, in its meta data, as in that stripe of that bag.
    pub proof fn lemma_block_in_stripe(
        &self,
        block_meta_data_items: &BlockMetaDataItems,
        chain_length: int,
        stripe: int,
        position: int,
    )
        requires
            self.wf(block_meta_data_items),
            1 <= chain_length <= self.bags@.len(),
            0 <= stripe < MAXIMUM_SUPPORTED_HYPER_THREADS,
            0 <= position < self.bags@[chain_length - 1].chains@[stripe].len(),
        ensures
            self.bags@[chain_length - 1].chains@[stripe][position] < block_meta_data_items.count(),
            block_meta_data_items.length_at(self.bags@[chain_length - 1].chains@[stripe][position] as int)
                == chain_length,
            block_meta_data_items.stripe_at(self.bags@[chain_length - 1].chains@[stripe][position] as int) == Some(
                stripe as nat,
            ),
    {
        assert(self.bags@[chain_length - 1].wf(chain_length as nat, block_meta_data_items));
        assert(self.bags@[chain_length - 1].stripe_is_linked(stripe, chain_length as nat, block_meta_data_items));
        assert(block_is_linked(
            self.bags@[chain_length - 1].chains@[stripe],
            position,
            stripe,
            chain_length as nat,
            block_meta_data_items,
        ));
    }

    /// The bags stay well-formed, but for the bag for chains of `chain_length` blocks, where only the
    /// meta data of blocks changes that are marked as heads of chains of that length or as not in a bag.
    pub proof fn lemma_other_bags_stay_wf(
        &self,
        before: &BlockMetaDataItems,
        after: &BlockMetaDataItems,
        chain_length: int,
        index: int,
    )
        requires
            self.wf(before),
            after.count() == before.count(),
            0 <= index < self.bags@.len(),
            index != chain_length - 1,
            forall|block: int|
                0 <= block < before.count() && before.stripe_at(block) is Some && before.length_at(block)
                    != chain_length ==> #[trigger] after.items@[block] == before.items@[block],
        ensures
            self.bags@[index].wf((index + 1) as nat, after),
    {
        let bag = self.bags@[index];
        assert(bag.wf((index + 1) as nat, before));
        assert forall|stripe: int, position: int|
            0 <= stripe < MAXIMUM_SUPPORTED_HYPER_THREADS && 0 <= position < bag.chains@[stripe].len() implies after.items@[(
        #[trigger] bag.chains@[stripe][position]) as int] == before.items@[bag.chains@[stripe][position] as int] by {
            self.lemma_block_in_stripe(before, index + 1, stripe, position);
        }
        bag.lemma_wf_depends_on_own_blocks((index + 1) as nat, before, after);
    }

    /// The bags stay well-formed where only the meta data of blocks changes that are not in a bag,
    /// and none of them is marked as in a bag.
    pub proof fn lemma_bags_stay_wf(&self, before: &BlockMetaDataItems, after: &BlockMetaDataItems)
        requires
            self.wf(before),
            after.count() == before.count(),
            forall|block: int|
                0 <= block < before.count() && before.stripe_at(block) is Some ==> #[trigger] after.items@[block]
                    == before.items@[block],
            forall|block: int|
                0 <= block < before.count() && (#[trigger] after.stripe_at(block)) is Some ==> before.stripe_at(block)
                    is Some,
        ensures
            self.wf(after),
    {
        assert forall|index: int| 0 <= index < self.bags@.len() implies (#[trigger] self.bags@[index]).wf(
            (index + 1) as nat,
            after,
        ) by {
            self.lemma_other_bags_stay_wf(before, after, -1, index);
        }
        assert forall|index: int|
            0 <= index < after.count() && after.stripe_at(index) is Some implies #[trigger] self.holds_in_its_stripe(
            index,
            after,
        ) by {
            assert(before.stripe_at(index) is Some);
            assert(after.items@[index] == before.items@[index]);
            assert(self.holds_in_its_stripe(index, before));
        }
    }

    /// Bags that hold the same blocks stay well-formed where the meta data of the blocks says the
    /// same of them, whatever lies where.
    pub proof fn lemma_wf_depends_on_what_is_held(
        &self,
        former: &Bags,
        before: &BlockMetaDataItems,
        after: &BlockMetaDataItems,
    )
        requires
            former.wf(before),
            self.bags@.len() == former.bags@.len(),
            forall|index: int|
                0 <= index < former.bags@.len() ==> {
                    &&& (#[trigger] self.bags@[index]).stripes@.len() == MAXIMUM_SUPPORTED_HYPER_THREADS
                    &&& self.bags@[index].chains@ == former.bags@[index].chains@
                    &&& forall|stripe: int|
                        0 <= stripe < MAXIMUM_SUPPORTED_HYPER_THREADS ==> (#[trigger] self.bags@[index].stripes@[stripe]).pointer()
                            == former.bags@[index].stripes@[stripe].pointer()
                },
            after.count() == before.count(),
            forall|index: int|
                0 <= index < before.count() ==> {
                    &&& (#[trigger] after.items@[index]).word() == before.items@[index].word()
                    &&& after.next_in_bag_at(index) == before.next_in_bag_at(index)
                },
        ensures
            self.wf(after),
    {
        assert forall|index: int| 0 <= index < self.bags@.len() implies (#[trigger] self.bags@[index]).wf(
            (index + 1) as nat,
            after,
        ) by {
            assert(former.bags@[index].wf((index + 1) as nat, before));
            self.bags@[index].lemma_wf_depends_on_what_is_held(&former.bags@[index], (index + 1) as nat, before, after);
        }
        assert forall|index: int|
            0 <= index < after.count() && after.stripe_at(index) is Some implies #[trigger] self.holds_in_its_stripe(
            index,
            after,
        ) by {
            assert(after.items@[index].word() == before.items@[index].word());
            assert(former.holds_in_its_stripe(index, before));
        }
    }

    /// Empty bags for chains of up to `maximum_chain_length` blocks, that lie from `address` on.
    pub fn new(address: usize, maximum_chain_length: usize) -> (bags: Self)
        requires
            1 <= maximum_chain_length <= INCLUSIVE_MAXIMUM_CHAIN_LENGTH,
            address + SIZE_OF_BAG * INCLUSIVE_MAXIMUM_CHAIN_LENGTH <= usize::MAX,
        ensures
            bags.bags@.len() == maximum_chain_length,
            bags.lies_at(address as int),
            forall|index: int|
                0 <= index < maximum_chain_length ==> {
                    &&& (#[trigger] bags.bags@[index]).stripes@.len() == MAXIMUM_SUPPORTED_HYPER_THREADS
                    &&& bags.bags@[index].chains@ == Seq::new(
                        MAXIMUM_SUPPORTED_HYPER_THREADS as nat,
                        |stripe: int| Seq::<u32>::empty(),
                    )
                    &&& forall|stripe: int|
                        0 <= stripe < MAXIMUM_SUPPORTED_HYPER_THREADS ==> (
                        #[trigger] bags.bags@[index].stripes@[stripe]).pointer() == BlockPointer::null()
                },
    {
        let mut bags: Vec<Bag> = Vec::new();
        let mut index: usize = 0;
        while index < maximum_chain_length
            invariant
                index <= maximum_chain_length <= INCLUSIVE_MAXIMUM_CHAIN_LENGTH,
                address + SIZE_OF_BAG * INCLUSIVE_MAXIMUM_CHAIN_LENGTH <= usize::MAX,
                bags@.len() == index,
                forall|other: int|
                    0 <= other < index ==> {
                        &&& (#[trigger] bags@[other]).lies_at(address + SIZE_OF_BAG * other)
                        &&& bags@[other].stripes@.len() == MAXIMUM_SUPPORTED_HYPER_THREADS
                        &&& bags@[other].chains@ == Seq::new(
                            MAXIMUM_SUPPORTED_HYPER_THREADS as nat,
                            |stripe: int| Seq::<u32>::empty(),
                        )
                        &&& forall|stripe: int|
                            0 <= stripe < MAXIMUM_SUPPORTED_HYPER_THREADS ==> (
                            #[trigger] bags@[other].stripes@[stripe]).pointer() == BlockPointer::null()
                    },
            decreases maximum_chain_length - index,
        {
            bags.push(Bag::new(address + SIZE_OF_BAG * index));
            index += 1;
        }
        Bags { bags }
    }

    /// Empty bags are well-formed for meta data in which no block is in a bag.
    pub proof fn lemma_empty_bags_are_wf(&self, block_meta_data_items: &BlockMetaDataItems)
        requires
            1 <= self.bags@.len() <= INCLUSIVE_MAXIMUM_CHAIN_LENGTH,
            block_meta_data_items.count() <= INCLUSIVE_MAXIMUM_NUMBER_OF_BLOCKS,
            forall|index: int|
                0 <= index < self.bags@.len() ==> {
                    &&& (#[trigger] self.bags@[index]).stripes@.len() == MAXIMUM_SUPPORTED_HYPER_THREADS
                    &&& self.bags@[index].chains@ == Seq::new(
                        MAXIMUM_SUPPORTED_HYPER_THREADS as nat,
                        |stripe: int| Seq::<u32>::empty(),
                    )
                    &&& forall|stripe: int|
                        0 <= stripe < MAXIMUM_SUPPORTED_HYPER_THREADS ==> (
                        #[trigger] self.bags@[index].stripes@[stripe]).pointer() == BlockPointer::null()
                },
            forall|index: int|
                0 <= index < block_meta_data_items.count() ==> #[trigger] block_meta_data_items.stripe_at(index)
                    is None,
        ensures
            self.wf(block_meta_data_items),
    {
        assert forall|index: int| 0 <= index < self.bags@.len() implies (#[trigger] self.bags@[index]).wf(
            (index + 1) as nat,
            block_meta_data_items,
        ) by {
            let bag = self.bags@[index];
            assert forall|stripe: int| 0 <= stripe < MAXIMUM_SUPPORTED_HYPER_THREADS implies #[trigger] bag.stripe_is_linked(
                stripe,
                (index + 1) as nat,
                block_meta_data_items,
            ) by {
                assert(bag.stripes@[stripe].pointer() == BlockPointer::null());
                assert(bag.chains@[stripe].len() == 0);
            }
        }
    }

    /// A copy of the bags, as they are in an image of the region.
    pub fn snapshot(&self) -> (bags: Self)
        requires
            forall|index: int|
                0 <= index < self.bags@.len() ==> (#[trigger] self.bags@[index]).stripes@.len()
                    == MAXIMUM_SUPPORTED_HYPER_THREADS,
        ensures
            bags.bags@.len() == self.bags@.len(),
            bags.free_lists() == self.free_lists(),
            forall|index: int|
                0 <= index < self.bags@.len() ==> {
                    &&& (#[trigger] bags.bags@[index]).stripes@ == self.bags@[index].stripes@
                    &&& bags.bags@[index].chains@ == self.bags@[index].chains@
                },
    {
        let mut bags: Vec<Bag> = Vec::new();
        let mut index: usize = 0;
        while index < self.bags.len()
            invariant
                index <= self.bags@.len(),
                bags@.len() == index,
                forall|other: int|
                    0 <= other < self.bags@.len() ==> (#[trigger] self.bags@[other]).stripes@.len()
                        == MAXIMUM_SUPPORTED_HYPER_THREADS,
                forall|other: int|
                    0 <= other < index ==> {
                        &&& (#[trigger] bags@[other]).stripes@ == self.bags@[other].stripes@
                        &&& bags@[other].chains@ == self.bags@[other].chains@
                    },
            decreases self.bags@.len() - index,
        {
            bags.push(self.bags[index].snapshot());
            index += 1;
        }
        let bags = Bags { bags };
        assert(bags.free_lists() =~= self.free_lists());
        bags
    }

    /// Moves the bags to `address`, as when the region is mapped at another address.
    /// What the bags hold stays as it is.
    pub fn cto_pool_opened(&mut self, address: usize)
        requires
            address + SIZE_OF_BAG * INCLUSIVE_MAXIMUM_CHAIN_LENGTH <= usize::MAX,
            old(self).bags@.len() <= INCLUSIVE_MAXIMUM_CHAIN_LENGTH,
            forall|index: int|
                0 <= index < old(self).bags@.len() ==> (#[trigger] old(self).bags@[index]).stripes@.len()
                    == MAXIMUM_SUPPORTED_HYPER_THREADS,
        ensures
            final(self).lies_at(address as int),
            final(self).bags@.len() == old(self).bags@.len(),
            final(self).free_lists() == old(self).free_lists(),
            forall|index: int|
                0 <= index < old(self).bags@.len() ==> {
                    &&& (#[trigger] final(self).bags@[index]).stripes@.len() == MAXIMUM_SUPPORTED_HYPER_THREADS
                    &&& final(self).bags@[index].chains@ == old(self).bags@[index].chains@
                    &&& forall|stripe: int|
                        0 <= stripe < MAXIMUM_SUPPORTED_HYPER_THREADS ==> (
                        #[trigger] final(self).bags@[index].stripes@[stripe]).pointer() == old(
                            self,
                        ).bags@[index].stripes@[stripe].pointer()
                },
    {
        let count: usize = self.bags.len();
        let mut index: usize = 0;
        while index < count
            invariant
                index <= count,
                count == self.bags@.len(),
                count == old(self).bags@.len(),
                count <= INCLUSIVE_MAXIMUM_CHAIN_LENGTH,
                address + SIZE_OF_BAG * INCLUSIVE_MAXIMUM_CHAIN_LENGTH <= usize::MAX,
                forall|other: int| 0 <= other < index ==> (#[trigger] self.bags@[other]).lies_at(address + SIZE_OF_BAG * other),
                forall|other: int|
                    0 <= other < count ==> {
                        &&& (#[trigger] self.bags@[other]).stripes@.len() == MAXIMUM_SUPPORTED_HYPER_THREADS
                        &&& self.bags@[other].chains@ == old(self).bags@[other].chains@
                        &&& forall|stripe: int|
                            0 <= stripe < MAXIMUM_SUPPORTED_HYPER_THREADS ==> (
                            #[trigger] self.bags@[other].stripes@[stripe]).pointer() == old(
                                self,
                            ).bags@[other].stripes@[stripe].pointer()
                    },
            decreases count - index,
        {
            self.bags[index].rebase(address + SIZE_OF_BAG * index);
            index += 1;
        }
        assert(self.free_lists() =~= old(self).free_lists());
    }

    /// Adds the chain of `chain_length` blocks headed by `add_block` to the bag for that length.
    pub fn add(
        &mut self,
        block_meta_data_items: &mut BlockMetaDataItems,
        chain_length: ChainLength,
        add_block: BlockPointer,
        domain: &mut PersistenceDomain,
    )
        requires
            old(self).wf(old(block_meta_data_items)),
            1 <= chain_length.0 <= old(self).maximum_chain_length(),
            add_block.index() < old(block_meta_data_items).count(),
            old(block_meta_data_items).stripe_at(add_block.index()) is None,
            old(domain)@.is_written_back(),
        ensures
            final(self).wf(final(block_meta_data_items)),
            final(self).lies_where(old(self)),
            final(block_meta_data_items).differs_only_at(old(block_meta_data_items), add_block.index()),
            final(block_meta_data_items).length_at(add_block.index()) == chain_length.0,
            final(block_meta_data_items).stripe_at(add_block.index()) is Some,
            final(block_meta_data_items).stripe_at(add_block.index())->Some_0 < MAXIMUM_SUPPORTED_HYPER_THREADS,
            final(block_meta_data_items).next_chain_at(add_block.index()) == old(
                block_meta_data_items,
            ).next_chain_at(add_block.index()),
            final(self).free_lists() == with_chain_added(
                old(self).free_lists(),
                chain_length.0 as int,
                final(block_meta_data_items).stripe_at(add_block.index())->Some_0 as int,
                add_block.0,
            ),
            final(domain)@.is_quiescent(),
            final(domain).instruction() == old(domain).instruction(),
    {
        let bag_index: usize = chain_length.bag_index();
        assert(self.bags@[bag_index as int].wf(chain_length.0 as nat, block_meta_data_items));
        let stripe: usize = self.bags[bag_index].add(chain_length, add_block, block_meta_data_items, domain);
        proof {
            let ghost_stripe = stripe as int;
            assert(self.free_lists() =~= with_chain_added(
                old(self).free_lists(),
                chain_length.0 as int,
                ghost_stripe,
                add_block.0,
            ));
            assert forall|index: int| 0 <= index < self.bags@.len() implies (#[trigger] self.bags@[index]).wf(
                (index + 1) as nat,
                block_meta_data_items,
            ) by {
                if index != bag_index {
                    old(self).lemma_other_bags_stay_wf(
                        old(block_meta_data_items),
                        block_meta_data_items,
                        chain_length.0 as int,
                        index,
                    );
                }
            }
            let former = old(self).bags@[bag_index as int].chains@[ghost_stripe];
            let longer = self.bags@[bag_index as int].chains@[ghost_stripe];
            assert(longer == seq![add_block.0] + former);
            assert forall|index: int|
                0 <= index < block_meta_data_items.count() && block_meta_data_items.stripe_at(index)
                    is Some implies #[trigger] self.holds_in_its_stripe(index, block_meta_data_items) by {
                if index == add_block.index() {
                    assert(longer[0] == add_block.0);
                } else {
                    assert(block_meta_data_items.items@[index] == old(block_meta_data_items).items@[index]);
                    assert(old(self).holds_in_its_stripe(index, old(block_meta_data_items)));
                    let length = old(block_meta_data_items).length_at(index);
                    let in_stripe = old(block_meta_data_items).stripe_at(index)->Some_0 as int;
                    if length - 1 == bag_index && in_stripe == ghost_stripe {
                        let position = former.index_of(index as u32);
                        assert(longer[position + 1] == former[position]);
                    }
                }
            }
            assert forall|index: int| 0 <= index < self.bags@.len() implies (#[trigger] self.bags@[index]).lies_where(
                &old(self).bags@[index],
            ) by {}
        }
    }

    /// Removes a chain from the bag for chains of `chain_length` blocks, and returns its head.
    /// Returns null where that bag is empty.
    pub fn remove(
        &mut self,
        block_meta_data_items: &mut BlockMetaDataItems,
        chain_length: ChainLength,
        domain: &mut PersistenceDomain,
        hyper_thread: usize,
    ) -> (removed: BlockPointer)
        requires
            old(self).wf(old(block_meta_data_items)),
            1 <= chain_length.0 <= old(self).maximum_chain_length(),
            old(domain)@.is_written_back(),
        ensures
            final(self).wf(final(block_meta_data_items)),
            final(self).lies_where(old(self)),
            removed == BlockPointer::null() <==> old(self).is_empty_at(chain_length.0 as int),
            removed == BlockPointer::null() ==> {
                &&& final(self).free_lists() == old(self).free_lists()
                &&& *final(block_meta_data_items) == *old(block_meta_data_items)
            },
            removed != BlockPointer::null() ==> {
                let stripe = first_stripe_in_use(
                    old(self).free_lists()[chain_length.0 - 1],
                    stripe_for(hyper_thread) as int,
                    0,
                )->Some_0;
                &&& 0 <= stripe < MAXIMUM_SUPPORTED_HYPER_THREADS
                &&& old(self).free_lists()[chain_length.0 - 1][stripe].len() > 0
                &&& removed.0 == old(self).free_lists()[chain_length.0 - 1][stripe][0]
                &&& final(self).free_lists() == with_first_chain_removed(
                    old(self).free_lists(),
                    chain_length.0 as int,
                    stripe,
                )
                &&& removed.index() < old(block_meta_data_items).count()
                &&& old(block_meta_data_items).length_at(removed.index()) == chain_length.0
                &&& old(block_meta_data_items).stripe_at(removed.index()) == Some(stripe as nat)
                &&& final(block_meta_data_items).differs_only_at(old(block_meta_data_items), removed.index())
                &&& final(block_meta_data_items).length_at(removed.index()) == chain_length.0
                &&& final(block_meta_data_items).stripe_at(removed.index()) is None
                &&& final(block_meta_data_items).next_chain_at(removed.index()) == old(
                    block_meta_data_items,
                ).next_chain_at(removed.index())
            },
            final(domain)@.is_quiescent(),
            final(domain).instruction() == old(domain).instruction(),
    {
        let bag_index: usize = chain_length.bag_index();
        assert(self.bags@[bag_index as int].wf(chain_length.0 as nat, block_meta_data_items));
        let removed: BlockPointer = self.bags[bag_index].remove(chain_length, block_meta_data_items, domain, hyper_thread);
        proof {
            assert(old(self).free_lists()[chain_length.0 - 1] == old(self).bags@[bag_index as int].chains@);
            if removed == BlockPointer::null() {
                assert(self.free_lists() =~= old(self).free_lists());
                assert forall|index: int| 0 <= index < self.bags@.len() implies (#[trigger] self.bags@[index]).wf(
                    (index + 1) as nat,
                    block_meta_data_items,
                ) by {
                    if index != bag_index {
                        assert(self.bags@[index] == old(self).bags@[index]);
                    }
                }
                assert forall|index: int|
                    0 <= index < block_meta_data_items.count() && block_meta_data_items.stripe_at(index)
                        is Some implies #[trigger] self.holds_in_its_stripe(index, block_meta_data_items) by {
                    assert(old(self).holds_in_its_stripe(index, old(block_meta_data_items)));
                }
            } else {
                let stripe = first_stripe_in_use(
                    old(self).bags@[bag_index as int].chains@,
                    stripe_for(hyper_thread) as int,
                    0,
                )->Some_0;
                old(self).lemma_block_in_stripe(old(block_meta_data_items), chain_length.0 as int, stripe, 0);
                assert(self.free_lists() =~= with_first_chain_removed(
                    old(self).free_lists(),
                    chain_length.0 as int,
                    stripe,
                ));
                assert forall|index: int| 0 <= index < self.bags@.len() implies (#[trigger] self.bags@[index]).wf(
                    (index + 1) as nat,
                    block_meta_data_items,
                ) by {
                    if index != bag_index {
                        old(self).lemma_other_bags_stay_wf(
                            old(block_meta_data_items),
                            block_meta_data_items,
                            chain_length.0 as int,
                            index,
                        );
                    }
                }
                let former = old(self).bags@[bag_index as int].chains@[stripe];
                let shorter = self.bags@[bag_index as int].chains@[stripe];
                assert(shorter == former.drop_first());
                assert forall|index: int|
                    0 <= index < block_meta_data_items.count() && block_meta_data_items.stripe_at(index)
                        is Some implies #[trigger] self.holds_in_its_stripe(index, block_meta_data_items) by {
                    assert(index != removed.index());
                    assert(block_meta_data_items.items@[index] == old(block_meta_data_items).items@[index]);
                    assert(old(self).holds_in_its_stripe(index, old(block_meta_data_items)));
                    let length = old(block_meta_data_items).length_at(index);
                    let in_stripe = old(block_meta_data_items).stripe_at(index)->Some_0 as int;
                    if length - 1 == bag_index && in_stripe == stripe {
                        let position = former.index_of(index as u32);
                        assert(position != 0);
                        assert(shorter[position - 1] == former[position]);
                    }
                }
            }
            assert forall|index: int| 0 <= index < self.bags@.len() implies (#[trigger] self.bags@[index]).lies_where(
                &old(self).bags@[index],
            ) by {}
        }
        removed
    }

    /// Cuts the chain headed by `might_not_be_in_bag_block` out of the bag that holds it.
    /// Returns `false`, and changes nothing, where the chain is in no bag.
    pub fn try_to_cut(
        &mut self,
        block_meta_data_items: &mut BlockMetaDataItems,
        might_not_be_in_bag_block: BlockPointer,
        domain: &mut PersistenceDomain,
    ) -> (cut: bool)
        requires
            old(self).wf(old(block_meta_data_items)),
            might_not_be_in_bag_block.index() < old(block_meta_data_items).count(),
            old(domain)@.is_written_back(),
        ensures
            final(self).wf(final(block_meta_data_items)),
            final(self).lies_where(old(self)),
            cut == old(block_meta_data_items).stripe_at(might_not_be_in_bag_block.index()) is Some,
            !cut ==> {
                &&& final(self).free_lists() == old(self).free_lists()
                &&& *final(block_meta_data_items) == *old(block_meta_data_items)
            },
            cut ==> {
                &&& final(self).free_lists() == with_chain_cut(
                    old(self).free_lists(),
                    old(block_meta_data_items).length_at(might_not_be_in_bag_block.index()) as int,
                    old(block_meta_data_items).stripe_at(might_not_be_in_bag_block.index())->Some_0 as int,
                    might_not_be_in_bag_block.0,
                )
                &&& 1 <= old(block_meta_data_items).length_at(might_not_be_in_bag_block.index())
                    <= old(self).maximum_chain_length()
                &&& final(block_meta_data_items).agrees_except_at(
                    old(block_meta_data_items),
                    might_not_be_in_bag_block.index(),
                )
                &&& final(block_meta_data_items).length_at(might_not_be_in_bag_block.index()) == old(
                    block_meta_data_items,
                ).length_at(might_not_be_in_bag_block.index())
                &&& final(block_meta_data_items).stripe_at(might_not_be_in_bag_block.index()) is None
                &&& final(block_meta_data_items).next_chain_at(might_not_be_in_bag_block.index()) == old(
                    block_meta_data_items,
                ).next_chain_at(might_not_be_in_bag_block.index())
            },
            final(domain)@.is_quiescent(),
            final(domain).instruction() == old(domain).instruction(),
    {
        let block_index: usize = might_not_be_in_bag_block.0 as usize;
        let chain_length_and_bag_stripe_index: ChainLengthAndBagStripeIndex =
            block_meta_data_items.items[block_index].chain_length_and_bag_stripe_index(domain);
        match chain_length_and_bag_stripe_index.bag_stripe_index() {
            None => false,
            Some(bag_stripe_index) => {
                assert(self.holds_in_its_stripe(might_not_be_in_bag_block.index(), block_meta_data_items));
                let chain_length: ChainLength = ChainLength(chain_length_and_bag_stripe_index.chain_length());
                let bag_index: usize = chain_length.bag_index();
                assert(self.bags@[bag_index as int].wf(chain_length.0 as nat, block_meta_data_items));
                let cut: bool = self.bags[bag_index].try_to_cut(
                    chain_length,
                    might_not_be_in_bag_block,
                    block_meta_data_items,
                    bag_stripe_index,
                    domain,
                );
                proof {
                    let stripe = bag_stripe_index as int;
                    let former = old(self).bags@[bag_index as int].chains@[stripe];
                    let target = former.index_of(might_not_be_in_bag_block.0);
                    let shorter = self.bags@[bag_index as int].chains@[stripe];
                    assert(shorter == former.remove(target));
                    assert(self.free_lists() =~= with_chain_cut(
                        old(self).free_lists(),
                        chain_length.0 as int,
                        stripe,
                        might_not_be_in_bag_block.0,
                    ));
                    assert forall|block: int|
                        0 <= block < old(block_meta_data_items).count() && old(block_meta_data_items).stripe_at(block)
                            is Some && old(block_meta_data_items).length_at(block)
                            != chain_length.0 implies #[trigger] block_meta_data_items.items@[block] == old(
                        block_meta_data_items,
                    ).items@[block] by {
                        if former.contains(block as u32) {
                            let position = former.index_of(block as u32);
                            old(self).lemma_block_in_stripe(
                                old(block_meta_data_items),
                                chain_length.0 as int,
                                stripe,
                                position,
                            );
                        }
                    }
                    assert forall|index: int| 0 <= index < self.bags@.len() implies (#[trigger] self.bags@[index]).wf(
                        (index + 1) as nat,
                        block_meta_data_items,
                    ) by {
                        if index != bag_index {
                            old(self).lemma_other_bags_stay_wf(
                                old(block_meta_data_items),
                                block_meta_data_items,
                                chain_length.0 as int,
                                index,
                            );
                        }
                    }
                    assert forall|index: int|
                        0 <= index < block_meta_data_items.count() && block_meta_data_items.stripe_at(index)
                            is Some implies #[trigger] self.holds_in_its_stripe(index, block_meta_data_items) by {
                        assert(index != might_not_be_in_bag_block.index());
                        assert(block_meta_data_items.items@[index].word() == old(block_meta_data_items).items@[index].word());
                        assert(old(self).holds_in_its_stripe(index, old(block_meta_data_items)));
                        let length = old(block_meta_data_items).length_at(index);
                        let in_stripe = old(block_meta_data_items).stripe_at(index)->Some_0 as int;
                        if length - 1 == bag_index && in_stripe == stripe {
                            let position = former.index_of(index as u32);
                            assert(position != target);
                            if position < target {
                                assert(shorter[position] == former[position]);
                            } else {
                                assert(shorter[position - 1] == former[position]);
                            }
                        }
                    }
                    assert forall|index: int| 0 <= index < self.bags@.len() implies (#[trigger] self.bags@[index]).lies_where(
                        &old(self).bags@[index],
                    ) by {}
                }
                cut
            },
        }
    }

    /// Is the bag for chains of `chain_length` blocks empty?
    pub fn has_no_chain_of(&self, block_meta_data_items: &BlockMetaDataItems, chain_length: ChainLength) -> (is_empty:
        bool)
        requires
            self.wf(block_meta_data_items),
            1 <= chain_length.0 <= self.maximum_chain_length(),
        ensures
            is_empty == self.is_empty_at(chain_length.0 as int),
    {
        let bag_index: usize = chain_length.bag_index();
        assert(self.bags@[bag_index as int].wf(chain_length.0 as nat, block_meta_data_items));
        self.bags[bag_index].has_no_chain(chain_length, block_meta_data_items)
    }
}

} // verus!
