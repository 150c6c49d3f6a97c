use crate::block_allocator::atomic_block_pointer::AtomicBlockPointer;
use crate::block_allocator::block_meta_data::BlockMetaDataItems;
use crate::block_allocator::block_pointer::BlockPointer;
use crate::block_allocator::block_pointer::INCLUSIVE_MAXIMUM_NUMBER_OF_BLOCKS;
use crate::block_allocator::chain_length::ChainLength;
use crate::block_allocator::chain_length::INCLUSIVE_MAXIMUM_CHAIN_LENGTH;
use crate::hyper_thread::hyper_thread_index;
use crate::hyper_thread::random_stripe_index;
use crate::hyper_thread::stripe_for;
use crate::hyper_thread::MAXIMUM_SUPPORTED_HYPER_THREADS;
use crate::persistent_memory_operations::persistence_domain::PersistenceDomain;
use vstd::prelude::*;

verus! {

/// The number of bytes that a block pointer occupies.
pub const SIZE_OF_BLOCK_POINTER: usize = 4;

/// The number of bytes that a bag occupies: the head of each of its stripes.
pub const SIZE_OF_BAG: usize = 64;

/// The pointer to the block at the front of `chain`, or the null pointer where it is empty.
pub open spec fn front_of(chain: Seq<u32>) -> BlockPointer {
    if chain.len() == 0 {
        BlockPointer::null()
    } else {
        BlockPointer(chain[0])
    }
}

/// The pointer to the block that follows the block at `position` in `chain`, or the null pointer at its end.
#[verifier::opaque]
pub open spec fn successor_in(chain: Seq<u32>, position: int) -> BlockPointer {
    if position + 1 < chain.len() {
        BlockPointer(chain[position + 1])
    } else {
        BlockPointer::null()
    }
}

/// The first stripe that holds a block, looking at `stripes` from `start` on and going round,
/// with the stripes before `offset` after `start` left out. `None` where the others are empty.
pub open spec fn first_stripe_in_use(stripes: Seq<Seq<u32>>, start: int, offset: int) -> Option<int>
    decreases MAXIMUM_SUPPORTED_HYPER_THREADS - offset,
{
    if offset < 0 || offset >= MAXIMUM_SUPPORTED_HYPER_THREADS {
        None
    } else if stripes[(start + offset) % (MAXIMUM_SUPPORTED_HYPER_THREADS as int)].len() > 0 {
        Some((start + offset) % (MAXIMUM_SUPPORTED_HYPER_THREADS as int))
    } else {
        first_stripe_in_use(stripes, start, offset + 1)
    }
}

/// Are all of `stripes` empty?
pub open spec fn all_stripes_empty(stripes: Seq<Seq<u32>>) -> bool {
    forall|stripe: int| 0 <= stripe < stripes.len() ==> (#[trigger] stripes[stripe]).len() == 0
}

/// Where not all stripes are empty, there is a first stripe in use, and it holds a block.
pub proof fn lemma_first_stripe_in_use(stripes: Seq<Seq<u32>>, start: int, offset: int)
    requires
        stripes.len() == MAXIMUM_SUPPORTED_HYPER_THREADS,
        0 <= start < MAXIMUM_SUPPORTED_HYPER_THREADS,
        0 <= offset <= MAXIMUM_SUPPORTED_HYPER_THREADS,
        forall|earlier: int|
            0 <= earlier < offset ==> (#[trigger] stripes[(start + earlier) % (
            MAXIMUM_SUPPORTED_HYPER_THREADS as int)]).len() == 0,
    ensures
        first_stripe_in_use(stripes, start, offset) is None <==> all_stripes_empty(stripes),
        first_stripe_in_use(stripes, start, offset) == first_stripe_in_use(stripes, start, 0),
        first_stripe_in_use(stripes, start, offset) is Some ==> {
            &&& 0 <= first_stripe_in_use(stripes, start, offset)->Some_0 < MAXIMUM_SUPPORTED_HYPER_THREADS
            &&& stripes[first_stripe_in_use(stripes, start, offset)->Some_0].len() > 0
        },
    decreases offset,
{
    let count = MAXIMUM_SUPPORTED_HYPER_THREADS as int;
    lemma_first_stripe_in_use_forward(stripes, start, offset);
    if offset > 0 {
        assert(stripes[(start + (offset - 1)) % count].len() == 0);
        lemma_first_stripe_in_use(stripes, start, offset - 1);
    }
}

/// The first stripe in use, looking from `offset` on: it holds a block, and where there is none all
/// stripes from `offset` on are empty.
pub proof fn lemma_first_stripe_in_use_forward(stripes: Seq<Seq<u32>>, start: int, offset: int)
    requires
        stripes.len() == MAXIMUM_SUPPORTED_HYPER_THREADS,
        0 <= start < MAXIMUM_SUPPORTED_HYPER_THREADS,
        0 <= offset <= MAXIMUM_SUPPORTED_HYPER_THREADS,
        forall|earlier: int|
            0 <= earlier < offset ==> (#[trigger] stripes[(start + earlier) % (
            MAXIMUM_SUPPORTED_HYPER_THREADS as int)]).len() == 0,
    ensures
        first_stripe_in_use(stripes, start, offset) is None <==> all_stripes_empty(stripes),
        first_stripe_in_use(stripes, start, offset) is Some ==> {
            &&& 0 <= first_stripe_in_use(stripes, start, offset)->Some_0 < MAXIMUM_SUPPORTED_HYPER_THREADS
            &&& stripes[first_stripe_in_use(stripes, start, offset)->Some_0].len() > 0
        },
    decreases MAXIMUM_SUPPORTED_HYPER_THREADS - offset,
{
    let count = MAXIMUM_SUPPORTED_HYPER_THREADS as int;
    if offset >= count {
        assert forall|stripe: int| 0 <= stripe < stripes.len() implies (#[trigger] stripes[stripe]).len() == 0 by {
            let earlier = if stripe >= start {
                stripe - start
            } else {
                stripe - start + count
            };
            assert((start + earlier) % count == stripe);
            assert(stripes[(start + earlier) % count].len() == 0);
        }
    } else if stripes[(start + offset) % count].len() > 0 {
        assert(!all_stripes_empty(stripes));
    } else {
        lemma_first_stripe_in_use_forward(stripes, start, offset + 1);
    }
}

/// What `successor_in` is.
pub proof fn lemma_successor_in(chain: Seq<u32>, position: int)
    ensures
        position + 1 < chain.len() ==> successor_in(chain, position) == BlockPointer(chain[position + 1]),
        position + 1 >= chain.len() ==> successor_in(chain, position) == BlockPointer::null(),
{
    reveal(successor_in);
}

/// Is the block at `position` in `chain` marked as the head of a chain of `chain_length` blocks in
/// the stripe `stripe`, and linked to the block after it?
pub open spec fn block_is_linked(
    chain: Seq<u32>,
    position: int,
    stripe: int,
    chain_length: nat,
    block_meta_data_items: &BlockMetaDataItems,
) -> bool {
    &&& chain[position] < block_meta_data_items.count()
    &&& block_meta_data_items.length_at(chain[position] as int) == chain_length
    &&& block_meta_data_items.stripe_at(chain[position] as int) == Some(stripe as nat)
    &&& block_meta_data_items.next_in_bag_at(chain[position] as int) == successor_in(chain, position)
}

/// Is `chain` free of duplicates, and is each of its blocks marked and linked as a block of the
/// stripe `stripe` of the bag for chains of `chain_length` blocks?
pub open spec fn chain_is_linked(
    chain: Seq<u32>,
    stripe: int,
    chain_length: nat,
    block_meta_data_items: &BlockMetaDataItems,
) -> bool {
    &&& chain.no_duplicates()
    &&& forall|position: int|
        0 <= position < chain.len() ==> #[trigger] block_is_linked(
            chain,
            position,
            stripe,
            chain_length,
            block_meta_data_items,
        )
}

/// A linked chain stays linked where the meta data of its blocks stays as it is.
pub proof fn lemma_chain_stays_linked(
    chain: Seq<u32>,
    stripe: int,
    chain_length: nat,
    before: &BlockMetaDataItems,
    after: &BlockMetaDataItems,
)
    requires
        chain_is_linked(chain, stripe, chain_length, before),
        after.count() == before.count(),
        forall|position: int|
            0 <= position < chain.len() ==> after.items@[(#[trigger] chain[position]) as int]
                == before.items@[chain[position] as int],
    ensures
        chain_is_linked(chain, stripe, chain_length, after),
{
    assert forall|position: int| 0 <= position < chain.len() implies #[trigger] block_is_linked(
        chain,
        position,
        stripe,
        chain_length,
        after,
    ) by {
        assert(block_is_linked(chain, position, stripe, chain_length, before));
        assert(after.items@[chain[position] as int] == before.items@[chain[position] as int]);
    }
}

/// A linked chain stays linked where a block that is marked and linked to its front is put before it.
pub proof fn lemma_chain_with_block_in_front_is_linked(
    chain: Seq<u32>,
    block: u32,
    stripe: int,
    chain_length: nat,
    before: &BlockMetaDataItems,
    after: &BlockMetaDataItems,
)
    requires
        chain_is_linked(chain, stripe, chain_length, before),
        after.differs_only_at(before, block as int),
        block < before.count(),
        before.stripe_at(block as int) is None,
        after.length_at(block as int) == chain_length,
        after.stripe_at(block as int) == Some(stripe as nat),
        after.next_in_bag_at(block as int) == front_of(chain),
    ensures
        chain_is_linked(seq![block] + chain, stripe, chain_length, after),
        front_of(seq![block] + chain) == BlockPointer(block),
{
    let longer = seq![block] + chain;
    assert forall|position: int| 0 <= position < chain.len() implies chain[position] != block by {
        assert(block_is_linked(chain, position, stripe, chain_length, before));
    }
    assert forall|position: int| 0 <= position < longer.len() implies #[trigger] block_is_linked(
        longer,
        position,
        stripe,
        chain_length,
        after,
    ) by {
        lemma_successor_in(longer, position);
        if position > 0 {
            assert(longer[position] == chain[position - 1]);
            assert(block_is_linked(chain, position - 1, stripe, chain_length, before));
            lemma_successor_in(chain, position - 1);
            if position + 1 < longer.len() {
                assert(longer[position + 1] == chain[position]);
            }
            assert(after.items@[chain[position - 1] as int] == before.items@[chain[position - 1] as int]);
        } else {
            if chain.len() > 0 {
                assert(longer[1] == chain[0]);
            }
        }
    }
    assert forall|first: int, second: int|
        0 <= first < longer.len() && 0 <= second < longer.len() && first != second implies longer[first]
        != longer[second] by {
        if first > 0 {
            assert(longer[first] == chain[first - 1]);
        }
        if second > 0 {
            assert(longer[second] == chain[second - 1]);
        }
    }
}

/// A linked chain stays linked where the block at `target` is taken out and the block before it is
/// linked to the block after it.
pub proof fn lemma_chain_without_block_is_linked(
    chain: Seq<u32>,
    target: int,
    stripe: int,
    chain_length: nat,
    before: &BlockMetaDataItems,
    after: &BlockMetaDataItems,
)
    requires
        chain_is_linked(chain, stripe, chain_length, before),
        0 <= target < chain.len(),
        after.count() == before.count(),
        forall|position: int|
            0 <= position < chain.len() && position != target && position != target - 1 ==> after.items@[(
            #[trigger] chain[position]) as int] == before.items@[chain[position] as int],
        target > 0 ==> {
            &&& after.items@[chain[target - 1] as int].word() == before.items@[chain[target - 1] as int].word()
            &&& after.next_in_bag_at(chain[target - 1] as int) == successor_in(chain, target)
        },
    ensures
        chain_is_linked(chain.remove(target), stripe, chain_length, after),
        front_of(chain.remove(target)) == if target == 0 {
            successor_in(chain, 0)
        } else {
            front_of(chain)
        },
{
    let shorter = chain.remove(target);
    assert forall|position: int| 0 <= position < shorter.len() implies #[trigger] block_is_linked(
        shorter,
        position,
        stripe,
        chain_length,
        after,
    ) by {
        lemma_successor_in(shorter, position);
        if position < target {
            assert(shorter[position] == chain[position]);
            assert(block_is_linked(chain, position, stripe, chain_length, before));
            lemma_successor_in(chain, position);
            if position + 1 < target {
                assert(shorter[position + 1] == chain[position + 1]);
                assert(after.items@[chain[position] as int] == before.items@[chain[position] as int]);
            } else {
                lemma_successor_in(chain, target);
                if position + 1 < shorter.len() {
                    assert(shorter[position + 1] == chain[position + 2]);
                }
            }
        } else {
            assert(shorter[position] == chain[position + 1]);
            assert(block_is_linked(chain, position + 1, stripe, chain_length, before));
            lemma_successor_in(chain, position + 1);
            if position + 1 < shorter.len() {
                assert(shorter[position + 1] == chain[position + 2]);
            }
            assert(after.items@[chain[position + 1] as int] == before.items@[chain[position + 1] as int]);
        }
    }
    assert forall|first: int, second: int|
        0 <= first < shorter.len() && 0 <= second < shorter.len() && first != second implies shorter[first]
        != shorter[second] by {
        let first_former = if first < target {
            first
        } else {
            first + 1
        };
        let second_former = if second < target {
            second
        } else {
            second + 1
        };
        assert(shorter[first] == chain[first_former]);
        assert(shorter[second] == chain[second_former]);
    }
    lemma_successor_in(chain, 0);
    if target == 0 {
        if shorter.len() > 0 {
            assert(shorter[0] == chain[1]);
        }
    } else {
        assert(shorter[0] == chain[0]);
    }
}

/// A striped set of free chains of one length. Each stripe is a last-in, first-out list of the
/// heads of the chains, linked through the meta data of the blocks.
pub struct Bag {
    /// The head of each stripe: the block that was added last, or null.
    pub stripes: Vec<AtomicBlockPointer>,
    /// The blocks in each stripe, from the head on.
    pub chains: Ghost<Seq<Seq<u32>>>,
}

impl Bag {
    /// Is the stripe `stripe` linked as its list of blocks says, through the meta data in
    /// `block_meta_data_items`, and is each of its blocks marked as the head of a chain of
    /// `chain_length` blocks in this stripe?
    pub open spec fn stripe_is_linked(
        &self,
        stripe: int,
        chain_length: nat,
        block_meta_data_items: &BlockMetaDataItems,
    ) -> bool {
        &&& self.stripes@[stripe].pointer() == front_of(self.chains@[stripe])
        &&& chain_is_linked(self.chains@[stripe], stripe, chain_length, block_meta_data_items)
    }

    /// Is every stripe linked as its list of blocks says?
    pub open spec fn wf(&self, chain_length: nat, block_meta_data_items: &BlockMetaDataItems) -> bool {
        &&& self.stripes@.len() == MAXIMUM_SUPPORTED_HYPER_THREADS
        &&& self.chains@.len() == MAXIMUM_SUPPORTED_HYPER_THREADS
        &&& block_meta_data_items.count() <= INCLUSIVE_MAXIMUM_NUMBER_OF_BLOCKS
        &&& forall|stripe: int|
            0 <= stripe < MAXIMUM_SUPPORTED_HYPER_THREADS ==> #[trigger] self.stripe_is_linked(
                stripe,
                chain_length,
                block_meta_data_items,
            )
    }

    /// Do the heads of the stripes lie one after the other from `address` on?
    pub open spec fn lies_at(&self, address: int) -> bool {
        forall|stripe: int|
            0 <= stripe < self.stripes@.len() ==> (#[trigger] self.stripes@[stripe]).address() == address
                + SIZE_OF_BLOCK_POINTER * stripe
    }

    /// Do the heads of the stripes lie where those of `other` lie?
    pub open spec fn lies_where(&self, other: &Bag) -> bool {
        &&& self.stripes@.len() == other.stripes@.len()
        &&& forall|stripe: int|
            0 <= stripe < self.stripes@.len() ==> (#[trigger] self.stripes@[stripe]).address()
                == other.stripes@[stripe].address()
    }

    /// Is the block at `index` in one of the stripes?
    pub open spec fn holds(&self, index: int) -> bool {
        exists|stripe: int, position: int|
            0 <= stripe < self.chains@.len() && 0 <= position < self.chains@[stripe].len()
                && #[trigger] self.chains@[stripe][position] == index
    }

    /// Is the bag empty?
    pub open spec fn is_empty(&self) -> bool {
        all_stripes_empty(self.chains@)
    }

    /// The bag stays well-formed where the meta data of its blocks stays as it is.
    pub proof fn lemma_wf_depends_on_own_blocks(
        &self,
        chain_length: nat,
        before: &BlockMetaDataItems,
        after: &BlockMetaDataItems,
    )
        requires
            self.wf(chain_length, before),
            after.count() == before.count(),
            forall|stripe: int, position: int|
                0 <= stripe < MAXIMUM_SUPPORTED_HYPER_THREADS && 0 <= position < self.chains@[stripe].len()
                    ==> after.items@[(#[trigger] self.chains@[stripe][position]) as int]
                    == before.items@[self.chains@[stripe][position] as int],
        ensures
            self.wf(chain_length, after),
    {
        assert forall|stripe: int| 0 <= stripe < MAXIMUM_SUPPORTED_HYPER_THREADS implies #[trigger] self.stripe_is_linked(
            stripe,
            chain_length,
            after,
        ) by {
            assert(self.stripe_is_linked(stripe, chain_length, before));
            let chain = self.chains@[stripe];
            assert forall|position: int| 0 <= position < chain.len() implies after.items@[(
            #[trigger] chain[position]) as int] == before.items@[chain[position] as int] by {
                assert(self.chains@[stripe][position] == chain[position]);
            }
            lemma_chain_stays_linked(chain, stripe, chain_length, before, after);
        }
    }

    /// A bag that holds the same blocks stays well-formed where the meta data of its blocks says
    /// the same of them, whatever lies where.
    pub proof fn lemma_wf_depends_on_what_is_held(
        &self,
        former: &Bag,
        chain_length: nat,
        before: &BlockMetaDataItems,
        after: &BlockMetaDataItems,
    )
        requires
            former.wf(chain_length, before),
            self.stripes@.len() == former.stripes@.len(),
            self.chains@ == former.chains@,
            forall|stripe: int|
                0 <= stripe < MAXIMUM_SUPPORTED_HYPER_THREADS ==> (#[trigger] self.stripes@[stripe]).pointer()
                    == former.stripes@[stripe].pointer(),
            after.count() == before.count(),
            forall|index: int|
                0 <= index < before.count() ==> {
                    &&& (#[trigger] after.items@[index]).word() == before.items@[index].word()
                    &&& after.next_in_bag_at(index) == before.next_in_bag_at(index)
                },
        ensures
            self.wf(chain_length, after),
    {
        assert forall|stripe: int| 0 <= stripe < MAXIMUM_SUPPORTED_HYPER_THREADS implies #[trigger] self.stripe_is_linked(
            stripe,
            chain_length,
            after,
        ) by {
            assert(former.stripe_is_linked(stripe, chain_length, before));
            assert(self.stripes@[stripe].pointer() == former.stripes@[stripe].pointer());
            let chain = self.chains@[stripe];
            assert forall|position: int| 0 <= position < chain.len() implies #[trigger] block_is_linked(
                chain,
                position,
                stripe,
                chain_length,
                after,
            ) by {
                assert(block_is_linked(chain, position, stripe, chain_length, before));
                assert(after.items@[chain[position] as int].word() == before.items@[chain[position] as int].word());
            }
        }
    }

    /// An empty bag whose stripes have their heads from `address` on.
    pub fn new(address: usize) -> (bag: Self)
        requires
            address + SIZE_OF_BAG <= usize::MAX,
        ensures
            bag.stripes@.len() == MAXIMUM_SUPPORTED_HYPER_THREADS,
            bag.chains@ == Seq::new(MAXIMUM_SUPPORTED_HYPER_THREADS as nat, |stripe: int| Seq::<u32>::empty()),
            bag.is_empty(),
            bag.lies_at(address as int),
            forall|stripe: int|
                0 <= stripe < MAXIMUM_SUPPORTED_HYPER_THREADS ==> (#[trigger] bag.stripes@[stripe]).pointer()
                    == BlockPointer::null(),
    {
        let mut stripes: Vec<AtomicBlockPointer> = Vec::new();
        let mut stripe: usize = 0;
        while stripe < MAXIMUM_SUPPORTED_HYPER_THREADS
            invariant
                stripe <= MAXIMUM_SUPPORTED_HYPER_THREADS,
                address + SIZE_OF_BAG <= usize::MAX,
                stripes@.len() == stripe,
                forall|other: int|
                    0 <= other < stripe ==> {
                        &&& (#[trigger] stripes@[other]).pointer() == BlockPointer::null()
                        &&& stripes@[other].address() == address + SIZE_OF_BLOCK_POINTER * other
                    },
            decreases MAXIMUM_SUPPORTED_HYPER_THREADS - stripe,
        {
            stripes.push(AtomicBlockPointer::new(address + SIZE_OF_BLOCK_POINTER * stripe));
            stripe += 1;
        }
        Bag {
            stripes,
            chains: Ghost(Seq::new(MAXIMUM_SUPPORTED_HYPER_THREADS as nat, |stripe: int| Seq::<u32>::empty())),
        }
    }

    /// A copy of the bag, as it is in an image of the region.
    pub fn snapshot(&self) -> (bag: Self)
        requires
            self.stripes@.len() == MAXIMUM_SUPPORTED_HYPER_THREADS,
        ensures
            bag.stripes@ == self.stripes@,
            bag.chains@ == self.chains@,
    {
        let mut stripes: Vec<AtomicBlockPointer> = Vec::new();
        let mut stripe: usize = 0;
        while stripe < MAXIMUM_SUPPORTED_HYPER_THREADS
            invariant
                stripe <= MAXIMUM_SUPPORTED_HYPER_THREADS,
                self.stripes@.len() == MAXIMUM_SUPPORTED_HYPER_THREADS,
                stripes@ == self.stripes@.take(stripe as int),
            decreases MAXIMUM_SUPPORTED_HYPER_THREADS - stripe,
        {
            stripes.push(self.stripes[stripe]);
            assert(stripes@ =~= self.stripes@.take(stripe + 1));
            stripe += 1;
        }
        assert(stripes@ =~= self.stripes@);
        Bag { stripes, chains: Ghost(self.chains@) }
    }

    /// Moves the heads of the stripes to `address`, as when the region is mapped at another address.
    pub fn rebase(&mut self, address: usize)
        requires
            address + SIZE_OF_BAG <= usize::MAX,
            old(self).stripes@.len() == MAXIMUM_SUPPORTED_HYPER_THREADS,
        ensures
            final(self).lies_at(address as int),
            final(self).chains@ == old(self).chains@,
            final(self).stripes@.len() == old(self).stripes@.len(),
            forall|stripe: int|
                0 <= stripe < MAXIMUM_SUPPORTED_HYPER_THREADS ==> (#[trigger] final(self).stripes@[stripe]).pointer()
                    == old(self).stripes@[stripe].pointer(),
    {
        let mut stripe: usize = 0;
        while stripe < MAXIMUM_SUPPORTED_HYPER_THREADS
            invariant
                stripe <= MAXIMUM_SUPPORTED_HYPER_THREADS,
                address + SIZE_OF_BAG <= usize::MAX,
                self.stripes@.len() == MAXIMUM_SUPPORTED_HYPER_THREADS,
                self.chains@ == old(self).chains@,
                forall|other: int|
                    0 <= other < stripe ==> (#[trigger] self.stripes@[other]).address() == address
                        + SIZE_OF_BLOCK_POINTER * other,
                forall|other: int|
                    0 <= other < MAXIMUM_SUPPORTED_HYPER_THREADS ==> (#[trigger] self.stripes@[other]).pointer()
                        == old(self).stripes@[other].pointer(),
            decreases MAXIMUM_SUPPORTED_HYPER_THREADS - stripe,
        {
            self.stripes[stripe].0.address = address + SIZE_OF_BLOCK_POINTER * stripe;
            stripe += 1;
        }
    }

    /// Is the bag empty? Looks at the head of each stripe.
    pub fn has_no_chain(&self, chain_length: ChainLength, block_meta_data_items: &BlockMetaDataItems) -> (is_empty: bool)
        requires
            self.wf(chain_length.0 as nat, block_meta_data_items),
        ensures
            is_empty == self.is_empty(),
    {
        let mut stripe: usize = 0;
        while stripe < MAXIMUM_SUPPORTED_HYPER_THREADS
            invariant
                stripe <= MAXIMUM_SUPPORTED_HYPER_THREADS,
                self.wf(chain_length.0 as nat, block_meta_data_items),
                forall|other: int| 0 <= other < stripe ==> (#[trigger] self.chains@[other]).len() == 0,
            decreases MAXIMUM_SUPPORTED_HYPER_THREADS - stripe,
        {
            assert(self.stripe_is_linked(stripe as int, chain_length.0 as nat, block_meta_data_items));
            proof {
                if self.chains@[stripe as int].len() > 0 {
                    assert(block_is_linked(
                        self.chains@[stripe as int],
                        0,
                        stripe as int,
                        chain_length.0 as nat,
                        block_meta_data_items,
                    ));
                }
            }
            if self.stripes[stripe].get().is_not_null() {
                return false;
            }
            stripe += 1;
        }
        true
    }

    /// Adds the chain of `chain_length` blocks headed by `add_block`. Picks a stripe pseudo-randomly,
    /// marks the block as in that stripe, and pushes it onto the stripe. Returns the stripe.
    pub fn add(
        &mut self,
        chain_length: ChainLength,
        add_block: BlockPointer,
        block_meta_data_items: &mut BlockMetaDataItems,
        domain: &mut PersistenceDomain,
    ) -> (bag_stripe_index: usize)
        requires
            old(self).wf(chain_length.0 as nat, old(block_meta_data_items)),
            1 <= chain_length.0 <= INCLUSIVE_MAXIMUM_CHAIN_LENGTH,
            add_block.index() < old(block_meta_data_items).count(),
            old(block_meta_data_items).stripe_at(add_block.index()) is None,
            old(domain)@.is_written_back(),
        ensures
            final(self).wf(chain_length.0 as nat, final(block_meta_data_items)),
            final(self).lies_where(old(self)),
            bag_stripe_index < MAXIMUM_SUPPORTED_HYPER_THREADS,
            final(self).chains@ == old(self).chains@.update(
                bag_stripe_index as int,
                seq![add_block.0] + old(self).chains@[bag_stripe_index as int],
            ),
            final(block_meta_data_items).differs_only_at(old(block_meta_data_items), add_block.index()),
            final(block_meta_data_items).length_at(add_block.index()) == chain_length.0,
            final(block_meta_data_items).stripe_at(add_block.index()) == Some(bag_stripe_index as nat),
            final(block_meta_data_items).next_chain_at(add_block.index()) == old(
                block_meta_data_items,
            ).next_chain_at(add_block.index()),
            final(domain)@.is_quiescent(),
            final(domain).instruction() == old(domain).instruction(),
    {
        let bag_stripe_index: usize = random_stripe_index();
        let index: usize = add_block.0 as usize;
        let ghost chain = self.chains@[bag_stripe_index as int];
        assert(self.stripe_is_linked(bag_stripe_index as int, chain_length.0 as nat, block_meta_data_items));
        block_meta_data_items.items[index].enter_bag(chain_length, bag_stripe_index, domain);
        let head: BlockPointer = self.stripes[bag_stripe_index].persistent_get(domain);
        block_meta_data_items.items[index].set_next_in_bag(head, domain);
        let _swapped: bool = self.stripes[bag_stripe_index].persistent_compare_and_swap(head, add_block, domain);
        proof {
            self.chains@ = self.chains@.update(bag_stripe_index as int, seq![add_block.0] + chain);
            assert forall|stripe: int| 0 <= stripe < MAXIMUM_SUPPORTED_HYPER_THREADS implies #[trigger] self.stripe_is_linked(
                stripe,
                chain_length.0 as nat,
                block_meta_data_items,
            ) by {
                assert(old(self).stripe_is_linked(stripe, chain_length.0 as nat, old(block_meta_data_items)));
                let former = old(self).chains@[stripe];
                if stripe == bag_stripe_index {
                    lemma_chain_with_block_in_front_is_linked(
                        former,
                        add_block.0,
                        stripe,
                        chain_length.0 as nat,
                        old(block_meta_data_items),
                        block_meta_data_items,
                    );
                } else {
                    assert forall|position: int| 0 <= position < former.len() implies block_meta_data_items.items@[(
                    #[trigger] former[position]) as int] == old(block_meta_data_items).items@[former[position] as int] by {
                        assert(block_is_linked(
                            former,
                            position,
                            stripe,
                            chain_length.0 as nat,
                            old(block_meta_data_items),
                        ));
                    }
                    lemma_chain_stays_linked(
                        former,
                        stripe,
                        chain_length.0 as nat,
                        old(block_meta_data_items),
                        block_meta_data_items,
                    );
                }
            }
        }
        bag_stripe_index
    }

    /// Removes a chain. Looks at the stripes from the one of the hyper thread `hyper_thread` on,
    /// going round, and pops the head of the first that holds a block. Returns null where every
    /// stripe is empty.
    pub fn remove(
        &mut self,
        chain_length: ChainLength,
        block_meta_data_items: &mut BlockMetaDataItems,
        domain: &mut PersistenceDomain,
        hyper_thread: usize,
    ) -> (removed: BlockPointer)
        requires
            old(self).wf(chain_length.0 as nat, old(block_meta_data_items)),
            old(domain)@.is_written_back(),
        ensures
            final(self).wf(chain_length.0 as nat, final(block_meta_data_items)),
            final(self).lies_where(old(self)),
            removed == BlockPointer::null() <==> old(self).is_empty(),
            removed == BlockPointer::null() ==> {
                &&& final(self).chains@ == old(self).chains@
                &&& *final(block_meta_data_items) == *old(block_meta_data_items)
            },
            removed != BlockPointer::null() ==> {
                let stripe = first_stripe_in_use(old(self).chains@, stripe_for(hyper_thread) as int, 0)->Some_0;
                &&& first_stripe_in_use(old(self).chains@, stripe_for(hyper_thread) as int, 0) is Some
                &&& 0 <= stripe < MAXIMUM_SUPPORTED_HYPER_THREADS
                &&& old(self).chains@[stripe].len() > 0
                &&& removed.0 == old(self).chains@[stripe][0]
                &&& final(self).chains@ == old(self).chains@.update(stripe, old(self).chains@[stripe].drop_first())
                &&& removed.index() < old(block_meta_data_items).count()
                &&& final(block_meta_data_items).differs_only_at(old(block_meta_data_items), removed.index())
                &&& final(block_meta_data_items).length_at(removed.index()) == chain_length.0
                &&& final(block_meta_data_items).stripe_at(removed.index()) is None
                &&& final(block_meta_data_items).next_chain_at(removed.index()) == old(
                    block_meta_data_items,
                ).next_chain_at(removed.index())
            },
            final(domain)@.is_quiescent(),
            final(domain).instruction() == old(domain).instruction(),
    {
        let start: usize = hyper_thread_index(hyper_thread);
        let mut offset: usize = 0;
        while offset < MAXIMUM_SUPPORTED_HYPER_THREADS
            invariant
                offset <= MAXIMUM_SUPPORTED_HYPER_THREADS,
                start == stripe_for(hyper_thread),
                start < MAXIMUM_SUPPORTED_HYPER_THREADS,
                *self == *old(self),
                *block_meta_data_items == *old(block_meta_data_items),
                self.wf(chain_length.0 as nat, block_meta_data_items),
                domain@.is_written_back(),
                offset > 0 ==> domain@.is_quiescent(),
                domain.instruction() == old(domain).instruction(),
                forall|earlier: int|
                    0 <= earlier < offset ==> (#[trigger] self.chains@[(start + earlier) % (
                    MAXIMUM_SUPPORTED_HYPER_THREADS as int)]).len() == 0,
            decreases MAXIMUM_SUPPORTED_HYPER_THREADS - offset,
        {
            let stripe: usize = (start + offset) % MAXIMUM_SUPPORTED_HYPER_THREADS;
            assert(self.stripe_is_linked(stripe as int, chain_length.0 as nat, block_meta_data_items));
            proof {
                if self.chains@[stripe as int].len() > 0 {
                    assert(block_is_linked(
                        self.chains@[stripe as int],
                        0,
                        stripe as int,
                        chain_length.0 as nat,
                        block_meta_data_items,
                    ));
                }
            }
            let head: BlockPointer = self.stripes[stripe].persistent_get(domain);
            if head.is_not_null() {
                let ghost chain = self.chains@[stripe as int];
                proof {
                    lemma_first_stripe_in_use(self.chains@, start as int, offset as int);
                    assert(chain[0] == head.0);
                    assert(block_is_linked(chain, 0, stripe as int, chain_length.0 as nat, block_meta_data_items));
                    lemma_successor_in(chain, 0);
                }
                let index: usize = head.0 as usize;
                let next: BlockPointer = block_meta_data_items.items[index].get_next_in_bag(domain);
                let _swapped: bool = self.stripes[stripe].persistent_compare_and_swap(head, next, domain);
                block_meta_data_items.items[index].leave_bag(domain);
                proof {
                    assert(chain.drop_first() =~= chain.remove(0));
                    self.chains@ = self.chains@.update(stripe as int, chain.drop_first());
                    assert forall|other: int| 0 <= other < MAXIMUM_SUPPORTED_HYPER_THREADS implies #[trigger] self.stripe_is_linked(
                        other,
                        chain_length.0 as nat,
                        block_meta_data_items,
                    ) by {
                        assert(old(self).stripe_is_linked(other, chain_length.0 as nat, old(block_meta_data_items)));
                        let former = old(self).chains@[other];
                        assert(block_is_linked(chain, 0, stripe as int, chain_length.0 as nat, old(block_meta_data_items)));
                        if other == stripe {
                            assert forall|position: int|
                                0 <= position < chain.len() && position != 0 && position != 0 - 1 implies block_meta_data_items.items@[(
                            #[trigger] chain[position]) as int] == old(block_meta_data_items).items@[chain[position] as int] by {
                                assert(block_is_linked(
                                    chain,
                                    position,
                                    stripe as int,
                                    chain_length.0 as nat,
                                    old(block_meta_data_items),
                                ));
                                assert(chain[position] != chain[0]);
                            }
                            lemma_chain_without_block_is_linked(
                                chain,
                                0,
                                other,
                                chain_length.0 as nat,
                                old(block_meta_data_items),
                                block_meta_data_items,
                            );
                        } else {
                            assert forall|position: int| 0 <= position < former.len() implies block_meta_data_items.items@[(
                            #[trigger] former[position]) as int] == old(block_meta_data_items).items@[former[position] as int] by {
                                assert(block_is_linked(
                                    former,
                                    position,
                                    other,
                                    chain_length.0 as nat,
                                    old(block_meta_data_items),
                                ));
                            }
                            lemma_chain_stays_linked(
                                former,
                                other,
                                chain_length.0 as nat,
                                old(block_meta_data_items),
                                block_meta_data_items,
                            );
                        }
                    }
                }
                return head;
            }
            offset += 1;
        }
        proof {
            lemma_first_stripe_in_use(self.chains@, start as int, offset as int);
        }
        BlockPointer::null_pointer()
    }

    /// Cuts the chain headed by `might_not_be_in_bag_block` out of the stripe `bag_stripe_index`, in
    /// which its meta data says it is. Walks the stripe to the block, unlinks it from the block before
    /// it, or from the head of the stripe, and marks it as not in a bag.
    /// Returns `false`, and leaves everything as it is, where an unlinking compare-and-swap loses.
    pub fn try_to_cut(
        &mut self,
        chain_length: ChainLength,
        might_not_be_in_bag_block: BlockPointer,
        block_meta_data_items: &mut BlockMetaDataItems,
        bag_stripe_index: usize,
        domain: &mut PersistenceDomain,
    ) -> (cut: bool)
        requires
            old(self).wf(chain_length.0 as nat, old(block_meta_data_items)),
            bag_stripe_index < MAXIMUM_SUPPORTED_HYPER_THREADS,
            old(self).chains@[bag_stripe_index as int].contains(might_not_be_in_bag_block.0),
            old(domain)@.is_written_back(),
        ensures
            cut,
            final(self).wf(chain_length.0 as nat, final(block_meta_data_items)),
            final(self).lies_where(old(self)),
            final(self).chains@ == old(self).chains@.update(
                bag_stripe_index as int,
                old(self).chains@[bag_stripe_index as int].remove(
                    old(self).chains@[bag_stripe_index as int].index_of(might_not_be_in_bag_block.0),
                ),
            ),
            might_not_be_in_bag_block.index() < old(block_meta_data_items).count(),
            final(block_meta_data_items).is_laid_out_like(old(block_meta_data_items)),
            forall|index: int|
                0 <= index < old(block_meta_data_items).count() && index != might_not_be_in_bag_block.index() ==> {
                    &&& (#[trigger] final(block_meta_data_items).items@[index]).word() == old(
                        block_meta_data_items,
                    ).items@[index].word()
                    &&& final(block_meta_data_items).items@[index].next_chain == old(
                        block_meta_data_items,
                    ).items@[index].next_chain
                },
            forall|index: int|
                0 <= index < old(block_meta_data_items).count() && index != might_not_be_in_bag_block.index()
                    && !old(self).chains@[bag_stripe_index as int].contains(index as u32) ==> #[trigger] final(block_meta_data_items).items@[index] == old(block_meta_data_items).items@[index],
            final(block_meta_data_items).length_at(might_not_be_in_bag_block.index()) == chain_length.0,
            final(block_meta_data_items).stripe_at(might_not_be_in_bag_block.index()) is None,
            final(block_meta_data_items).next_chain_at(might_not_be_in_bag_block.index()) == old(
                block_meta_data_items,
            ).next_chain_at(might_not_be_in_bag_block.index()),
            final(domain)@.is_quiescent(),
            final(domain).instruction() == old(domain).instruction(),
    {
        let ghost chain = self.chains@[bag_stripe_index as int];
        let ghost target = chain.index_of(might_not_be_in_bag_block.0);
        assert(self.stripe_is_linked(bag_stripe_index as int, chain_length.0 as nat, block_meta_data_items));
        assert(0 <= target < chain.len() && chain[target] == might_not_be_in_bag_block.0);
        assert(block_is_linked(chain, target, bag_stripe_index as int, chain_length.0 as nat, block_meta_data_items));
        proof {
            lemma_successor_in(chain, target);
        }
        let block_index: usize = might_not_be_in_bag_block.0 as usize;
        let head: BlockPointer = self.stripes[bag_stripe_index].persistent_get(domain);
        let mut previous: BlockPointer = head;
        let ghost mut position: int = 0;
        if head.equals(might_not_be_in_bag_block) {
            let next: BlockPointer = block_meta_data_items.items[block_index].get_next_in_bag(domain);
            let swapped: bool = self.stripes[bag_stripe_index].persistent_compare_and_swap(head, next, domain);
            if !swapped {
                return false;
            }
            assert(target == 0);
        } else {
            assert(target > 0);
            loop
                invariant
                    0 <= position < target < chain.len(),
                    previous.0 == chain[position],
                    chain == old(self).chains@[bag_stripe_index as int],
                    chain[target] == might_not_be_in_bag_block.0,
                    *self == *old(self),
                    *block_meta_data_items == *old(block_meta_data_items),
                    block_meta_data_items.count() <= INCLUSIVE_MAXIMUM_NUMBER_OF_BLOCKS,
                    self.stripe_is_linked(bag_stripe_index as int, chain_length.0 as nat, block_meta_data_items),
                    domain@.is_written_back(),
                    domain.instruction() == old(domain).instruction(),
                ensures
                    0 <= position < target < chain.len(),
                    position + 1 == target,
                    previous.0 == chain[position],
                    *self == *old(self),
                    *block_meta_data_items == *old(block_meta_data_items),
                    domain@.is_written_back(),
                    domain.instruction() == old(domain).instruction(),
                decreases target - position,
            {
                let previous_index: usize = previous.0 as usize;
                assert(block_is_linked(
                    chain,
                    position,
                    bag_stripe_index as int,
                    chain_length.0 as nat,
                    block_meta_data_items,
                ));
                assert(block_is_linked(
                    chain,
                    position + 1,
                    bag_stripe_index as int,
                    chain_length.0 as nat,
                    block_meta_data_items,
                ));
                proof {
                    lemma_successor_in(chain, position);
                }
                let current: BlockPointer = block_meta_data_items.items[previous_index].get_next_in_bag(domain);
                assert(current.0 == chain[position + 1]);
                if current.equals(might_not_be_in_bag_block) {
                    break ;
                }
                if current.is_null() {
                    return false;
                }
                previous = current;
                proof {
                    position = position + 1;
                }
            }
            let previous_index: usize = previous.0 as usize;
            assert(block_is_linked(
                chain,
                position,
                bag_stripe_index as int,
                chain_length.0 as nat,
                block_meta_data_items,
            ));
            proof {
                lemma_successor_in(chain, position);
            }
            assert(chain[position] != chain[target]);
            let next: BlockPointer = block_meta_data_items.items[block_index].get_next_in_bag(domain);
            let swapped: bool = block_meta_data_items.items[previous_index].next_in_bag.persistent_compare_and_swap(
                might_not_be_in_bag_block,
                next,
                domain,
            );
            if !swapped {
                return false;
            }
        }
        block_meta_data_items.items[block_index].leave_bag(domain);
        proof {
            self.chains@ = self.chains@.update(bag_stripe_index as int, chain.remove(target));
            assert forall|index: int|
                0 <= index < old(block_meta_data_items).count() && index != might_not_be_in_bag_block.index()
                    && !old(self).chains@[bag_stripe_index as int].contains(index as u32) implies #[trigger] block_meta_data_items.items@[index]
                == old(block_meta_data_items).items@[index] by {
                if target > 0 {
                    assert(chain.contains(chain[position]));
                }
            }
            assert forall|other: int| 0 <= other < MAXIMUM_SUPPORTED_HYPER_THREADS implies #[trigger] self.stripe_is_linked(
                other,
                chain_length.0 as nat,
                block_meta_data_items,
            ) by {
                assert(old(self).stripe_is_linked(other, chain_length.0 as nat, old(block_meta_data_items)));
                let former = old(self).chains@[other];
                assert(block_is_linked(chain, target, bag_stripe_index as int, chain_length.0 as nat, old(block_meta_data_items)));
                if target > 0 {
                    assert(block_is_linked(
                        chain,
                        position,
                        bag_stripe_index as int,
                        chain_length.0 as nat,
                        old(block_meta_data_items),
                    ));
                }
                if other == bag_stripe_index {
                    assert forall|place: int|
                        0 <= place < chain.len() && place != target && place != target - 1 implies block_meta_data_items.items@[(
                    #[trigger] chain[place]) as int] == old(block_meta_data_items).items@[chain[place] as int] by {
                        assert(block_is_linked(
                            chain,
                            place,
                            bag_stripe_index as int,
                            chain_length.0 as nat,
                            old(block_meta_data_items),
                        ));
                        assert(chain[place] != chain[target]);
                        if target > 0 {
                            assert(chain[place] != chain[target - 1]);
                        }
                    }
                    lemma_chain_without_block_is_linked(
                        chain,
                        target,
                        other,
                        chain_length.0 as nat,
                        old(block_meta_data_items),
                        block_meta_data_items,
                    );
                } else {
                    assert forall|place: int| 0 <= place < former.len() implies block_meta_data_items.items@[(
                    #[trigger] former[place]) as int] == old(block_meta_data_items).items@[former[place] as int] by {
                        assert(block_is_linked(former, place, other, chain_length.0 as nat, old(block_meta_data_items)));
                    }
                    lemma_chain_stays_linked(
                        former,
                        other,
                        chain_length.0 as nat,
                        old(block_meta_data_items),
                        block_meta_data_items,
                    );
                }
            }
        }
        true
    }
}

} // verus!
