use crate::block_allocator::bag::front_of;
use crate::block_allocator::bag::lemma_successor_in;
use crate::block_allocator::bag::successor_in;
use crate::block_allocator::block_allocator::BlockAllocator;
use crate::block_allocator::block_allocator_error::BlockAllocatorError;
use crate::block_allocator::block_pointer::BlockPointer;
use crate::block_allocator::block_size::blocks_required;
use crate::block_allocator::chain_length::ChainLengthAndBagStripeIndex;
use crate::block_allocator::tiling::is_allocated_head;
use crate::persistent_memory_operations::persistent_sync::persistent_sync;
use vstd::prelude::*;

verus! {

/// The number of blocks in the chains headed by `heads`.
pub open spec fn blocks_in(heads: Seq<u32>, words: Seq<ChainLengthAndBagStripeIndex>) -> nat
    decreases heads.len(),
{
    if heads.len() == 0 {
        0
    } else {
        blocks_in(heads.drop_last(), words) + words[heads.last() as int].length()
    }
}

/// Does a caller own the chain headed by the block at `position` in `heads`, and is the chain
/// linked to the chain after it?
pub open spec fn chain_is_owned(heads: Seq<u32>, position: int, allocator: &BlockAllocator) -> bool {
    &&& allocator.is_allocated_chain(heads[position] as int)
    &&& allocator.block_meta_data_items.next_chain_at(heads[position] as int) == successor_in(heads, position)
}

/// The number of blocks in chains stays as it is where the lengths of the chains stay as they are.
pub proof fn lemma_blocks_in_depends_on_lengths(
    heads: Seq<u32>,
    before: Seq<ChainLengthAndBagStripeIndex>,
    after: Seq<ChainLengthAndBagStripeIndex>,
)
    requires
        forall|position: int|
            0 <= position < heads.len() ==> after[(#[trigger] heads[position]) as int].length() == before[heads[position] as int].length(),
    ensures
        blocks_in(heads, after) == blocks_in(heads, before),
    decreases heads.len(),
{
    if heads.len() > 0 {
        let shorter = heads.drop_last();
        assert forall|position: int| 0 <= position < shorter.len() implies after[(#[trigger] shorter[position]) as int].length()
            == before[shorter[position] as int].length() by {
            assert(shorter[position] == heads[position]);
        }
        lemma_blocks_in_depends_on_lengths(shorter, before, after);
        assert(heads.last() == heads[heads.len() - 1]);
    }
}

/// An allocation of one or more chains, linked one to the next.
///
/// Give it back with `recycle_chains_into_block_allocator`.
pub struct Chains {
    /// The head of the first chain, or null for an allocation of no bytes.
    pub head_of_chains_linked_list: BlockPointer,
    /// The heads of the chains, the first chain first.
    pub heads: Ghost<Seq<u32>>,
}

impl Chains {
    /// Are these the chains of an allocation made by `allocator` and not given back?
    pub open spec fn wf(&self, allocator: &BlockAllocator) -> bool {
        &&& self.head_of_chains_linked_list == front_of(self.heads@)
        &&& self.heads@.no_duplicates()
        &&& forall|position: int|
            0 <= position < self.heads@.len() ==> #[trigger] chain_is_owned(self.heads@, position, allocator)
    }

    /// The number of blocks in the chains.
    pub open spec fn number_of_blocks(&self, allocator: &BlockAllocator) -> nat {
        blocks_in(self.heads@, allocator.words())
    }

    /// Chains stay the chains of an allocation where the allocator changes nothing about them.
    pub proof fn lemma_chains_stay(&self, before: &BlockAllocator, after: &BlockAllocator)
        requires
            self.wf(before),
            after.number_of_blocks == before.number_of_blocks,
            before.block_meta_data_items.count() == before.number_of_blocks,
            after.block_meta_data_items.count() == before.block_meta_data_items.count(),
            forall|position: int|
                0 <= position < self.heads@.len() ==> {
                    &&& after.block_meta_data_items.items@[(#[trigger] self.heads@[position]) as int].length()
                        == before.block_meta_data_items.items@[self.heads@[position] as int].length()
                    &&& after.block_meta_data_items.items@[self.heads@[position] as int].stripe() is Some
                        == before.block_meta_data_items.items@[self.heads@[position] as int].stripe() is Some
                    &&& after.block_meta_data_items.items@[self.heads@[position] as int].next_chain.pointer()
                        == before.block_meta_data_items.items@[self.heads@[position] as int].next_chain.pointer()
                },
        ensures
            self.wf(after),
            self.number_of_blocks(after) == self.number_of_blocks(before),
    {
        let heads = self.heads@;
        assert forall|position: int| 0 <= position < heads.len() implies #[trigger] chain_is_owned(
            heads,
            position,
            after,
        ) by {
            assert(chain_is_owned(heads, position, before));
            let head = heads[position] as int;
            assert(before.words()[head] == before.block_meta_data_items.items@[head].word());
            assert(after.words()[head] == after.block_meta_data_items.items@[head].word());
        }
        assert forall|position: int| 0 <= position < heads.len() implies after.words()[(
        #[trigger] heads[position]) as int].length() == before.words()[heads[position] as int].length() by {
            assert(chain_is_owned(heads, position, before));
            let head = heads[position] as int;
            assert(before.words()[head] == before.block_meta_data_items.items@[head].word());
            assert(after.words()[head] == after.block_meta_data_items.items@[head].word());
        }
        lemma_blocks_in_depends_on_lengths(heads, before.words(), after.words());
    }

    /// The chains of an allocation of no bytes.
    pub fn new() -> (chains: Self)
        ensures
            chains.head_of_chains_linked_list == BlockPointer::null(),
            chains.heads@ == Seq::<u32>::empty(),
    {
        Chains { head_of_chains_linked_list: BlockPointer::null_pointer(), heads: Ghost(Seq::empty()) }
    }

    /// Gives every chain back to `allocator`, the first chain first, and then makes sure that
    /// everything has reached persistent memory.
    pub fn recycle_chains_into_block_allocator(self, allocator: &mut BlockAllocator)
        requires
            old(allocator).wf(),
            self.wf(old(allocator)),
        ensures
            final(allocator).wf(),
            final(allocator).is_bound_like(old(allocator)),
            final(allocator).lies_where(old(allocator)),
            final(allocator).blocks_memory@ == old(allocator).blocks_memory@,
            final(allocator).free_blocks() == old(allocator).free_blocks() + self.number_of_blocks(old(allocator)),
            final(allocator).spec_blocks_in_use() == old(allocator).spec_blocks_in_use() - self.number_of_blocks(
                old(allocator),
            ),
            forall|index: int|
                0 <= index < old(allocator).number_of_blocks && old(allocator).is_allocated_chain(index)
                    && !self.heads@.contains(index as u32) ==> {
                    &&& (#[trigger] final(allocator).block_meta_data_items.items@[index]).length() == old(
                        allocator,
                    ).block_meta_data_items.items@[index].length()
                    &&& final(allocator).block_meta_data_items.items@[index].stripe() is None
                    &&& final(allocator).block_meta_data_items.items@[index].next_chain.pointer() == old(
                        allocator,
                    ).block_meta_data_items.items@[index].next_chain.pointer()
                },
    {
        let mut head: BlockPointer = self.head_of_chains_linked_list;
        let ghost heads = self.heads@;
        let ghost mut position: int = 0;
        proof {
            assert(heads.skip(0) =~= heads);
            assert forall|later: int| 0 <= later < heads.len() implies allocator.is_allocated_chain(
                (#[trigger] heads[later]) as int,
            ) by {
                assert(chain_is_owned(heads, later, allocator));
            }
        }
        while head.is_not_null()
            invariant
                heads == self.heads@,
                heads.no_duplicates(),
                0 <= position <= heads.len(),
                head == front_of(heads.skip(position)),
                old(allocator).wf(),
                self.wf(old(allocator)),
                allocator.wf(),
                allocator.is_bound_like(old(allocator)),
                allocator.lies_where(old(allocator)),
                allocator.blocks_memory@ == old(allocator).blocks_memory@,
                forall|later: int|
                    position <= later < heads.len() ==> {
                        &&& allocator.is_allocated_chain((#[trigger] heads[later]) as int)
                        &&& allocator.block_meta_data_items.items@[heads[later] as int].length() == old(
                            allocator,
                        ).block_meta_data_items.items@[heads[later] as int].length()
                        &&& allocator.block_meta_data_items.items@[heads[later] as int].next_chain.pointer() == old(
                            allocator,
                        ).block_meta_data_items.items@[heads[later] as int].next_chain.pointer()
                    },
                forall|index: int|
                    0 <= index < old(allocator).number_of_blocks && old(allocator).is_allocated_chain(index)
                        && !heads.contains(index as u32) ==> {
                        &&& (#[trigger] allocator.block_meta_data_items.items@[index]).length() == old(
                            allocator,
                        ).block_meta_data_items.items@[index].length()
                        &&& allocator.block_meta_data_items.items@[index].stripe() is None
                        &&& allocator.block_meta_data_items.items@[index].next_chain.pointer() == old(
                            allocator,
                        ).block_meta_data_items.items@[index].next_chain.pointer()
                    },
                allocator.free_blocks() == old(allocator).free_blocks() + blocks_in(
                    heads.take(position),
                    old(allocator).words(),
                ),
                allocator.spec_blocks_in_use() == old(allocator).spec_blocks_in_use() - blocks_in(
                    heads.take(position),
                    old(allocator).words(),
                ),
            decreases heads.len() - position,
        {
            proof {
                assert(heads.skip(position).len() > 0);
                assert(heads.skip(position)[0] == heads[position]);
                assert(chain_is_owned(heads, position, old(allocator)));
                lemma_successor_in(heads, position);
                if position + 1 < heads.len() {
                    assert(heads.skip(position + 1)[0] == heads[position + 1]);
                }
                assert(old(allocator).words()[heads[position] as int] == old(
                    allocator,
                ).block_meta_data_items.items@[heads[position] as int].word());
                assert(allocator.words()[heads[position] as int]
                    == allocator.block_meta_data_items.items@[heads[position] as int].word());
            }
            let ghost former = *allocator;
            let next: BlockPointer = allocator.block_meta_data_items.items[head.0 as usize].get_next_chain(
                &mut allocator.persistence_domain,
            );
            allocator.receive_solitary_chain_back(head);
            proof {
                let block = heads[position] as int;
                assert forall|later: int| position + 1 <= later < heads.len() implies {
                    &&& allocator.is_allocated_chain((#[trigger] heads[later]) as int)
                    &&& allocator.block_meta_data_items.items@[heads[later] as int].length() == old(
                        allocator,
                    ).block_meta_data_items.items@[heads[later] as int].length()
                    &&& allocator.block_meta_data_items.items@[heads[later] as int].next_chain.pointer() == old(
                        allocator,
                    ).block_meta_data_items.items@[heads[later] as int].next_chain.pointer()
                } by {
                    let other = heads[later] as int;
                    assert(former.is_allocated_chain(other));
                    assert(other != block);
                    assert(former.words()[other] == former.block_meta_data_items.items@[other].word());
                    assert(former.block_meta_data_items.items@[other].heads_allocated_chain());
                    assert(allocator.words()[other] == allocator.block_meta_data_items.items@[other].word());
                }
                assert forall|index: int|
                    0 <= index < old(allocator).number_of_blocks && old(allocator).is_allocated_chain(index)
                        && !heads.contains(index as u32) implies {
                    &&& (#[trigger] allocator.block_meta_data_items.items@[index]).length() == old(
                        allocator,
                    ).block_meta_data_items.items@[index].length()
                    &&& allocator.block_meta_data_items.items@[index].stripe() is None
                    &&& allocator.block_meta_data_items.items@[index].next_chain.pointer() == old(
                        allocator,
                    ).block_meta_data_items.items@[index].next_chain.pointer()
                } by {
                    assert(former.block_meta_data_items.items@[index].stripe() is None);
                    assert(old(allocator).words()[index] == old(allocator).block_meta_data_items.items@[index].word());
                    assert(former.block_meta_data_items.items@[index].heads_allocated_chain());
                    assert(index != block);
                }
                assert(heads.take(position + 1).drop_last() =~= heads.take(position));
                assert(heads.take(position + 1).last() == heads[position]);
                position = position + 1;
            }
            head = next;
        }
        proof {
            if position < heads.len() {
                assert(heads.skip(position)[0] == heads[position]);
                assert(chain_is_owned(heads, position, old(allocator)));
                assert(false);
            }
            assert(heads.take(position) =~= heads);
        }
        persistent_sync(&mut allocator.persistence_domain);
    }
}

impl BlockAllocator {
    /// Links the allocated chain headed by `previous_chain` to the chain headed by `next_chain`.
    pub fn set_next_chain_of(&mut self, previous_chain: BlockPointer, next_chain: BlockPointer)
        requires
            old(self).wf(),
            old(self).is_allocated_chain(previous_chain.index()),
        ensures
            final(self).wf(),
            final(self).is_bound_like(old(self)),
            final(self).lies_where(old(self)),
            final(self).blocks_memory@ == old(self).blocks_memory@,
            final(self).free_lists() == old(self).free_lists(),
            final(self).words() == old(self).words(),
            final(self).next_chain_at(previous_chain.index()) == next_chain,
            final(self).block_meta_data_items.differs_only_at(&old(self).block_meta_data_items, previous_chain.index()),
    {
        let index: usize = previous_chain.0 as usize;
        assert(old(self).words()[index as int] == old(self).block_meta_data_items.items@[index as int].word());
        self.block_meta_data_items.items[index].set_next_chain(next_chain, &mut self.persistence_domain);
        proof {
            old(self).bags.lemma_bags_stay_wf(&old(self).block_meta_data_items, &self.block_meta_data_items);
            assert(self.words() =~= old(self).words());
            self.lemma_stays_laid_out(old(self));
            assert forall|other: int|
                0 <= other < self.number_of_blocks && !is_allocated_head(self.words(), other) implies #[trigger] self.block_meta_data_items.next_chain_at(
                other,
            ) == BlockPointer::null() by {
                assert(self.block_meta_data_items.items@[other] == old(self).block_meta_data_items.items@[other]);
                assert(old(self).block_meta_data_items.next_chain_at(other) == BlockPointer::null());
            }
        }
    }

    /// Are the chains that were allocated in `former` allocated, with the same length and linked to
    /// the same chain, in `self`?
    pub open spec fn keeps_allocated_chains_of(&self, former: &BlockAllocator) -> bool {
        forall|index: int|
            0 <= index < former.number_of_blocks && (
            #[trigger] former.block_meta_data_items.items@[index]).heads_allocated_chain() ==> {
                &&& self.block_meta_data_items.items@[index].length()
                    == former.block_meta_data_items.items@[index].length()
                &&& self.block_meta_data_items.items@[index].stripe() is None
                &&& self.block_meta_data_items.items@[index].next_chain.pointer()
                    == former.block_meta_data_items.items@[index].next_chain.pointer()
            }
    }

    /// Allocating a chain keeps the chains that were allocated, and the chain is none of them.
    pub proof fn lemma_allocation_keeps_allocated_chains(
        &self,
        former: &BlockAllocator,
        chain_length: int,
        block: int,
        taken: int,
    )
        requires
            former.is_consistent(),
            self.is_after_allocation(former, chain_length, block, taken),
            1 <= taken <= chain_length,
        ensures
            self.keeps_allocated_chains_of(former),
            !former.block_meta_data_items.items@[block].heads_allocated_chain(),
    {
        assert(former.words()[block] == former.block_meta_data_items.items@[block].word());
        assert forall|index: int|
            0 <= index < former.number_of_blocks && (
            #[trigger] former.block_meta_data_items.items@[index]).heads_allocated_chain() implies {
            &&& self.block_meta_data_items.items@[index].length() == former.block_meta_data_items.items@[index].length()
            &&& self.block_meta_data_items.items@[index].stripe() is None
            &&& self.block_meta_data_items.items@[index].next_chain.pointer()
                == former.block_meta_data_items.items@[index].next_chain.pointer()
        } by {
            assert(index != block);
            assert(self.block_meta_data_items.items@[index].word() == former.block_meta_data_items.items@[index].word());
        }
    }

    /// Is `self` what `former` has become while an allocation of several chains is made, once
    /// `chains` are taken and linked, with `found` blocks in all?
    pub open spec fn is_allocating(&self, former: &BlockAllocator, chains: &Chains, found: int) -> bool {
        &&& self.is_bound_like(former)
        &&& self.blocks_memory@ == former.blocks_memory@
        &&& self.keeps_allocated_chains_of(former)
        &&& chains.wf(self)
        &&& chains.number_of_blocks(self) == found
        &&& self.free_blocks() == former.free_blocks() - found
        &&& self.spec_blocks_in_use() == former.spec_blocks_in_use() + found
        &&& forall|position: int|
            0 <= position < chains.heads@.len() ==> !former.block_meta_data_items.items@[(
            #[trigger] chains.heads@[position]) as int].heads_allocated_chain()
    }

    /// The first chain of an allocation of several chains is taken.
    pub proof fn lemma_first_chain_taken(&self, former: &BlockAllocator, chains: &Chains, chain_length: int, taken: int)
        requires
            former.is_consistent(),
            self.is_consistent(),
            1 <= taken <= chain_length,
            chains.head_of_chains_linked_list != BlockPointer::null(),
            chains.heads@ == seq![chains.head_of_chains_linked_list.0],
            self.is_after_allocation(former, chain_length, chains.head_of_chains_linked_list.index(), taken),
        ensures
            self.is_allocating(former, chains, taken),
    {
        let block = chains.head_of_chains_linked_list.index();
        let heads = chains.heads@;
        self.lemma_allocation_keeps_allocated_chains(former, chain_length, block, taken);
        lemma_successor_in(heads, 0);
        assert(chain_is_owned(heads, 0, self));
        assert(heads.drop_last() =~= Seq::<u32>::empty());
        assert(self.words()[block] == self.block_meta_data_items.items@[block].word());
        assert(blocks_in(heads.drop_last(), self.words()) == 0);
    }

    /// One more chain of an allocation of several chains is taken and linked to the chain taken before it.
    pub proof fn lemma_next_chain_taken(
        &self,
        grabbed: &BlockAllocator,
        before: &BlockAllocator,
        former: &BlockAllocator,
        chains_before: &Chains,
        chains: &Chains,
        found: int,
        chain_length: int,
        next_chain: BlockPointer,
        taken: int,
    )
        requires
            former.is_consistent(),
            before.is_consistent(),
            grabbed.is_consistent(),
            before.is_allocating(former, chains_before, found),
            chains_before.heads@.len() >= 1,
            1 <= taken <= chain_length,
            next_chain != BlockPointer::null(),
            grabbed.is_after_allocation(before, chain_length, next_chain.index(), taken),
            self.is_bound_like(grabbed),
            self.blocks_memory@ == grabbed.blocks_memory@,
            self.words() == grabbed.words(),
            self.block_meta_data_items.differs_only_at(
                &grabbed.block_meta_data_items,
                chains_before.heads@.last() as int,
            ),
            self.next_chain_at(chains_before.heads@.last() as int) == next_chain,
            chains.heads@ == chains_before.heads@.push(next_chain.0),
            chains.head_of_chains_linked_list == chains_before.head_of_chains_linked_list,
        ensures
            self.is_allocating(former, chains, found + taken),
    {
        let block = next_chain.index();
        let former_heads = chains_before.heads@;
        let heads = chains.heads@;
        let previous = former_heads.last() as int;
        let count = former_heads.len() as int;
        grabbed.lemma_allocation_keeps_allocated_chains(before, chain_length, block, taken);
        assert forall|position: int| 0 <= position < former_heads.len() implies {
            &&& grabbed.block_meta_data_items.items@[(#[trigger] former_heads[position]) as int].length()
                == before.block_meta_data_items.items@[former_heads[position] as int].length()
            &&& grabbed.block_meta_data_items.items@[former_heads[position] as int].stripe() is Some
                == before.block_meta_data_items.items@[former_heads[position] as int].stripe() is Some
            &&& grabbed.block_meta_data_items.items@[former_heads[position] as int].next_chain.pointer()
                == before.block_meta_data_items.items@[former_heads[position] as int].next_chain.pointer()
            &&& former_heads[position] != block
        } by {
            assert(chain_is_owned(former_heads, position, before));
            let head = former_heads[position] as int;
            assert(before.words()[head] == before.block_meta_data_items.items@[head].word());
            assert(before.block_meta_data_items.items@[head].heads_allocated_chain());
        }
        chains_before.lemma_chains_stay(before, grabbed);
        assert forall|position: int| 0 <= position < heads.len() implies #[trigger] chain_is_owned(
            heads,
            position,
            self,
        ) by {
            lemma_successor_in(heads, position);
            let head = heads[position] as int;
            assert(self.words()[head] == grabbed.words()[head]);
            if position < count {
                assert(heads[position] == former_heads[position]);
                assert(chain_is_owned(former_heads, position, grabbed));
                lemma_successor_in(former_heads, position);
                if position < count - 1 {
                    assert(former_heads[position] != former_heads[count - 1]);
                    assert(self.block_meta_data_items.items@[head] == grabbed.block_meta_data_items.items@[head]);
                    assert(heads[position + 1] == former_heads[position + 1]);
                } else {
                    assert(heads[position + 1] == next_chain.0);
                }
            } else {
                assert(head == block);
                assert(former_heads[count - 1] != block);
                assert(self.block_meta_data_items.items@[head] == grabbed.block_meta_data_items.items@[head]);
            }
        }
        assert forall|first: int, second: int|
            0 <= first < heads.len() && 0 <= second < heads.len() && first != second implies heads[first]
            != heads[second] by {
            if first < count {
                assert(heads[first] == former_heads[first]);
            }
            if second < count {
                assert(heads[second] == former_heads[second]);
            }
        }
        assert(front_of(heads) == front_of(former_heads)) by {
            assert(heads[0] == former_heads[0]);
        }
        assert(heads.drop_last() =~= former_heads);
        assert(heads.last() == next_chain.0);
        lemma_blocks_in_depends_on_lengths(former_heads, grabbed.words(), self.words());
        assert(grabbed.words()[block] == grabbed.block_meta_data_items.items@[block].word());
        assert forall|index: int|
            0 <= index < former.number_of_blocks && (
            #[trigger] former.block_meta_data_items.items@[index]).heads_allocated_chain() implies {
            &&& self.block_meta_data_items.items@[index].length() == former.block_meta_data_items.items@[index].length()
            &&& self.block_meta_data_items.items@[index].stripe() is None
            &&& self.block_meta_data_items.items@[index].next_chain.pointer()
                == former.block_meta_data_items.items@[index].next_chain.pointer()
        } by {
            assert(before.block_meta_data_items.items@[index].heads_allocated_chain());
            assert(index != previous);
            assert(self.block_meta_data_items.items@[index] == grabbed.block_meta_data_items.items@[index]);
        }
        assert forall|position: int| 0 <= position < heads.len() implies !former.block_meta_data_items.items@[(
        #[trigger] heads[position]) as int].heads_allocated_chain() by {
            if position < count {
                assert(heads[position] == former_heads[position]);
            } else {
                if former.block_meta_data_items.items@[block].heads_allocated_chain() {
                    assert(before.block_meta_data_items.items@[block].heads_allocated_chain());
                }
            }
        }
    }

    /// The last chain of an allocation of several chains is linked to no chain.
    pub proof fn lemma_last_chain_linked(
        &self,
        before: &BlockAllocator,
        former: &BlockAllocator,
        chains: &Chains,
        found: int,
    )
        requires
            former.is_consistent(),
            before.is_consistent(),
            before.is_allocating(former, chains, found),
            chains.heads@.len() >= 1,
            self.is_bound_like(before),
            self.blocks_memory@ == before.blocks_memory@,
            self.words() == before.words(),
            self.block_meta_data_items.differs_only_at(&before.block_meta_data_items, chains.heads@.last() as int),
            self.next_chain_at(chains.heads@.last() as int) == BlockPointer::null(),
        ensures
            self.is_allocating(former, chains, found),
    {
        let heads = chains.heads@;
        let count = heads.len() as int;
        let previous = heads.last() as int;
        assert forall|position: int| 0 <= position < heads.len() implies #[trigger] chain_is_owned(
            heads,
            position,
            self,
        ) by {
            lemma_successor_in(heads, position);
            let head = heads[position] as int;
            assert(chain_is_owned(heads, position, before));
            assert(self.words()[head] == before.words()[head]);
            if position < count - 1 {
                assert(heads[position] != heads[count - 1]);
                assert(self.block_meta_data_items.items@[head] == before.block_meta_data_items.items@[head]);
            }
        }
        assert forall|index: int|
            0 <= index < former.number_of_blocks && (
            #[trigger] former.block_meta_data_items.items@[index]).heads_allocated_chain() implies {
            &&& self.block_meta_data_items.items@[index].length() == former.block_meta_data_items.items@[index].length()
            &&& self.block_meta_data_items.items@[index].stripe() is None
            &&& self.block_meta_data_items.items@[index].next_chain.pointer()
                == former.block_meta_data_items.items@[index].next_chain.pointer()
        } by {
            assert(heads[count - 1] == previous);
            assert(index != previous);
            assert(self.block_meta_data_items.items@[index] == before.block_meta_data_items.items@[index]);
        }
    }

    /// Allocate chains.
    ///
    /// The chains have, together, as many blocks as hold `requested_size` bytes. Each is taken as
    /// `grab_a_chain` takes it, and linked to the one taken before it.
    /// Fails where fewer blocks than that are free; the chains taken until then are given back.
    pub fn allocate_chains(&mut self, requested_size: usize) -> (chains: Result<Chains, BlockAllocatorError>)
        requires
            old(self).wf(),
        ensures
            final(self).wf(),
            final(self).is_bound_like(old(self)),
            final(self).blocks_memory@ == old(self).blocks_memory@,
            final(self).keeps_allocated_chains_of(old(self)),
            chains is Ok <==> blocks_required(requested_size as int, old(self).block_size.bytes() as int) <= old(
                self,
            ).free_blocks(),
            chains is Err ==> {
                &&& chains->Err_0 == BlockAllocatorError::OutOfMemory
                &&& final(self).free_blocks() == old(self).free_blocks()
                &&& final(self).spec_blocks_in_use() == old(self).spec_blocks_in_use()
            },
            chains is Ok ==> {
                &&& final(self).is_allocating(
                    old(self),
                    &chains->Ok_0,
                    blocks_required(requested_size as int, old(self).block_size.bytes() as int),
                )
                &&& (chains->Ok_0.head_of_chains_linked_list == BlockPointer::null() <==> blocks_required(
                    requested_size as int,
                    old(self).block_size.bytes() as int,
                ) == 0)
                &&& chains->Ok_0.head_of_chains_linked_list != BlockPointer::null()
                    ==> chains->Ok_0.head_of_chains_linked_list.index() == old(self).chain_taken(
                    old(self).length_of_chain_to_grab(
                        blocks_required(requested_size as int, old(self).block_size.bytes() as int),
                    ),
                )
            },
    {
        let mut chains: Chains = Chains::new();
        let number_of_blocks_required: usize = self.block_size.number_of_blocks_required(requested_size);
        if number_of_blocks_required == 0 {
            proof {
                assert(self.keeps_allocated_chains_of(old(self)));
            }
            return Ok(chains);
        }
        let mut number_of_blocks_remaining_to_find: usize = number_of_blocks_required;
        let (head_of_chains_linked_list, chain_length) = self.grab_a_chain(number_of_blocks_remaining_to_find);
        if head_of_chains_linked_list.is_null() {
            return Err(BlockAllocatorError::OutOfMemory);
        }
        chains.head_of_chains_linked_list = head_of_chains_linked_list;
        proof {
            chains.heads@ = seq![head_of_chains_linked_list.0];
            old(self).lemma_chain_to_grab(number_of_blocks_remaining_to_find as int);
            let length_of_chain = old(self).length_of_chain_to_grab(number_of_blocks_remaining_to_find as int);
            self.lemma_first_chain_taken(old(self), &chains, length_of_chain, chain_length as int);
        }
        number_of_blocks_remaining_to_find -= chain_length;
        let mut previous_chain: BlockPointer = head_of_chains_linked_list;
        while number_of_blocks_remaining_to_find != 0
            invariant
                old(self).wf(),
                self.wf(),
                chains.heads@.len() >= 1,
                chains.heads@.last() == previous_chain.0,
                chains.head_of_chains_linked_list != BlockPointer::null(),
                chains.head_of_chains_linked_list.index() == old(self).chain_taken(
                    old(self).length_of_chain_to_grab(number_of_blocks_required as int),
                ),
                number_of_blocks_required == blocks_required(
                    requested_size as int,
                    old(self).block_size.bytes() as int,
                ),
                0 <= number_of_blocks_remaining_to_find < number_of_blocks_required,
                self.is_allocating(
                    old(self),
                    &chains,
                    number_of_blocks_required - number_of_blocks_remaining_to_find,
                ),
            decreases number_of_blocks_remaining_to_find,
        {
            let ghost before = *self;
            let ghost chains_before = chains;
            let ghost found = number_of_blocks_required - number_of_blocks_remaining_to_find;
            assert(chain_is_owned(chains.heads@, chains.heads@.len() - 1, self));
            let (next_chain, chain_length) = self.grab_a_chain(number_of_blocks_remaining_to_find);
            if next_chain.is_null() {
                proof {
                    assert(chains.wf(self)) by {
                        chains.lemma_chains_stay(&before, self);
                    }
                    assert(self.is_allocating(old(self), &chains, found)) by {
                        chains.lemma_chains_stay(&before, self);
                        assert(self.words() =~= before.words());
                    }
                    assert(chain_is_owned(chains.heads@, chains.heads@.len() - 1, self));
                }
                let ghost unlinked = *self;
                self.set_next_chain_of(previous_chain, BlockPointer::null_pointer());
                proof {
                    self.lemma_last_chain_linked(&unlinked, old(self), &chains, found);
                }
                let ghost linked = *self;
                chains.recycle_chains_into_block_allocator(self);
                proof {
                    assert forall|index: int|
                        0 <= index < old(self).number_of_blocks && (
                        #[trigger] old(self).block_meta_data_items.items@[index]).heads_allocated_chain() implies {
                        &&& self.block_meta_data_items.items@[index].length() == old(
                            self,
                        ).block_meta_data_items.items@[index].length()
                        &&& self.block_meta_data_items.items@[index].stripe() is None
                        &&& self.block_meta_data_items.items@[index].next_chain.pointer() == old(
                            self,
                        ).block_meta_data_items.items@[index].next_chain.pointer()
                    } by {
                        assert(linked.words()[index] == linked.block_meta_data_items.items@[index].word());
                        assert(linked.is_allocated_chain(index));
                        if chains.heads@.contains(index as u32) {
                            let position = chains.heads@.index_of(index as u32);
                            assert(chains.heads@[position] == index);
                        }
                    }
                }
                return Err(BlockAllocatorError::OutOfMemory);
            }
            let ghost grabbed = *self;
            proof {
                assert(chain_is_owned(chains.heads@, chains.heads@.len() - 1, &before));
                before.lemma_chain_to_grab(number_of_blocks_remaining_to_find as int);
                let length_of_chain = before.length_of_chain_to_grab(number_of_blocks_remaining_to_find as int);
                self.lemma_allocation_keeps_allocated_chains(&before, length_of_chain, next_chain.index(), chain_length as int);
                let previous = previous_chain.index();
                assert(before.words()[previous] == before.block_meta_data_items.items@[previous].word());
                assert(before.block_meta_data_items.items@[previous].heads_allocated_chain());
                assert(self.words()[previous] == self.block_meta_data_items.items@[previous].word());
            }
            self.set_next_chain_of(previous_chain, next_chain);
            proof {
                chains.heads@ = chains.heads@.push(next_chain.0);
                let length_of_chain = before.length_of_chain_to_grab(number_of_blocks_remaining_to_find as int);
                self.lemma_next_chain_taken(
                    &grabbed,
                    &before,
                    old(self),
                    &chains_before,
                    &chains,
                    found,
                    length_of_chain,
                    next_chain,
                    chain_length as int,
                );
            }
            previous_chain = next_chain;
            number_of_blocks_remaining_to_find -= chain_length;
        }
        let ghost unlinked = *self;
        assert(chain_is_owned(chains.heads@, chains.heads@.len() - 1, self));
        proof {
            let previous = previous_chain.index();
            assert(self.words()[previous] == self.block_meta_data_items.items@[previous].word());
        }
        self.set_next_chain_of(previous_chain, BlockPointer::null_pointer());
        proof {
            self.lemma_last_chain_linked(&unlinked, old(self), &chains, number_of_blocks_required as int);
        }
        Ok(chains)
    }
}

} // verus!
