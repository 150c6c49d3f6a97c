use crate::block_allocator::bag::lemma_successor_in;
use crate::block_allocator::block_allocator::BlockAllocator;
use crate::block_allocator::block_pointer::BlockPointer;
use crate::block_allocator::chain_bytes::chain_lies_in;
use crate::block_allocator::chain_bytes::lemma_byte_in_chain_bound;
use crate::block_allocator::chain_bytes::start_of_chain;
use crate::block_allocator::chains::chain_is_owned;
use crate::block_allocator::chains::Chains;
use vstd::prelude::*;

verus! {

/// A place in the bytes of the chains of an allocation.
pub struct ChainsCursor {
    /// The head of the chain that holds the place, or null past the last byte of the last chain.
    pub chain: BlockPointer,
    /// How many bytes of that chain lie before the place.
    pub offset: usize,
    /// Which of the chains that chain is: the first is chain zero.
    pub chain_position: Ghost<int>,
}

impl ChainsCursor {
    /// Is this a place in the bytes of `chains`?
    pub open spec fn wf(&self, chains: &Chains, allocator: &BlockAllocator) -> bool {
        let heads = chains.heads@;
        &&& 0 <= self.chain_position@ <= heads.len()
        &&& self.chain_position@ < heads.len() ==> {
            &&& self.chain == BlockPointer(heads[self.chain_position@])
            &&& self.offset < allocator.words()[heads[self.chain_position@] as int].length()
                * allocator.block_size.bytes()
        }
        &&& self.chain_position@ == heads.len() ==> self.chain == BlockPointer::null() && self.offset == 0
    }

    /// How many bytes of the chains lie before the place.
    pub open spec fn position(&self, chains: &Chains, allocator: &BlockAllocator) -> int {
        start_of_chain(
            chains.heads@,
            self.chain_position@,
            allocator.words(),
            allocator.block_size.bytes() as int,
        ) + self.offset
    }

    /// The place before the first byte of `chains`.
    pub fn start(chains: &Chains, allocator: &BlockAllocator) -> (cursor: Self)
        requires
            allocator.is_consistent(),
            chains.wf(allocator),
        ensures
            cursor.wf(chains, allocator),
            cursor.position(chains, allocator) == 0,
    {
        proof {
            assert(chains.heads@.take(0) =~= Seq::<u32>::empty());
            assert(0 * allocator.block_size.bytes() == 0);
            if chains.heads@.len() > 0 {
                assert(chain_is_owned(chains.heads@, 0, allocator));
                let length = allocator.words()[chains.heads@[0] as int].length() as int;
                let size = allocator.block_size.bytes() as int;
                assert(length * size > 0) by (nonlinear_arith)
                    requires
                        length > 0,
                        size > 0,
                ;
            }
        }
        ChainsCursor { chain: chains.head_of_chains_linked_list, offset: 0, chain_position: Ghost(0) }
    }

    /// Is the place past the last byte of the last chain?
    pub fn is_at_end(&self) -> (at_end: bool)
        ensures
            at_end == (self.chain == BlockPointer::null()),
    {
        self.chain.is_null()
    }

    /// How many bytes of the chain that holds the place lie from the place on.
    pub fn remaining_in_chain(&self, chains: &Chains, allocator: &BlockAllocator) -> (remaining: usize)
        requires
            allocator.is_consistent(),
            chains.wf(allocator),
            self.wf(chains, allocator),
            self.chain != BlockPointer::null(),
        ensures
            self.chain_position@ < chains.heads@.len(),
            remaining == allocator.words()[self.chain.index()].length() * allocator.block_size.bytes() - self.offset,
            remaining >= 1,
            self.chain.index() * allocator.block_size.bytes() + self.offset + remaining
                <= allocator.blocks_memory@.len(),
            self.chain.index() * allocator.block_size.bytes() >= 0,
    {
        proof {
            if self.chain_position@ < chains.heads@.len() {
                chains.lemma_chains_lie_apart(allocator);
                assert(chain_lies_in(
                    chains.heads@,
                    self.chain_position@,
                    allocator.words(),
                    allocator.blocks_memory@,
                    allocator.block_size.bytes() as int,
                ));
                assert(chain_is_owned(chains.heads@, self.chain_position@, allocator));
                let head = self.chain.index();
                let length = allocator.words()[head].length() as int;
                let size = allocator.block_size.bytes() as int;
                assert(allocator.words()[head] == allocator.block_meta_data_items.items@[head].word());
                assert((head + length) * size == head * size + length * size) by (nonlinear_arith);
                assert(size * length == length * size) by (nonlinear_arith);
                assert(length * size >= 0) by (nonlinear_arith)
                    requires
                        length >= 0,
                        size > 0,
                ;
            }
        }
        let chain_length: usize = allocator.block_meta_data_items.items[self.chain.0 as usize].word_now().chain_length();
        allocator.block_size.size_of_chain_in_bytes(chain_length) - self.offset
    }

    /// Moves the place `count` bytes on, within the chain that holds it, and to the start of the
    /// next chain where it comes to the end of that chain.
    pub fn advance(&mut self, chains: &Chains, allocator: &BlockAllocator, count: usize)
        requires
            allocator.is_consistent(),
            chains.wf(allocator),
            old(self).wf(chains, allocator),
            old(self).chain != BlockPointer::null(),
            count <= allocator.words()[old(self).chain.index()].length() * allocator.block_size.bytes() - old(
                self,
            ).offset,
        ensures
            final(self).wf(chains, allocator),
            final(self).position(chains, allocator) == old(self).position(chains, allocator) + count,
            final(self).chain_position@ == if count == allocator.words()[old(self).chain.index()].length()
                * allocator.block_size.bytes() - old(self).offset {
                old(self).chain_position@ + 1
            } else {
                old(self).chain_position@
            },
    {
        let remaining: usize = self.remaining_in_chain(chains, allocator);
        if count == remaining {
            proof {
                let position = self.chain_position@;
                chains.lemma_chains_lie_apart(allocator);
                lemma_byte_in_chain_bound(
                    chains.heads@,
                    allocator.words(),
                    allocator.blocks_memory@,
                    allocator.block_size.bytes() as int,
                    position,
                );
                assert(chain_is_owned(chains.heads@, position, allocator));
                lemma_successor_in(chains.heads@, position);
                if position + 1 < chains.heads@.len() {
                    assert(chain_is_owned(chains.heads@, position + 1, allocator));
                    let length = allocator.words()[chains.heads@[position + 1] as int].length() as int;
                    let size = allocator.block_size.bytes() as int;
                    assert(length * size > 0) by (nonlinear_arith)
                        requires
                            length > 0,
                            size > 0,
                    ;
                }
            }
            self.chain = allocator.block_meta_data_items.items[self.chain.0 as usize].next_chain.get();
            self.offset = 0;
            proof {
                self.chain_position@ = self.chain_position@ + 1;
            }
        } else {
            self.offset = self.offset + count;
        }
    }
}

} // verus!
