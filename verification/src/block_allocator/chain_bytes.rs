use crate::block_allocator::block_allocator::BlockAllocator;
use crate::block_allocator::chain_length::ChainLengthAndBagStripeIndex;
use crate::block_allocator::chains::blocks_in;
use crate::block_allocator::chains::chain_is_owned;
use crate::block_allocator::chains::Chains;
use vstd::prelude::*;

verus! {

/// The bytes of the chains headed by `heads`, the first chain first, where every block has `block_size` bytes.
pub open spec fn bytes_in(
    heads: Seq<u32>,
    words: Seq<ChainLengthAndBagStripeIndex>,
    memory: Seq<u8>,
    block_size: int,
) -> Seq<u8>
    decreases heads.len(),
{
    if heads.len() == 0 {
        Seq::empty()
    } else {
        bytes_in(heads.drop_last(), words, memory, block_size) + memory.subrange(
            heads.last() * block_size,
            (heads.last() + words[heads.last() as int].length()) * block_size,
        )
    }
}

/// The bytes `bytes` with those from `at` on replaced by `data`.
pub open spec fn with_range_replaced(bytes: Seq<u8>, at: int, data: Seq<u8>) -> Seq<u8> {
    Seq::new(
        bytes.len(),
        |index: int|
            if at <= index < at + data.len() {
                data[index - at]
            } else {
                bytes[index]
            },
    )
}

/// Does the chain headed by the block at `position` in `heads` lie within the blocks of which
/// `memory` holds the bytes?
pub open spec fn chain_lies_in(
    heads: Seq<u32>,
    position: int,
    words: Seq<ChainLengthAndBagStripeIndex>,
    memory: Seq<u8>,
    block_size: int,
) -> bool {
    &&& 0 <= heads[position] < words.len()
    &&& (heads[position] + words[heads[position] as int].length()) * block_size <= memory.len()
    &&& 0 <= heads[position] * block_size <= (heads[position] + words[heads[position] as int].length()) * block_size
}

/// Do the chains headed by the blocks at `first` and at `second` in `heads` share no block?
pub open spec fn chains_are_apart(
    heads: Seq<u32>,
    first: int,
    second: int,
    words: Seq<ChainLengthAndBagStripeIndex>,
) -> bool {
    heads[first] + words[heads[first] as int].length() <= heads[second] || heads[second] + words[heads[second] as int].length()
        <= heads[first]
}

/// Do the chains headed by `heads` lie within the blocks, apart from each other?
pub open spec fn chains_lie_apart(
    heads: Seq<u32>,
    words: Seq<ChainLengthAndBagStripeIndex>,
    memory: Seq<u8>,
    block_size: int,
) -> bool {
    &&& block_size > 0
    &&& forall|position: int| 0 <= position < heads.len() ==> #[trigger] chain_lies_in(heads, position, words, memory, block_size)
    &&& forall|first: int, second: int|
        0 <= first < heads.len() && 0 <= second < heads.len() && first != second ==> #[trigger] chains_are_apart(
            heads,
            first,
            second,
            words,
        )
}

/// The chains headed by all but the last of `heads` lie apart where the chains headed by `heads` do.
pub proof fn lemma_fewer_chains_lie_apart(
    heads: Seq<u32>,
    words: Seq<ChainLengthAndBagStripeIndex>,
    memory: Seq<u8>,
    block_size: int,
    count: int,
)
    requires
        chains_lie_apart(heads, words, memory, block_size),
        0 <= count <= heads.len(),
    ensures
        chains_lie_apart(heads.take(count), words, memory, block_size),
{
    let fewer = heads.take(count);
    assert forall|position: int| 0 <= position < fewer.len() implies #[trigger] chain_lies_in(
        fewer,
        position,
        words,
        memory,
        block_size,
    ) by {
        assert(chain_lies_in(heads, position, words, memory, block_size));
    }
    assert forall|first: int, second: int|
        0 <= first < fewer.len() && 0 <= second < fewer.len() && first != second implies #[trigger] chains_are_apart(
        fewer,
        first,
        second,
        words,
    ) by {
        assert(chains_are_apart(heads, first, second, words));
    }
}

/// There are as many bytes in chains as there are blocks in them, times the size of a block.
pub proof fn lemma_bytes_in_len(
    heads: Seq<u32>,
    words: Seq<ChainLengthAndBagStripeIndex>,
    memory: Seq<u8>,
    block_size: int,
)
    requires
        chains_lie_apart(heads, words, memory, block_size),
    ensures
        bytes_in(heads, words, memory, block_size).len() == blocks_in(heads, words) * block_size,
    decreases heads.len(),
{
    if heads.len() > 0 {
        let count = heads.len() - 1;
        assert(heads.drop_last() =~= heads.take(count));
        lemma_fewer_chains_lie_apart(heads, words, memory, block_size, count);
        lemma_bytes_in_len(heads.drop_last(), words, memory, block_size);
        assert(chain_lies_in(heads, count, words, memory, block_size));
        let last = heads.last() as int;
        let length = words[last].length() as int;
        assert((last + length) * block_size - last * block_size == length * block_size) by (nonlinear_arith);
        assert((blocks_in(heads.drop_last(), words) + length) * block_size == blocks_in(heads.drop_last(), words)
            * block_size + length * block_size) by (nonlinear_arith);
    } else {
        assert(0 * block_size == 0) by (nonlinear_arith);
    }
}

/// Where in the bytes of the chains headed by `heads` the chain headed by the block at `position` starts.
pub open spec fn start_of_chain(heads: Seq<u32>, position: int, words: Seq<ChainLengthAndBagStripeIndex>, block_size: int) -> int {
    blocks_in(heads.take(position), words) * block_size
}

/// The byte at `offset` in the chain headed by the block at `position` in `heads` is the byte at
/// that offset from the start of that chain in the bytes of the blocks.
pub proof fn lemma_byte_in_chain(
    heads: Seq<u32>,
    words: Seq<ChainLengthAndBagStripeIndex>,
    memory: Seq<u8>,
    block_size: int,
    position: int,
    offset: int,
)
    requires
        chains_lie_apart(heads, words, memory, block_size),
        0 <= position < heads.len(),
        0 <= offset < words[heads[position] as int].length() * block_size,
    ensures
        0 <= start_of_chain(heads, position, words, block_size) + offset < bytes_in(heads, words, memory, block_size).len(),
        0 <= heads[position] * block_size + offset < memory.len(),
        bytes_in(heads, words, memory, block_size)[start_of_chain(heads, position, words, block_size) + offset]
            == memory[heads[position] * block_size + offset],
        start_of_chain(heads, position, words, block_size) + words[heads[position] as int].length() * block_size
            <= bytes_in(heads, words, memory, block_size).len(),
    decreases heads.len(),
{
    let count = heads.len() - 1;
    let fewer = heads.drop_last();
    assert(fewer =~= heads.take(count));
    lemma_fewer_chains_lie_apart(heads, words, memory, block_size, count);
    lemma_bytes_in_len(fewer, words, memory, block_size);
    lemma_bytes_in_len(heads, words, memory, block_size);
    assert(chain_lies_in(heads, position, words, memory, block_size));
    assert(chain_lies_in(heads, count, words, memory, block_size));
    let head = heads[position] as int;
    let length = words[head].length() as int;
    assert((head + length) * block_size == head * block_size + length * block_size) by (nonlinear_arith);
    let last = heads.last() as int;
    let last_length = words[last].length() as int;
    assert((last + last_length) * block_size == last * block_size + last_length * block_size) by (nonlinear_arith);
    assert(blocks_in(heads, words) * block_size == blocks_in(fewer, words) * block_size + last_length * block_size)
        by (nonlinear_arith)
        requires
            blocks_in(heads, words) == blocks_in(fewer, words) + last_length,
    ;
    if position == count {
        assert(heads.take(position) =~= fewer);
    } else {
        assert(fewer.take(position) =~= heads.take(position));
        lemma_byte_in_chain(fewer, words, memory, block_size, position, offset);
        assert(fewer[position] == heads[position]);
    }
}

/// The bytes of the blocks of the chain headed by the block at `position` in `heads`.
pub open spec fn bytes_of_chain(
    heads: Seq<u32>,
    position: int,
    words: Seq<ChainLengthAndBagStripeIndex>,
    memory: Seq<u8>,
    block_size: int,
) -> Seq<u8> {
    memory.subrange(
        heads[position] * block_size,
        (heads[position] + words[heads[position] as int].length()) * block_size,
    )
}

/// The bytes of chains stay as they are where the bytes of their blocks stay as they are.
pub proof fn lemma_bytes_in_depend_on_own_blocks(
    heads: Seq<u32>,
    words: Seq<ChainLengthAndBagStripeIndex>,
    before: Seq<u8>,
    after: Seq<u8>,
    block_size: int,
)
    requires
        forall|position: int|
            0 <= position < heads.len() ==> #[trigger] bytes_of_chain(heads, position, words, after, block_size)
                == bytes_of_chain(heads, position, words, before, block_size),
    ensures
        bytes_in(heads, words, after, block_size) == bytes_in(heads, words, before, block_size),
    decreases heads.len(),
{
    if heads.len() > 0 {
        let count = heads.len() - 1;
        let fewer = heads.drop_last();
        assert forall|position: int| 0 <= position < fewer.len() implies #[trigger] bytes_of_chain(
            fewer,
            position,
            words,
            after,
            block_size,
        ) == bytes_of_chain(fewer, position, words, before, block_size) by {
            assert(fewer[position] == heads[position]);
            assert(bytes_of_chain(heads, position, words, after, block_size) == bytes_of_chain(
                heads,
                position,
                words,
                before,
                block_size,
            ));
        }
        lemma_bytes_in_depend_on_own_blocks(fewer, words, before, after, block_size);
        assert(bytes_of_chain(heads, count, words, after, block_size) == bytes_of_chain(
            heads,
            count,
            words,
            before,
            block_size,
        ));
    }
}

/// Where bytes are written into the blocks of a chain, they are written into the bytes of the chains.
pub proof fn lemma_range_written(
    heads: Seq<u32>,
    words: Seq<ChainLengthAndBagStripeIndex>,
    before: Seq<u8>,
    after: Seq<u8>,
    block_size: int,
    position: int,
    offset: int,
    data: Seq<u8>,
)
    requires
        chains_lie_apart(heads, words, before, block_size),
        0 <= position < heads.len(),
        0 <= offset,
        offset + data.len() <= words[heads[position] as int].length() * block_size,
        after == with_range_replaced(before, heads[position] * block_size + offset, data),
    ensures
        bytes_in(heads, words, after, block_size) == with_range_replaced(
            bytes_in(heads, words, before, block_size),
            start_of_chain(heads, position, words, block_size) + offset,
            data,
        ),
    decreases heads.len(),
{
    let count = heads.len() - 1;
    let fewer = heads.drop_last();
    assert(fewer =~= heads.take(count));
    lemma_fewer_chains_lie_apart(heads, words, before, block_size, count);
    lemma_bytes_in_len(fewer, words, before, block_size);
    lemma_bytes_in_len(heads, words, before, block_size);
    assert(chain_lies_in(heads, position, words, before, block_size));
    assert(chain_lies_in(heads, count, words, before, block_size));
    let head = heads[position] as int;
    let length = words[head].length() as int;
    assert((head + length) * block_size == head * block_size + length * block_size) by (nonlinear_arith);
    let last = heads.last() as int;
    let last_length = words[last].length() as int;
    assert((last + last_length) * block_size == last * block_size + last_length * block_size) by (nonlinear_arith);
    let from = last * block_size;
    let to = (last + last_length) * block_size;
    let written = head * block_size + offset;
    let start = start_of_chain(heads, position, words, block_size) + offset;
    let bytes_before = bytes_in(heads, words, before, block_size);
    let bytes_after = bytes_in(heads, words, after, block_size);
    let fewer_before = bytes_in(fewer, words, before, block_size);
    let fewer_after = bytes_in(fewer, words, after, block_size);
    if position == count {
        assert(heads.take(position) =~= fewer);
        assert forall|other: int| 0 <= other < fewer.len() implies #[trigger] bytes_of_chain(
            fewer,
            other,
            words,
            after,
            block_size,
        ) == bytes_of_chain(fewer, other, words, before, block_size) by {
            assert(fewer[other] == heads[other]);
            assert(chain_lies_in(heads, other, words, before, block_size));
            assert(chains_are_apart(heads, other, count, words));
            let other_head = heads[other] as int;
            let other_length = words[other_head].length() as int;
            if other_head + other_length <= head {
                assert((other_head + other_length) * block_size <= head * block_size) by (nonlinear_arith)
                    requires
                        other_head + other_length <= head,
                        block_size > 0,
                ;
            } else {
                assert((head + length) * block_size <= other_head * block_size) by (nonlinear_arith)
                    requires
                        head + length <= other_head,
                        block_size > 0,
                ;
            }
            assert(bytes_of_chain(fewer, other, words, after, block_size) =~= bytes_of_chain(
                fewer,
                other,
                words,
                before,
                block_size,
            ));
        }
        lemma_bytes_in_depend_on_own_blocks(fewer, words, before, after, block_size);
        assert(bytes_after =~= with_range_replaced(bytes_before, start, data));
    } else {
        assert(fewer.take(position) =~= heads.take(position));
        assert(fewer[position] == heads[position]);
        lemma_range_written(fewer, words, before, after, block_size, position, offset, data);
        lemma_byte_in_chain_bound(fewer, words, before, block_size, position);
        assert(chains_are_apart(heads, position, count, words));
        if head + length <= last {
            assert((head + length) * block_size <= last * block_size) by (nonlinear_arith)
                requires
                    head + length <= last,
                    block_size > 0,
            ;
        } else {
            assert((last + last_length) * block_size <= head * block_size) by (nonlinear_arith)
                requires
                    last + last_length <= head,
                    block_size > 0,
            ;
        }
        assert(after.subrange(from, to) =~= before.subrange(from, to));
        assert(bytes_after =~= with_range_replaced(bytes_before, start, data));
    }
}

/// The chain headed by the block at `position` in `heads` ends within the bytes of the chains.
pub proof fn lemma_byte_in_chain_bound(
    heads: Seq<u32>,
    words: Seq<ChainLengthAndBagStripeIndex>,
    memory: Seq<u8>,
    block_size: int,
    position: int,
)
    requires
        chains_lie_apart(heads, words, memory, block_size),
        0 <= position < heads.len(),
    ensures
        0 <= start_of_chain(heads, position, words, block_size),
        start_of_chain(heads, position, words, block_size) + words[heads[position] as int].length() * block_size
            <= bytes_in(heads, words, memory, block_size).len(),
        start_of_chain(heads, position + 1, words, block_size) == start_of_chain(heads, position, words, block_size)
            + words[heads[position] as int].length() * block_size,
    decreases heads.len(),
{
    let count = heads.len() - 1;
    let fewer = heads.drop_last();
    assert(fewer =~= heads.take(count));
    lemma_fewer_chains_lie_apart(heads, words, memory, block_size, count);
    lemma_fewer_chains_lie_apart(heads, words, memory, block_size, position);
    lemma_bytes_in_len(fewer, words, memory, block_size);
    lemma_bytes_in_len(heads, words, memory, block_size);
    lemma_bytes_in_len(heads.take(position), words, memory, block_size);
    let last_length = words[heads.last() as int].length() as int;
    assert(blocks_in(heads, words) * block_size == blocks_in(fewer, words) * block_size + last_length * block_size)
        by (nonlinear_arith)
        requires
            blocks_in(heads, words) == blocks_in(fewer, words) + last_length,
    ;
    let next = heads.take(position + 1);
    assert(next.drop_last() =~= heads.take(position));
    assert(next.last() == heads[position]);
    let length = words[heads[position] as int].length() as int;
    assert(blocks_in(next, words) * block_size == blocks_in(heads.take(position), words) * block_size + length
        * block_size) by (nonlinear_arith)
        requires
            blocks_in(next, words) == blocks_in(heads.take(position), words) + length,
    ;
    if position == count {
        assert(heads.take(position) =~= fewer);
    } else {
        assert(fewer.take(position) =~= heads.take(position));
        assert(fewer[position] == heads[position]);
        lemma_byte_in_chain_bound(fewer, words, memory, block_size, position);
    }
}

impl Chains {
    /// The bytes of the chains, the first chain first.
    pub open spec fn bytes(&self, allocator: &BlockAllocator) -> Seq<u8> {
        bytes_in(self.heads@, allocator.words(), allocator.blocks_memory@, allocator.block_size.bytes() as int)
    }

    /// The number of bytes that the chains hold.
    pub open spec fn capacity(&self, allocator: &BlockAllocator) -> int {
        self.number_of_blocks(allocator) as int * allocator.block_size.bytes() as int
    }

    /// The chains of an allocation lie within the blocks, apart from each other.
    pub proof fn lemma_chains_lie_apart(&self, allocator: &BlockAllocator)
        requires
            allocator.is_consistent(),
            self.wf(allocator),
        ensures
            chains_lie_apart(
                self.heads@,
                allocator.words(),
                allocator.blocks_memory@,
                allocator.block_size.bytes() as int,
            ),
            self.bytes(allocator).len() == self.capacity(allocator),
    {
        let heads = self.heads@;
        let words = allocator.words();
        let block_size = allocator.block_size.bytes() as int;
        let count = allocator.number_of_blocks as int;
        assert forall|position: int| 0 <= position < heads.len() implies #[trigger] chain_lies_in(
            heads,
            position,
            words,
            allocator.blocks_memory@,
            block_size,
        ) by {
            assert(chain_is_owned(heads, position, allocator));
            let head = heads[position] as int;
            let length = words[head].length() as int;
            assert(head + length <= count);
            assert((head + length) * block_size <= block_size * count) by (nonlinear_arith)
                requires
                    head + length <= count,
                    block_size > 0,
            ;
            assert(0 <= head * block_size <= (head + length) * block_size) by (nonlinear_arith)
                requires
                    0 <= head,
                    0 <= length,
                    block_size > 0,
            ;
        }
        assert forall|first: int, second: int|
            0 <= first < heads.len() && 0 <= second < heads.len() && first != second implies #[trigger] chains_are_apart(
            heads,
            first,
            second,
            words,
        ) by {
            assert(chain_is_owned(heads, first, allocator));
            assert(chain_is_owned(heads, second, allocator));
            let one = heads[first] as int;
            let other = heads[second] as int;
            assert(one != other);
            if one < other {
                if other < one + words[one].length() {
                    assert(words[other].length() == 0);
                }
            } else {
                if one < other + words[other].length() {
                    assert(words[one].length() == 0);
                }
            }
        }
        lemma_bytes_in_len(heads, words, allocator.blocks_memory@, block_size);
    }
}

} // verus!
