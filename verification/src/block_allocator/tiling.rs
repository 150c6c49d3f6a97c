use crate::block_allocator::block_meta_data::BlockMetaDataItems;
use crate::block_allocator::chain_length::ChainLengthAndBagStripeIndex;
use vstd::prelude::*;

verus! {

impl BlockMetaDataItems {
    /// The packed word of each block.
    pub open spec fn words(&self) -> Seq<ChainLengthAndBagStripeIndex> {
        Seq::new(self.items@.len(), |index: int| self.items@[index].word())
    }
}

/// Does the block at `index` head a chain?
pub open spec fn is_head(words: Seq<ChainLengthAndBagStripeIndex>, index: int) -> bool {
    words[index].length() > 0
}

/// Does the block at `index` head a chain that is in a bag?
pub open spec fn is_free_head(words: Seq<ChainLengthAndBagStripeIndex>, index: int) -> bool {
    words[index].length() > 0 && words[index].stripe() is Some
}

/// Does the block at `index` head a chain that is not in a bag, that is, a chain that a caller owns?
pub open spec fn is_allocated_head(words: Seq<ChainLengthAndBagStripeIndex>, index: int) -> bool {
    words[index].length() > 0 && words[index].stripe() is None
}

/// Does the chain headed by the block at `index` end where the next chain starts, or where the
/// first `limit` blocks end?
pub open spec fn chain_ends_at_head(words: Seq<ChainLengthAndBagStripeIndex>, limit: int, index: int) -> bool {
    index + words[index].length() == limit || (index + words[index].length() < limit && words[index
        + words[index].length()].length() > 0)
}

/// Are the first `limit` blocks divided into chains, one after the other, none longer than
/// `maximum_chain_length`, with only the head of each chain carrying a chain length, and is no other
/// block the head of a chain or in a bag?
pub open spec fn is_tiled(words: Seq<ChainLengthAndBagStripeIndex>, limit: int, maximum_chain_length: int) -> bool {
    &&& 0 <= limit <= words.len()
    &&& limit > 0 ==> words[0].length() > 0
    &&& forall|index: int|
        0 <= index < limit ==> (#[trigger] words[index]).length() <= maximum_chain_length && index
            + words[index].length() <= limit
    &&& forall|head: int, index: int|
        0 <= head < index < limit && index < head + (#[trigger] words[head]).length() ==> (
        #[trigger] words[index]).length() == 0
    &&& forall|index: int|
        0 <= index < limit && words[index].length() > 0 ==> #[trigger] chain_ends_at_head(words, limit, index)
    &&& forall|index: int|
        0 <= index < words.len() && (#[trigger] words[index]).length() == 0 ==> words[index].stripe() is None
    &&& forall|index: int| limit <= index < words.len() ==> (#[trigger] words[index]).length() == 0
}

/// The head of the chain that holds the block at `index`: the nearest block at or before it that heads a chain.
pub open spec fn head_of(words: Seq<ChainLengthAndBagStripeIndex>, index: int) -> int
    decreases index,
{
    if index <= 0 || words[index].length() > 0 {
        index
    } else {
        head_of(words, index - 1)
    }
}

/// No block between the head of the chain that holds a block and the block itself heads a chain.
pub proof fn lemma_head_of_is_nearest(words: Seq<ChainLengthAndBagStripeIndex>, index: int)
    requires
        0 <= index < words.len(),
    ensures
        0 <= head_of(words, index) <= index,
        forall|between: int| head_of(words, index) < between <= index ==> (#[trigger] words[between]).length() == 0,
    decreases index,
{
    if index > 0 && words[index].length() == 0 {
        lemma_head_of_is_nearest(words, index - 1);
    }
}

/// In a tiling, every block lies in the chain of its head, and in no other chain.
pub proof fn lemma_block_lies_in_one_chain(
    words: Seq<ChainLengthAndBagStripeIndex>,
    limit: int,
    maximum_chain_length: int,
    index: int,
)
    requires
        is_tiled(words, limit, maximum_chain_length),
        0 <= index < limit,
    ensures
        0 <= head_of(words, index) <= index < head_of(words, index) + words[head_of(words, index)].length(),
        words[head_of(words, index)].length() > 0,
        forall|head: int|
            0 <= head <= index && index < head + (#[trigger] words[head]).length() ==> head == head_of(words, index),
{
    lemma_head_of_is_nearest(words, index);
    let nearest = head_of(words, index);
    lemma_head_is_head(words, limit, maximum_chain_length, index);
    assert(chain_ends_at_head(words, limit, nearest));
    if index >= nearest + words[nearest].length() {
        assert(words[nearest + words[nearest].length()].length() > 0);
        assert(false);
    }
    assert forall|head: int| 0 <= head <= index && index < head + (#[trigger] words[head]).length() implies head
        == nearest by {
        if head < nearest {
            assert(words[nearest].length() == 0);
        } else if head > nearest {
            assert(words[head].length() == 0);
        }
    }
}

/// In a tiling, the head of the chain that holds a block heads a chain.
pub proof fn lemma_head_is_head(
    words: Seq<ChainLengthAndBagStripeIndex>,
    limit: int,
    maximum_chain_length: int,
    index: int,
)
    requires
        is_tiled(words, limit, maximum_chain_length),
        0 <= index < limit,
    ensures
        words[head_of(words, index)].length() > 0,
    decreases index,
{
    if index > 0 && words[index].length() == 0 {
        lemma_head_is_head(words, limit, maximum_chain_length, index - 1);
    }
}

/// A tiling of the first `limit` blocks with a chain of `chain_length` blocks added after it is a
/// tiling of the first `limit + chain_length` blocks.
pub proof fn lemma_chain_appended_keeps_tiling(
    before: Seq<ChainLengthAndBagStripeIndex>,
    after: Seq<ChainLengthAndBagStripeIndex>,
    limit: int,
    maximum_chain_length: int,
    chain_length: int,
)
    requires
        is_tiled(before, limit, maximum_chain_length),
        1 <= chain_length <= maximum_chain_length,
        limit + chain_length <= before.len(),
        after.len() == before.len(),
        after[limit].length() == chain_length,
        forall|index: int| 0 <= index < before.len() && index != limit ==> #[trigger] after[index] == before[index],
    ensures
        is_tiled(after, limit + chain_length, maximum_chain_length),
{
    assert forall|index: int| 0 <= index < limit + chain_length && after[index].length() > 0 implies #[trigger] chain_ends_at_head(
        after,
        limit + chain_length,
        index,
    ) by {
        if index < limit {
            assert(chain_ends_at_head(before, limit, index));
            assert(after[index] == before[index]);
        } else if index > limit {
            assert(before[index].length() == 0);
        }
    }
    assert forall|head: int, index: int|
        0 <= head < index < limit + chain_length && index < head + (#[trigger] after[head]).length() implies (
    #[trigger] after[index]).length() == 0 by {
        if head < limit {
            assert(after[head] == before[head]);
            assert(head + before[head].length() <= limit);
        }
        assert(before[index].length() == 0);
    }
    assert forall|index: int| 0 <= index < limit + chain_length implies (#[trigger] after[index]).length()
        <= maximum_chain_length && index + after[index].length() <= limit + chain_length by {
        if index < limit {
            assert(after[index] == before[index]);
        } else if index > limit {
            assert(before[index].length() == 0);
        }
    }
}

/// A tiling stays a tiling where a chain is split in two.
pub proof fn lemma_split_keeps_tiling(
    before: Seq<ChainLengthAndBagStripeIndex>,
    after: Seq<ChainLengthAndBagStripeIndex>,
    limit: int,
    maximum_chain_length: int,
    head: int,
    front: int,
)
    requires
        is_tiled(before, limit, maximum_chain_length),
        0 <= head < limit,
        1 <= front < before[head].length(),
        after.len() == before.len(),
        after[head].length() == front,
        after[head + front].length() == before[head].length() - front,
        forall|index: int|
            0 <= index < before.len() && index != head && index != head + front ==> #[trigger] after[index]
                == before[index],
    ensures
        is_tiled(after, limit, maximum_chain_length),
{
    let whole = before[head].length() as int;
    assert(head + whole <= limit);
    assert(chain_ends_at_head(before, limit, head));
    assert(before[head + front].length() == 0);
    assert forall|index: int| 0 <= index < limit && after[index].length() > 0 implies #[trigger] chain_ends_at_head(
        after,
        limit,
        index,
    ) by {
        if index != head && index != head + front {
            assert(after[index] == before[index]);
            assert(chain_ends_at_head(before, limit, index));
            let next = index + before[index].length();
            if next < limit {
                if next == head + front {
                    if index < head {
                        assert(before[head].length() == 0);
                    } else {
                        assert(before[index].length() == 0);
                    }
                }
            }
        }
    }
    assert forall|first: int, index: int|
        0 <= first < index < limit && index < first + (#[trigger] after[first]).length() implies (
    #[trigger] after[index]).length() == 0 by {
        if first == head || first == head + front {
            assert(before[index].length() == 0);
        } else {
            assert(after[first] == before[first]);
            assert(before[index].length() == 0);
            if index == head + front {
                if first < head {
                    assert(before[head].length() == 0);
                } else {
                    assert(before[first].length() == 0);
                }
            }
            if index == head {
                assert(false);
            }
        }
    }
    assert forall|index: int| 0 <= index < limit implies (#[trigger] after[index]).length() <= maximum_chain_length
        && index + after[index].length() <= limit by {
        if index != head && index != head + front {
            assert(after[index] == before[index]);
        }
    }
    assert forall|index: int| 0 <= index < after.len() && (#[trigger] after[index]).length() == 0 implies after[index].stripe()
        is None by {
        assert(after[index] == before[index]);
    }
    assert forall|index: int| limit <= index < after.len() implies (#[trigger] after[index]).length() == 0 by {
        assert(after[index] == before[index]);
    }
    if head != 0 {
        assert(after[0] == before[0]);
    }
}

/// A tiling stays a tiling where a chain is merged onto the end of the chain before it.
pub proof fn lemma_merge_keeps_tiling(
    before: Seq<ChainLengthAndBagStripeIndex>,
    after: Seq<ChainLengthAndBagStripeIndex>,
    limit: int,
    maximum_chain_length: int,
    head: int,
)
    requires
        is_tiled(before, limit, maximum_chain_length),
        0 <= head < limit,
        before[head].length() > 0,
        head + before[head].length() < limit,
        before[head].length() + before[head + before[head].length()].length() <= maximum_chain_length,
        after.len() == before.len(),
        after[head].length() == before[head].length() + before[head + before[head].length()].length(),
        after[head + before[head].length()].length() == 0,
        after[head + before[head].length()].stripe() is None,
        forall|index: int|
            0 <= index < before.len() && index != head && index != head + before[head].length()
                ==> #[trigger] after[index] == before[index],
    ensures
        is_tiled(after, limit, maximum_chain_length),
{
    let front = before[head].length() as int;
    let merged = head + front;
    assert(chain_ends_at_head(before, limit, head));
    assert(chain_ends_at_head(before, limit, merged));
    assert forall|index: int| 0 <= index < limit && after[index].length() > 0 implies #[trigger] chain_ends_at_head(
        after,
        limit,
        index,
    ) by {
        if index != head {
            assert(after[index] == before[index]);
            assert(chain_ends_at_head(before, limit, index));
            let next = index + before[index].length();
            if next == merged {
                if index < head {
                    assert(before[head].length() == 0);
                } else {
                    assert(before[index].length() == 0);
                }
            }
            if next == head {
            }
        } else {
            let next = merged + before[merged].length();
            if next < limit {
                assert(next != head && next != merged);
                assert(after[next] == before[next]);
            }
        }
    }
    assert forall|first: int, index: int|
        0 <= first < index < limit && index < first + (#[trigger] after[first]).length() implies (
    #[trigger] after[index]).length() == 0 by {
        if first == head {
            if index < merged {
                assert(before[index].length() == 0);
            } else if index > merged {
                assert(before[index].length() == 0);
            }
        } else {
            assert(first != merged);
            assert(after[first] == before[first]);
            assert(before[index].length() == 0);
        }
    }
    assert forall|index: int| 0 <= index < limit implies (#[trigger] after[index]).length() <= maximum_chain_length
        && index + after[index].length() <= limit by {
        if index != head && index != merged {
            assert(after[index] == before[index]);
        }
    }
    assert forall|index: int| 0 <= index < after.len() && (#[trigger] after[index]).length() == 0 implies after[index].stripe()
        is None by {
        if index != merged {
            assert(after[index] == before[index]);
        }
    }
    assert forall|index: int| limit <= index < after.len() implies (#[trigger] after[index]).length() == 0 by {
        assert(after[index] == before[index]);
    }
    if head != 0 {
        assert(after[0] == before[0]);
    }
}

/// A tiling stays a tiling where chains enter and leave bags and nothing else changes.
pub proof fn lemma_same_lengths_keep_tiling(
    before: Seq<ChainLengthAndBagStripeIndex>,
    after: Seq<ChainLengthAndBagStripeIndex>,
    limit: int,
    maximum_chain_length: int,
)
    requires
        is_tiled(before, limit, maximum_chain_length),
        after.len() == before.len(),
        forall|index: int| 0 <= index < before.len() ==> (#[trigger] after[index]).length() == before[index].length(),
        forall|index: int|
            0 <= index < before.len() && (#[trigger] after[index]).length() == 0 ==> after[index].stripe() is None,
    ensures
        is_tiled(after, limit, maximum_chain_length),
{
    assert forall|index: int| 0 <= index < limit && after[index].length() > 0 implies #[trigger] chain_ends_at_head(
        after,
        limit,
        index,
    ) by {
        assert(chain_ends_at_head(before, limit, index));
        let next = index + before[index].length();
        if next < limit {
            assert(after[next].length() == before[next].length());
        }
    }
    assert forall|first: int, index: int|
        0 <= first < index < limit && index < first + (#[trigger] after[first]).length() implies (
    #[trigger] after[index]).length() == 0 by {
        assert(before[first].length() == after[first].length());
        assert(before[index].length() == 0);
    }
    assert forall|index: int| 0 <= index < limit implies (#[trigger] after[index]).length() <= maximum_chain_length
        && index + after[index].length() <= limit by {
        assert(before[index].length() == after[index].length());
    }
    assert forall|index: int| limit <= index < after.len() implies (#[trigger] after[index]).length() == 0 by {
        assert(before[index].length() == after[index].length());
    }
    if limit > 0 {
        assert(before[0].length() == after[0].length());
    }
}

/// The number of blocks that the block at `index` accounts for: the length of its chain where it
/// heads a chain that is in a bag, if `free`, or that is not, if not `free`; else none.
pub open spec fn blocks_accounted_for(word: ChainLengthAndBagStripeIndex, free: bool) -> nat {
    if (word.stripe() is Some) == free {
        word.length()
    } else {
        0
    }
}

/// The number of blocks, among the chains headed by the first `limit` blocks, that are in bags,
/// if `free`, or that are allocated, if not `free`.
pub open spec fn blocks_counted(words: Seq<ChainLengthAndBagStripeIndex>, limit: int, free: bool) -> nat
    decreases limit,
{
    if limit <= 0 {
        0
    } else {
        blocks_counted(words, limit - 1, free) + blocks_accounted_for(words[limit - 1], free)
    }
}

/// Where the packed word of one block changes, the count changes by what that block accounts for.
pub proof fn lemma_blocks_counted_update(
    words: Seq<ChainLengthAndBagStripeIndex>,
    limit: int,
    free: bool,
    index: int,
    word: ChainLengthAndBagStripeIndex,
)
    requires
        0 <= index < words.len(),
        0 <= limit <= words.len(),
    ensures
        blocks_counted(words.update(index, word), limit, free) == if index < limit {
            blocks_counted(words, limit, free) - blocks_accounted_for(words[index], free) + blocks_accounted_for(
                word,
                free,
            )
        } else {
            blocks_counted(words, limit, free) as int
        },
        index < limit ==> blocks_counted(words, limit, free) >= blocks_accounted_for(words[index], free),
    decreases limit,
{
    if limit > 0 {
        lemma_blocks_counted_update(words, limit - 1, free, index, word);
    }
}

/// Where blocks are counted, a block heads a chain that is counted.
pub proof fn lemma_blocks_counted_has_head(words: Seq<ChainLengthAndBagStripeIndex>, limit: int, free: bool) -> (index:
    int)
    requires
        0 <= limit <= words.len(),
        blocks_counted(words, limit, free) > 0,
    ensures
        0 <= index < limit,
        blocks_accounted_for(words[index], free) > 0,
    decreases limit,
{
    if blocks_accounted_for(words[limit - 1], free) > 0 {
        limit - 1
    } else {
        lemma_blocks_counted_has_head(words, limit - 1, free)
    }
}

/// The count is at least what any one block accounts for.
pub proof fn lemma_blocks_counted_bounds(words: Seq<ChainLengthAndBagStripeIndex>, limit: int, free: bool, index: int)
    requires
        0 <= index < limit <= words.len(),
    ensures
        blocks_counted(words, limit, free) >= blocks_accounted_for(words[index], free),
    decreases limit,
{
    if index < limit - 1 {
        lemma_blocks_counted_bounds(words, limit - 1, free, index);
    }
}

/// In a tiling, the blocks in bags and the allocated blocks are all the blocks, each counted once.
pub proof fn lemma_every_block_is_counted_once(
    words: Seq<ChainLengthAndBagStripeIndex>,
    limit: int,
    maximum_chain_length: int,
)
    requires
        is_tiled(words, limit, maximum_chain_length),
    ensures
        blocks_counted(words, limit, true) + blocks_counted(words, limit, false) == limit,
{
    lemma_counts_add_up(words, limit);
    if limit > 0 {
        lemma_chains_fill_prefix(words, limit, maximum_chain_length, limit - 1);
        let last = head_of(words, limit - 1);
        lemma_block_lies_in_one_chain(words, limit, maximum_chain_length, limit - 1);
        assert(last + words[last].length() == limit);
        lemma_head_of_is_nearest(words, limit - 1);
        lemma_lengths_after_last_head(words, last, limit);
    }
}

/// The two counts together are the sum of the chain lengths.
proof fn lemma_counts_add_up(words: Seq<ChainLengthAndBagStripeIndex>, limit: int)
    requires
        0 <= limit <= words.len(),
    ensures
        blocks_counted(words, limit, true) + blocks_counted(words, limit, false) == sum_of_lengths(words, limit),
    decreases limit,
{
    if limit > 0 {
        lemma_counts_add_up(words, limit - 1);
    }
}

/// The sum of the chain lengths in the packed words of the first `limit` blocks.
pub open spec fn sum_of_lengths(words: Seq<ChainLengthAndBagStripeIndex>, limit: int) -> int
    decreases limit,
{
    if limit <= 0 {
        0
    } else {
        sum_of_lengths(words, limit - 1) + words[limit - 1].length()
    }
}

/// In a tiling, the chains headed by the blocks up to the head of the chain of the block at `index`
/// fill the blocks up to the end of that chain.
proof fn lemma_chains_fill_prefix(
    words: Seq<ChainLengthAndBagStripeIndex>,
    limit: int,
    maximum_chain_length: int,
    index: int,
)
    requires
        is_tiled(words, limit, maximum_chain_length),
        0 <= index < limit,
    ensures
        sum_of_lengths(words, head_of(words, index) + 1) == head_of(words, index) + words[head_of(
            words,
            index,
        )].length(),
    decreases index,
{
    let head = head_of(words, index);
    lemma_head_of_is_nearest(words, index);
    lemma_block_lies_in_one_chain(words, limit, maximum_chain_length, index);
    if head == 0 {
        assert(sum_of_lengths(words, 0) == 0);
    } else {
        let previous = head_of(words, head - 1);
        lemma_chains_fill_prefix(words, limit, maximum_chain_length, head - 1);
        lemma_block_lies_in_one_chain(words, limit, maximum_chain_length, head - 1);
        lemma_head_of_is_nearest(words, head - 1);
        assert(chain_ends_at_head(words, limit, previous));
        if previous + words[previous].length() > head {
            assert(words[head].length() == 0);
        }
        assert(previous + words[previous].length() == head);
        lemma_lengths_after_last_head(words, previous, head);
    }
}

/// Where no block after `head` and before `limit` heads a chain, the sum of the chain lengths up
/// to `limit` is the sum up to and with `head`.
proof fn lemma_lengths_after_last_head(words: Seq<ChainLengthAndBagStripeIndex>, head: int, limit: int)
    requires
        0 <= head < limit <= words.len(),
        forall|between: int| head < between < limit ==> (#[trigger] words[between]).length() == 0,
    ensures
        sum_of_lengths(words, limit) == sum_of_lengths(words, head + 1),
    decreases limit - head,
{
    if limit > head + 1 {
        lemma_lengths_after_last_head(words, head, limit - 1);
    }
}

} // verus!
