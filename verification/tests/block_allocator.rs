use persistent_memory::block_allocator::block_allocator::BlockAllocator;
use persistent_memory::block_allocator::block_allocator::OFFSET_TO_START_OF_VARIABLE_LENGTH_MEMORY;
use persistent_memory::block_allocator::block_allocator_error::BlockAllocatorError;
use persistent_memory::block_allocator::block_pointer::BlockPointer;
use persistent_memory::block_allocator::block_pointer::INCLUSIVE_MAXIMUM_NUMBER_OF_BLOCKS;
use persistent_memory::block_allocator::block_size::BlockSize;
use persistent_memory::block_allocator::chain_length::ChainLengthAndBagStripeIndex;
use persistent_memory::persistent_memory_operations::persistence_domain::WriteBackInstruction;

fn blocks_of_chains(allocator: &BlockAllocator) -> Vec<(usize, usize, bool)> {
    let mut chains = Vec::new();
    let mut index = 0;
    while index < allocator.number_of_blocks {
        let word = allocator.block_meta_data_items.items[index].word_now();
        let length = word.chain_length();
        assert!(length >= 1, "the block at {} heads no chain", index);
        for inner in index + 1..index + length {
            let inner_word = allocator.block_meta_data_items.items[inner].word_now();
            assert_eq!(inner_word.chain_length(), 0);
            assert_eq!(inner_word.bag_stripe_index(), None);
        }
        chains.push((index, length, word.bag_stripe_index().is_some()));
        index += length;
    }
    assert_eq!(index, allocator.number_of_blocks);
    chains
}

#[test]
fn single_threaded_exhaustion() {
    let mut allocator = BlockAllocator::new(0, 16, BlockSize::_64).unwrap();
    assert_eq!(allocator.number_of_free_chains(16), 1);
    assert_eq!(allocator.maximum_free_chain_length(), 16);

    let (first, first_length) = allocator.allocate_chain(7);
    assert_eq!(first, BlockPointer(0));
    assert_eq!(first_length, 1);
    assert_eq!(allocator.number_of_free_chains(15), 1);
    assert_eq!(allocator.number_of_free_chains(16), 0);

    let (second, second_length) = allocator.allocate_chain(65);
    assert_eq!(second, BlockPointer(1));
    assert_eq!(second_length, 2);
    assert_eq!(allocator.number_of_free_chains(13), 1);
    assert_eq!(allocator.number_of_free_chains(15), 0);

    let (third, third_length) = allocator.allocate_chain(13 * 64);
    assert_eq!(third, BlockPointer(3));
    assert_eq!(third_length, 13);

    let (fourth, fourth_length) = allocator.allocate_chain(1);
    assert!(fourth.is_null());
    assert_eq!(fourth_length, 0);
    assert_eq!(allocator.blocks_in_use(), 16);
    assert_eq!(allocator.number_of_free_blocks(), 0);
    assert_eq!(allocator.maximum_free_chain_length(), 0);
    assert_eq!(blocks_of_chains(&allocator), vec![(0, 1, false), (1, 2, false), (3, 13, false)]);
}

#[test]
fn snap_off_correctness() {
    let mut allocator = BlockAllocator::new(0, 4, BlockSize::_256).unwrap();
    let (a, _) = allocator.allocate_chain(1);
    let (b, _) = allocator.allocate_chain(1);
    let (c, _) = allocator.allocate_chain(1);
    let (d, _) = allocator.allocate_chain(1);
    assert_eq!((a, b, c, d), (BlockPointer(0), BlockPointer(1), BlockPointer(2), BlockPointer(3)));
    assert_eq!(allocator.blocks_in_use(), 4);

    // Chains are merged onto the end of the chain that is given back, never onto the chain before it.
    allocator.release_chain(b);
    assert_eq!(blocks_of_chains(&allocator), vec![(0, 1, false), (1, 1, true), (2, 1, false), (3, 1, false)]);
    allocator.release_chain(d);
    assert_eq!(blocks_of_chains(&allocator), vec![(0, 1, false), (1, 1, true), (2, 1, false), (3, 1, true)]);
    allocator.release_chain(a);
    assert_eq!(blocks_of_chains(&allocator), vec![(0, 2, true), (2, 1, false), (3, 1, true)]);
    allocator.release_chain(c);
    assert_eq!(blocks_of_chains(&allocator), vec![(0, 2, true), (2, 2, true)]);

    assert_eq!(allocator.number_of_free_chains(2), 2);
    assert_eq!(allocator.number_of_free_chains(4), 0);
    assert_eq!(allocator.blocks_in_use(), 0);
    assert_eq!(allocator.number_of_free_blocks(), 4);
    assert!(allocator.persistence_domain.is_quiescent());
}

#[test]
fn chains_given_back_from_last_to_first_merge_into_one() {
    let mut allocator = BlockAllocator::new(0, 4, BlockSize::_256).unwrap();
    let (a, _) = allocator.allocate_chain(1);
    let (b, _) = allocator.allocate_chain(1);
    let (c, _) = allocator.allocate_chain(1);
    let (d, _) = allocator.allocate_chain(1);
    allocator.release_chain(d);
    allocator.release_chain(c);
    allocator.release_chain(b);
    allocator.release_chain(a);
    assert_eq!(blocks_of_chains(&allocator), vec![(0, 4, true)]);
    assert_eq!(allocator.number_of_free_chains(4), 1);
    assert_eq!(allocator.maximum_free_chain_length(), 4);
}

#[test]
fn coalesce_limit() {
    let mut allocator = BlockAllocator::with_maximum_chain_length(0, 8, BlockSize::_64, 4).unwrap();
    assert_eq!(allocator.number_of_free_chains(4), 2);
    for _ in 0..8 {
        let (block, length) = allocator.allocate_chain(1);
        assert!(block.is_not_null());
        assert_eq!(length, 1);
    }
    assert_eq!(allocator.blocks_in_use(), 8);

    // A chain of three blocks at the first block, allocated.
    allocator.release_chain(BlockPointer(2));
    allocator.release_chain(BlockPointer(1));
    allocator.release_chain(BlockPointer(0));
    assert_eq!(allocator.allocate_chain(3 * 64), (BlockPointer(0), 3));
    // A chain of three blocks after it, free.
    allocator.release_chain(BlockPointer(5));
    allocator.release_chain(BlockPointer(4));
    allocator.release_chain(BlockPointer(3));
    assert_eq!(
        blocks_of_chains(&allocator),
        vec![(0, 3, false), (3, 3, true), (6, 1, false), (7, 1, false)]
    );

    // Merged, the two would have six blocks, more than a chain can have: both stay as they are.
    allocator.release_chain(BlockPointer(0));
    assert_eq!(
        blocks_of_chains(&allocator),
        vec![(0, 3, true), (3, 3, true), (6, 1, false), (7, 1, false)]
    );
    assert_eq!(allocator.number_of_free_chains(3), 2);
    assert_eq!(allocator.number_of_free_chains(4), 0);
    assert_eq!(allocator.number_of_free_chains(2), 0);
    assert_eq!(allocator.maximum_free_chain_length(), 3);
}

#[test]
fn chains_merge_up_to_the_longest_chain() {
    let mut allocator = BlockAllocator::with_maximum_chain_length(0, 8, BlockSize::_64, 4).unwrap();
    for _ in 0..8 {
        allocator.allocate_chain(1);
    }
    allocator.release_chain(BlockPointer(3));
    allocator.release_chain(BlockPointer(2));
    allocator.release_chain(BlockPointer(1));
    assert_eq!(blocks_of_chains(&allocator)[1], (1, 3, true));
    allocator.release_chain(BlockPointer(0));
    assert_eq!(blocks_of_chains(&allocator)[0], (0, 4, true));
    assert_eq!(allocator.number_of_free_chains(4), 1);
}

#[test]
fn crash_recovery_emulation() {
    let mut allocator = BlockAllocator::new(4096, 64, BlockSize::_128).unwrap();
    let (first, _) = allocator.allocate_chain(300);
    let (second, _) = allocator.allocate_chain(1000);
    let (third, _) = allocator.allocate_chain(128);
    allocator.release_chain(second);
    let image = allocator.snapshot();
    let maximum_free_chain_length = allocator.maximum_free_chain_length();
    let blocks_in_use = allocator.blocks_in_use();
    let chains = blocks_of_chains(&allocator);

    allocator.release_chain(first);
    allocator.allocate_chain(5000);
    allocator.release_chain(third);

    let reopened = image.open(0x10_0000);
    assert_eq!(reopened.maximum_free_chain_length(), maximum_free_chain_length);
    assert_eq!(reopened.blocks_in_use(), blocks_in_use);
    assert_eq!(blocks_of_chains(&reopened), chains);
    assert_eq!(reopened.blocks_memory_inclusive_start_pointer, 0x10_0000 + OFFSET_TO_START_OF_VARIABLE_LENGTH_MEMORY);
    assert!(reopened.persistence_domain.is_quiescent());
}

#[test]
fn reopening_keeps_allocated_chains_and_the_longest_free_chain() {
    let mut allocator = BlockAllocator::new(0, 32, BlockSize::_64).unwrap();
    let (first, first_length) = allocator.allocate_chain(64 * 5);
    let (second, second_length) = allocator.allocate_chain(64 * 3);
    let maximum_free_chain_length = allocator.maximum_free_chain_length();
    assert_eq!(maximum_free_chain_length, 24);

    let mut reopened = allocator.open(8192);
    assert_eq!(reopened.maximum_free_chain_length(), maximum_free_chain_length);
    assert!(reopened.is_allocated_chain_head(first));
    assert!(reopened.is_allocated_chain_head(second));
    assert_eq!(reopened.block_meta_data_unchecked(first).word_now().chain_length(), first_length);
    assert_eq!(reopened.block_meta_data_unchecked(second).word_now().chain_length(), second_length);
    assert_eq!(reopened.hyper_thread, 0);

    reopened.release_chain(second);
    reopened.release_chain(first);
    assert_eq!(reopened.maximum_free_chain_length(), 32);
    assert_eq!(reopened.blocks_in_use(), 0);
}

#[test]
fn every_block_is_in_one_chain_that_is_allocated_or_in_one_bag() {
    let mut allocator = BlockAllocator::with_maximum_chain_length(0, 40, BlockSize::_64, 8).unwrap();
    let mut allocated = Vec::new();
    for size in [1usize, 130, 64, 500, 200, 64, 64, 300] {
        let (block, length) = allocator.allocate_chain(size);
        assert!(block.is_not_null());
        allocated.push((block, length));
    }
    for position in [1usize, 4, 6] {
        let (block, _) = allocated[position];
        allocator.release_chain(block);
    }
    let chains = blocks_of_chains(&allocator);
    let in_use: usize = chains.iter().filter(|chain| !chain.2).map(|chain| chain.1).sum();
    let free: usize = chains.iter().filter(|chain| chain.2).map(|chain| chain.1).sum();
    assert_eq!(in_use + free, 40);
    assert_eq!(allocator.blocks_in_use(), in_use);
    assert_eq!(allocator.number_of_free_blocks(), free);

    // Every free chain is met once, walking the stripes of the bags, and no other block is met there.
    let mut met = vec![0usize; 40];
    for chain_length in 1..=8usize {
        for stripe in 0..16usize {
            let mut block = allocator.bags.bags[chain_length - 1].stripes[stripe].get();
            while block.is_not_null() {
                let meta_data = allocator.block_meta_data_unchecked(block);
                assert_eq!(meta_data.word_now(), ChainLengthAndBagStripeIndex::in_a_bag(chain_length, stripe));
                met[block.0 as usize] += 1;
                block = meta_data.next_in_bag.get();
            }
        }
    }
    for (index, length, is_free) in chains {
        assert_eq!(met[index], if is_free { 1 } else { 0 });
        assert!(length <= 8);
        for inner in index + 1..index + length {
            assert_eq!(met[inner], 0);
        }
    }
}

#[test]
fn a_chain_given_back_gets_no_shorter_and_no_longer_than_a_chain_can_be() {
    let mut allocator = BlockAllocator::with_maximum_chain_length(0, 16, BlockSize::_64, 4).unwrap();
    let mut blocks = Vec::new();
    for _ in 0..8 {
        blocks.push(allocator.allocate_chain(128));
    }
    for position in [7usize, 5, 6, 2, 3, 1, 0, 4] {
        let (block, length) = blocks[position];
        allocator.release_chain(block);
        let merged = allocator.block_meta_data_unchecked(block).word_now().chain_length();
        assert!(length <= merged && merged <= 4);
        assert!(allocator.block_meta_data_unchecked(block).word_now().bag_stripe_index().is_some());
    }
    assert_eq!(allocator.blocks_in_use(), 0);
}

#[test]
fn size_of_is_the_header_the_blocks_and_the_meta_data() {
    assert_eq!(OFFSET_TO_START_OF_VARIABLE_LENGTH_MEMORY, 69632);
    assert_eq!(BlockAllocator::size_of(16, BlockSize::_64), 69632 + 4096 + 256);
    assert_eq!(BlockAllocator::size_of(64, BlockSize::_64), 69632 + 4096 + 1024);
    assert_eq!(BlockAllocator::size_of(65, BlockSize::_64), 69632 + 8192 + 1040);
    assert_eq!(BlockAllocator::size_of(3, BlockSize::_4096), 69632 + 3 * 4096 + 48);
}

#[test]
fn maximum_number_of_blocks_is_reckoned_in_blocks_of_4096_bytes() {
    assert_eq!(BlockAllocator::maximum_number_of_blocks(0, BlockSize::_64), 0);
    assert_eq!(BlockAllocator::maximum_number_of_blocks(69632, BlockSize::_64), 0);
    assert_eq!(BlockAllocator::maximum_number_of_blocks(69632 + 4111, BlockSize::_4096), 0);
    assert_eq!(BlockAllocator::maximum_number_of_blocks(69632 + 3 * 4112, BlockSize::_4096), 3);
    assert_eq!(BlockAllocator::maximum_number_of_blocks(69632 + 3 * 4112, BlockSize::_512), 24);
    assert_eq!(BlockAllocator::maximum_number_of_blocks(69632 + 3 * 4112, BlockSize::_64), 192);
    assert_eq!(
        BlockAllocator::maximum_number_of_blocks(usize::MAX, BlockSize::_64),
        INCLUSIVE_MAXIMUM_NUMBER_OF_BLOCKS
    );
}

#[test]
fn new_refuses_no_blocks_and_too_many_blocks() {
    assert_eq!(BlockAllocator::new(0, 0, BlockSize::_64).err(), Some(BlockAllocatorError::InitializationRefusal));
    assert_eq!(
        BlockAllocator::new(0, INCLUSIVE_MAXIMUM_NUMBER_OF_BLOCKS + 1, BlockSize::_64).err(),
        Some(BlockAllocatorError::InitializationRefusal)
    );
}

#[test]
fn new_rounds_the_address_up_and_seeds_chains_of_the_longest_length() {
    let allocator = BlockAllocator::new(1, 2500, BlockSize::_64).unwrap();
    assert_eq!(allocator.blocks_memory_inclusive_start_pointer, 4096 + 69632);
    assert_eq!(allocator.blocks_memory_exclusive_end_pointer, 4096 + 69632 + 2500 * 64);
    assert_eq!(allocator.block_meta_data_items.inclusive_start_pointer, 4096 + 69632 + 163840);
    assert_eq!(blocks_of_chains(&allocator), vec![(0, 1024, true), (1024, 1024, true), (2048, 452, true)]);
    assert_eq!(allocator.number_of_free_chains(1024), 2);
    assert_eq!(allocator.number_of_free_chains(452), 1);
    assert_eq!(allocator.blocks_memory.len(), 2500 * 64);
    assert!(allocator.blocks_memory.iter().all(|byte| *byte == 0));
    assert!(allocator.persistence_domain.is_quiescent());
    assert_eq!(allocator.persistence_domain.write_back_instruction(), WriteBackInstruction::CacheLineFlush);
}

#[test]
fn allocate_chain_returns_null_for_no_bytes_and_for_too_many_bytes() {
    let mut allocator = BlockAllocator::new(0, 2048, BlockSize::_64).unwrap();
    assert_eq!(allocator.allocate_chain(0), (BlockPointer::null_pointer(), 0));
    assert_eq!(allocator.allocate_chain(1024 * 64 + 1), (BlockPointer::null_pointer(), 0));
    let (block, length) = allocator.allocate_chain(1024 * 64);
    assert!(block.is_not_null());
    assert_eq!(length, 1024);
    assert_eq!(allocator.blocks_in_use(), 1024);
}

#[test]
fn allocate_chain_takes_the_shortest_chain_that_is_long_enough() {
    let mut allocator = BlockAllocator::new(0, 16, BlockSize::_64).unwrap();
    let (a, _) = allocator.allocate_chain(64 * 2);
    let (b, _) = allocator.allocate_chain(64 * 1);
    let (c, _) = allocator.allocate_chain(64 * 5);
    let (d, _) = allocator.allocate_chain(64 * 1);
    assert_eq!((a, b, c, d), (BlockPointer(0), BlockPointer(2), BlockPointer(3), BlockPointer(8)));
    allocator.release_chain(a);
    allocator.release_chain(c);
    // Free chains: two blocks at 0, five blocks at 3, seven blocks at 9.
    assert_eq!(allocator.allocate_chain(64 * 3), (BlockPointer(3), 3));
    // Two chains of two blocks are free now, at 0 and at 6, in stripes that are chosen at random.
    let (first, first_length) = allocator.allocate_chain(64 * 2);
    let (second, second_length) = allocator.allocate_chain(64 * 2);
    assert_eq!((first_length, second_length), (2, 2));
    assert!((first, second) == (BlockPointer(0), BlockPointer(6)) || (first, second) == (BlockPointer(6), BlockPointer(0)));
    assert_eq!(allocator.allocate_chain(64 * 7), (BlockPointer(9), 7));
    assert_eq!(allocator.allocate_chain(1), (BlockPointer::null_pointer(), 0));
}

#[test]
fn is_allocated_chain_head_tells_allocated_chains_from_the_others() {
    let mut allocator = BlockAllocator::new(0, 8, BlockSize::_64).unwrap();
    let (block, _) = allocator.allocate_chain(128);
    assert!(allocator.is_allocated_chain_head(block));
    assert!(!allocator.is_allocated_chain_head(BlockPointer(1)));
    assert!(!allocator.is_allocated_chain_head(BlockPointer(2)));
    assert!(!allocator.is_allocated_chain_head(BlockPointer(8)));
    assert!(!allocator.is_allocated_chain_head(BlockPointer::null_pointer()));
    allocator.release_chain(block);
    assert!(!allocator.is_allocated_chain_head(block));
}

#[test]
fn the_hyper_thread_chooses_the_stripe_that_is_looked_at_first() {
    let mut allocator = BlockAllocator::with_maximum_chain_length(0, 64, BlockSize::_64, 1).unwrap();
    assert_eq!(allocator.number_of_free_chains(1), 64);
    allocator.bind_to_hyper_thread(21);
    assert_eq!(allocator.hyper_thread, 21);
    let mut first_in_use = None;
    for offset in 0..16usize {
        let stripe = (5 + offset) % 16;
        if first_in_use.is_none() && allocator.bags.bags[0].stripes[stripe].get().is_not_null() {
            first_in_use = Some(stripe);
        }
    }
    let head = allocator.bags.bags[0].stripes[first_in_use.unwrap()].get();
    assert_eq!(allocator.allocate_chain(1), (head, 1));
}

#[test]
fn binding_to_a_processor_changes_the_instruction_only() {
    let mut allocator = BlockAllocator::new(0, 8, BlockSize::_64).unwrap();
    allocator.bind_to_processor(WriteBackInstruction::CacheLineWriteBack);
    assert_eq!(allocator.persistence_domain.write_back_instruction(), WriteBackInstruction::CacheLineWriteBack);
    let (block, _) = allocator.allocate_chain(64);
    assert!(allocator.persistence_domain.is_quiescent());
    allocator.release_chain(block);
    assert!(allocator.persistence_domain.is_quiescent());
    assert_eq!(allocator.maximum_free_chain_length(), 8);
}

#[test]
fn try_allocate_chain_says_why_there_is_no_chain() {
    let mut allocator = BlockAllocator::new(0, 2048, BlockSize::_64).unwrap();
    assert_eq!(allocator.try_allocate_chain(0), Err(BlockAllocatorError::InvalidSize));
    assert_eq!(allocator.try_allocate_chain(1024 * 64 + 1), Err(BlockAllocatorError::InvalidSize));
    let (first, first_length) = allocator.try_allocate_chain(1024 * 64).unwrap();
    assert!(first.is_not_null());
    assert_eq!(first_length, 1024);
    assert!(allocator.try_allocate_chain(1000 * 64).is_ok());
    assert_eq!(allocator.try_allocate_chain(25 * 64), Err(BlockAllocatorError::OutOfMemory));
    assert_eq!(allocator.try_allocate_chain(24 * 64).map(|allocation| allocation.1), Ok(24));
    assert_eq!(allocator.try_allocate_chain(1), Err(BlockAllocatorError::OutOfMemory));
    assert_eq!(allocator.blocks_in_use(), 2048);
}

#[test]
fn the_size_is_checked_against_what_an_address_holds() {
    assert_eq!(BlockAllocator::checked_size_of(16, BlockSize::_64), Some(69632 + 4096 + 256));
    assert_eq!(BlockAllocator::checked_size_of(0, BlockSize::_4096), Some(69632));
    assert_eq!(BlockAllocator::checked_size_of(usize::MAX, BlockSize::_64), None);
    assert_eq!(BlockAllocator::checked_size_of(usize::MAX / 4096, BlockSize::_4096), None);
    assert!(BlockAllocator::can_be_made_at(0, 16, BlockSize::_64));
    assert!(BlockAllocator::can_be_made_at(usize::MAX - 4096 - 73984, 16, BlockSize::_64));
    assert!(!BlockAllocator::can_be_made_at(usize::MAX - 4096 - 73983, 16, BlockSize::_64));
    assert!(!BlockAllocator::can_be_made_at(0, usize::MAX, BlockSize::_64));
}

#[test]
fn many_allocations_and_releases_keep_every_block_accounted_for() {
    let mut allocator = BlockAllocator::new(0, 4096, BlockSize::_256).unwrap();
    let mut held: Vec<(BlockPointer, usize)> = Vec::new();
    let mut state: u64 = 0x2545_f491_4f6c_dd1d;
    for round in 0..20_000usize {
        state ^= state << 13;
        state ^= state >> 7;
        state ^= state << 17;
        allocator.bind_to_hyper_thread((state % 8) as usize);
        if held.len() < 64 && state % 3 != 0 {
            let size = 1 + (state >> 8) as usize % (256 * 40);
            let (block, length) = allocator.allocate_chain(size);
            if block.is_not_null() {
                assert_eq!(length, (size + 255) / 256);
                assert!(held.iter().all(|(other, other_length)| {
                    block.0 as usize + length <= other.0 as usize || other.0 as usize + other_length <= block.0 as usize
                }));
                held.push((block, length));
            }
        } else if !held.is_empty() {
            let (block, length) = held.swap_remove((state >> 16) as usize % held.len());
            assert!(allocator.is_allocated_chain_head(block));
            allocator.release_chain(block);
            let merged = allocator.block_meta_data_unchecked(block).word_now().chain_length();
            assert!(length <= merged && merged <= 1024);
        }
        if round % 1000 == 0 {
            let in_use: usize = held.iter().map(|(_, length)| *length).sum();
            assert_eq!(allocator.blocks_in_use(), in_use);
            assert_eq!(allocator.number_of_free_blocks(), 4096 - in_use);
            assert_eq!(blocks_of_chains(&allocator).iter().map(|chain| chain.1).sum::<usize>(), 4096);
            assert!(allocator.persistence_domain.is_quiescent());
        }
    }
    for (block, _) in held {
        allocator.release_chain(block);
    }
    assert_eq!(allocator.blocks_in_use(), 0);
    assert_eq!(allocator.number_of_free_blocks(), 4096);
}
