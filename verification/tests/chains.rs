use persistent_memory::block_allocator::block_allocator::BlockAllocator;
use persistent_memory::block_allocator::block_allocator_error::BlockAllocatorError;
use persistent_memory::block_allocator::block_pointer::BlockPointer;
use persistent_memory::block_allocator::block_size::BlockSize;

#[test]
fn bytes_copied_into_chains_are_the_bytes_copied_from_them() {
    let mut allocator = BlockAllocator::with_maximum_chain_length(0, 8, BlockSize::_64, 4).unwrap();
    let chains = allocator.allocate_chains(6 * 64).unwrap();
    let bytes: Vec<u8> = (0..6 * 64usize).map(|index| (index % 251) as u8).collect();

    let mut writer = chains.copy_bytes_into_chains_start(&allocator);
    assert_eq!(writer.copy_bytes_into(&chains, &mut allocator, &bytes), 6 * 64);
    writer.close(&mut allocator);
    assert!(allocator.persistence_domain.is_quiescent());

    let mut reader = chains.copy_bytes_from_chains_start(&allocator);
    assert_eq!(reader.copy_bytes_from(&chains, &allocator, 6 * 64), bytes);
    assert!(reader.cursor.is_at_end());
    chains.recycle_chains_into_block_allocator(&mut allocator);
    assert_eq!(allocator.blocks_in_use(), 0);
}

#[test]
fn copying_goes_on_where_it_stopped() {
    let mut allocator = BlockAllocator::with_maximum_chain_length(0, 8, BlockSize::_64, 2).unwrap();
    let chains = allocator.allocate_chains(5 * 64).unwrap();
    let bytes: Vec<u8> = (0..400usize).map(|index| (index % 199) as u8 + 1).collect();

    let mut writer = chains.copy_bytes_into_chains_start(&allocator);
    assert_eq!(writer.copy_bytes_into(&chains, &mut allocator, &bytes[..100]), 100);
    assert!(!allocator.persistence_domain.is_quiescent());
    assert!(allocator.persistence_domain.is_written_back());
    assert_eq!(writer.copy_bytes_into(&chains, &mut allocator, &bytes[100..130]), 30);
    // The chains hold 320 bytes: of the 270 bytes that are left, 190 are copied.
    assert_eq!(writer.copy_bytes_into(&chains, &mut allocator, &bytes[130..]), 190);
    assert!(writer.cursor.is_at_end());
    assert_eq!(writer.copy_bytes_into(&chains, &mut allocator, &bytes), 0);
    writer.close(&mut allocator);

    let mut reader = chains.copy_bytes_from_chains_start(&allocator);
    assert_eq!(reader.copy_bytes_from(&chains, &allocator, 7), bytes[..7]);
    assert_eq!(reader.copy_bytes_from(&chains, &allocator, 200), bytes[7..207]);
    assert_eq!(reader.copy_bytes_from(&chains, &allocator, 1000), bytes[207..320]);
    assert_eq!(reader.copy_bytes_from(&chains, &allocator, 10), Vec::<u8>::new());
}

#[test]
fn bytes_of_other_chains_stay_as_they_are() {
    let mut allocator = BlockAllocator::with_maximum_chain_length(0, 8, BlockSize::_64, 4).unwrap();
    let first = allocator.allocate_chains(3 * 64).unwrap();
    let second = allocator.allocate_chains(5 * 64).unwrap();
    let ones = vec![1u8; 3 * 64];
    let twos = vec![2u8; 5 * 64];
    let mut writer = first.copy_bytes_into_chains_start(&allocator);
    assert_eq!(writer.copy_bytes_into(&first, &mut allocator, &ones), 3 * 64);
    let mut writer = second.copy_bytes_into_chains_start(&allocator);
    assert_eq!(writer.copy_bytes_into(&second, &mut allocator, &twos), 5 * 64);
    writer.close(&mut allocator);
    let mut reader = first.copy_bytes_from_chains_start(&allocator);
    assert_eq!(reader.copy_bytes_from(&first, &allocator, 3 * 64), ones);
    let mut reader = second.copy_bytes_from_chains_start(&allocator);
    assert_eq!(reader.copy_bytes_from(&second, &allocator, 5 * 64), twos);
    assert_eq!(allocator.blocks_memory.iter().filter(|byte| **byte == 1).count(), 3 * 64);
    assert_eq!(allocator.blocks_memory.iter().filter(|byte| **byte == 2).count(), 5 * 64);
}

#[test]
fn allocate_chains_links_each_chain_to_the_next() {
    let mut allocator = BlockAllocator::with_maximum_chain_length(0, 10, BlockSize::_64, 4).unwrap();
    let chains = allocator.allocate_chains(9 * 64 + 1).unwrap();
    assert_eq!(allocator.blocks_in_use(), 10);
    let mut lengths = Vec::new();
    let mut head = chains.head_of_chains_linked_list;
    while head.is_not_null() {
        assert!(allocator.is_allocated_chain_head(head));
        let meta_data = allocator.block_meta_data_unchecked(head);
        lengths.push(meta_data.word_now().chain_length());
        head = meta_data.next_chain.get();
    }
    assert_eq!(lengths, vec![4, 4, 2]);
    chains.recycle_chains_into_block_allocator(&mut allocator);
    assert_eq!(allocator.blocks_in_use(), 0);
    assert_eq!(allocator.number_of_free_blocks(), 10);
    assert!(allocator.persistence_domain.is_quiescent());
}

#[test]
fn allocate_chains_takes_shorter_chains_where_no_longer_chain_is_left() {
    let mut allocator = BlockAllocator::with_maximum_chain_length(0, 8, BlockSize::_64, 8).unwrap();
    let mut blocks = Vec::new();
    for _ in 0..8 {
        blocks.push(allocator.allocate_chain(1).0);
    }
    allocator.release_chain(BlockPointer(0));
    allocator.release_chain(BlockPointer(1 + 2));
    allocator.release_chain(BlockPointer(2));
    allocator.release_chain(BlockPointer(6));
    // Free chains: one block at 0, two blocks at 2, one block at 6.
    let chains = allocator.allocate_chains(4 * 64).unwrap();
    let mut heads = Vec::new();
    let mut head = chains.head_of_chains_linked_list;
    while head.is_not_null() {
        heads.push(head);
        head = allocator.block_meta_data_unchecked(head).next_chain.get();
    }
    assert_eq!(heads.len(), 3);
    assert_eq!(heads[0], BlockPointer(2));
    assert_eq!(allocator.blocks_in_use(), 8);
    assert_eq!(blocks.len(), 8);
}

#[test]
fn allocate_chains_fails_where_too_few_blocks_are_free_and_gives_back_what_it_took() {
    let mut allocator = BlockAllocator::with_maximum_chain_length(0, 8, BlockSize::_64, 4).unwrap();
    let (kept, _) = allocator.allocate_chain(3 * 64);
    assert_eq!(allocator.number_of_free_blocks(), 5);
    assert_eq!(allocator.allocate_chains(6 * 64).err(), Some(BlockAllocatorError::OutOfMemory));
    assert_eq!(allocator.number_of_free_blocks(), 5);
    assert_eq!(allocator.blocks_in_use(), 3);
    assert!(allocator.is_allocated_chain_head(kept));
    assert!(allocator.persistence_domain.is_quiescent());
    let chains = allocator.allocate_chains(5 * 64).unwrap();
    assert_eq!(allocator.number_of_free_blocks(), 0);
    assert_eq!(allocator.allocate_chains(1).err(), Some(BlockAllocatorError::OutOfMemory));
    chains.recycle_chains_into_block_allocator(&mut allocator);
    assert_eq!(allocator.number_of_free_blocks(), 5);
}

#[test]
fn allocate_chains_of_no_bytes_has_no_chain() {
    let mut allocator = BlockAllocator::new(0, 8, BlockSize::_64).unwrap();
    let chains = allocator.allocate_chains(0).unwrap();
    assert!(chains.head_of_chains_linked_list.is_null());
    assert_eq!(allocator.blocks_in_use(), 0);
    let mut writer = chains.copy_bytes_into_chains_start(&allocator);
    assert_eq!(writer.copy_bytes_into(&chains, &mut allocator, &[1, 2, 3]), 0);
    chains.recycle_chains_into_block_allocator(&mut allocator);
    assert_eq!(allocator.blocks_in_use(), 0);
}

#[test]
fn chains_outlast_reopening_with_their_bytes() {
    let mut allocator = BlockAllocator::with_maximum_chain_length(0, 8, BlockSize::_128, 2).unwrap();
    let chains = allocator.allocate_chains(3 * 128).unwrap();
    let bytes: Vec<u8> = (0..3 * 128usize).map(|index| (index % 7) as u8).collect();
    let mut writer = chains.copy_bytes_into_chains_start(&allocator);
    writer.copy_bytes_into(&chains, &mut allocator, &bytes);
    writer.close(&mut allocator);
    let mut reopened = allocator.open(0x4000_0000);
    let mut reader = chains.copy_bytes_from_chains_start(&reopened);
    assert_eq!(reader.copy_bytes_from(&chains, &reopened, 3 * 128), bytes);
    chains.recycle_chains_into_block_allocator(&mut reopened);
    assert_eq!(reopened.blocks_in_use(), 0);
}
