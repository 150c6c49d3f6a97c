use persistent_memory::alignment::checked_round_up_to_alignment;
use persistent_memory::alignment::Alignment;
use persistent_memory::block_allocator::atomic_block_pointer::AtomicBlockPointer;
use persistent_memory::block_allocator::bag::Bag;
use persistent_memory::block_allocator::block_meta_data::BlockMetaData;
use persistent_memory::block_allocator::block_meta_data::BlockMetaDataItems;
use persistent_memory::block_allocator::block_pointer::BlockPointer;
use persistent_memory::block_allocator::block_size::BlockSize;
use persistent_memory::block_allocator::chain_length::ChainLength;
use persistent_memory::block_allocator::chain_length::ChainLengthAndBagStripeIndex;
use persistent_memory::hyper_thread::hyper_thread_index;
use persistent_memory::hyper_thread::random_stripe_index;
use persistent_memory::hyper_thread::MAXIMUM_SUPPORTED_HYPER_THREADS;
use persistent_memory::persistent_memory_operations::persistence_domain::PersistenceDomain;
use persistent_memory::persistent_memory_operations::persistence_domain::WriteBackInstruction;

#[test]
fn rounding_up_to_an_alignment() {
    assert_eq!(0usize.round_up_to_alignment(4096), 0);
    assert_eq!(1usize.round_up_to_alignment(4096), 4096);
    assert_eq!(4096usize.round_up_to_alignment(4096), 4096);
    assert_eq!(4097usize.round_up_to_alignment(4096), 8192);
    assert_eq!(65568usize.round_up_to_alignment(4096), 69632);
    assert_eq!(7usize.round_up_to_alignment(1), 7);
    assert_eq!(checked_round_up_to_alignment(4097, 4096), Some(8192));
    assert_eq!(checked_round_up_to_alignment(8192, 4096), Some(8192));
    assert_eq!(checked_round_up_to_alignment(usize::MAX, 2), None);
    assert_eq!(checked_round_up_to_alignment(usize::MAX - 1, 2), Some(usize::MAX - 1));
}

#[test]
fn the_null_block_pointer_is_the_sentinel() {
    assert_eq!(BlockPointer::null_pointer(), BlockPointer(0xFFFF_FFFF));
    assert_eq!(BlockPointer::default(), BlockPointer::null_pointer());
    assert!(BlockPointer::null_pointer().is_null());
    assert!(!BlockPointer::null_pointer().is_not_null());
    assert!(BlockPointer::new(0).is_not_null());
    assert!(BlockPointer::new(7).equals(BlockPointer(7)));
    assert!(BlockPointer::new(7).does_not_equal(BlockPointer(8)));
    assert!(!BlockPointer::new(7).does_not_equal(BlockPointer(7)));
}

#[test]
fn block_pointers_expand_to_addresses_and_back() {
    let block = BlockPointer::new(5);
    assert_eq!(block.expand_to_pointer_to_memory_unchecked(4096, BlockSize::_256), 4096 + 5 * 256);
    assert_eq!(BlockPointer::block_address_to_block_pointer(4096, 4096 + 5 * 256, BlockSize::_256), block);
    assert_eq!(BlockPointer::block_address_to_block_pointer(4096, 4096, BlockSize::_64), BlockPointer(0));
    assert_eq!(
        block.subsequent_chain_start_address(4096, ChainLength::from_length(3), BlockSize::_256),
        4096 + 8 * 256
    );
    let items = BlockMetaDataItems::initialize(8192, 8);
    assert_eq!(block.expand_to_pointer_to_meta_data_raw(&items), Some(8192 + 5 * 16));
    assert_eq!(block.expand_to_pointer_to_meta_data_raw_unchecked(&items), 8192 + 80);
    assert_eq!(BlockPointer::null_pointer().expand_to_pointer_to_meta_data_raw(&items), None);
    assert_eq!(block.expand_to_pointer_to_meta_data(&items), Some(&items.items[5]));
    assert_eq!(BlockPointer::null_pointer().expand_to_pointer_to_meta_data(&items), None);
    assert_eq!(block.expand_to_pointer_to_meta_data_unchecked(&items).next_chain.0.address, 8192 + 80 + 8);
    assert_eq!(BlockMetaDataItems::size_of(8), 128);
    assert_eq!(items.get_unchecked_raw(2), 8192 + 32);
}

#[test]
fn block_sizes() {
    assert_eq!(BlockSize::default(), BlockSize::_256);
    for (alignment, block_size) in
        [(64, BlockSize::_64), (128, BlockSize::_128), (256, BlockSize::_256), (512, BlockSize::_512), (4096, BlockSize::_4096)]
    {
        assert_eq!(BlockSize::for_alignment(alignment), block_size);
        assert_eq!(block_size.as_usize(), alignment);
    }
    assert_eq!(BlockSize::_64.number_of_blocks_required(0), 0);
    assert_eq!(BlockSize::_64.number_of_blocks_required(1), 1);
    assert_eq!(BlockSize::_64.number_of_blocks_required(64), 1);
    assert_eq!(BlockSize::_64.number_of_blocks_required(65), 2);
    assert_eq!(BlockSize::_4096.number_of_blocks_required(usize::MAX), usize::MAX / 4096 + 1);
    assert_eq!(BlockSize::_128.total_memory_required_in_bytes(3), 384);
    assert_eq!(BlockSize::_128.relative_memory_address(3), 384);
    assert_eq!(BlockSize::_128.size_of_chain_in_bytes(1024), 131072);
    assert!(BlockSize::_128.offset_into_block_is_zero(256));
    assert!(!BlockSize::_128.offset_into_block_is_zero(257));
    assert_eq!(BlockSize::_128.block_index(257), 2);
}

#[test]
fn chain_lengths() {
    let chain_length = ChainLength::from_length(3);
    assert_eq!(chain_length.as_usize(), 3);
    assert_eq!(chain_length.as_capacity(BlockSize::_512), 1536);
    assert_eq!(chain_length.bag_index(), 2);
    assert!(chain_length.is_less_than_inclusive_maximum(4));
    assert!(!chain_length.is_less_than_inclusive_maximum(3));
    assert_eq!(chain_length.add_if_maximum_length_not_exceeded(ChainLength(1), 4), Some(ChainLength(4)));
    assert_eq!(chain_length.add_if_maximum_length_not_exceeded(ChainLength(2), 4), None);
    assert_eq!(chain_length.add_if_maximum_length_not_exceeded(ChainLength(usize::MAX), 1024), None);
    assert_eq!(ChainLength(1000).add_if_maximum_length_not_exceeded(ChainLength(24), 1024), Some(ChainLength(1024)));
}

#[test]
fn the_packed_word_holds_the_chain_length_below_the_stripe() {
    assert_eq!(ChainLengthAndBagStripeIndex::not_a_head().0, 0xFFFF_0000);
    assert_eq!(ChainLengthAndBagStripeIndex::not_in_a_bag(1024).0, 0xFFFF_0400);
    assert_eq!(ChainLengthAndBagStripeIndex::in_a_bag(3, 5).0, 0x0005_0003);
    let word = ChainLengthAndBagStripeIndex::in_a_bag(1024, 15);
    assert_eq!(word.chain_length(), 1024);
    assert_eq!(word.bag_stripe_index(), Some(15));
    assert_eq!(ChainLengthAndBagStripeIndex::not_in_a_bag(7).chain_length(), 7);
    assert_eq!(ChainLengthAndBagStripeIndex::not_in_a_bag(7).bag_stripe_index(), None);
}

#[test]
fn meta_data_follows_the_rules_of_persistence() {
    let mut domain = PersistenceDomain::new(WriteBackInstruction::CacheLineWriteBack);
    let mut meta_data = BlockMetaData::new(1024);
    assert_eq!(meta_data.word_now(), ChainLengthAndBagStripeIndex::not_a_head());
    assert!(meta_data.next_in_bag.get().is_null());
    assert!(meta_data.next_chain.get_relaxed().is_null());

    meta_data.acquire(ChainLength(9), &mut domain);
    assert_eq!(meta_data.word_now(), ChainLengthAndBagStripeIndex::not_in_a_bag(9));
    assert!(domain.is_in_flight(1024));
    assert!(domain.is_written_back());

    meta_data.set_next_chain(BlockPointer(4), &mut domain);
    assert!(domain.is_quiescent());
    assert_eq!(meta_data.get_next_chain(&mut domain), BlockPointer(4));
    meta_data.set_next_in_bag(BlockPointer(6), &mut domain);
    assert_eq!(meta_data.get_next_in_bag(&mut domain), BlockPointer(6));

    meta_data.enter_bag(ChainLength(9), 3, &mut domain);
    assert_eq!(meta_data.chain_length_and_bag_stripe_index(&mut domain), ChainLengthAndBagStripeIndex::in_a_bag(9, 3));
    assert_eq!(meta_data.chain_length(&mut domain), ChainLength(9));
    meta_data.leave_bag(&mut domain);
    assert_eq!(meta_data.word_now(), ChainLengthAndBagStripeIndex::not_in_a_bag(9));
    assert!(domain.is_quiescent());

    meta_data.reset_before_add_to_bag(&mut domain);
    assert!(meta_data.next_in_bag.get().is_null());
    assert!(meta_data.next_chain.get().is_null());
    assert!(domain.is_written_back());
    meta_data.release(&mut domain);
    assert_eq!(meta_data.word_now(), ChainLengthAndBagStripeIndex::not_a_head());
}

#[test]
fn atomic_block_pointers() {
    let mut domain = PersistenceDomain::new(WriteBackInstruction::CacheLineFlush);
    let mut atomic = AtomicBlockPointer::new(64);
    assert!(atomic.get().is_null());
    assert!(AtomicBlockPointer::default().get_relaxed().is_null());
    atomic.set(BlockPointer(3));
    assert_eq!(atomic.get_relaxed(), BlockPointer(3));
    atomic.set_relaxed(BlockPointer(4));
    assert_eq!(atomic.persistent_get(&mut domain), BlockPointer(4));
    assert!(!atomic.persistent_compare_and_swap(BlockPointer(3), BlockPointer(5), &mut domain));
    assert_eq!(atomic.get(), BlockPointer(4));
    assert!(atomic.persistent_compare_and_swap(BlockPointer(4), BlockPointer(5), &mut domain));
    assert_eq!(atomic.get(), BlockPointer(5));
    assert!(domain.is_quiescent());
}

#[test]
fn a_bag_is_last_in_first_out_within_a_stripe() {
    let mut domain = PersistenceDomain::new(WriteBackInstruction::CacheLineFlush);
    let mut items = BlockMetaDataItems::initialize(4096, 64);
    let mut bag = Bag::new(32);
    assert!(bag.has_no_chain(ChainLength(2), &items));
    assert_eq!(bag.remove(ChainLength(2), &mut items, &mut domain, 0), BlockPointer::null_pointer());
    let mut stripes = Vec::new();
    for block in [10u32, 20, 30, 40, 50, 60] {
        stripes.push(bag.add(ChainLength(2), BlockPointer(block), &mut items, &mut domain));
        assert_eq!(
            items.items[block as usize].word_now(),
            ChainLengthAndBagStripeIndex::in_a_bag(2, *stripes.last().unwrap())
        );
    }
    assert!(!bag.has_no_chain(ChainLength(2), &items));
    assert!(domain.is_quiescent());

    // The block in the middle is cut out of its stripe.
    assert!(bag.try_to_cut(ChainLength(2), BlockPointer(30), &mut items, stripes[2], &mut domain));
    assert_eq!(items.items[30].word_now(), ChainLengthAndBagStripeIndex::not_in_a_bag(2));

    let mut removed = Vec::new();
    loop {
        let block = bag.remove(ChainLength(2), &mut items, &mut domain, 0);
        if block.is_null() {
            break;
        }
        assert_eq!(items.items[block.0 as usize].word_now(), ChainLengthAndBagStripeIndex::not_in_a_bag(2));
        removed.push(block.0);
    }
    let mut sorted = removed.clone();
    sorted.sort();
    assert_eq!(sorted, vec![10, 20, 40, 50, 60]);
    for stripe in 0..16 {
        let of_stripe: Vec<u32> = removed
            .iter()
            .copied()
            .filter(|block| stripes[(*block / 10 - 1) as usize] == stripe)
            .collect();
        let mut descending = of_stripe.clone();
        descending.sort();
        descending.reverse();
        assert_eq!(of_stripe, descending);
    }
    assert!(bag.has_no_chain(ChainLength(2), &items));
}

#[test]
fn hyper_threads_are_dispersed_over_the_stripes() {
    assert_eq!(MAXIMUM_SUPPORTED_HYPER_THREADS, 16);
    assert_eq!(hyper_thread_index(0), 0);
    assert_eq!(hyper_thread_index(15), 15);
    assert_eq!(hyper_thread_index(16), 0);
    assert_eq!(hyper_thread_index(37), 5);
    for _ in 0..100 {
        assert!(random_stripe_index() < 16);
    }
}
