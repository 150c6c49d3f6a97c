use persistent_memory::intrinsics::round_address_down_to_start_of_cache_line;
use persistent_memory::intrinsics::CACHE_LINE_SIZE;
use persistent_memory::persistent_memory_operations::atomic_persistent_memory::AtomicPersistentMemory;
use persistent_memory::persistent_memory_operations::bit_atomic_persistent_memory::BitAtomicPersistentMemory;
use persistent_memory::persistent_memory_operations::bool_atomic_persistent_memory::BoolAtomicPersistentMemory;
use persistent_memory::persistent_memory_operations::integer_atomic_persistent_memory::IntegerAtomicPersistentMemory;
use persistent_memory::persistent_memory_operations::locked_read_modify_write_operation_persistent_fence::locked_read_modify_write_operation_persistent_fence;
use persistent_memory::persistent_memory_operations::memory_order::MemoryOrder;
use persistent_memory::persistent_memory_operations::persistence_domain::PersistenceDomain;
use persistent_memory::persistent_memory_operations::persistence_domain::ProcessorFeatures;
use persistent_memory::persistent_memory_operations::persistence_domain::WriteBackInstruction;
use persistent_memory::persistent_memory_operations::persistent_atomic_bool::PersistentAtomicBool;
use persistent_memory::persistent_memory_operations::persistent_atomic_u32::PersistentAtomicU32;
use persistent_memory::persistent_memory_operations::persistent_atomic_u64::PersistentAtomicU64;
use persistent_memory::persistent_memory_operations::persistent_atomic_usize::PersistentAtomicUsize;
use persistent_memory::persistent_memory_operations::persistent_fence::persistent_fence;
use persistent_memory::persistent_memory_operations::persistent_sync::persistent_sync;
use persistent_memory::persistent_memory_operations::persistent_write_back::persistent_write_back;

#[test]
fn the_address_of_a_cache_line_is_rounded_down() {
    assert_eq!(CACHE_LINE_SIZE, 64);
    assert_eq!(round_address_down_to_start_of_cache_line(0), 0);
    assert_eq!(round_address_down_to_start_of_cache_line(63), 0);
    assert_eq!(round_address_down_to_start_of_cache_line(64), 64);
    assert_eq!(round_address_down_to_start_of_cache_line(130), 128);
    assert_eq!(round_address_down_to_start_of_cache_line(usize::MAX), usize::MAX - 63);
}

#[test]
fn the_write_back_instruction_is_chosen_in_order_of_preference() {
    let features = |cache_line_write_back, cache_line_flush_optimized, cache_line_flush| ProcessorFeatures {
        cache_line_write_back,
        cache_line_flush_optimized,
        cache_line_flush,
    };
    assert_eq!(WriteBackInstruction::for_processor(features(true, true, true)), WriteBackInstruction::CacheLineWriteBack);
    assert_eq!(WriteBackInstruction::for_processor(features(true, false, false)), WriteBackInstruction::CacheLineWriteBack);
    assert_eq!(
        WriteBackInstruction::for_processor(features(false, true, true)),
        WriteBackInstruction::CacheLineFlushOptimized
    );
    assert_eq!(WriteBackInstruction::for_processor(features(false, false, true)), WriteBackInstruction::CacheLineFlush);
    assert_eq!(
        WriteBackInstruction::for_processor(features(false, false, false)),
        WriteBackInstruction::DataCacheCleanByVirtualAddress
    );
    assert!(WriteBackInstruction::CacheLineWriteBack.orders_with_locked_operations());
    assert!(WriteBackInstruction::CacheLineFlushOptimized.orders_with_locked_operations());
    assert!(!WriteBackInstruction::CacheLineFlush.orders_with_locked_operations());
    assert!(!WriteBackInstruction::DataCacheCleanByVirtualAddress.orders_with_locked_operations());
}

#[test]
fn a_store_is_unwritten_until_written_back_and_in_flight_until_fenced() {
    let mut domain = PersistenceDomain::new(WriteBackInstruction::CacheLineWriteBack);
    assert!(domain.is_quiescent());
    domain.record_store(200);
    assert!(domain.is_unwritten(192));
    assert!(domain.is_unwritten(255));
    assert!(!domain.is_unwritten(256));
    assert!(!domain.is_written_back());
    persistent_write_back(&mut domain, 130);
    assert!(domain.is_unwritten(200));
    assert!(domain.is_in_flight(128));
    persistent_write_back(&mut domain, 201);
    assert!(!domain.is_unwritten(200));
    assert!(domain.is_in_flight(200));
    assert!(domain.is_written_back());
    assert!(!domain.is_quiescent());
    persistent_fence(&mut domain);
    assert!(!domain.is_in_flight(200));
    assert!(domain.is_quiescent());
}

#[test]
fn a_sync_completes_what_is_in_flight_and_leaves_what_is_unwritten() {
    let mut domain = PersistenceDomain::new(WriteBackInstruction::CacheLineFlush);
    domain.record_store(0);
    domain.record_store(64);
    persistent_write_back(&mut domain, 64);
    persistent_sync(&mut domain);
    assert!(!domain.is_in_flight(64));
    assert!(domain.is_unwritten(0));
    assert!(!domain.is_quiescent());
}

#[test]
fn the_fence_around_locked_operations_is_left_out_where_they_order_write_backs() {
    for (instruction, fenced) in [
        (WriteBackInstruction::CacheLineWriteBack, false),
        (WriteBackInstruction::CacheLineFlushOptimized, false),
        (WriteBackInstruction::CacheLineFlush, true),
        (WriteBackInstruction::DataCacheCleanByVirtualAddress, true),
    ] {
        let mut domain = PersistenceDomain::new(instruction);
        persistent_write_back(&mut domain, 0);
        locked_read_modify_write_operation_persistent_fence(&mut domain);
        assert_eq!(domain.is_in_flight(0), !fenced);
        assert_eq!(domain.write_back_instruction(), instruction);
    }
}

#[test]
fn a_locked_operation_orders_write_backs_where_the_processor_has_it_so() {
    let mut domain = PersistenceDomain::new(WriteBackInstruction::CacheLineFlushOptimized);
    persistent_write_back(&mut domain, 0);
    domain.record_locked_operation(64);
    assert!(!domain.is_in_flight(0));
    assert!(domain.is_unwritten(64));
    let mut domain = PersistenceDomain::new(WriteBackInstruction::CacheLineFlush);
    persistent_write_back(&mut domain, 0);
    domain.record_locked_operation(64);
    assert!(domain.is_in_flight(0));
    assert!(domain.is_unwritten(64));
    domain.rebind(WriteBackInstruction::CacheLineWriteBack);
    assert_eq!(domain.write_back_instruction(), WriteBackInstruction::CacheLineWriteBack);
    assert!(domain.is_in_flight(0));
}

#[test]
fn loads_and_stores_follow_the_rules_of_persistence() {
    let mut domain = PersistenceDomain::new(WriteBackInstruction::CacheLineWriteBack);
    let mut atomic = PersistentAtomicU32::new(1000, 5);
    assert_eq!(atomic.location(), 1000);
    assert_eq!(atomic.persistent_load_relaxed(), 5);
    assert!(domain.is_quiescent());

    atomic.persistent_store_relaxed(6, &mut domain);
    assert_eq!(atomic.value, 6);
    assert!(domain.is_written_back());
    assert!(domain.is_in_flight(1000));

    persistent_write_back(&mut domain, 5000);
    atomic.persistent_store_release(7, &mut domain);
    assert_eq!(atomic.value, 7);
    assert!(!domain.is_in_flight(5000));
    assert!(domain.is_in_flight(1000));

    persistent_write_back(&mut domain, 5000);
    atomic.persistent_store_sequentially_consistent(8, &mut domain);
    assert!(!domain.is_in_flight(5000));
    assert!(domain.is_in_flight(1000));

    assert_eq!(atomic.persistent_load_acquire(&mut domain), 8);
    assert!(domain.is_quiescent());
    persistent_write_back(&mut domain, 5000);
    assert_eq!(atomic.persistent_load_sequentially_consistent(&mut domain), 8);
    assert!(domain.is_quiescent());

    atomic.store_(9, MemoryOrder::Relaxed);
    assert_eq!(atomic.load_(MemoryOrder::Acquire), 9);
    assert!(domain.is_quiescent());
}

#[test]
fn swaps_return_the_previous_value() {
    let mut domain = PersistenceDomain::new(WriteBackInstruction::CacheLineFlush);
    let mut atomic = PersistentAtomicU64::new(64, 1);
    assert_eq!(atomic.persistent_swap_relaxed(2, &mut domain), 1);
    assert!(domain.is_unwritten(64));
    assert_eq!(atomic.persistent_swap_release(3, &mut domain), 2);
    assert!(domain.is_quiescent());
    assert_eq!(atomic.persistent_swap_acquire(4, &mut domain), 3);
    assert_eq!(atomic.persistent_swap_acquire_release(5, &mut domain), 4);
    assert_eq!(atomic.persistent_swap_sequentially_consistent(6, &mut domain), 5);
    assert_eq!(atomic.persistent_swap_ordered(7, MemoryOrder::AcquireRelease, &mut domain), 6);
    assert_eq!(atomic.value, 7);
    assert!(domain.is_quiescent());

    let mut domain = PersistenceDomain::new(WriteBackInstruction::CacheLineWriteBack);
    assert_eq!(atomic.persistent_swap_acquire_release(8, &mut domain), 7);
    assert!(domain.is_written_back());
    assert!(domain.is_in_flight(64));
}

#[test]
fn compare_and_swap_stores_where_the_value_is_the_expected_one() {
    let mut domain = PersistenceDomain::new(WriteBackInstruction::CacheLineFlush);
    let mut atomic = PersistentAtomicUsize::new(128, 10);
    assert_eq!(atomic.persistent_compare_and_swap_strong_relaxed_relaxed(10, 11, &mut domain), Ok(10));
    assert_eq!(atomic.persistent_compare_and_swap_strong_relaxed_relaxed(10, 12, &mut domain), Err(11));
    assert_eq!(atomic.value, 11);
    assert!(domain.is_unwritten(128));
    assert_eq!(atomic.persistent_compare_and_swap_strong_acquire_relaxed(11, 12, &mut domain), Ok(11));
    assert!(domain.is_quiescent());
    assert_eq!(atomic.persistent_compare_and_swap_strong_acquire_relaxed(11, 13, &mut domain), Err(12));
    assert!(domain.is_in_flight(128));
    assert_eq!(atomic.persistent_compare_and_swap_strong_acquire_acquire(12, 13, &mut domain), Ok(12));
    assert_eq!(atomic.persistent_compare_and_swap_strong_acquire_release(12, 14, &mut domain), Err(13));
    assert_eq!(atomic.persistent_compare_and_swap_strong_sequentially_consistent(13, 14, &mut domain), Ok(13));
    assert_eq!(
        atomic.persistent_compare_and_swap_strong_ordered(14, 15, MemoryOrder::Release, MemoryOrder::Relaxed, &mut domain),
        Ok(14)
    );
    assert_eq!(atomic.value, 15);
    assert!(domain.is_quiescent());
}

#[test]
fn fetch_add_and_fetch_sub_wrap_around() {
    let mut domain = PersistenceDomain::new(WriteBackInstruction::CacheLineWriteBack);
    let mut atomic = PersistentAtomicU32::new(0, u32::MAX - 1);
    assert_eq!(atomic.persistent_fetch_add_relaxed(1, &mut domain), u32::MAX - 1);
    assert_eq!(atomic.persistent_fetch_add_release(3, &mut domain), u32::MAX);
    assert_eq!(atomic.value, 2);
    assert!(domain.is_quiescent());
    assert_eq!(atomic.persistent_fetch_add_acquire(1, &mut domain), 2);
    assert_eq!(atomic.persistent_fetch_add_acquire_release(1, &mut domain), 3);
    assert_eq!(atomic.persistent_fetch_add_sequentially_consistent(1, &mut domain), 4);
    assert_eq!(atomic.persistent_fetch_sub_relaxed(6, &mut domain), 5);
    assert_eq!(atomic.value, u32::MAX);
    assert_eq!(atomic.persistent_fetch_sub_release(1, &mut domain), u32::MAX);
    assert_eq!(atomic.persistent_fetch_sub_acquire(1, &mut domain), u32::MAX - 1);
    assert_eq!(atomic.persistent_fetch_sub_acquire_release(1, &mut domain), u32::MAX - 2);
    assert_eq!(atomic.persistent_fetch_sub_sequentially_consistent(1, &mut domain), u32::MAX - 3);
    assert_eq!(atomic.persistent_fetch_sub_ordered(1, MemoryOrder::Release, &mut domain), u32::MAX - 4);
    assert_eq!(atomic.persistent_fetch_add_ordered(10, MemoryOrder::Release, &mut domain), u32::MAX - 5);
    assert_eq!(atomic.value, 4);
}

#[test]
fn fetch_and_or_and_xor_work_on_the_bits() {
    let mut domain = PersistenceDomain::new(WriteBackInstruction::CacheLineFlush);
    let mut atomic = PersistentAtomicU32::new(0, 0b1100);
    assert_eq!(atomic.persistent_fetch_and_relaxed(0b1010, &mut domain), 0b1100);
    assert_eq!(atomic.value, 0b1000);
    assert_eq!(atomic.persistent_fetch_or_release(0b0011, &mut domain), 0b1000);
    assert_eq!(atomic.value, 0b1011);
    assert_eq!(atomic.persistent_fetch_xor_acquire(0b1111, &mut domain), 0b1011);
    assert_eq!(atomic.value, 0b0100);
    assert_eq!(atomic.persistent_fetch_and_acquire_release(0b0110, &mut domain), 0b0100);
    assert_eq!(atomic.persistent_fetch_or_sequentially_consistent(0b0001, &mut domain), 0b0100);
    assert_eq!(atomic.persistent_fetch_xor_relaxed(0b0101, &mut domain), 0b0101);
    assert_eq!(atomic.value, 0);
    assert_eq!(atomic.persistent_fetch_or_relaxed(1, &mut domain), 0);
    assert_eq!(atomic.persistent_fetch_or_acquire(2, &mut domain), 1);
    assert_eq!(atomic.persistent_fetch_or_acquire_release(4, &mut domain), 3);
    assert_eq!(atomic.persistent_fetch_and_release(6, &mut domain), 7);
    assert_eq!(atomic.persistent_fetch_and_acquire(4, &mut domain), 6);
    assert_eq!(atomic.persistent_fetch_and_sequentially_consistent(0, &mut domain), 4);
    assert_eq!(atomic.persistent_fetch_xor_release(9, &mut domain), 0);
    assert_eq!(atomic.persistent_fetch_xor_acquire_release(1, &mut domain), 9);
    assert_eq!(atomic.persistent_fetch_xor_sequentially_consistent(8, &mut domain), 8);
    assert_eq!(atomic.value, 0);
    assert!(domain.is_quiescent());
}

#[test]
fn fetch_nand_negates_the_conjunction() {
    let mut domain = PersistenceDomain::new(WriteBackInstruction::CacheLineFlush);
    let mut atomic = PersistentAtomicBool::new(0, true);
    assert_eq!(atomic.persistent_fetch_nand_relaxed(true, &mut domain), true);
    assert_eq!(atomic.value, false);
    assert_eq!(atomic.persistent_fetch_nand_release(true, &mut domain), false);
    assert_eq!(atomic.value, true);
    assert_eq!(atomic.persistent_fetch_nand_acquire(false, &mut domain), true);
    assert_eq!(atomic.value, true);
    assert_eq!(atomic.persistent_fetch_nand_acquire_release(true, &mut domain), true);
    assert_eq!(atomic.persistent_fetch_nand_sequentially_consistent(false, &mut domain), false);
    assert_eq!(atomic.value, true);
    assert_eq!(atomic.persistent_fetch_and_relaxed(false, &mut domain), true);
    assert_eq!(atomic.persistent_fetch_or_relaxed(true, &mut domain), false);
    assert_eq!(atomic.persistent_fetch_xor_relaxed(true, &mut domain), true);
    assert_eq!(atomic.value, false);
    assert_eq!(atomic.persistent_compare_and_swap_strong_acquire_release(false, true, &mut domain), Ok(false));
    assert_eq!(atomic.persistent_swap_acquire_release(false, &mut domain), true);
}
