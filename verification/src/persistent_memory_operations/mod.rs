pub mod persistence_domain;
pub mod persistent_fence;
pub mod persistent_sync;
pub mod persistent_write_back;
pub mod locked_read_modify_write_operation_persistent_fence;
pub mod memory_order;
pub mod atomic_persistent_memory;
pub mod bit_atomic_persistent_memory;
pub mod bool_atomic_persistent_memory;
pub mod integer_atomic_persistent_memory;
pub mod persistent_atomic_bool;
pub mod persistent_atomic_u32;
pub mod persistent_atomic_u64;
pub mod persistent_atomic_usize;
pub mod flush_memory;
