pub mod atomic_block_pointer;
pub mod block_meta_data;
pub mod block_pointer;
pub mod block_size;
pub mod chain_length;
pub mod bag;
pub mod bags;
pub mod tiling;
pub mod block_allocator;
pub mod block_allocator_error;
pub mod initialize;
pub mod allocate;
pub mod release;
pub mod chains;
pub mod chain_bytes;
pub mod chains_cursor;
pub mod restart_copy;
pub mod reopen;
pub mod queries;
pub mod conservation;
