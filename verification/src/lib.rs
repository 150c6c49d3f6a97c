//! A verified block allocator for byte-addressable persistent memory.
//!
//! A persistent region is divided into blocks of one size. Physically adjacent blocks are grouped
//! into chains; the free chains are kept in bags, one bag for each chain length, and each bag is
//! striped into last-in, first-out lists. An allocation takes the front of the shortest chain that
//! is long enough; a chain that is given back has the free chains after it merged onto its end.
//!
//! The library holds the region as plain data and is used by one thread at a time. Every change
//! of the meta data of the allocator is paired with the write-back of its cache line and with a
//! fence. These are recorded in a `PersistenceDomain`, so that the contracts can say what has
//! reached persistent memory; the instructions of the processor themselves are left to the caller.
//!
//! - `block_allocator`: the allocator, its bags, its meta data, and allocations of several chains
//!   with cursors to copy bytes into and from them.
//! - `persistent_memory_operations`: write-back, fence and sync, and atomic values that compose
//!   with them.
//! - `memory_map` and `dax`: what is made of the map of the memory of a process and of the
//!   statistics of DAX devices, once they are read.

pub mod alignment;
pub mod block_allocator;
pub mod dax;
pub mod hyper_thread;
pub mod intrinsics;
pub mod memory_map;
pub mod number_parsing;
pub mod persistent_memory_operations;
