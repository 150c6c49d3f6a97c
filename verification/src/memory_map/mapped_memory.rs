use vstd::prelude::*;

verus! {

/// Mapped memory: where it is mapped, how much of it, and how.
#[derive(Debug, Copy, Clone, PartialEq, Eq, Structural, PartialOrd, Ord, Hash)]
pub struct MappedMemory(pub usize, pub usize, pub bool);

impl MappedMemory {
    /// Mapped memory of `length` bytes at `address`, which is not null.
    pub fn new(address: usize, length: usize, was_mapped_with_linux_sync_flag: bool) -> (mapped_memory: Self)
        requires
            address != 0,
        ensures
            mapped_memory == MappedMemory(address, length, was_mapped_with_linux_sync_flag),
    {
        MappedMemory(address, length, was_mapped_with_linux_sync_flag)
    }

    /// Memory-mapped address, which is not null.
    pub fn to_non_null(&self) -> (address: usize)
        ensures
            address == self.0,
    {
        self.0
    }

    /// Memory-mapped address.
    pub fn as_ptr(&self) -> (address: usize)
        ensures
            address == self.0,
    {
        self.0
    }

    /// Memory-mapped length.
    pub fn length(&self) -> (length: usize)
        ensures
            length == self.1,
    {
        self.1
    }

    /// Was mapped with the `MAP_SYNC` flag of Linux 4.15 and later.
    pub fn was_mapped_with_linux_sync_flag(&self) -> (was_mapped_with_linux_sync_flag: bool)
        ensures
            was_mapped_with_linux_sync_flag == self.2,
    {
        self.2
    }
}

} // verus!
