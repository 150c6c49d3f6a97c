use crate::alignment::is_power_of_two;
use crate::alignment::rounded_up_to_alignment;
use crate::alignment::Alignment;
use crate::memory_map::find_lowest_unoccupied_address_in_process_map::find_lowest_unoccupied_address_in_process_map;
use crate::memory_map::find_lowest_unoccupied_address_in_process_map::lowest_unoccupied_address;
use crate::memory_map::find_lowest_unoccupied_address_in_process_map::search_starts_at;
use crate::memory_map::occupied_memory_map_parse_error::InvalidLineInProcMap;
use crate::memory_map::occupied_memory_map_parse_error::OccupiedMemoryMapParseError;
use crate::memory_map::occupied_memory_ranges::OccupiedMemoryRanges;
use vstd::prelude::*;

verus! {

/// The flag that has memory mapped at the address given and at no other: `MAP_FIXED` on Linux.
pub const MAP_FIXED: i32 = 0x0010;

/// Reads `libc::MAP_FIXED`, which is `0x0010` on Linux.
#[verifier::external_body]
fn map_fixed() -> (flag: i32)
    ensures
        flag == MAP_FIXED,
{
    libc::MAP_FIXED
}

/// Different memory address options for memory mapping.
#[derive(Debug, Copy, Clone, PartialEq, Eq, Structural, PartialOrd, Ord, Hash)]
pub enum MemoryMapAddress {
    /// Ask the kernel to allocate a random address.
    Random,
    /// Try to find an address greater than or equal to the `minimum_address`, but don't fail to
    /// memory map if this address isn't used.
    Hint {
        /// Minimum address hint.
        /// Can be null (zero).
        minimum_address: usize,
    },
    /// Memory map at this address and no other; will round it up to satisfy alignment.
    /// Memory mapping will fail if it can not be allocated at this address.
    Mandatory {
        /// Unaligned address to use.
        unaligned_address: usize,
    },
}

impl MemoryMapAddress {
    /// Can the address be rounded up to `alignment`?
    pub open spec fn can_be_aligned(&self, alignment: usize) -> bool {
        match *self {
            MemoryMapAddress::Mandatory { unaligned_address } => rounded_up_to_alignment(
                unaligned_address as int,
                alignment as int,
            ) <= usize::MAX,
            _ => true,
        }
    }

    /// Returns an address and modified flags to map `size` bytes at `alignment` with. The address
    /// is null where the kernel is to choose it.
    ///
    /// For a hint, the address is the lowest unoccupied address that is found from the hint on, or
    /// null if there is none; it fails where no range of memory is occupied.
    /// For a mandatory address, the address is rounded up to the alignment, and the flags say that
    /// the memory is to be mapped there and nowhere else.
    pub fn address(
        &self,
        size: usize,
        alignment: usize,
        mmap_flags: i32,
        occupied_memory_ranges: &OccupiedMemoryRanges,
        memory_map_page_size: usize,
    ) -> (address: Result<(usize, i32), OccupiedMemoryMapParseError>)
        requires
            is_power_of_two(alignment),
            self.can_be_aligned(alignment),
            occupied_memory_ranges.wf(),
        ensures
            match *self {
                MemoryMapAddress::Random => address == Ok::<(usize, i32), OccupiedMemoryMapParseError>(
                    (0usize, mmap_flags),
                ),
                MemoryMapAddress::Hint { minimum_address } => if occupied_memory_ranges.ranges@.len() == 0 {
                    address == Err::<(usize, i32), OccupiedMemoryMapParseError>(
                        OccupiedMemoryMapParseError::InvalidLineInProcMap(InvalidLineInProcMap::NoStackLine),
                    )
                } else {
                    &&& address is Ok
                    &&& address->Ok_0.1 == mmap_flags
                    &&& address->Ok_0.0 == (match lowest_unoccupied_address(
                        occupied_memory_ranges.ranges@,
                        occupied_memory_ranges.ranges@.last().0 as int,
                        search_starts_at(minimum_address, memory_map_page_size) as int,
                        size as int,
                        alignment as int,
                    ) {
                        Some(found) => found,
                        None => 0,
                    })
                },
                MemoryMapAddress::Mandatory { unaligned_address } => address == Ok::<
                    (usize, i32),
                    OccupiedMemoryMapParseError,
                >(
                    (
                        rounded_up_to_alignment(unaligned_address as int, alignment as int) as usize,
                        mmap_flags | MAP_FIXED,
                    ),
                ),
            },
    {
        match *self {
            MemoryMapAddress::Random => Ok((0, mmap_flags)),
            MemoryMapAddress::Hint { minimum_address } => {
                let address: usize = match find_lowest_unoccupied_address_in_process_map(
                    occupied_memory_ranges,
                    memory_map_page_size,
                    minimum_address,
                    size,
                    alignment,
                ) {
                    Err(error) => {
                        return Err(error);
                    },
                    Ok(None) => 0,
                    Ok(Some(address)) => address,
                };
                Ok((address, mmap_flags))
            },
            MemoryMapAddress::Mandatory { unaligned_address } => {
                let flags: i32 = mmap_flags | map_fixed();
                let aligned_address: usize = unaligned_address.round_up_to_alignment(alignment);
                Ok((aligned_address, flags))
            },
        }
    }
}

} // verus!
