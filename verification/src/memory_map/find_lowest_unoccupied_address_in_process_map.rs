use crate::alignment::checked_round_up_to_alignment;
use crate::alignment::is_power_of_two;
use crate::alignment::lemma_rounded_up_to_alignment;
use crate::alignment::rounded_up_to_alignment;
use crate::memory_map::occupied_memory_map_parse_error::InvalidLineInProcMap;
use crate::memory_map::occupied_memory_map_parse_error::OccupiedMemoryMapParseError;
use crate::memory_map::occupied_memory_ranges::has_start_in;
use crate::memory_map::occupied_memory_ranges::lemma_ranges_starting_before;
use crate::memory_map::occupied_memory_ranges::ranges_starting_before;
use crate::memory_map::occupied_memory_ranges::OccupiedMemoryRanges;
use vstd::prelude::*;

verus! {

/// The place, in sorted `ranges`, of the last range that starts at or after `from` and before `to`.
pub open spec fn last_start_in(ranges: Seq<(usize, usize)>, from: int, to: int) -> Option<int> {
    let before = ranges_starting_before(ranges, to);
    if before > 0 && ranges[before - 1].0 >= from {
        Some(before - 1)
    } else {
        None
    }
}

/// The lowest address for `size` bytes at `alignment` that is found looking from `from` on, below
/// the start of the stack.
///
/// The address is `from`, rounded up to the alignment, unless one of `ranges` starts between
/// `from` and the end of the bytes; then the search goes on from the end of the last such range,
/// or from the next address where that range is empty. There is none where the bytes would end
/// after `stack_starts_at`.
pub open spec fn lowest_unoccupied_address(
    ranges: Seq<(usize, usize)>,
    stack_starts_at: int,
    from: int,
    size: int,
    alignment: int,
) -> Option<int>
    decreases stack_starts_at - from,
{
    let start = rounded_up_to_alignment(from, alignment);
    let end = start + size;
    if from < 0 || from > stack_starts_at || end > stack_starts_at {
        None
    } else {
        match last_start_in(ranges, from, end) {
            None => Some(start),
            Some(index) => {
                let next = if ranges[index].1 != ranges[index].0 {
                    ranges[index].1 as int
                } else {
                    from + 1
                };
                if next <= from || next > stack_starts_at {
                    None
                } else {
                    lowest_unoccupied_address(ranges, stack_starts_at, next, size, alignment)
                }
            },
        }
    }
}

/// Where the search for an address starts: at the hint, or at the size of a page where there is none.
pub open spec fn search_starts_at(minimum_address_hint: usize, memory_map_page_size: usize) -> usize {
    if minimum_address_hint == 0 {
        memory_map_page_size
    } else {
        minimum_address_hint
    }
}

/// Finds the lowest address for `size` bytes at `alignment`, looking from `minimum_address_hint`
/// on, or from the size of a page on where the hint is null, below the start of the stack: the
/// start of the last of the occupied ranges.
///
/// Returns `Ok(Some(address))` if a suitably aligned unoccupied address could be found.
/// Returns `Ok(None)` if no unoccupied address could be found.
/// Fails where no range is occupied, as then there is none for the stack.
pub fn find_lowest_unoccupied_address_in_process_map(
    occupied_memory_ranges: &OccupiedMemoryRanges,
    memory_map_page_size: usize,
    minimum_address_hint: usize,
    size: usize,
    alignment: usize,
) -> (address: Result<Option<usize>, OccupiedMemoryMapParseError>)
    requires
        occupied_memory_ranges.wf(),
        is_power_of_two(alignment),
    ensures
        address is Err <==> occupied_memory_ranges.ranges@.len() == 0,
        address is Err ==> address->Err_0 == OccupiedMemoryMapParseError::InvalidLineInProcMap(
            InvalidLineInProcMap::NoStackLine,
        ),
        address is Ok ==> {
            let found = lowest_unoccupied_address(
                occupied_memory_ranges.ranges@,
                occupied_memory_ranges.ranges@.last().0 as int,
                search_starts_at(minimum_address_hint, memory_map_page_size) as int,
                size as int,
                alignment as int,
            );
            &&& address->Ok_0 is Some <==> found is Some
            &&& address->Ok_0 is Some ==> address->Ok_0->Some_0 == found->Some_0
        },
        address is Ok && address->Ok_0 is Some ==> {
            let found = address->Ok_0->Some_0;
            &&& found as int % alignment as int == 0
            &&& found >= search_starts_at(minimum_address_hint, memory_map_page_size)
            &&& found + size <= occupied_memory_ranges.ranges@.last().0
            &&& !has_start_in(occupied_memory_ranges.ranges@, found as int, found + size)
        },
{
    let count: usize = occupied_memory_ranges.ranges.len();
    if count == 0 {
        return Err(OccupiedMemoryMapParseError::InvalidLineInProcMap(InvalidLineInProcMap::NoStackLine));
    }
    let stack_starts_at: usize = occupied_memory_ranges.ranges[count - 1].0;
    let starts_at: usize = if minimum_address_hint == 0 {
        memory_map_page_size
    } else {
        minimum_address_hint
    };
    let mut try_unaligned_allocation_starting_from: usize = starts_at;
    let ghost ranges = occupied_memory_ranges.ranges@;
    loop
        invariant
            occupied_memory_ranges.wf(),
            is_power_of_two(alignment),
            ranges == occupied_memory_ranges.ranges@,
            stack_starts_at == ranges.last().0,
            ranges.len() > 0,
            starts_at <= try_unaligned_allocation_starting_from,
            starts_at == search_starts_at(minimum_address_hint, memory_map_page_size),
            lowest_unoccupied_address(
                ranges,
                stack_starts_at as int,
                try_unaligned_allocation_starting_from as int,
                size as int,
                alignment as int,
            ) == lowest_unoccupied_address(
                ranges,
                stack_starts_at as int,
                starts_at as int,
                size as int,
                alignment as int,
            ),
        decreases usize::MAX - try_unaligned_allocation_starting_from,
    {
        let from: usize = try_unaligned_allocation_starting_from;
        proof {
            lemma_rounded_up_to_alignment(from as int, alignment as int);
        }
        let aligned_allocation_would_start_at: usize = match checked_round_up_to_alignment(from, alignment) {
            Some(start) => start,
            None => {
                assert(lowest_unoccupied_address(
                    ranges,
                    stack_starts_at as int,
                    from as int,
                    size as int,
                    alignment as int,
                ) is None);
                return Ok(None);
            },
        };
        let aligned_allocation_would_end_at: usize = match aligned_allocation_would_start_at.checked_add(size) {
            Some(end) => end,
            None => {
                assert(lowest_unoccupied_address(
                    ranges,
                    stack_starts_at as int,
                    from as int,
                    size as int,
                    alignment as int,
                ) is None);
                return Ok(None);
            },
        };
        if aligned_allocation_would_end_at > stack_starts_at {
            assert(lowest_unoccupied_address(
                ranges,
                stack_starts_at as int,
                from as int,
                size as int,
                alignment as int,
            ) is None);
            return Ok(None);
        }
        let before: usize = occupied_memory_ranges.number_of_ranges_starting_before(aligned_allocation_would_end_at);
        proof {
            lemma_ranges_starting_before(ranges, aligned_allocation_would_end_at as int);
        }
        if before > 0 && occupied_memory_ranges.ranges[before - 1].0 >= from {
            let (something_starts_at, something_ends_at) = occupied_memory_ranges.ranges[before - 1];
            assert(ranges[before - 1].0 < aligned_allocation_would_end_at);
            if something_ends_at != something_starts_at {
                try_unaligned_allocation_starting_from = something_ends_at;
            } else {
                try_unaligned_allocation_starting_from = from + 1;
            }
            if try_unaligned_allocation_starting_from > stack_starts_at {
                assert(lowest_unoccupied_address(
                    ranges,
                    stack_starts_at as int,
                    from as int,
                    size as int,
                    alignment as int,
                ) is None);
                return Ok(None);
            }
            assert(lowest_unoccupied_address(
                ranges,
                stack_starts_at as int,
                from as int,
                size as int,
                alignment as int,
            ) == lowest_unoccupied_address(
                ranges,
                stack_starts_at as int,
                try_unaligned_allocation_starting_from as int,
                size as int,
                alignment as int,
            ));
        } else {
            proof {
                if has_start_in(ranges, aligned_allocation_would_start_at as int, aligned_allocation_would_end_at as int) {
                    let index = choose|index: int|
                        0 <= index < ranges.len() && aligned_allocation_would_start_at <= (#[trigger] ranges[index]).0
                            < aligned_allocation_would_end_at;
                    assert(index < before);
                    if index < before - 1 {
                        assert(ranges[index].0 < ranges[before - 1].0);
                    }
                    assert(false);
                }
            }
            return Ok(Some(aligned_allocation_would_start_at));
        }
    }
}

} // verus!
