use crate::memory_map::occupied_memory_map_parse_error::InvalidLineInProcMap;
use crate::memory_map::occupied_memory_map_parse_error::OccupiedMemoryMapParseError;
use vstd::prelude::*;

verus! {

/// Are `ranges` in the order of their starts, no two with the same start?
pub open spec fn is_sorted_by_start(ranges: Seq<(usize, usize)>) -> bool {
    forall|first: int, second: int|
        0 <= first < second < ranges.len() ==> (#[trigger] ranges[first]).0 < (#[trigger] ranges[second]).0
}

/// The number of `ranges` that start before `address`: in sorted ranges, the place of the first
/// range that does not.
pub open spec fn ranges_starting_before(ranges: Seq<(usize, usize)>, address: int) -> int
    decreases ranges.len(),
{
    if ranges.len() == 0 {
        0
    } else if ranges.last().0 < address {
        ranges.len() as int
    } else {
        ranges_starting_before(ranges.drop_last(), address)
    }
}

/// In sorted ranges, the ranges that start before an address are the first so many.
pub proof fn lemma_ranges_starting_before(ranges: Seq<(usize, usize)>, address: int)
    requires
        is_sorted_by_start(ranges),
    ensures
        0 <= ranges_starting_before(ranges, address) <= ranges.len(),
        forall|index: int|
            0 <= index < ranges.len() ==> ((#[trigger] ranges[index]).0 < address <==> index < ranges_starting_before(
                ranges,
                address,
            )),
    decreases ranges.len(),
{
    if ranges.len() > 0 && ranges.last().0 >= address {
        let fewer = ranges.drop_last();
        assert forall|first: int, second: int| 0 <= first < second < fewer.len() implies (#[trigger] fewer[first]).0 < (
        #[trigger] fewer[second]).0 by {
            assert(fewer[first] == ranges[first]);
            assert(fewer[second] == ranges[second]);
        }
        lemma_ranges_starting_before(fewer, address);
        assert forall|index: int| 0 <= index < ranges.len() implies ((#[trigger] ranges[index]).0 < address <==> index
            < ranges_starting_before(ranges, address)) by {
            if index < fewer.len() {
                assert(fewer[index] == ranges[index]);
            }
        }
    } else if ranges.len() > 0 {
        assert forall|index: int| 0 <= index < ranges.len() implies (#[trigger] ranges[index]).0 < address by {
            if index < ranges.len() - 1 {
                assert(ranges[index].0 < ranges[ranges.len() - 1].0);
            }
        }
    }
}

/// Does one of `ranges` start at or after `low` and before `high`?
pub open spec fn has_start_in(ranges: Seq<(usize, usize)>, low: int, high: int) -> bool {
    exists|index: int| 0 <= index < ranges.len() && low <= (#[trigger] ranges[index]).0 < high
}

/// Does the last of `ranges` that starts before `low` end after `low`?
pub open spec fn is_overlapped_at(ranges: Seq<(usize, usize)>, low: int) -> bool {
    let before = ranges_starting_before(ranges, low);
    before > 0 && ranges[before - 1].1 > low
}

/// The ranges with the range from `low` to `high` among them, in place of a range that starts at `low`.
pub open spec fn with_range(ranges: Seq<(usize, usize)>, low: usize, high: usize) -> Seq<(usize, usize)> {
    let before = ranges_starting_before(ranges, low as int);
    if before < ranges.len() && ranges[before].0 == low {
        ranges.update(before, (low, high))
    } else {
        ranges.insert(before, (low, high))
    }
}

/// What putting the range from `low` to `high` among `ranges` gives: the ranges with that range,
/// or a failure where one of the ranges starts within it, or where it starts within the range before it.
pub open spec fn range_put(ranges: Seq<(usize, usize)>, low: usize, high: usize) -> Result<
    Seq<(usize, usize)>,
    OccupiedMemoryMapParseError,
> {
    if has_start_in(ranges, low as int, high as int) {
        Err(OccupiedMemoryMapParseError::InvalidLineInProcMap(InvalidLineInProcMap::AlreadyPresent))
    } else if is_overlapped_at(ranges, low as int) {
        Err(OccupiedMemoryMapParseError::InvalidLineInProcMap(InvalidLineInProcMap::Overlaps))
    } else {
        Ok(with_range(ranges, low, high))
    }
}

/// The ranges of memory that are occupied, in the order of their starts.
#[derive(Debug, Clone, PartialEq, Eq)]
pub struct OccupiedMemoryRanges {
    /// Where each range starts and where it ends.
    pub ranges: Vec<(usize, usize)>,
}

impl OccupiedMemoryRanges {
    /// Are the ranges in the order of their starts, no two with the same start, and does none
    /// start after it ends?
    pub open spec fn wf(&self) -> bool {
        &&& is_sorted_by_start(self.ranges@)
        &&& forall|index: int|
            0 <= index < self.ranges@.len() ==> (#[trigger] self.ranges@[index]).0 <= self.ranges@[index].1
    }

    /// No ranges.
    pub fn new() -> (occupied_memory_ranges: Self)
        ensures
            occupied_memory_ranges.wf(),
            occupied_memory_ranges.ranges@.len() == 0,
    {
        OccupiedMemoryRanges { ranges: Vec::new() }
    }

    /// The number of ranges that start before `address`.
    pub fn number_of_ranges_starting_before(&self, address: usize) -> (count: usize)
        requires
            self.wf(),
        ensures
            count == ranges_starting_before(self.ranges@, address as int),
            count <= self.ranges@.len(),
    {
        proof {
            lemma_ranges_starting_before(self.ranges@, address as int);
        }
        let mut count: usize = 0;
        while count < self.ranges.len() && self.ranges[count].0 < address
            invariant
                count <= self.ranges@.len(),
                self.wf(),
                forall|index: int| 0 <= index < count ==> (#[trigger] self.ranges@[index]).0 < address,
                forall|index: int|
                    0 <= index < self.ranges@.len() ==> ((#[trigger] self.ranges@[index]).0 < address <==> index
                        < ranges_starting_before(self.ranges@, address as int)),
                0 <= ranges_starting_before(self.ranges@, address as int) <= self.ranges@.len(),
            decreases self.ranges@.len() - count,
        {
            count += 1;
        }
        proof {
            let before = ranges_starting_before(self.ranges@, address as int);
            if count < before {
                assert(self.ranges@[count as int].0 < address);
            }
            if before < count {
                assert(self.ranges@[before].0 < address);
            }
        }
        count
    }

    /// Puts the range from `low` to `high` among the ranges.
    ///
    /// Fails where a range starts within it, and where it starts within the range before it.
    pub fn insert(&mut self, low: usize, high: usize) -> (inserted: Result<(), OccupiedMemoryMapParseError>)
        requires
            old(self).wf(),
            low <= high,
        ensures
            final(self).wf(),
            inserted is Ok <==> range_put(old(self).ranges@, low, high) is Ok,
            inserted is Err ==> final(self).ranges@ == old(self).ranges@ && Err::<
                Seq<(usize, usize)>,
                OccupiedMemoryMapParseError,
            >(inserted->Err_0) == range_put(old(self).ranges@, low, high),
            inserted is Ok ==> Ok::<Seq<(usize, usize)>, OccupiedMemoryMapParseError>(final(self).ranges@) == range_put(
                old(self).ranges@,
                low,
                high,
            ),
    {
        let before: usize = self.number_of_ranges_starting_before(low);
        proof {
            lemma_ranges_starting_before(self.ranges@, low as int);
        }
        if before < self.ranges.len() && self.ranges[before].0 < high {
            return Err(OccupiedMemoryMapParseError::InvalidLineInProcMap(InvalidLineInProcMap::AlreadyPresent));
        }
        proof {
            if has_start_in(self.ranges@, low as int, high as int) {
                let index = choose|index: int|
                    0 <= index < self.ranges@.len() && low <= (#[trigger] self.ranges@[index]).0 < high;
                if index > before {
                    assert(self.ranges@[before as int].0 < self.ranges@[index].0);
                }
                assert(false);
            }
        }
        if before > 0 && self.ranges[before - 1].1 > low {
            return Err(OccupiedMemoryMapParseError::InvalidLineInProcMap(InvalidLineInProcMap::Overlaps));
        }
        if before < self.ranges.len() && self.ranges[before].0 == low {
            self.ranges[before] = (low, high);
            proof {
                assert(self.ranges@ =~= old(self).ranges@.update(before as int, (low, high)));
                assert forall|first: int, second: int| 0 <= first < second < self.ranges@.len() implies (
                #[trigger] self.ranges@[first]).0 < (#[trigger] self.ranges@[second]).0 by {
                    assert(old(self).ranges@[first].0 < old(self).ranges@[second].0);
                }
            }
        } else {
            self.ranges.insert(before, (low, high));
            proof {
                assert forall|first: int, second: int| 0 <= first < second < self.ranges@.len() implies (
                #[trigger] self.ranges@[first]).0 < (#[trigger] self.ranges@[second]).0 by {
                    let former_first = if first < before {
                        first
                    } else {
                        first - 1
                    };
                    let former_second = if second < before {
                        second
                    } else {
                        second - 1
                    };
                    if first != before && second != before {
                        assert(old(self).ranges@[former_first].0 < old(self).ranges@[former_second].0);
                    } else if first == before {
                        assert(old(self).ranges@[former_second].0 >= low);
                        if former_second > before {
                            assert(old(self).ranges@[before as int].0 < old(self).ranges@[former_second].0);
                        }
                    } else {
                        assert(old(self).ranges@[former_first].0 < low);
                    }
                }
            }
        }
        Ok(())
    }
}

} // verus!
