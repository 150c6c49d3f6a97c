use crate::memory_map::occupied_memory_map_parse_error::InvalidLineInProcMap;
use crate::memory_map::occupied_memory_map_parse_error::OccupiedMemoryMapParseError;
use crate::memory_map::occupied_memory_ranges::range_put;
use crate::memory_map::occupied_memory_ranges::OccupiedMemoryRanges;
use crate::number_parsing::parse_usize_in_radix;
use crate::number_parsing::usize_in_radix;
use vstd::prelude::*;

verus! {

/// The number of bytes of `text` before the first `delimiter` from `from` on, or to its end where there is none.
pub open spec fn end_of_field(text: Seq<u8>, from: int, delimiter: u8) -> int
    decreases text.len() - from,
{
    if from >= text.len() || text[from] == delimiter {
        from
    } else {
        end_of_field(text, from + 1, delimiter)
    }
}

/// A field ends within the text, at the first delimiter.
pub proof fn lemma_end_of_field(text: Seq<u8>, from: int, delimiter: u8)
    requires
        0 <= from <= text.len(),
    ensures
        from <= end_of_field(text, from, delimiter) <= text.len(),
        end_of_field(text, from, delimiter) < text.len() ==> text[end_of_field(text, from, delimiter)] == delimiter,
        forall|index: int| from <= index < end_of_field(text, from, delimiter) ==> text[index] != delimiter,
    decreases text.len() - from,
{
    if from < text.len() && text[from] != delimiter {
        lemma_end_of_field(text, from + 1, delimiter);
    }
}

/// The text of the start of the range in a line of the map: what is before the first hyphen.
pub open spec fn low_field(line: Seq<u8>) -> Seq<u8> {
    line.subrange(0, end_of_field(line, 0, 45))
}

/// The text of the end of the range in a line of the map: what is after the first hyphen and
/// before the first space after that.
pub open spec fn high_field(line: Seq<u8>) -> Seq<u8> {
    let from = if end_of_field(line, 0, 45) < line.len() {
        end_of_field(line, 0, 45) + 1
    } else {
        line.len() as int
    };
    line.subrange(from, end_of_field(line, from, 32))
}

/// The range that a line of the map of the memory of a process gives, such as
/// `17add6e9000-17add7ae000 r-xp 00000000 08:03 2228226 /bin/busybox`.
pub open spec fn range_in_line(line: Seq<u8>) -> Result<(usize, usize), OccupiedMemoryMapParseError> {
    match (usize_in_radix(low_field(line), 16), usize_in_radix(high_field(line), 16)) {
        (Some(low), Some(high)) => if low > high {
            Err(OccupiedMemoryMapParseError::InvalidLineInProcMap(InvalidLineInProcMap::LowIsGreaterThanHigh))
        } else {
            Ok((low, high))
        },
        _ => Err(OccupiedMemoryMapParseError::CouldNotConvertProcMapValue),
    }
}

/// Where the field that starts at `from` ends: at the first `delimiter`, or at the end of `text`.
pub fn find_end_of_field(text: &[u8], from: usize, delimiter: u8) -> (end: usize)
    requires
        from <= text@.len(),
    ensures
        end == end_of_field(text@, from as int, delimiter),
        from <= end <= text@.len(),
{
    proof {
        lemma_end_of_field(text@, from as int, delimiter);
    }
    let mut end: usize = from;
    while end < text.len() && text[end] != delimiter
        invariant
            from <= end <= text@.len(),
            end_of_field(text@, end as int, delimiter) == end_of_field(text@, from as int, delimiter),
        decreases text@.len() - end,
    {
        end += 1;
    }
    end
}

/// Parses a line of the map of the memory of a process: the start of a range in hexadecimal, a
/// hyphen, the end of the range in hexadecimal, a space, and what is of no concern here.
pub fn parse_process_map_line(line: &[u8]) -> (range: Result<(usize, usize), OccupiedMemoryMapParseError>)
    ensures
        range == range_in_line(line@),
{
    let end_of_low: usize = find_end_of_field(line, 0, 45);
    let start_of_high: usize = if end_of_low < line.len() {
        end_of_low + 1
    } else {
        line.len()
    };
    let end_of_high: usize = find_end_of_field(line, start_of_high, 32);
    let low_text = vstd::slice::slice_subrange(line, 0, end_of_low);
    let high_text = vstd::slice::slice_subrange(line, start_of_high, end_of_high);
    let low: usize = match parse_usize_in_radix(low_text, 16) {
        Some(low) => low,
        None => {
            return Err(OccupiedMemoryMapParseError::CouldNotConvertProcMapValue);
        },
    };
    let high: usize = match parse_usize_in_radix(high_text, 16) {
        Some(high) => high,
        None => {
            return Err(OccupiedMemoryMapParseError::CouldNotConvertProcMapValue);
        },
    };
    if low > high {
        return Err(OccupiedMemoryMapParseError::InvalidLineInProcMap(InvalidLineInProcMap::LowIsGreaterThanHigh));
    }
    Ok((low, high))
}

/// The lines as what they hold.
pub open spec fn lines_of(lines: Seq<Vec<u8>>) -> Seq<Seq<u8>> {
    Seq::new(lines.len(), |index: int| lines[index]@)
}

/// The ranges that the first `count` of `lines` give: each line gives a range, which is put among
/// the ranges of the lines before it. The first line that fails ends the reading.
pub open spec fn ranges_read(lines: Seq<Seq<u8>>, count: int) -> Result<
    Seq<(usize, usize)>,
    OccupiedMemoryMapParseError,
>
    decreases count,
{
    if count <= 0 {
        Ok(Seq::empty())
    } else {
        match ranges_read(lines, count - 1) {
            Err(error) => Err(error),
            Ok(before) => match range_in_line(lines[count - 1]) {
                Err(error) => Err(error),
                Ok((low, high)) => range_put(before, low, high),
            },
        }
    }
}

/// Reads the lines of the map of the memory of the current process into `occupied_memory_ranges`,
/// one range for each line. Ends at the first line that fails, with what it failed for.
pub fn parse_current_process_map_file(lines: &Vec<Vec<u8>>, occupied_memory_ranges: &mut OccupiedMemoryRanges) -> (parsed:
    Result<(), OccupiedMemoryMapParseError>)
    requires
        old(occupied_memory_ranges).ranges@.len() == 0,
    ensures
        parsed is Ok <==> ranges_read(lines_of(lines@), lines@.len() as int) is Ok,
        parsed is Ok ==> ranges_read(lines_of(lines@), lines@.len() as int) == Ok::<
            Seq<(usize, usize)>,
            OccupiedMemoryMapParseError,
        >(final(occupied_memory_ranges).ranges@) && final(occupied_memory_ranges).wf(),
        parsed is Err ==> ranges_read(lines_of(lines@), lines@.len() as int) == Err::<
            Seq<(usize, usize)>,
            OccupiedMemoryMapParseError,
        >(parsed->Err_0),
{
    let mut index: usize = 0;
    assert(occupied_memory_ranges.ranges@ =~= Seq::empty());
    while index < lines.len()
        invariant
            index <= lines@.len(),
            occupied_memory_ranges.wf(),
            ranges_read(lines_of(lines@), index as int) == Ok::<Seq<(usize, usize)>, OccupiedMemoryMapParseError>(
                occupied_memory_ranges.ranges@,
            ),
        decreases lines@.len() - index,
    {
        proof {
            assert(lines_of(lines@)[index as int] == lines@[index as int]@);
        }
        let (low, high) = match parse_process_map_line(lines[index].as_slice()) {
            Ok(range) => range,
            Err(error) => {
                proof {
                    lemma_reading_ends_at_failure(lines_of(lines@), index + 1, lines@.len() as int);
                }
                return Err(error);
            },
        };
        match occupied_memory_ranges.insert(low, high) {
            Ok(()) => {},
            Err(error) => {
                proof {
                    lemma_reading_ends_at_failure(lines_of(lines@), index + 1, lines@.len() as int);
                }
                return Err(error);
            },
        }
        index += 1;
    }
    Ok(())
}

/// Once a line has failed, the reading has failed, for what that line failed for.
pub proof fn lemma_reading_ends_at_failure(lines: Seq<Seq<u8>>, failed: int, count: int)
    requires
        0 <= failed <= count,
        ranges_read(lines, failed) is Err,
    ensures
        ranges_read(lines, count) == ranges_read(lines, failed),
    decreases count - failed,
{
    if failed < count {
        lemma_reading_ends_at_failure(lines, failed, count - 1);
    }
}

/// The ranges of memory that are occupied, from the lines of the map of the memory of the current process.
pub fn occupied_memory_ranges(lines: &Vec<Vec<u8>>) -> (occupied: Result<
    OccupiedMemoryRanges,
    OccupiedMemoryMapParseError,
>)
    ensures
        occupied is Ok <==> ranges_read(lines_of(lines@), lines@.len() as int) is Ok,
        occupied is Ok ==> ranges_read(lines_of(lines@), lines@.len() as int) == Ok::<
            Seq<(usize, usize)>,
            OccupiedMemoryMapParseError,
        >(occupied->Ok_0.ranges@) && occupied->Ok_0.wf(),
        occupied is Err ==> ranges_read(lines_of(lines@), lines@.len() as int) == Err::<
            Seq<(usize, usize)>,
            OccupiedMemoryMapParseError,
        >(occupied->Err_0),
{
    let mut occupied_memory_ranges: OccupiedMemoryRanges = OccupiedMemoryRanges::new();
    match parse_current_process_map_file(lines, &mut occupied_memory_ranges) {
        Ok(()) => Ok(occupied_memory_ranges),
        Err(error) => Err(error),
    }
}

} // verus!
