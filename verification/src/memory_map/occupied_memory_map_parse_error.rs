use vstd::prelude::*;

verus! {

/// What is wrong with a line of the map of the memory of a process.
#[derive(Debug, Copy, Clone, PartialEq, Eq, Structural, Hash)]
pub enum InvalidLineInProcMap {
    /// A range starts after it ends.
    LowIsGreaterThanHigh,
    /// A range that was read before starts in the range.
    AlreadyPresent,
    /// The range starts in a range that was read before.
    Overlaps,
    /// There is no range at all, and so none for the stack.
    NoStackLine,
}

impl InvalidLineInProcMap {
    /// What is wrong, in words.
    pub fn description(self) -> (description: &'static str)
        ensures
            description@ == (match self {
                InvalidLineInProcMap::LowIsGreaterThanHigh => "low is greater than high"@,
                InvalidLineInProcMap::AlreadyPresent => "low .. high already present"@,
                InvalidLineInProcMap::Overlaps => "low .. high overlaps"@,
                InvalidLineInProcMap::NoStackLine => "There is no [stack] line"@,
            }),
    {
        match self {
            InvalidLineInProcMap::LowIsGreaterThanHigh => "low is greater than high",
            InvalidLineInProcMap::AlreadyPresent => "low .. high already present",
            InvalidLineInProcMap::Overlaps => "low .. high overlaps",
            InvalidLineInProcMap::NoStackLine => "There is no [stack] line",
        }
    }
}

/// Reason for failing to make out which memory of a process is occupied.
#[derive(Debug, Copy, Clone, PartialEq, Eq, Structural, Hash)]
pub enum OccupiedMemoryMapParseError {
    /// Could not convert a value in a line of the map of the memory of the process.
    CouldNotConvertProcMapValue,
    /// Invalid line in the map of the memory of the process.
    InvalidLineInProcMap(InvalidLineInProcMap),
}

} // verus!
