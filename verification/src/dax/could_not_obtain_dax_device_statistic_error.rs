use vstd::prelude::*;

verus! {

/// Reason for failing to obtain a statistic of a DAX device.
#[derive(Debug, Copy, Clone, PartialEq, Eq, Structural, Hash)]
pub enum CouldNotObtainDaxDeviceStatisticError {
    /// The statistic string did not end with a line feed.
    StringDidNotEndWithLineFeed,
    /// The statistic string could not be parsed.
    StringCouldNotBeParsed,
}

} // verus!
