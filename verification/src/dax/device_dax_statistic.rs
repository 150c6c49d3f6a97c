use crate::dax::could_not_obtain_dax_device_statistic_error::CouldNotObtainDaxDeviceStatisticError;
use crate::number_parsing::parse_usize_in_radix;
use crate::number_parsing::usize_in_radix;
use vstd::prelude::*;

verus! {

/// Does `statistic_string` end with a line feed?
pub open spec fn ends_with_line_feed(statistic_string: Seq<u8>) -> bool {
    statistic_string.len() > 0 && statistic_string.last() == 10
}

/// The alignment that `statistic` writes: a decimal number, or else a hexadecimal number.
pub open spec fn alignment_written(statistic: Seq<u8>) -> Option<usize> {
    if usize_in_radix(statistic, 10) is Some {
        usize_in_radix(statistic, 10)
    } else {
        usize_in_radix(statistic, 16)
    }
}

/// The size that `statistic` writes: a hexadecimal number after `0x`, an octal number after `0`,
/// or else a decimal number.
pub open spec fn size_written(statistic: Seq<u8>) -> Option<usize> {
    if statistic.len() >= 2 && statistic[0] == 48 && statistic[1] == 120 {
        usize_in_radix(statistic.skip(2), 16)
    } else if statistic.len() >= 1 && statistic[0] == 48 {
        usize_in_radix(statistic.skip(1), 8)
    } else {
        usize_in_radix(statistic, 10)
    }
}

/// What is read of a statistic: the number that `parsed` gives for the string without its line feed.
pub open spec fn statistic_read(statistic_string: Seq<u8>, parsed: Option<usize>) -> Result<
    usize,
    CouldNotObtainDaxDeviceStatisticError,
> {
    if !ends_with_line_feed(statistic_string) {
        Err(CouldNotObtainDaxDeviceStatisticError::StringDidNotEndWithLineFeed)
    } else {
        match parsed {
            Some(statistic) => Ok(statistic),
            None => Err(CouldNotObtainDaxDeviceStatisticError::StringCouldNotBeParsed),
        }
    }
}

/// The statistic string without the line feed that ends it.
pub fn device_dax_file_statistic_string(statistic_string: &[u8]) -> (statistic: Result<
    &[u8],
    CouldNotObtainDaxDeviceStatisticError,
>)
    ensures
        statistic is Ok <==> ends_with_line_feed(statistic_string@),
        statistic is Ok ==> statistic->Ok_0@ == statistic_string@.drop_last(),
        statistic is Err ==> statistic->Err_0 == CouldNotObtainDaxDeviceStatisticError::StringDidNotEndWithLineFeed,
{
    let length: usize = statistic_string.len();
    if length == 0 || statistic_string[length - 1] != 10 {
        return Err(CouldNotObtainDaxDeviceStatisticError::StringDidNotEndWithLineFeed);
    }
    let statistic = vstd::slice::slice_subrange(statistic_string, 0, length - 1);
    proof {
        assert(statistic@ =~= statistic_string@.drop_last());
    }
    Ok(statistic)
}

/// Device DAX alignment, from what the file `device/align` of the device holds.
/// Kernels from 4.9 on write it as a decimal number, kernels before that as a hexadecimal number.
pub fn device_dax_alignment(statistic_string: &[u8]) -> (alignment: Result<
    usize,
    CouldNotObtainDaxDeviceStatisticError,
>)
    ensures
        alignment == statistic_read(statistic_string@, alignment_written(statistic_string@.drop_last())),
{
    let statistic = match device_dax_file_statistic_string(statistic_string) {
        Ok(statistic) => statistic,
        Err(error) => {
            return Err(error);
        },
    };
    match parse_usize_in_radix(statistic, 10) {
        Some(alignment) => Ok(alignment),
        None => match parse_usize_in_radix(statistic, 16) {
            Some(alignment) => Ok(alignment),
            None => Err(CouldNotObtainDaxDeviceStatisticError::StringCouldNotBeParsed),
        },
    }
}

/// Device DAX region id, from what the file `device/dax_region/id` of the device holds: a decimal number.
pub fn find_device_dax_region_id(statistic_string: &[u8]) -> (region_id: Result<
    usize,
    CouldNotObtainDaxDeviceStatisticError,
>)
    ensures
        region_id == statistic_read(statistic_string@, usize_in_radix(statistic_string@.drop_last(), 10)),
{
    let statistic = match device_dax_file_statistic_string(statistic_string) {
        Ok(statistic) => statistic,
        Err(error) => {
            return Err(error);
        },
    };
    match parse_usize_in_radix(statistic, 10) {
        Some(region_id) => Ok(region_id),
        None => Err(CouldNotObtainDaxDeviceStatisticError::StringCouldNotBeParsed),
    }
}

/// DAX device size, from what the file `size` of the device holds: a hexadecimal number after `0x`,
/// an octal number after `0`, or else a decimal number.
pub fn find_dax_device_size(statistic_string: &[u8]) -> (size: Result<usize, CouldNotObtainDaxDeviceStatisticError>)
    ensures
        size == statistic_read(statistic_string@, size_written(statistic_string@.drop_last())),
{
    let statistic = match device_dax_file_statistic_string(statistic_string) {
        Ok(statistic) => statistic,
        Err(error) => {
            return Err(error);
        },
    };
    let length: usize = statistic.len();
    let parsed: Option<usize> = if length >= 2 && statistic[0] == 48 && statistic[1] == 120 {
        let digits = vstd::slice::slice_subrange(statistic, 2, length);
        proof {
            assert(digits@ =~= statistic@.skip(2));
        }
        parse_usize_in_radix(digits, 16)
    } else if length >= 1 && statistic[0] == 48 {
        let digits = vstd::slice::slice_subrange(statistic, 1, length);
        proof {
            assert(digits@ =~= statistic@.skip(1));
        }
        parse_usize_in_radix(digits, 8)
    } else {
        parse_usize_in_radix(statistic, 10)
    };
    match parsed {
        Some(size) => Ok(size),
        None => Err(CouldNotObtainDaxDeviceStatisticError::StringCouldNotBeParsed),
    }
}

} // verus!
