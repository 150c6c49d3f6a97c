use persistent_memory::dax::could_not_obtain_dax_device_statistic_error::CouldNotObtainDaxDeviceStatisticError;
use persistent_memory::dax::device_dax_statistic::device_dax_alignment;
use persistent_memory::dax::device_dax_statistic::device_dax_file_statistic_string;
use persistent_memory::dax::device_dax_statistic::find_dax_device_size;
use persistent_memory::dax::device_dax_statistic::find_device_dax_region_id;
use persistent_memory::dax::device_numbers::character_device_major_and_device_minor;
use persistent_memory::memory_map::find_lowest_unoccupied_address_in_process_map::find_lowest_unoccupied_address_in_process_map;
use persistent_memory::memory_map::mapped_memory::MappedMemory;
use persistent_memory::memory_map::memory_map_address::MemoryMapAddress;
use persistent_memory::memory_map::memory_map_address::MAP_FIXED;
use persistent_memory::memory_map::occupied_memory_map_parse_error::InvalidLineInProcMap;
use persistent_memory::memory_map::occupied_memory_map_parse_error::OccupiedMemoryMapParseError;
use persistent_memory::memory_map::occupied_memory_ranges::OccupiedMemoryRanges;
use persistent_memory::memory_map::process_map::occupied_memory_ranges;
use persistent_memory::memory_map::process_map::parse_process_map_line;
use persistent_memory::number_parsing::parse_usize_in_radix;
use persistent_memory::number_parsing::value_of_digit;

#[test]
fn numbers_are_parsed_in_a_radix() {
    assert_eq!(parse_usize_in_radix(b"0", 10), Some(0));
    assert_eq!(parse_usize_in_radix(b"4096", 10), Some(4096));
    assert_eq!(parse_usize_in_radix(b"+4096", 10), Some(4096));
    assert_eq!(parse_usize_in_radix(b"007", 10), Some(7));
    assert_eq!(parse_usize_in_radix(b"ff", 16), Some(255));
    assert_eq!(parse_usize_in_radix(b"Ff", 16), Some(255));
    assert_eq!(parse_usize_in_radix(b"17add6e9000", 16), Some(0x17add6e9000));
    assert_eq!(parse_usize_in_radix(b"777", 8), Some(511));
    assert_eq!(parse_usize_in_radix(b"zz", 36), Some(35 * 36 + 35));
    assert_eq!(parse_usize_in_radix(b"", 10), None);
    assert_eq!(parse_usize_in_radix(b"+", 10), None);
    assert_eq!(parse_usize_in_radix(b"-1", 10), None);
    assert_eq!(parse_usize_in_radix(b"++1", 10), None);
    assert_eq!(parse_usize_in_radix(b"12a", 10), None);
    assert_eq!(parse_usize_in_radix(b"8", 8), None);
    assert_eq!(parse_usize_in_radix(b" 1", 10), None);
    assert_eq!(parse_usize_in_radix(b"0x10", 16), None);
    assert_eq!(parse_usize_in_radix(b"18446744073709551615", 10), Some(usize::MAX));
    assert_eq!(parse_usize_in_radix(b"18446744073709551616", 10), None);
    assert_eq!(parse_usize_in_radix(b"ffffffffffffffff", 16), Some(usize::MAX));
    assert_eq!(parse_usize_in_radix(b"10000000000000000", 16), None);
    assert_eq!(parse_usize_in_radix(b"99999999999999999999999999x", 10), None);
    assert_eq!(value_of_digit(b'7'), Some(7));
    assert_eq!(value_of_digit(b'a'), Some(10));
    assert_eq!(value_of_digit(b'Z'), Some(35));
    assert_eq!(value_of_digit(b'/'), None);
    assert_eq!(value_of_digit(b':'), None);
    assert_eq!(value_of_digit(b'@'), None);
    assert_eq!(value_of_digit(b'['), None);
    assert_eq!(value_of_digit(b'`'), None);
    assert_eq!(value_of_digit(b'{'), None);
}

#[test]
fn a_statistic_ends_with_a_line_feed() {
    assert_eq!(device_dax_file_statistic_string(b"4096\n"), Ok(&b"4096"[..]));
    assert_eq!(device_dax_file_statistic_string(b"\n"), Ok(&b""[..]));
    assert_eq!(
        device_dax_file_statistic_string(b"4096"),
        Err(CouldNotObtainDaxDeviceStatisticError::StringDidNotEndWithLineFeed)
    );
    assert_eq!(
        device_dax_file_statistic_string(b""),
        Err(CouldNotObtainDaxDeviceStatisticError::StringDidNotEndWithLineFeed)
    );
}

#[test]
fn the_alignment_of_a_dax_device_is_decimal_or_else_hexadecimal() {
    assert_eq!(device_dax_alignment(b"2097152\n"), Ok(2097152));
    assert_eq!(device_dax_alignment(b"1000\n"), Ok(1000));
    assert_eq!(device_dax_alignment(b"20000a\n"), Ok(0x20000a));
    assert_eq!(device_dax_alignment(b"ff\n"), Ok(255));
    assert_eq!(device_dax_alignment(b"0x1000\n"), Err(CouldNotObtainDaxDeviceStatisticError::StringCouldNotBeParsed));
    assert_eq!(device_dax_alignment(b"\n"), Err(CouldNotObtainDaxDeviceStatisticError::StringCouldNotBeParsed));
    assert_eq!(device_dax_alignment(b"4096"), Err(CouldNotObtainDaxDeviceStatisticError::StringDidNotEndWithLineFeed));
    assert_eq!(device_dax_alignment(b"4096\n\n"), Err(CouldNotObtainDaxDeviceStatisticError::StringCouldNotBeParsed));
}

#[test]
fn the_region_id_of_a_dax_device_is_decimal() {
    assert_eq!(find_device_dax_region_id(b"0\n"), Ok(0));
    assert_eq!(find_device_dax_region_id(b"12\n"), Ok(12));
    assert_eq!(find_device_dax_region_id(b"c\n"), Err(CouldNotObtainDaxDeviceStatisticError::StringCouldNotBeParsed));
    assert_eq!(find_device_dax_region_id(b"12"), Err(CouldNotObtainDaxDeviceStatisticError::StringDidNotEndWithLineFeed));
}

#[test]
fn the_size_of_a_dax_device_is_hexadecimal_octal_or_decimal() {
    assert_eq!(find_dax_device_size(b"0x10\n"), Ok(16));
    assert_eq!(find_dax_device_size(b"010\n"), Ok(8));
    assert_eq!(find_dax_device_size(b"10\n"), Ok(10));
    assert_eq!(find_dax_device_size(b"0x\n"), Err(CouldNotObtainDaxDeviceStatisticError::StringCouldNotBeParsed));
    assert_eq!(find_dax_device_size(b"0\n"), Err(CouldNotObtainDaxDeviceStatisticError::StringCouldNotBeParsed));
    assert_eq!(find_dax_device_size(b"09\n"), Err(CouldNotObtainDaxDeviceStatisticError::StringCouldNotBeParsed));
    assert_eq!(find_dax_device_size(b"0X10\n"), Err(CouldNotObtainDaxDeviceStatisticError::StringCouldNotBeParsed));
    assert_eq!(find_dax_device_size(b"10"), Err(CouldNotObtainDaxDeviceStatisticError::StringDidNotEndWithLineFeed));
}

#[test]
fn the_number_of_a_device_holds_its_major_and_minor_numbers() {
    assert_eq!(character_device_major_and_device_minor(0x0803), (8, 3));
    assert_eq!(character_device_major_and_device_minor(0xfc00), (252, 0));
    assert_eq!(character_device_major_and_device_minor(0x0001_2345_6789_abcd), (0x129ab, 0x345678cd));
    assert_eq!(character_device_major_and_device_minor(u64::MAX), (u32::MAX, u32::MAX));
}

#[test]
fn a_line_of_the_process_map_gives_a_range() {
    assert_eq!(
        parse_process_map_line(b"17add6e9000-17add7ae000 r-xp 00000000 08:03 2228226                      /bin/busybox"),
        Ok((0x17add6e9000, 0x17add7ae000))
    );
    assert_eq!(parse_process_map_line(b"10-10 "), Ok((16, 16)));
    assert_eq!(parse_process_map_line(b"10-20"), Ok((16, 32)));
    assert_eq!(parse_process_map_line(b"a-b-c d"), Err(OccupiedMemoryMapParseError::CouldNotConvertProcMapValue));
    assert_eq!(parse_process_map_line(b""), Err(OccupiedMemoryMapParseError::CouldNotConvertProcMapValue));
    assert_eq!(parse_process_map_line(b"10"), Err(OccupiedMemoryMapParseError::CouldNotConvertProcMapValue));
    assert_eq!(parse_process_map_line(b"10- r-xp"), Err(OccupiedMemoryMapParseError::CouldNotConvertProcMapValue));
    assert_eq!(parse_process_map_line(b"10 20 r-xp"), Err(OccupiedMemoryMapParseError::CouldNotConvertProcMapValue));
    assert_eq!(parse_process_map_line(b"1g-20 r-xp"), Err(OccupiedMemoryMapParseError::CouldNotConvertProcMapValue));
    assert_eq!(
        parse_process_map_line(b"20-10 r-xp"),
        Err(OccupiedMemoryMapParseError::InvalidLineInProcMap(InvalidLineInProcMap::LowIsGreaterThanHigh))
    );
    assert_eq!(InvalidLineInProcMap::LowIsGreaterThanHigh.description(), "low is greater than high");
    assert_eq!(InvalidLineInProcMap::AlreadyPresent.description(), "low .. high already present");
    assert_eq!(InvalidLineInProcMap::Overlaps.description(), "low .. high overlaps");
    assert_eq!(InvalidLineInProcMap::NoStackLine.description(), "There is no [stack] line");
}

#[test]
fn occupied_ranges_are_kept_in_the_order_of_their_starts() {
    let mut ranges = OccupiedMemoryRanges::new();
    assert_eq!(ranges.insert(0x3000, 0x4000), Ok(()));
    assert_eq!(ranges.insert(0x1000, 0x2000), Ok(()));
    assert_eq!(ranges.insert(0x2000, 0x3000), Ok(()));
    assert_eq!(ranges.insert(0x5000, 0x5000), Ok(()));
    assert_eq!(ranges.ranges, vec![(0x1000, 0x2000), (0x2000, 0x3000), (0x3000, 0x4000), (0x5000, 0x5000)]);
    assert_eq!(ranges.number_of_ranges_starting_before(0x1000), 0);
    assert_eq!(ranges.number_of_ranges_starting_before(0x1001), 1);
    assert_eq!(ranges.number_of_ranges_starting_before(0x9000), 4);

    let already_present = Err(OccupiedMemoryMapParseError::InvalidLineInProcMap(InvalidLineInProcMap::AlreadyPresent));
    let overlaps = Err(OccupiedMemoryMapParseError::InvalidLineInProcMap(InvalidLineInProcMap::Overlaps));
    assert_eq!(ranges.insert(0x0800, 0x1001), already_present);
    assert_eq!(ranges.insert(0x1000, 0x1800), already_present);
    assert_eq!(ranges.insert(0x4800, 0x6000), already_present);
    assert_eq!(ranges.insert(0x3800, 0x3900), overlaps);
    assert_eq!(ranges.insert(0x3fff, 0x3fff), overlaps);
    assert_eq!(ranges.insert(0x4000, 0x5000), Ok(()));
    assert_eq!(ranges.insert(0x5000, 0x5000), Ok(()));
    assert_eq!(ranges.insert(0x0800, 0x1000), Ok(()));
    assert_eq!(
        ranges.ranges,
        vec![(0x0800, 0x1000), (0x1000, 0x2000), (0x2000, 0x3000), (0x3000, 0x4000), (0x4000, 0x5000), (0x5000, 0x5000)]
    );
}

#[test]
fn the_lines_of_the_process_map_give_the_occupied_ranges() {
    let lines = vec![
        b"00400000-00452000 r-xp 00000000 08:02 173521 /usr/bin/dbus-daemon".to_vec(),
        b"7ffc0d9c1000-7ffc0d9e2000 rw-p 00000000 00:00 0 [stack]".to_vec(),
        b"00651000-00652000 r--p 00051000 08:02 173521 /usr/bin/dbus-daemon".to_vec(),
    ];
    let occupied = occupied_memory_ranges(&lines).unwrap();
    assert_eq!(
        occupied.ranges,
        vec![(0x00400000, 0x00452000), (0x00651000, 0x00652000), (0x7ffc0d9c1000, 0x7ffc0d9e2000)]
    );
    assert_eq!(occupied_memory_ranges(&Vec::new()).unwrap().ranges, Vec::new());
    let lines = vec![b"1000-2000 r".to_vec(), b"1800-2800 r".to_vec(), b"x".to_vec()];
    assert_eq!(
        occupied_memory_ranges(&lines),
        Err(OccupiedMemoryMapParseError::InvalidLineInProcMap(InvalidLineInProcMap::Overlaps))
    );
    let lines = vec![b"1000-2000 r".to_vec(), b"x".to_vec(), b"1800-2800 r".to_vec()];
    assert_eq!(occupied_memory_ranges(&lines), Err(OccupiedMemoryMapParseError::CouldNotConvertProcMapValue));
}

#[test]
fn the_lowest_unoccupied_address_lies_below_the_stack() {
    let occupied = OccupiedMemoryRanges {
        ranges: vec![(0x1000, 0x3000), (0x4000, 0x4000), (0x8000, 0x9000), (0x20000, 0x30000)],
    };
    // From the size of a page on: the first range is in the way, then the empty range, then the third.
    assert_eq!(find_lowest_unoccupied_address_in_process_map(&occupied, 0x1000, 0, 0x2000, 0x1000), Ok(Some(0x5000)));
    assert_eq!(find_lowest_unoccupied_address_in_process_map(&occupied, 0x1000, 0, 0x4000, 0x1000), Ok(Some(0x9000)));
    assert_eq!(find_lowest_unoccupied_address_in_process_map(&occupied, 0x1000, 0x3001, 0x800, 0x1000), Ok(Some(0x5000)));
    assert_eq!(find_lowest_unoccupied_address_in_process_map(&occupied, 0x1000, 0x3000, 0x800, 0x800), Ok(Some(0x3000)));
    assert_eq!(find_lowest_unoccupied_address_in_process_map(&occupied, 0x1000, 0x9000, 0x17000, 0x1000), Ok(Some(0x9000)));
    assert_eq!(find_lowest_unoccupied_address_in_process_map(&occupied, 0x1000, 0x9000, 0x17001, 0x1000), Ok(None));
    assert_eq!(find_lowest_unoccupied_address_in_process_map(&occupied, 0x1000, 0x9001, 0x2000, 0x10000), Ok(Some(0x10000)));
    assert_eq!(find_lowest_unoccupied_address_in_process_map(&occupied, 0x1000, 0x40000, 1, 1), Ok(None));
    assert_eq!(find_lowest_unoccupied_address_in_process_map(&occupied, 0x1000, usize::MAX, 1, 2), Ok(None));
    assert_eq!(find_lowest_unoccupied_address_in_process_map(&occupied, 0x1000, 1, usize::MAX, 1), Ok(None));
    assert_eq!(
        find_lowest_unoccupied_address_in_process_map(&OccupiedMemoryRanges::new(), 0x1000, 0, 1, 1),
        Err(OccupiedMemoryMapParseError::InvalidLineInProcMap(InvalidLineInProcMap::NoStackLine))
    );
}

#[test]
fn the_address_to_map_at_follows_the_option() {
    let occupied = OccupiedMemoryRanges { ranges: vec![(0x1000, 0x3000), (0x20000, 0x30000)] };
    assert_eq!(MemoryMapAddress::Random.address(0x1000, 0x1000, 1, &occupied, 0x1000), Ok((0, 1)));
    assert_eq!(
        MemoryMapAddress::Hint { minimum_address: 0 }.address(0x1000, 0x1000, 1, &occupied, 0x1000),
        Ok((0x3000, 1))
    );
    assert_eq!(
        MemoryMapAddress::Hint { minimum_address: 0x5001 }.address(0x1000, 0x1000, 1, &occupied, 0x1000),
        Ok((0x6000, 1))
    );
    assert_eq!(
        MemoryMapAddress::Hint { minimum_address: 0x5001 }.address(0x100000, 0x1000, 1, &occupied, 0x1000),
        Ok((0, 1))
    );
    assert_eq!(
        MemoryMapAddress::Hint { minimum_address: 0 }.address(1, 1, 1, &OccupiedMemoryRanges::new(), 0x1000),
        Err(OccupiedMemoryMapParseError::InvalidLineInProcMap(InvalidLineInProcMap::NoStackLine))
    );
    assert_eq!(MAP_FIXED, 0x10);
    assert_eq!(
        MemoryMapAddress::Mandatory { unaligned_address: 0x5001 }.address(0x1000, 0x1000, 1, &occupied, 0x1000),
        Ok((0x6000, 0x11))
    );
    assert_eq!(
        MemoryMapAddress::Mandatory { unaligned_address: 0x6000 }.address(0x1000, 0x1000, 0x10, &occupied, 0x1000),
        Ok((0x6000, 0x10))
    );
}

#[test]
fn mapped_memory_tells_where_it_is_and_how_long() {
    let mapped_memory = MappedMemory::new(0x7000_0000, 0x20_0000, true);
    assert_eq!(mapped_memory.to_non_null(), 0x7000_0000);
    assert_eq!(mapped_memory.as_ptr(), 0x7000_0000);
    assert_eq!(mapped_memory.length(), 0x20_0000);
    assert!(mapped_memory.was_mapped_with_linux_sync_flag());
    assert!(!MappedMemory::new(1, 0, false).was_mapped_with_linux_sync_flag());
}
