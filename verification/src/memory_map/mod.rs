pub mod find_lowest_unoccupied_address_in_process_map;
pub mod mapped_memory;
pub mod memory_map_address;
pub mod occupied_memory_map_parse_error;
pub mod occupied_memory_ranges;
pub mod process_map;
