use vstd::prelude::*;

verus! {

/// Cache line size, in bytes, of the processors this library is meant for.
pub const CACHE_LINE_SIZE: usize = 64;

/// The address of the first byte of the cache line that holds `address`.
pub open spec fn start_of_cache_line(address: usize) -> usize {
    (address - address % CACHE_LINE_SIZE) as usize
}

/// Aligns an address to the start of a cache line by rounding it down.
pub fn round_address_down_to_start_of_cache_line(address: usize) -> (line: usize)
    ensures
        line == start_of_cache_line(address),
        line % CACHE_LINE_SIZE == 0,
        line <= address < line + CACHE_LINE_SIZE,
{
    let cache_line_flags: usize = !(CACHE_LINE_SIZE - 1);
    let line: usize = address & cache_line_flags;
    assert(address & !((64usize - 1) as usize) == (address - address % 64usize) as usize) by (bit_vector);
    line
}

} // verus!
