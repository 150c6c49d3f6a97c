use crate::intrinsics::round_address_down_to_start_of_cache_line;
use crate::intrinsics::start_of_cache_line;
use crate::intrinsics::CACHE_LINE_SIZE;
use crate::persistent_memory_operations::persistence_domain::PersistenceDomain;
use crate::persistent_memory_operations::persistent_fence::persistent_fence;
use crate::persistent_memory_operations::persistent_write_back::persistent_write_back;
use vstd::prelude::*;

verus! {

/// Does the cache line that starts at `line` hold one of the `length` bytes from `address` on?
pub open spec fn is_line_of(line: usize, address: usize, length: usize) -> bool {
    line as int % CACHE_LINE_SIZE as int == 0 && start_of_cache_line(address) <= line < address + length
}

/// Writes back every cache line that holds one of the `length` bytes from `address` on, and then
/// makes a fence.
pub fn flush_memory(domain: &mut PersistenceDomain, address: usize, length: usize)
    requires
        address + length <= usize::MAX,
    ensures
        final(domain)@.in_flight =~= Set::<usize>::empty(),
        forall|line: usize|
            final(domain)@.unwritten.contains(line) <==> old(domain)@.unwritten.contains(line) && !is_line_of(
                line,
                address,
                length,
            ),
        final(domain).instruction() == old(domain).instruction(),
        old(domain)@.is_written_back() ==> final(domain)@.is_quiescent(),
{
    let end: usize = address + length;
    let first: usize = round_address_down_to_start_of_cache_line(address);
    let mut line: usize = first;
    while line < end
        invariant
            first == start_of_cache_line(address),
            first <= line,
            line == first || line - CACHE_LINE_SIZE < end,
            line as int % CACHE_LINE_SIZE as int == 0,
            end == address + length,
            domain.instruction() == old(domain).instruction(),
            forall|other: usize|
                domain@.unwritten.contains(other) <==> old(domain)@.unwritten.contains(other) && !(other as int
                    % CACHE_LINE_SIZE as int == 0 && first <= other < line),
        decreases usize::MAX - line,
    {
        assert(start_of_cache_line(line) == line);
        persistent_write_back(domain, line);
        if line > usize::MAX - CACHE_LINE_SIZE {
            proof {
                assert forall|other: usize|
                    domain@.unwritten.contains(other) <==> old(domain)@.unwritten.contains(other) && !is_line_of(
                        other,
                        address,
                        length,
                    ) by {
                    if other as int % CACHE_LINE_SIZE as int == 0 && other > line {
                        assert(other >= line + CACHE_LINE_SIZE);
                    }
                }
            }
            persistent_fence(domain);
            return ;
        }
        proof {
            assert forall|other: usize|
                domain@.unwritten.contains(other) <==> old(domain)@.unwritten.contains(other) && !(other as int
                    % CACHE_LINE_SIZE as int == 0 && first <= other < line + CACHE_LINE_SIZE) by {
                if other as int % CACHE_LINE_SIZE as int == 0 && line < other < line + CACHE_LINE_SIZE {
                    assert(false);
                }
            }
        }
        line = line + CACHE_LINE_SIZE;
    }
    proof {
        assert forall|other: usize|
            domain@.unwritten.contains(other) <==> old(domain)@.unwritten.contains(other) && !is_line_of(
                other,
                address,
                length,
            ) by {
            if other as int % CACHE_LINE_SIZE as int == 0 && end <= other < line {
                assert(false);
            }
        }
    }
    persistent_fence(domain);
}

} // verus!
