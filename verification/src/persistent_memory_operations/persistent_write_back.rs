use crate::intrinsics::start_of_cache_line;
use crate::persistent_memory_operations::persistence_domain::PersistenceDomain;
use vstd::prelude::*;

verus! {

/// Initiates the write-back to persistent memory of the cache line that holds `address`.
///
/// Non-blocking. Use it immediately after a store and after a load with acquire ordering.
pub fn persistent_write_back(domain: &mut PersistenceDomain, address: usize)
    ensures
        final(domain)@ == old(domain)@.write_back(start_of_cache_line(address)),
        final(domain).instruction() == old(domain).instruction(),
{
    domain.record_write_back(address);
}

} // verus!
