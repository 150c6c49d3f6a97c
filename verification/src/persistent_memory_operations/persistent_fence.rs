use crate::persistent_memory_operations::persistence_domain::PersistenceDomain;
use vstd::prelude::*;

verus! {

/// Enforces an ordering between previous and subsequent write-backs of the current thread.
///
/// Use it immediately before a store with release ordering, and after the write-back that follows a load
/// with acquire ordering.
pub fn persistent_fence(domain: &mut PersistenceDomain)
    ensures
        final(domain)@ == old(domain)@.fence(),
        final(domain).instruction() == old(domain).instruction(),
{
    domain.record_fence();
}

} // verus!
