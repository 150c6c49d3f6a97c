use crate::persistent_memory_operations::persistence_domain::PersistenceDomain;
use vstd::prelude::*;

verus! {

/// Returns once every write-back that the current thread started has reached persistent memory.
///
/// Use it before any action whose effect can be observed from outside, to mark a durability boundary.
pub fn persistent_sync(domain: &mut PersistenceDomain)
    ensures
        final(domain)@ == old(domain)@.sync(),
        final(domain).instruction() == old(domain).instruction(),
{
    domain.record_fence();
}

} // verus!
