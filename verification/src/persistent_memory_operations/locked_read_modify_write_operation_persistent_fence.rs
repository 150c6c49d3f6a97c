use crate::persistent_memory_operations::persistence_domain::PersistenceDomain;
use crate::persistent_memory_operations::persistent_fence::persistent_fence;
use vstd::prelude::*;

verus! {

/// The fence that precedes and follows a locked read-modify-write operation, such as a compare-and-swap,
/// a swap or a fetch-add.
///
/// It is left out where such operations order the write-backs themselves, which they do for the cache line
/// write-back and the optimized cache line flush.
pub fn locked_read_modify_write_operation_persistent_fence(domain: &mut PersistenceDomain)
    ensures
        final(domain)@ == old(domain)@.locked_operation_fence(old(domain).instruction()),
        final(domain).instruction() == old(domain).instruction(),
{
    if !domain.write_back_instruction().orders_with_locked_operations() {
        persistent_fence(domain);
    }
}

} // verus!
