//! The driver's one decision: which converters a run performs.

use vstd::prelude::*;

verus! {

/// Which converters run for the given flags, as `(block hashes, bytecodes)`:
/// block hashes unless `bytecodes_only` is set, bytecodes unless
/// `block_hashes_only` is set; both flags together select neither.
pub fn conversion_plan(block_hashes_only: bool, bytecodes_only: bool) -> (r: (bool, bool))
    ensures
        r.0 == !bytecodes_only,
        r.1 == !block_hashes_only,
{
    (!bytecodes_only, !block_hashes_only)
}

} // verus!
