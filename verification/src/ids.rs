//! The numeric task-id source. Ids must be process-unique and monotonic,
//! which only the execution engine's own allocator can guarantee across
//! every graph compiled in one process, so the compiler draws from it
//! rather than keeping a counter of its own.

use vstd::prelude::*;

verus! {

/// Relies on `dagrs::alloc_id`: one `fetch_add` on the engine's
/// process-wide atomic task-id counter. The value drawn depends on
/// allocator state, not on any argument, so nothing is promised of it;
/// every caller must be correct for an arbitrary id. (The allocator
/// panics only if the process exhausts the `usize` counter.)
#[verifier::external_body]
pub(crate) fn alloc_task_id() -> usize {
    dagrs::alloc_id()
}

} // verus!
