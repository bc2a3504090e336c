//! How many workers a render is given.

use vstd::prelude::*;

verus! {

/// The number of workers for a request of `requested` threads on a machine
/// with `available` processors: the request, but at least one and no more
/// than the machine has.
pub open spec fn clamped_workers(requested: usize, available: usize) -> usize {
    if requested < 1 {
        1
    } else if requested > available {
        available
    } else {
        requested
    }
}

/// Limits a requested number of threads to what the machine offers.
pub fn worker_count(requested: usize, available: usize) -> (workers: usize)
    requires
        available >= 1,
    ensures
        workers == clamped_workers(requested, available),
        1 <= workers <= available,
{
    if requested < 1 {
        1
    } else if requested > available {
        available
    } else {
        requested
    }
}

/// `num_cpus::get`: the number of logical processors this process may use.
/// Its documentation promises at least one; the number depends on the machine
/// and on the limits the process runs under.
#[verifier::external_body]
pub(crate) fn logical_cpus() -> (count: usize)
    ensures
        count >= 1,
{
    num_cpus::get()
}

/// The number of workers that leaves one of `available` processors free.
pub open spec fn all_but_one(available: usize) -> int {
    available - 1
}

/// The number of workers of a render that is waited for on a machine with
/// `available` processors: all of them but one, so none on a machine with a
/// single processor.
pub fn workers_for_batch(available: usize) -> (workers: usize)
    requires
        available >= 1,
    ensures
        workers == all_but_one(available),
        workers == available - 1,
{
    available - 1
}

/// The number of workers of a render that is waited for on this machine.
pub fn batch_worker_count() -> (workers: usize)
    ensures
        exists|available: usize| available >= 1 && workers == #[trigger] all_but_one(available),
{
    let available = logical_cpus();
    workers_for_batch(available)
}

} // verus!
