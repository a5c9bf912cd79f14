use vstd::prelude::*;

verus! {

/// The number of workers when none is configured.
pub const DEFAULT_WORKER_COUNT: usize = 50;

/// The capacity of the work queue for a pool of `worker_count` workers:
/// two places for each worker. A pool needs at least one worker, and the
/// capacity must be a number the machine can hold.
pub fn queue_capacity(worker_count: usize) -> (capacity: Option<usize>)
    ensures
        capacity.is_some() == (1 <= worker_count && 2 * worker_count <= usize::MAX),
        capacity.is_some() ==> capacity.unwrap() == 2 * worker_count,
{
    if worker_count == 0 {
        None
    } else {
        worker_count.checked_mul(2)
    }
}

} // verus!
