//! The rules of the worker-pool executor that the runtime can be handed to:
//! how many workers run, and which worker counts a builder accepts.
use vstd::prelude::*;

use crate::error::{CMDKitError, CMDKitErrorModel};
use crate::text::owned;

verus! {

pub open spec fn zero_workers_message() -> Seq<char> {
    "worker_count must be greater than 0"@
}

/// The number of worker threads for a requested count: a request of 0 runs
/// one worker.
pub fn worker_threads(requested: usize) -> (r: usize)
    ensures
        r == if requested == 0 {
            1
        } else {
            requested
        },
{
    if requested == 0 {
        1
    } else {
        requested
    }
}

/// A builder accepts a worker count greater than 0 and refuses 0 as an
/// unavailable executor.
pub fn check_worker_count(worker_count: usize) -> (r: Result<usize, CMDKitError>)
    ensures
        worker_count > 0 ==> r == Ok::<usize, CMDKitError>(worker_count),
        worker_count == 0 ==> (r matches Err(e) && e@ == (CMDKitErrorModel::ExecutorUnavailable {
            message: zero_workers_message(),
        })),
{
    if worker_count == 0 {
        Err(CMDKitError::ExecutorUnavailable { message: owned("worker_count must be greater than 0") })
    } else {
        Ok(worker_count)
    }
}

} // verus!
