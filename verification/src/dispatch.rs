//! The batch dispatch policy: a cluster with a concurrency cap takes
//! only as many new jobs as the cap leaves room for; the overflow goes
//! to the virtual queue instead of being dropped, keeping its order.

use vstd::prelude::*;

verus! {

/// How many of `n_jobs` may be launched now on a cluster whose cap and
/// current queue length are given: all of them without a cap, else
/// `min(n_jobs, max_jobs - enqueued)`, the subtraction saturating.
pub open spec fn allowed_launches(n_jobs: nat, max_jobs: Option<u32>, enqueued: nat) -> nat {
    match max_jobs {
        None => n_jobs,
        Some(m) => {
            let room = if m >= enqueued {
                m - enqueued
            } else {
                0
            };
            if n_jobs <= room {
                n_jobs
            } else {
                room as nat
            }
        },
    }
}

/// Computes how many jobs of a batch are launched now; the rest are
/// deferred to the virtual queue.  The first `r` jobs of the batch
/// launch, in batch order; the remaining `n_jobs - r` follow, in that
/// same order, as deferred jobs.
pub fn plan_launches(n_jobs: usize, max_jobs: Option<u32>, enqueued: usize) -> (r: usize)
    ensures
        r == allowed_launches(n_jobs as nat, max_jobs, enqueued as nat),
        r <= n_jobs,
{
    match max_jobs {
        None => n_jobs,
        Some(m) => {
            let cap: usize = m as usize;
            let room: usize = if cap >= enqueued {
                cap - enqueued
            } else {
                0
            };
            if n_jobs <= room {
                n_jobs
            } else {
                room
            }
        },
    }
}

/// Never more launches than jobs, and never more than the room the cap
/// leaves: the cap is respected and no job is dropped.
pub proof fn lemma_cap_respected(n_jobs: nat, m: u32, enqueued: nat)
    ensures
        allowed_launches(n_jobs, Some(m), enqueued) <= n_jobs,
        allowed_launches(n_jobs, Some(m), enqueued) + enqueued <= m || enqueued > m,
{
}

} // verus!
