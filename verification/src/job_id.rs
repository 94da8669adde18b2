//! The ids of jobs: random, and never 0, which stands for no job.

use vstd::prelude::*;
use crate::comms::{RelayConnectionReason, RelayJob, ToMinionPayload, ToMinionPayloadDetail};

verus! {

/// `rand::random::<u64>()`: a number from the thread's random generator.
/// Nothing is claimed of it.
#[verifier::external_body]
pub(crate) fn random_number() -> u64 {
    rand::random::<u64>()
}

/// The job id made of the random number `raw`: the number itself, or 1
/// in place of 0.
pub open spec fn job_id_from(raw: u64) -> u64 {
    if raw == 0 {
        1
    } else {
        raw
    }
}

/// The job id made of the random number `raw`.
pub fn nonzero_job_id(raw: u64) -> (r: u64)
    ensures
        r == job_id_from(raw),
        r != 0,
{
    if raw == 0 {
        1
    } else {
        raw
    }
}

/// A job id that was not used before, as far as chance allows.
pub fn fresh_job_id() -> (r: u64)
    ensures
        r != 0,
{
    nonzero_job_id(random_number())
}

/// The job id made of the random number `raw` for a job that went by the
/// id `old`: the id made of the number, or, where that is the old id, the
/// id after it, which is 1 after the last.
pub open spec fn job_id_apart(raw: u64, old: u64) -> u64 {
    let id = job_id_from(raw);
    if id != old {
        id
    } else if id == u64::MAX {
        1
    } else {
        (id + 1) as u64
    }
}

/// The job id made of the random number `raw` for a job that went by the
/// id `old`.
pub fn job_id_other_than(raw: u64, old: u64) -> (r: u64)
    ensures
        r == job_id_apart(raw, old),
        r != 0,
        r != old,
{
    let id = nonzero_job_id(raw);
    if id != old {
        id
    } else if id == u64::MAX {
        1
    } else {
        id + 1
    }
}

/// A new job id for a job that went by the id `old`.
pub fn fresh_job_id_other_than(old: u64) -> (r: u64)
    ensures
        r != 0,
        r != old,
{
    job_id_other_than(random_number(), old)
}

impl RelayJob {
    /// A job for `reason` with the order `detail`, under a fresh id.
    pub fn fresh(reason: RelayConnectionReason, detail: ToMinionPayloadDetail) -> (r: RelayJob)
        ensures
            r.reason == reason,
            r.payload.detail == detail,
            r.payload.job_id != 0,
    {
        RelayJob { reason, payload: ToMinionPayload { job_id: fresh_job_id(), detail } }
    }
}

} // verus!
