//! The supervisor's books as mathematics.

use vstd::prelude::*;
use crate::comms::{
    shutdown_payload, JobView, MessageView, RelayConnectionReason, RelayJob, ToMinionMessage,
    ToMinionPayload,
};
use crate::url::RelayUrl;

verus! {

/// A connected relay and the jobs it is connected for.
#[derive(Debug)]
pub struct ConnectedRelay {
    pub url: RelayUrl,
    pub jobs: Vec<RelayJob>,
}

/// A worker task and the relay it serves.
#[derive(Debug)]
pub struct MinionTask {
    pub id: u64,
    pub url: RelayUrl,
}

/// Whether the relay `url` is connected.
pub open spec fn has_connection(connected: Seq<ConnectedRelay>, url: Seq<char>) -> bool {
    exists|i: int| 0 <= i < connected.len() && (#[trigger] connected[i]).url@ == url
}

/// Whether a worker task `id` runs.
pub open spec fn has_task(tasks: Seq<MinionTask>, id: u64) -> bool {
    exists|i: int| 0 <= i < tasks.len() && (#[trigger] tasks[i]).id == id
}

/// Whether a worker task serves the relay `url`.
pub open spec fn has_task_for(tasks: Seq<MinionTask>, url: Seq<char>) -> bool {
    exists|i: int| 0 <= i < tasks.len() && (#[trigger] tasks[i]).url@ == url
}

/// The jobs for which the relay `url` is connected; none where it is not.
pub open spec fn jobs_of(connected: Seq<ConnectedRelay>, url: Seq<char>) -> Seq<RelayJob> {
    if has_connection(connected, url) {
        let i = choose|i: int| 0 <= i < connected.len() && (#[trigger] connected[i]).url@ == url;
        connected[i].jobs@
    } else {
        Seq::empty()
    }
}

/// Whether no relay is connected twice.
pub open spec fn distinct_connections(connected: Seq<ConnectedRelay>) -> bool {
    forall|i: int, j: int|
        0 <= i < connected.len() && 0 <= j < connected.len() && i != j ==> (
        #[trigger] connected[i]).url@ != (#[trigger] connected[j]).url@
}

/// Whether no two worker tasks have one id or serve one relay.
pub open spec fn distinct_tasks(tasks: Seq<MinionTask>) -> bool {
    forall|i: int, j: int|
        0 <= i < tasks.len() && 0 <= j < tasks.len() && i != j ==> (#[trigger] tasks[i]).id != (
        #[trigger] tasks[j]).id && tasks[i].url@ != tasks[j].url@
}

/// With each relay once, the jobs of a relay are those of its entry.
pub proof fn lemma_jobs_at(connected: Seq<ConnectedRelay>, i: int)
    requires
        distinct_connections(connected),
        0 <= i < connected.len(),
    ensures
        has_connection(connected, connected[i].url@),
        jobs_of(connected, connected[i].url@) == connected[i].jobs@,
{
    let url = connected[i].url@;
    let c = choose|c: int| 0 <= c < connected.len() && (#[trigger] connected[c]).url@ == url;
    assert(c == i);
}

/// Whether `after` is `before` with the jobs of the relay `url`, which is
/// connected, replaced by `jobs`.
pub open spec fn jobs_replaced(
    before: Seq<ConnectedRelay>,
    after: Seq<ConnectedRelay>,
    url: Seq<char>,
    jobs: Seq<RelayJob>,
) -> bool {
    &&& after.len() == before.len()
    &&& forall|i: int| 0 <= i < before.len() ==> (#[trigger] after[i]).url == before[i].url
    &&& forall|i: int|
        0 <= i < before.len() && before[i].url@ != url ==> (#[trigger] after[i]) == before[i]
    &&& forall|i: int|
        0 <= i < before.len() && before[i].url@ == url ==> (#[trigger] after[i]).jobs@ == jobs
}

/// Whether `after` is `before` with the relay `url`, which was not
/// connected, connected for `jobs`.
pub open spec fn connection_added(
    before: Seq<ConnectedRelay>,
    after: Seq<ConnectedRelay>,
    url: Seq<char>,
    jobs: Seq<RelayJob>,
) -> bool {
    &&& after.len() == before.len() + 1
    &&& after.drop_last() == before
    &&& after.last().url@ == url
    &&& after.last().jobs@ == jobs
}

/// Whether `after` is `before` without the relay `url`.
pub open spec fn connection_removed(
    before: Seq<ConnectedRelay>,
    after: Seq<ConnectedRelay>,
    url: Seq<char>,
) -> bool {
    if has_connection(before, url) {
        exists|k: int|
            0 <= k < before.len() && (#[trigger] before[k]).url@ == url && after == before.remove(
                k,
            )
    } else {
        after == before
    }
}

/// The jobs that are not the job `id`.
pub open spec fn jobs_without_id(jobs: Seq<RelayJob>, id: u64) -> Seq<RelayJob>
    decreases jobs.len(),
{
    if jobs.len() == 0 {
        jobs
    } else {
        let rest = jobs_without_id(jobs.drop_last(), id);
        if jobs.last().payload.job_id != id {
            rest.push(jobs.last())
        } else {
            rest
        }
    }
}

/// The jobs that are not for `reason`.
pub open spec fn jobs_without_reason(jobs: Seq<RelayJob>, reason: RelayConnectionReason) -> Seq<
    RelayJob,
>
    decreases jobs.len(),
{
    if jobs.len() == 0 {
        jobs
    } else {
        let rest = jobs_without_reason(jobs.drop_last(), reason);
        if jobs.last().reason != reason {
            rest.push(jobs.last())
        } else {
            rest
        }
    }
}

/// The persistent ones among the jobs.
pub open spec fn persistent_jobs(jobs: Seq<RelayJob>) -> Seq<RelayJob>
    decreases jobs.len(),
{
    if jobs.len() == 0 {
        jobs
    } else {
        let rest = persistent_jobs(jobs.drop_last());
        if jobs.last().reason.spec_persistent() {
            rest.push(jobs.last())
        } else {
            rest
        }
    }
}

/// The job `job` under the id `id`.
pub open spec fn with_job_id(job: RelayJob, id: u64) -> RelayJob {
    RelayJob {
        reason: job.reason,
        payload: ToMinionPayload { job_id: id, detail: job.payload.detail },
    }
}

/// The jobs after a worker has put the job `new` in the place of the job
/// `old`: the row of `new` is gone, and the row of `old` goes by the id
/// `new`.
pub open spec fn jobs_renumbered(jobs: Seq<RelayJob>, old: u64, new: u64) -> Seq<RelayJob>
    decreases jobs.len(),
{
    if jobs.len() == 0 {
        jobs
    } else {
        let rest = jobs_renumbered(jobs.drop_last(), old, new);
        let job = jobs.last();
        if job.payload.job_id == new {
            rest
        } else if job.payload.job_id == old {
            rest.push(with_job_id(job, new))
        } else {
            rest.push(job)
        }
    }
}

/// Whether a relay connected for `jobs` is to be disconnected: nothing is
/// left to do, or only to fetch augments.
pub open spec fn is_idle(jobs: Seq<RelayJob>) -> bool {
    jobs.len() == 0 || (jobs.len() == 1 && jobs[0].reason == RelayConnectionReason::FetchAugments)
}

/// The order to stop for the worker of the relay `url`.
pub open spec fn shutdown_for(url: Seq<char>) -> MessageView {
    MessageView { target: url, payload: shutdown_payload() }
}

/// What the workers are sent when the jobs `jobs` are handed to the worker
/// of the relay `url`: the order of each job, addressed to the relay.
pub open spec fn forwarded(msgs: Seq<ToMinionMessage>, url: Seq<char>, jobs: Seq<RelayJob>) -> bool {
    &&& msgs.len() == jobs.len()
    &&& forall|i: int|
        0 <= i < jobs.len() ==> (#[trigger] msgs[i])@ == (MessageView {
            target: url,
            payload: jobs[i].payload@,
        })
}

/// The supervisor's books.
pub struct OverlordState {
    /// The connected relays, each once, with their jobs.
    pub connected: Seq<ConnectedRelay>,
    /// The worker tasks that run, each for another relay.
    pub tasks: Seq<MinionTask>,
    pub shutting_down: bool,
}

impl OverlordState {
    /// Each relay is connected once, each task serves another relay, and a
    /// relay is connected exactly when a worker task serves it.
    pub open spec fn wf(self) -> bool {
        &&& distinct_connections(self.connected)
        &&& distinct_tasks(self.tasks)
        &&& forall|i: int|
            0 <= i < self.connected.len() ==> has_task_for(
                self.tasks,
                (#[trigger] self.connected[i]).url@,
            )
        &&& forall|i: int|
            0 <= i < self.tasks.len() ==> has_connection(
                self.connected,
                (#[trigger] self.tasks[i]).url@,
            )
    }
}

} // verus!
