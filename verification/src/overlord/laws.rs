//! What holds of the supervisor's books over any run of commands.

use vstd::prelude::*;
use crate::comms::RelayJob;
use crate::overlord::exit::{task_removed, task_url};
use crate::overlord::model::{
    connection_added, connection_removed, has_connection, has_task, jobs_renumbered,
    jobs_without_id, with_job_id, ConnectedRelay, MinionTask, OverlordState,
};

verus! {

/// Connecting a relay that was not connected and then disconnecting it
/// leaves the connected relays as they were.
pub proof fn lemma_connect_then_disconnect(
    before: Seq<ConnectedRelay>,
    mid: Seq<ConnectedRelay>,
    after: Seq<ConnectedRelay>,
    url: Seq<char>,
    jobs: Seq<RelayJob>,
)
    requires
        !has_connection(before, url),
        connection_added(before, mid, url, jobs),
        connection_removed(mid, after, url),
    ensures
        after == before,
{
    let last = mid.len() - 1;
    assert(mid[last].url@ == url);
    assert(has_connection(mid, url));
    let k = choose|k: int|
        0 <= k < mid.len() && (#[trigger] mid[k]).url@ == url && after == mid.remove(k);
    if k < last {
        assert(mid.drop_last()[k] == mid[k]);
        assert(before[k].url@ == url);
    }
    assert(mid.remove(last) =~= mid.drop_last());
}

/// Starting a worker for a relay that was not connected and then seeing
/// it exit leaves the books as they were.
pub proof fn lemma_start_then_exit(
    s: OverlordState,
    mid: OverlordState,
    after: OverlordState,
    task_id: u64,
    url: Seq<char>,
    jobs: Seq<RelayJob>,
)
    requires
        !has_connection(s.connected, url),
        !has_task(s.tasks, task_id),
        connection_added(s.connected, mid.connected, url, jobs),
        mid.tasks.len() == s.tasks.len() + 1,
        mid.tasks.drop_last() == s.tasks,
        mid.tasks.last().id == task_id,
        mid.tasks.last().url@ == url,
        mid.shutting_down == s.shutting_down,
        mid.exited(after, task_id),
    ensures
        after == s,
{
    let last = mid.tasks.len() - 1;
    assert(mid.tasks[last].id == task_id);
    let chosen = choose|i: int| 0 <= i < mid.tasks.len() && (#[trigger] mid.tasks[i]).id == task_id;
    if chosen < last {
        assert(mid.tasks.drop_last()[chosen] == mid.tasks[chosen]);
        assert(s.tasks[chosen].id == task_id);
    }
    assert(task_url(mid.tasks, task_id) == url);
    lemma_connect_then_disconnect(s.connected, mid.connected, after.connected, url, jobs);
    let k = choose|k: int|
        0 <= k < mid.tasks.len() && (#[trigger] mid.tasks[k]).id == task_id && after.tasks
            == mid.tasks.remove(k);
    if k < last {
        assert(mid.tasks.drop_last()[k] == mid.tasks[k]);
        assert(s.tasks[k].id == task_id);
    }
    assert(mid.tasks.remove(last) =~= mid.tasks.drop_last());
}

/// Finishing a job by its id takes away the jobs with that id and no
/// others, and leaves the rest in their order.
pub proof fn lemma_without_id(jobs: Seq<RelayJob>, id: u64)
    ensures
        jobs_without_id(jobs, id) == jobs.filter(|j: RelayJob| j.payload.job_id != id),
    decreases jobs.len(),
{
    reveal(Seq::filter);
    if jobs.len() > 0 {
        lemma_without_id(jobs.drop_last(), id);
    }
}

/// Adding a job whose id no other job has, and then finishing the job by
/// that id, leaves the jobs as they were.
pub proof fn lemma_engage_then_complete(jobs: Seq<RelayJob>, job: RelayJob)
    requires
        forall|i: int|
            0 <= i < jobs.len() ==> (#[trigger] jobs[i]).payload.job_id != job.payload.job_id,
    ensures
        jobs_without_id(jobs.push(job), job.payload.job_id) == jobs,
{
    assert(jobs.push(job).drop_last() =~= jobs);
    lemma_without_id_keeps(jobs, job.payload.job_id);
}

/// Finishing a job by an id that no job has changes nothing.
pub proof fn lemma_without_id_keeps(jobs: Seq<RelayJob>, id: u64)
    requires
        forall|i: int| 0 <= i < jobs.len() ==> (#[trigger] jobs[i]).payload.job_id != id,
    ensures
        jobs_without_id(jobs, id) == jobs,
    decreases jobs.len(),
{
    if jobs.len() > 0 {
        let rest = jobs.drop_last();
        assert forall|i: int| 0 <= i < rest.len() implies (#[trigger] rest[i]).payload.job_id
            != id by {
            assert(rest[i] == jobs[i]);
        }
        lemma_without_id_keeps(rest, id);
        assert(jobs[jobs.len() - 1].payload.job_id != id);
        assert(rest.push(jobs.last()) =~= jobs);
    }
}

/// After a worker has put the job `new` in the place of the job `old`, a
/// job is on the books under `new` exactly if one was under `old`; no row
/// goes by `old` any more; and every other row stands as it stood.
pub proof fn lemma_renumbered(jobs: Seq<RelayJob>, old: u64, new: u64)
    requires
        old != new,
    ensures
        forall|j: int|
            0 <= j < jobs_renumbered(jobs, old, new).len() ==> (#[trigger] jobs_renumbered(
                jobs,
                old,
                new,
            )[j]).payload.job_id != old,
        forall|j: int|
            0 <= j < jobs_renumbered(jobs, old, new).len() ==> exists|i: int|
                0 <= i < jobs.len() && (#[trigger] jobs[i]).payload.job_id != new && (
                #[trigger] jobs_renumbered(jobs, old, new)[j]) == if jobs[i].payload.job_id
                    == old {
                    with_job_id(jobs[i], new)
                } else {
                    jobs[i]
                },
        forall|i: int|
            0 <= i < jobs.len() && (#[trigger] jobs[i]).payload.job_id != new ==> jobs_renumbered(
                jobs,
                old,
                new,
            ).contains(
                if jobs[i].payload.job_id == old {
                    with_job_id(jobs[i], new)
                } else {
                    jobs[i]
                },
            ),
    decreases jobs.len(),
{
    let out = jobs_renumbered(jobs, old, new);
    if jobs.len() > 0 {
        let rest = jobs.drop_last();
        let last = jobs.last();
        lemma_renumbered(rest, old, new);
        let inner = jobs_renumbered(rest, old, new);
        assert forall|j: int| 0 <= j < out.len() implies (#[trigger] out[j]).payload.job_id
            != old by {
            if j < inner.len() {
                assert(out[j] == inner[j]);
            }
        }
        assert forall|j: int| 0 <= j < out.len() implies exists|i: int|
            0 <= i < jobs.len() && (#[trigger] jobs[i]).payload.job_id != new && (#[trigger] out[j])
                == if jobs[i].payload.job_id == old {
                with_job_id(jobs[i], new)
            } else {
                jobs[i]
            } by {
            if j < inner.len() {
                assert(out[j] == inner[j]);
                let i = choose|i: int|
                    0 <= i < rest.len() && (#[trigger] rest[i]).payload.job_id != new && (
                    #[trigger] inner[j]) == if rest[i].payload.job_id == old {
                        with_job_id(rest[i], new)
                    } else {
                        rest[i]
                    };
                assert(jobs[i] == rest[i]);
            } else {
                assert(jobs[jobs.len() - 1] == last);
            }
        }
        assert forall|i: int| 0 <= i < jobs.len() && (#[trigger] jobs[i]).payload.job_id
            != new implies out.contains(
            if jobs[i].payload.job_id == old {
                with_job_id(jobs[i], new)
            } else {
                jobs[i]
            },
        ) by {
            let want = if jobs[i].payload.job_id == old {
                with_job_id(jobs[i], new)
            } else {
                jobs[i]
            };
            if i < rest.len() {
                assert(rest[i] == jobs[i]);
                assert(inner.contains(want));
                let j = choose|j: int| 0 <= j < inner.len() && inner[j] == want;
                assert(out[j] == want);
            } else {
                assert(out[out.len() - 1] == want);
            }
        }
    }
}

} // verus!
