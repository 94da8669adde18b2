//! What the supervisor does when a worker has exited.

use vstd::prelude::*;
use crate::comms::RelayJob;
use crate::job_id::fresh_job_id_other_than;
use crate::overlord::Overlord;
use crate::overlord::jobs::persistent_only;
use crate::overlord::model::{
    connection_removed, distinct_connections, distinct_tasks, has_connection, has_task,
    has_task_for, jobs_of, lemma_jobs_at, persistent_jobs, with_job_id, ConnectedRelay,
    MinionTask, OverlordState,
};
use crate::relays::RelayTracker;
use crate::url::RelayUrl;

verus! {

/// How a worker ended.
#[derive(Clone, Copy, Debug, PartialEq, Eq, Structural)]
pub enum MinionExit {
    /// It returned without an error.
    Completed,
    /// Its task did not run to the end.
    JoinError,
    /// The relay rejected us.
    RelayRejectedUs,
    /// The relay answered the websocket handshake with this HTTP status.
    HttpStatus(u16),
    /// The connection was closed as it should be; reported as an error,
    /// but none.
    ConnectionClosed,
    /// The connection was reset without a closing handshake.
    ResetWithoutClosingHandshake,
    /// The websocket protocol was violated in another way.
    ProtocolError,
    /// Any other error.
    OtherError,
}

pub const MINUTE: u64 = 60;

pub const DAY: u64 = 86400;

pub const YEAR: u64 = 31536000;

/// Whether a relay that answers the handshake with the HTTP status
/// `status` will not answer otherwise for long: it has moved, wants
/// credentials or payment, is not there, or does not do this.
pub open spec fn is_lasting_status(status: u16) -> bool {
    status == 301 || status == 308 || status == 401 || status == 402 || status == 403 || status
        == 404 || status == 407 || status == 451 || status == 501 || status == 502
}

/// For how many seconds a relay is left alone after its worker ended
/// with `exit`.
pub open spec fn exclusion_seconds(exit: MinionExit) -> u64 {
    match exit {
        MinionExit::Completed => 0,
        MinionExit::JoinError => 60,
        MinionExit::RelayRejectedUs => 31536000,
        MinionExit::HttpStatus(status) => if is_lasting_status(status) {
            86400
        } else if status >= 400 {
            90
        } else {
            60
        },
        MinionExit::ConnectionClosed => 0,
        MinionExit::ResetWithoutClosingHandshake => 30,
        MinionExit::ProtocolError => 120,
        MinionExit::OtherError => 60,
    }
}

/// For how many seconds a relay is left alone after its worker ended
/// with `exit`.
pub fn exclusion_for(exit: MinionExit) -> (r: u64)
    ensures
        r == exclusion_seconds(exit),
{
    match exit {
        MinionExit::Completed => 0,
        MinionExit::JoinError => MINUTE,
        MinionExit::RelayRejectedUs => YEAR,
        MinionExit::HttpStatus(status) => {
            if status == 301 || status == 308 || status == 401 || status == 402 || status == 403
                || status == 404 || status == 407 || status == 451 || status == 501 || status
                == 502 {
                DAY
            } else if status >= 400 {
                90
            } else {
                MINUTE
            }
        },
        MinionExit::ConnectionClosed => 0,
        MinionExit::ResetWithoutClosingHandshake => 30,
        MinionExit::ProtocolError => 120,
        MinionExit::OtherError => MINUTE,
    }
}

/// Whether `exit` counts as a failure of the relay.
pub open spec fn is_failure(exit: MinionExit) -> bool {
    exit != MinionExit::Completed
}

/// What the host is to do after a worker has exited.
#[derive(Debug)]
pub struct ExitPlan {
    /// The relay that the worker served.
    pub url: RelayUrl,
    /// For how many seconds the relay is left alone.
    pub exclusion: u64,
    /// Whether the failure counter on the relay's record is to go up.
    pub failed: bool,
    /// Whether the scores are to be taken anew and relays picked again,
    /// to cover those whom the relay covered.
    pub recover: bool,
    /// The persistent jobs of the relay, to be engaged again when the
    /// exclusion is over; none while shutting down.
    pub persistent_jobs: Vec<RelayJob>,
}

/// The relay that the worker task `id` serves.
pub open spec fn task_url(tasks: Seq<MinionTask>, id: u64) -> Seq<char> {
    tasks[choose|i: int| 0 <= i < tasks.len() && (#[trigger] tasks[i]).id == id].url@
}

/// Whether `after` is `before` without the worker task `id`.
pub open spec fn task_removed(before: Seq<MinionTask>, after: Seq<MinionTask>, id: u64) -> bool {
    exists|k: int|
        0 <= k < before.len() && (#[trigger] before[k]).id == id && after == before.remove(k)
}

impl OverlordState {
    /// Whether `after` is these books after the worker task `id` has
    /// exited: the task is gone, and the relay it served is not connected.
    pub open spec fn exited(self, after: OverlordState, id: u64) -> bool {
        &&& task_removed(self.tasks, after.tasks, id)
        &&& connection_removed(self.connected, after.connected, task_url(self.tasks, id))
        &&& after.shutting_down == self.shutting_down
    }
}

impl Overlord {
    /// Takes the worker task `task_id`, which has ended with `exit` at the
    /// time `now`, off the books, and with it the relay that it served.
    /// The planner is told that the relay has disconnected and is to be
    /// left alone for as long as the exit asks. A task that the books do
    /// not know changes nothing.
    pub fn handle_task_nextjoined(
        &mut self,
        task_id: u64,
        exit: MinionExit,
        picker: &mut RelayTracker,
        now: i64,
    ) -> (r: Option<ExitPlan>)
        requires
            old(self)@.wf(),
            old(picker)@.wf(),
        ensures
            final(self)@.wf(),
            final(picker)@.wf(),
            r is Some == has_task(old(self)@.tasks, task_id),
            r is None ==> final(self)@ == old(self)@ && final(picker)@ == old(picker)@,
            r matches Some(plan) ==> {
                &&& plan.url@ == task_url(old(self)@.tasks, task_id)
                &&& old(self)@.exited(final(self)@, task_id)
                &&& plan.exclusion == exclusion_seconds(exit)
                &&& plan.failed == is_failure(exit)
                &&& old(picker)@.disconnected(final(picker)@, plan.url@, plan.exclusion, now)
                &&& plan.recover == !old(self)@.shutting_down
                &&& plan.persistent_jobs@ == if old(self)@.shutting_down {
                    Seq::empty()
                } else {
                    persistent_jobs(jobs_of(old(self)@.connected, plan.url@))
                }
            },
    {
        let t = match self.find_task(task_id) {
            Some(t) => t,
            None => {
                return None;
            },
        };
        let ghost before = self@;
        proof {
            let chosen = choose|i: int|
                0 <= i < before.tasks.len() && (#[trigger] before.tasks[i]).id == task_id;
            assert(before.tasks[t as int].id == task_id);
            assert(chosen == t);
        }
        let task = self.minions_task_url.remove(t);
        let url = task.url;
        assert(has_connection(before.connected, before.tasks[t as int].url@));
        let c = match self.find_connection(&url) {
            Some(c) => c,
            None => {
                proof {
                    assert(false);
                }
                return None;
            },
        };
        proof {
            lemma_jobs_at(before.connected, c as int);
        }
        let entry = self.connected_relays.remove(c);
        proof {
            let after = self@;
            assert forall|i: int, j: int|
                0 <= i < after.connected.len() && 0 <= j < after.connected.len() && i
                    != j implies (#[trigger] after.connected[i]).url@ != (
            #[trigger] after.connected[j]).url@ by {
                let i0 = if i < c {
                    i
                } else {
                    i + 1
                };
                let j0 = if j < c {
                    j
                } else {
                    j + 1
                };
                assert(after.connected[i] == before.connected[i0]);
                assert(after.connected[j] == before.connected[j0]);
            }
            assert forall|i: int, j: int|
                0 <= i < after.tasks.len() && 0 <= j < after.tasks.len() && i != j implies (
            #[trigger] after.tasks[i]).id != (#[trigger] after.tasks[j]).id && after.tasks[i].url@
                != after.tasks[j].url@ by {
                let i0 = if i < t {
                    i
                } else {
                    i + 1
                };
                let j0 = if j < t {
                    j
                } else {
                    j + 1
                };
                assert(after.tasks[i] == before.tasks[i0]);
                assert(after.tasks[j] == before.tasks[j0]);
            }
            assert forall|i: int| 0 <= i < after.connected.len() implies has_task_for(
                after.tasks,
                (#[trigger] after.connected[i]).url@,
            ) by {
                let i0 = if i < c {
                    i
                } else {
                    i + 1
                };
                assert(after.connected[i] == before.connected[i0]);
                assert(before.connected[i0].url@ != before.connected[c as int].url@);
                let k = choose|k: int|
                    0 <= k < before.tasks.len() && (#[trigger] before.tasks[k]).url@
                        == before.connected[i0].url@;
                assert(k != t);
                let k1 = if k < t {
                    k
                } else {
                    k - 1
                };
                assert(after.tasks[k1] == before.tasks[k]);
            }
            assert forall|i: int| 0 <= i < after.tasks.len() implies has_connection(
                after.connected,
                (#[trigger] after.tasks[i]).url@,
            ) by {
                let i0 = if i < t {
                    i
                } else {
                    i + 1
                };
                assert(after.tasks[i] == before.tasks[i0]);
                assert(before.tasks[i0].url@ != before.tasks[t as int].url@);
                let k = choose|k: int|
                    0 <= k < before.connected.len() && (#[trigger] before.connected[k]).url@
                        == before.tasks[i0].url@;
                assert(k != c);
                let k1 = if k < c {
                    k
                } else {
                    k - 1
                };
                assert(after.connected[k1] == before.connected[k]);
            }
        }
        let exclusion = exclusion_for(exit);
        let failed = match exit {
            MinionExit::Completed => false,
            _ => true,
        };
        picker.relay_disconnected(&url, exclusion, now);
        let recover = !self.shutting_down;
        let persistent_jobs = if recover {
            persistent_only(entry.jobs)
        } else {
            Vec::new()
        };
        Some(ExitPlan { url, exclusion, failed, recover, persistent_jobs })
    }
}

/// Whether `after` are the jobs `before`, each under a new id: one that
/// is not 0 and not the id that the job went by.
pub open spec fn rekeyed(before: Seq<RelayJob>, after: Seq<RelayJob>) -> bool {
    &&& after.len() == before.len()
    &&& forall|i: int|
        0 <= i < before.len() ==> (#[trigger] after[i]).payload.job_id != 0
            && after[i].payload.job_id != before[i].payload.job_id && after[i] == with_job_id(
            before[i],
            after[i].payload.job_id,
        )
}

/// The job `job` under the id `id`.
pub fn rekey(job: RelayJob, id: u64) -> (r: RelayJob)
    ensures
        r == with_job_id(job, id),
{
    RelayJob {
        reason: job.reason,
        payload: crate::comms::ToMinionPayload { job_id: id, detail: job.payload.detail },
    }
}

/// The jobs to engage a relay with again after its worker has exited: the
/// jobs given, each under a new id.
pub fn reengage_jobs(jobs: Vec<RelayJob>) -> (r: Vec<RelayJob>)
    ensures
        rekeyed(jobs@, r@),
{
    let mut jobs = jobs;
    let ghost all = jobs@;
    let ghost mut done: int = 0;
    let mut out: Vec<RelayJob> = Vec::new();
    assert(all.skip(0) =~= all);
    while jobs.len() > 0
        invariant
            0 <= done <= all.len(),
            jobs@ == all.skip(done),
            rekeyed(all.take(done), out@),
        decreases jobs.len(),
    {
        let job = jobs.remove(0);
        proof {
            assert(job == all[done]);
            assert(all.skip(done).remove(0) =~= all.skip(done + 1));
        }
        let ghost so_far = out@;
        let id = fresh_job_id_other_than(job.payload.job_id);
        out.push(rekey(job, id));
        proof {
            assert forall|i: int| 0 <= i < done + 1 implies (#[trigger] out@[i]).payload.job_id != 0
                && out@[i].payload.job_id != all.take(done + 1)[i].payload.job_id && out@[i]
                == with_job_id(all.take(done + 1)[i], out@[i].payload.job_id) by {
                if i < done {
                    assert(out@[i] == so_far[i]);
                    assert(all.take(done)[i] == all.take(done + 1)[i]);
                }
            }
            done = done + 1;
        }
    }
    assert(all.take(done) =~= all);
    out
}

} // verus!
