//! Engaging a worker with jobs, and taking jobs off the books.

use vstd::prelude::*;
use crate::comms::{RelayConnectionReason, RelayJob, ToMinionMessage, ToMinionPayload};
use crate::error::CoreError;
use crate::overlord::Overlord;
use crate::overlord::model::{
    connection_added, distinct_connections, distinct_tasks, forwarded, has_connection, has_task,
    has_task_for, is_idle, jobs_of, jobs_renumbered, jobs_replaced, jobs_without_id,
    jobs_without_reason, lemma_jobs_at, persistent_jobs, shutdown_for, with_job_id, ConnectedRelay,
    MinionTask, OverlordState,
};
use crate::url::RelayUrl;

verus! {

/// After how many seconds the order to stop goes out to the workers
/// again, while any of them is still running at shutdown.
pub const SHUTDOWN_REPEAT_SECONDS: u64 = 10;

/// What the host is to do to engage a worker.
#[derive(Debug)]
pub enum Engagement {
    /// Nothing.
    Nothing,
    /// The relay's worker runs: put these orders on the bus.
    Forward(Vec<ToMinionMessage>),
    /// No worker serves the relay: start one with these jobs, and report
    /// it with `minion_started`.
    Spawn(RelayUrl, Vec<RelayJob>),
}

/// What the host is to do to engage a worker, and whether it is to make
/// a record of the relay first, there being none.
#[derive(Debug)]
pub struct EngagePlan {
    pub create_record: bool,
    pub action: Engagement,
}

/// The jobs that are not the job `id`.
pub fn without_id(jobs: Vec<RelayJob>, id: u64) -> (r: Vec<RelayJob>)
    ensures
        r@ == jobs_without_id(jobs@, id),
{
    let mut jobs = jobs;
    let ghost all = jobs@;
    let ghost mut done: int = 0;
    let mut out: Vec<RelayJob> = Vec::new();
    assert(all.take(0) =~= Seq::empty());
    assert(all.skip(0) =~= all);
    while jobs.len() > 0
        invariant
            0 <= done <= all.len(),
            jobs@ == all.skip(done),
            out@ == jobs_without_id(all.take(done), id),
        decreases jobs.len(),
    {
        let job = jobs.remove(0);
        proof {
            assert(job == all[done]);
            assert(all.take(done + 1).drop_last() =~= all.take(done));
            assert(all.skip(done).remove(0) =~= all.skip(done + 1));
            done = done + 1;
        }
        if job.payload.job_id != id {
            out.push(job);
        }
    }
    assert(all.take(done) =~= all);
    out
}

/// The jobs that are not for `reason`.
pub fn without_reason(jobs: Vec<RelayJob>, reason: RelayConnectionReason) -> (r: Vec<RelayJob>)
    ensures
        r@ == jobs_without_reason(jobs@, reason),
{
    let mut jobs = jobs;
    let ghost all = jobs@;
    let ghost mut done: int = 0;
    let mut out: Vec<RelayJob> = Vec::new();
    assert(all.take(0) =~= Seq::empty());
    assert(all.skip(0) =~= all);
    while jobs.len() > 0
        invariant
            0 <= done <= all.len(),
            jobs@ == all.skip(done),
            out@ == jobs_without_reason(all.take(done), reason),
        decreases jobs.len(),
    {
        let job = jobs.remove(0);
        proof {
            assert(job == all[done]);
            assert(all.take(done + 1).drop_last() =~= all.take(done));
            assert(all.skip(done).remove(0) =~= all.skip(done + 1));
            done = done + 1;
        }
        if job.reason != reason {
            out.push(job);
        }
    }
    assert(all.take(done) =~= all);
    out
}

/// The persistent ones among the jobs.
pub fn persistent_only(jobs: Vec<RelayJob>) -> (r: Vec<RelayJob>)
    ensures
        r@ == persistent_jobs(jobs@),
{
    let mut jobs = jobs;
    let ghost all = jobs@;
    let ghost mut done: int = 0;
    let mut out: Vec<RelayJob> = Vec::new();
    assert(all.take(0) =~= Seq::empty());
    assert(all.skip(0) =~= all);
    while jobs.len() > 0
        invariant
            0 <= done <= all.len(),
            jobs@ == all.skip(done),
            out@ == persistent_jobs(all.take(done)),
        decreases jobs.len(),
    {
        let job = jobs.remove(0);
        proof {
            assert(job == all[done]);
            assert(all.take(done + 1).drop_last() =~= all.take(done));
            assert(all.skip(done).remove(0) =~= all.skip(done + 1));
            done = done + 1;
        }
        if job.reason.persistent() {
            out.push(job);
        }
    }
    assert(all.take(done) =~= all);
    out
}

/// The jobs after a worker has put the job `new` in the place of the job
/// `old`.
pub fn renumbered(jobs: Vec<RelayJob>, old: u64, new: u64) -> (r: Vec<RelayJob>)
    ensures
        r@ == jobs_renumbered(jobs@, old, new),
{
    let mut jobs = jobs;
    let ghost all = jobs@;
    let ghost mut done: int = 0;
    let mut out: Vec<RelayJob> = Vec::new();
    assert(all.take(0) =~= Seq::empty());
    assert(all.skip(0) =~= all);
    while jobs.len() > 0
        invariant
            0 <= done <= all.len(),
            jobs@ == all.skip(done),
            out@ == jobs_renumbered(all.take(done), old, new),
        decreases jobs.len(),
    {
        let job = jobs.remove(0);
        proof {
            assert(job == all[done]);
            assert(all.take(done + 1).drop_last() =~= all.take(done));
            assert(all.skip(done).remove(0) =~= all.skip(done + 1));
            done = done + 1;
        }
        if job.payload.job_id == new {
        } else if job.payload.job_id == old {
            out.push(
                RelayJob {
                    reason: job.reason,
                    payload: ToMinionPayload { job_id: new, detail: job.payload.detail },
                },
            );
        } else {
            out.push(job);
        }
    }
    assert(all.take(done) =~= all);
    out
}

/// Whether a relay connected for `jobs` is to be disconnected.
pub fn idle(jobs: &Vec<RelayJob>) -> (r: bool)
    ensures
        r == is_idle(jobs@),
{
    jobs.len() == 0 || (jobs.len() == 1 && jobs[0].reason == RelayConnectionReason::FetchAugments)
}

/// The orders of `jobs`, addressed to the worker of the relay `url`.
pub fn orders_for(url: &RelayUrl, jobs: &Vec<RelayJob>) -> (r: Vec<ToMinionMessage>)
    ensures
        forwarded(r@, url@, jobs@),
{
    let mut out: Vec<ToMinionMessage> = Vec::new();
    let mut i: usize = 0;
    while i < jobs.len()
        invariant
            i <= jobs.len(),
            forwarded(out@, url@, jobs@.take(i as int)),
        decreases jobs.len() - i,
    {
        out.push(ToMinionMessage::to_relay(url, jobs[i].payload.clone()));
        i += 1;
    }
    assert(jobs@.take(i as int) =~= jobs@);
    out
}

/// Replacing the jobs of a connected relay keeps the books in order.
pub proof fn lemma_replaced_keeps_wf(
    s: OverlordState,
    after: Seq<ConnectedRelay>,
    url: Seq<char>,
    jobs: Seq<RelayJob>,
)
    requires
        s.wf(),
        jobs_replaced(s.connected, after, url, jobs),
    ensures
        (OverlordState { connected: after, ..s }).wf(),
        forall|u: Seq<char>| has_connection(after, u) == has_connection(s.connected, u),
        has_connection(s.connected, url) ==> jobs_of(after, url) == jobs,
        forall|u: Seq<char>| u != url ==> jobs_of(after, u) == jobs_of(s.connected, u),
{
    let t = OverlordState { connected: after, ..s };
    assert forall|u: Seq<char>| has_connection(after, u) == has_connection(s.connected, u) by {
        if has_connection(after, u) {
            let i = choose|i: int| 0 <= i < after.len() && (#[trigger] after[i]).url@ == u;
            assert(s.connected[i].url@ == u);
        }
        if has_connection(s.connected, u) {
            let i = choose|i: int|
                0 <= i < s.connected.len() && (#[trigger] s.connected[i]).url@ == u;
            assert(after[i].url@ == u);
        }
    }
    assert(distinct_connections(after)) by {
        assert forall|i: int, j: int|
            0 <= i < after.len() && 0 <= j < after.len() && i != j implies (
        #[trigger] after[i]).url@ != (#[trigger] after[j]).url@ by {
            assert(after[i].url == s.connected[i].url);
            assert(after[j].url == s.connected[j].url);
        }
    }
    assert forall|i: int| 0 <= i < after.len() implies has_task_for(
        s.tasks,
        (#[trigger] after[i]).url@,
    ) by {
        assert(after[i].url == s.connected[i].url);
    }
    assert forall|i: int| 0 <= i < s.tasks.len() implies has_connection(
        after,
        (#[trigger] s.tasks[i]).url@,
    ) by {
        assert(has_connection(s.connected, s.tasks[i].url@));
    }
    if has_connection(s.connected, url) {
        let i = choose|i: int|
            0 <= i < s.connected.len() && (#[trigger] s.connected[i]).url@ == url;
        assert(after[i].url == s.connected[i].url);
        lemma_jobs_at(after, i);
    }
    assert forall|u: Seq<char>| u != url implies jobs_of(after, u) == jobs_of(s.connected, u) by {
        if has_connection(s.connected, u) {
            let i = choose|i: int|
                0 <= i < s.connected.len() && (#[trigger] s.connected[i]).url@ == u;
            assert(after[i] == s.connected[i]);
            lemma_jobs_at(after, i);
            lemma_jobs_at(s.connected, i);
        }
    }
}

impl Overlord {
    /// Puts `jobs` in the place of the jobs of the `k`-th connected relay.
    fn set_jobs(&mut self, k: usize, jobs: Vec<RelayJob>)
        requires
            old(self)@.wf(),
            k < old(self)@.connected.len(),
        ensures
            final(self)@.wf(),
            final(self)@ == (OverlordState { connected: final(self)@.connected, ..old(self)@ }),
            jobs_replaced(
                old(self)@.connected,
                final(self)@.connected,
                old(self)@.connected[k as int].url@,
                jobs@,
            ),
    {
        let ghost before = self.connected_relays@;
        let c = self.connected_relays.remove(k);
        self.connected_relays.insert(k, ConnectedRelay { url: c.url, jobs });
        proof {
            let after = self.connected_relays@;
            assert forall|i: int| 0 <= i < before.len() && before[i].url@
                == before[k as int].url@ implies (#[trigger] after[i]).jobs@ == jobs@ by {
                assert(i == k);
            }
            assert forall|i: int| 0 <= i < before.len() && before[i].url@
                != before[k as int].url@ implies (#[trigger] after[i]) == before[i] by {}
            assert(jobs_replaced(before, after, before[k as int].url@, jobs@));
            lemma_replaced_keeps_wf(old(self)@, after, before[k as int].url@, jobs@);
        }
    }

    /// Takes the jobs of the `k`-th connected relay and leaves it without.
    fn take_jobs(&mut self, k: usize) -> (r: Vec<RelayJob>)
        requires
            old(self)@.wf(),
            k < old(self)@.connected.len(),
        ensures
            final(self)@.wf(),
            r@ == old(self)@.connected[k as int].jobs@,
            final(self)@.connected.len() == old(self)@.connected.len(),
            final(self)@ == (OverlordState { connected: final(self)@.connected, ..old(self)@ }),
            jobs_replaced(
                old(self)@.connected,
                final(self)@.connected,
                old(self)@.connected[k as int].url@,
                Seq::empty(),
            ),
            final(self)@.connected[k as int].url@ == old(self)@.connected[k as int].url@,
    {
        let ghost before = self.connected_relays@;
        let c = self.connected_relays.remove(k);
        self.connected_relays.insert(k, ConnectedRelay { url: c.url, jobs: Vec::new() });
        proof {
            let after = self.connected_relays@;
            assert forall|i: int| 0 <= i < before.len() && before[i].url@
                == before[k as int].url@ implies (#[trigger] after[i]).jobs@ == Seq::<
                RelayJob,
            >::empty() by {
                assert(i == k);
            }
            assert forall|i: int| 0 <= i < before.len() && before[i].url@
                != before[k as int].url@ implies (#[trigger] after[i]) == before[i] by {}
            assert(jobs_replaced(before, after, before[k as int].url@, Seq::empty()));
            lemma_replaced_keeps_wf(old(self)@, after, before[k as int].url@, Seq::empty());
        }
        c.jobs
    }

    /// Engages the worker of the relay `url` with `jobs`. `offline` is the
    /// user's setting; `rank` is the rank on the relay's record, or `None`
    /// where there is no record.
    ///
    /// Nothing happens when offline, without jobs, or for a relay of rank 0.
    /// Otherwise, where the relay is connected the jobs are added to its
    /// jobs and their orders handed back to be put on the bus; where it is
    /// not, the books stay as they are until the host reports the worker
    /// it started.
    pub fn engage_minion(
        &mut self,
        url: RelayUrl,
        jobs: Vec<RelayJob>,
        offline: bool,
        rank: Option<u8>,
    ) -> (r: EngagePlan)
        requires
            old(self)@.wf(),
        ensures
            final(self)@.wf(),
            final(self)@.tasks == old(self)@.tasks,
            final(self)@.shutting_down == old(self)@.shutting_down,
            offline || jobs@.len() == 0 || rank == Some(0u8) ==> r.action is Nothing
                && !r.create_record && final(self)@ == old(self)@,
            !(offline || jobs@.len() == 0 || rank == Some(0u8)) ==> r.create_record == (rank
                is None) && if has_connection(old(self)@.connected, url@) {
                &&& r.action matches Engagement::Forward(msgs)
                &&& forwarded(msgs@, url@, jobs@)
                &&& jobs_replaced(
                    old(self)@.connected,
                    final(self)@.connected,
                    url@,
                    jobs_of(old(self)@.connected, url@) + jobs@,
                )
            } else {
                &&& r.action == Engagement::Spawn(url, jobs)
                &&& final(self)@ == old(self)@
            },
    {
        if offline || jobs.len() == 0 {
            return EngagePlan { create_record: false, action: Engagement::Nothing };
        }
        let create_record = match rank {
            Some(rank) => {
                if rank == 0 {
                    return EngagePlan { create_record: false, action: Engagement::Nothing };
                }
                false
            },
            None => true,
        };
        match self.find_connection(&url) {
            Some(k) => {
                proof {
                    lemma_jobs_at(self@.connected, k as int);
                }
                let msgs = orders_for(&url, &jobs);
                let mut all = self.take_jobs(k);
                let mut jobs = jobs;
                all.append(&mut jobs);
                let ghost mid = self@;
                self.set_jobs(k, all);
                proof {
                    let before = old(self)@.connected;
                    let after = self@.connected;
                    assert forall|i: int| 0 <= i < before.len() implies (#[trigger] after[i]).url
                        == before[i].url by {
                        assert(mid.connected[i].url == before[i].url);
                    }
                    assert forall|i: int| 0 <= i < before.len() && before[i].url@
                        != url@ implies (#[trigger] after[i]) == before[i] by {
                        assert(mid.connected[i] == before[i]);
                    }
                    assert forall|i: int| 0 <= i < before.len() && before[i].url@
                        == url@ implies (#[trigger] after[i]).jobs@ == all@ by {
                        assert(mid.connected[i].url == before[i].url);
                    }
                }
                EngagePlan { create_record, action: Engagement::Forward(msgs) }
            },
            None => EngagePlan { create_record, action: Engagement::Spawn(url, jobs) },
        }
    }

    /// Enters the worker task `task_id` that the host has started for the
    /// relay `url` with `jobs`. Refused, with nothing changed, where the
    /// relay is connected already or the task is known.
    pub fn minion_started(&mut self, task_id: u64, url: RelayUrl, jobs: Vec<RelayJob>) -> (r:
        Result<(), CoreError>)
        requires
            old(self)@.wf(),
        ensures
            final(self)@.wf(),
            final(self)@.shutting_down == old(self)@.shutting_down,
            match r {
                Ok(_) => {
                    &&& !has_connection(old(self)@.connected, url@)
                    &&& !has_task(old(self)@.tasks, task_id)
                    &&& connection_added(
                        old(self)@.connected,
                        final(self)@.connected,
                        url@,
                        jobs@,
                    )
                    &&& final(self)@.tasks.drop_last() == old(self)@.tasks
                    &&& final(self)@.tasks.last().id == task_id
                    &&& final(self)@.tasks.last().url@ == url@
                },
                Err(CoreError::UnknownMinion) => (has_connection(old(self)@.connected, url@)
                    || has_task(old(self)@.tasks, task_id)) && final(self)@ == old(self)@,
                Err(_) => false,
            },
    {
        if self.find_connection(&url).is_some() || self.find_task(task_id).is_some() {
            return Err(CoreError::UnknownMinion);
        }
        let ghost before = self@;
        proof {
            if has_task_for(before.tasks, url@) {
                let i = choose|i: int|
                    0 <= i < before.tasks.len() && (#[trigger] before.tasks[i]).url@ == url@;
                assert(has_connection(before.connected, before.tasks[i].url@));
            }
        }
        self.minions_task_url.push(MinionTask { id: task_id, url: url.clone() });
        self.connected_relays.push(ConnectedRelay { url, jobs });
        proof {
            let after = self@;
            assert(after.connected.drop_last() =~= before.connected);
            assert(after.tasks.drop_last() =~= before.tasks);
            assert forall|i: int, j: int|
                0 <= i < after.connected.len() && 0 <= j < after.connected.len() && i
                    != j implies (#[trigger] after.connected[i]).url@ != (
            #[trigger] after.connected[j]).url@ by {
                if i < before.connected.len() {
                    assert(after.connected[i] == before.connected[i]);
                }
                if j < before.connected.len() {
                    assert(after.connected[j] == before.connected[j]);
                }
            }
            assert forall|i: int, j: int|
                0 <= i < after.tasks.len() && 0 <= j < after.tasks.len() && i != j implies (
            #[trigger] after.tasks[i]).id != (#[trigger] after.tasks[j]).id && after.tasks[i].url@
                != after.tasks[j].url@ by {
                if i < before.tasks.len() {
                    assert(after.tasks[i] == before.tasks[i]);
                }
                if j < before.tasks.len() {
                    assert(after.tasks[j] == before.tasks[j]);
                }
            }
            assert forall|i: int| 0 <= i < after.connected.len() implies has_task_for(
                after.tasks,
                (#[trigger] after.connected[i]).url@,
            ) by {
                if i < before.connected.len() {
                    assert(after.connected[i] == before.connected[i]);
                    let t = choose|t: int|
                        0 <= t < before.tasks.len() && (#[trigger] before.tasks[t]).url@
                            == before.connected[i].url@;
                    assert(after.tasks[t] == before.tasks[t]);
                } else {
                    assert(after.tasks[after.tasks.len() - 1].url@ == url@);
                }
            }
            assert forall|i: int| 0 <= i < after.tasks.len() implies has_connection(
                after.connected,
                (#[trigger] after.tasks[i]).url@,
            ) by {
                if i < before.tasks.len() {
                    assert(after.tasks[i] == before.tasks[i]);
                    let c = choose|c: int|
                        0 <= c < before.connected.len() && (#[trigger] before.connected[c]).url@
                            == before.tasks[i].url@;
                    assert(after.connected[c] == before.connected[c]);
                } else {
                    assert(after.connected[after.connected.len() - 1].url@ == url@);
                }
            }
        }
        Ok(())
    }

    /// The order to stop for the worker of the relay `url`, if the relay
    /// is connected and nothing is left for it to do, or only to fetch
    /// augments.
    pub fn maybe_disconnect_relay(&self, url: &RelayUrl) -> (r: Option<ToMinionMessage>)
        requires
            self@.wf(),
        ensures
            r is Some == (has_connection(self@.connected, url@) && is_idle(
                jobs_of(self@.connected, url@),
            )),
            r matches Some(m) ==> m@ == shutdown_for(url@),
    {
        match self.find_connection(url) {
            Some(k) => {
                proof {
                    lemma_jobs_at(self@.connected, k as int);
                }
                if idle(&self.connected_relays[k].jobs) {
                    Some(ToMinionMessage::shutdown(url))
                } else {
                    None
                }
            },
            None => None,
        }
    }

    /// Takes off the books the job `job_id` of the relay `url`, if a job
    /// id is given, else the jobs of the relay for `reason`, if a reason is
    /// given. Hands back the order to stop for the relay's worker where
    /// nothing is left for it to do. The job id 0 names no job: nothing
    /// happens then.
    pub fn finish_job(
        &mut self,
        url: &RelayUrl,
        job_id: Option<u64>,
        reason: Option<RelayConnectionReason>,
    ) -> (r: Option<ToMinionMessage>)
        requires
            old(self)@.wf(),
        ensures
            final(self)@.wf(),
            final(self)@.tasks == old(self)@.tasks,
            final(self)@.shutting_down == old(self)@.shutting_down,
            old(self)@.job_finished(final(self)@, url@, job_id, reason, option_view(r)),
    {
        match job_id {
            Some(id) => {
                if id == 0 {
                    return None;
                }
            },
            None => {},
        }
        match self.find_connection(url) {
            Some(k) => {
                proof {
                    lemma_jobs_at(self@.connected, k as int);
                }
                let jobs = self.take_jobs(k);
                let left = match job_id {
                    Some(id) => without_id(jobs, id),
                    None => match reason {
                        Some(reason) => without_reason(jobs, reason),
                        None => jobs,
                    },
                };
                let ghost mid = self@;
                let ghost kept = left@;
                self.set_jobs(k, left);
                proof {
                    let before = old(self)@.connected;
                    let after = self@.connected;
                    assert forall|i: int| 0 <= i < before.len() implies (#[trigger] after[i]).url
                        == before[i].url by {
                        assert(mid.connected[i].url == before[i].url);
                    }
                    assert forall|i: int| 0 <= i < before.len() && before[i].url@
                        != url@ implies (#[trigger] after[i]) == before[i] by {
                        assert(mid.connected[i] == before[i]);
                    }
                    assert forall|i: int| 0 <= i < before.len() && before[i].url@
                        == url@ implies (#[trigger] after[i]).jobs@ == kept by {
                        assert(mid.connected[i].url == before[i].url);
                    }
                    lemma_replaced_keeps_wf(old(self)@, after, url@, kept);
                }
                self.maybe_disconnect_relay(url)
            },
            None => None,
        }
    }

    /// Follows a worker that has put the job `new_id` in the place of the
    /// job `old_id` of the relay `url`: the row of `new_id` is taken off
    /// the books and the row of `old_id` goes by the id `new_id`. Hands
    /// back the order to stop for the relay's worker where nothing is left
    /// for it to do. Nothing happens where either id is 0.
    pub fn minion_job_updated(&mut self, url: &RelayUrl, old_id: u64, new_id: u64) -> (r: Option<
        ToMinionMessage,
    >)
        requires
            old(self)@.wf(),
        ensures
            final(self)@.wf(),
            final(self)@.tasks == old(self)@.tasks,
            final(self)@.shutting_down == old(self)@.shutting_down,
            old(self)@.job_updated(final(self)@, url@, old_id, new_id, option_view(r)),
    {
        if old_id == 0 || new_id == 0 {
            return None;
        }
        match self.find_connection(url) {
            Some(k) => {
                proof {
                    lemma_jobs_at(self@.connected, k as int);
                }
                let jobs = self.take_jobs(k);
                let left = renumbered(jobs, old_id, new_id);
                let ghost mid = self@;
                let ghost kept = left@;
                self.set_jobs(k, left);
                proof {
                    let before = old(self)@.connected;
                    let after = self@.connected;
                    assert forall|i: int| 0 <= i < before.len() implies (#[trigger] after[i]).url
                        == before[i].url by {
                        assert(mid.connected[i].url == before[i].url);
                    }
                    assert forall|i: int| 0 <= i < before.len() && before[i].url@
                        != url@ implies (#[trigger] after[i]) == before[i] by {
                        assert(mid.connected[i] == before[i]);
                    }
                    assert forall|i: int| 0 <= i < before.len() && before[i].url@
                        == url@ implies (#[trigger] after[i]).jobs@ == kept by {
                        assert(mid.connected[i].url == before[i].url);
                    }
                    lemma_replaced_keeps_wf(old(self)@, after, url@, kept);
                }
                self.maybe_disconnect_relay(url)
            },
            None => None,
        }
    }

    /// The order to stop for the worker of the relay `url`. The relay
    /// leaves the books when its worker has exited, which may take as long
    /// as the worker waits for a time-out.
    pub fn drop_relay(&self, url: &RelayUrl) -> (r: ToMinionMessage)
        ensures
            r@ == shutdown_for(url@),
    {
        ToMinionMessage::shutdown(url)
    }

    /// Starts to shut down.
    pub fn shutdown(&mut self)
        ensures
            final(self)@ == (OverlordState { shutting_down: true, ..old(self)@ }),
    {
        self.shutting_down = true;
    }

    /// The order to stop for every worker. It is sent when the supervisor
    /// leaves its loop, and again every ten seconds until the last worker
    /// has exited.
    pub fn shutdown_broadcast(&self) -> (r: ToMinionMessage)
        ensures
            r@ == (crate::comms::MessageView {
                target: "all"@,
                payload: crate::comms::shutdown_payload(),
            }),
    {
        ToMinionMessage::shutdown_all()
    }

    /// The connected relays that have a persistent job, in the order of
    /// the books.
    pub fn persistent_relay_urls(&self) -> (r: Vec<RelayUrl>)
        ensures
            r@ == urls_with_persistent_jobs(self@.connected),
    {
        let mut out: Vec<RelayUrl> = Vec::new();
        let mut i: usize = 0;
        assert(self.connected_relays@.take(0) =~= Seq::empty());
        while i < self.connected_relays.len()
            invariant
                i <= self.connected_relays.len(),
                out@ == urls_with_persistent_jobs(self.connected_relays@.take(i as int)),
            decreases self.connected_relays.len() - i,
        {
            assert(self.connected_relays@.take(i + 1).drop_last() =~= self.connected_relays@.take(
                i as int,
            ));
            if has_persistent(&self.connected_relays[i].jobs) {
                out.push(self.connected_relays[i].url.clone());
            }
            i += 1;
        }
        assert(self.connected_relays@.take(i as int) =~= self.connected_relays@);
        out
    }
}

/// The view of the message, if there is one.
pub open spec fn option_view(m: Option<ToMinionMessage>) -> Option<crate::comms::MessageView> {
    match m {
        Some(m) => Some(m@),
        None => None,
    }
}

impl OverlordState {
    /// Whether `after` and `msg` are what comes of finishing jobs of the
    /// relay `url`: the job `job_id`, if a job id is given, else the jobs
    /// for `reason`, if a reason is given. The jobs are taken off the
    /// books, and the relay's worker is told to stop if nothing is left
    /// for it to do. Nothing happens for the job id 0, which names no
    /// job, nor for a relay that is not connected.
    pub open spec fn job_finished(
        self,
        after: OverlordState,
        url: Seq<char>,
        job_id: Option<u64>,
        reason: Option<RelayConnectionReason>,
        msg: Option<crate::comms::MessageView>,
    ) -> bool {
        if job_id == Some(0u64) || !has_connection(self.connected, url) {
            after == self && msg is None
        } else {
            let left = jobs_left(jobs_of(self.connected, url), job_id, reason);
            &&& after.tasks == self.tasks
            &&& after.shutting_down == self.shutting_down
            &&& jobs_replaced(self.connected, after.connected, url, left)
            &&& msg == if is_idle(left) {
                Some(shutdown_for(url))
            } else {
                None
            }
        }
    }

    /// Whether `after` and `msg` are what comes of a worker's word that
    /// it has put the job `new_id` in the place of the job `old_id` of
    /// the relay `url`: the row of `new_id` is taken off the books, the
    /// row of `old_id` goes by the id `new_id`, and the relay's worker is
    /// told to stop if nothing is left for it to do. Nothing happens
    /// where either id is 0, nor for a relay that is not connected.
    pub open spec fn job_updated(
        self,
        after: OverlordState,
        url: Seq<char>,
        old_id: u64,
        new_id: u64,
        msg: Option<crate::comms::MessageView>,
    ) -> bool {
        if old_id == 0 || new_id == 0 || !has_connection(self.connected, url) {
            after == self && msg is None
        } else {
            let left = jobs_renumbered(jobs_of(self.connected, url), old_id, new_id);
            &&& after.tasks == self.tasks
            &&& after.shutting_down == self.shutting_down
            &&& jobs_replaced(self.connected, after.connected, url, left)
            &&& msg == if is_idle(left) {
                Some(shutdown_for(url))
            } else {
                None
            }
        }
    }
}

/// Whether one of the jobs is persistent.
pub open spec fn any_persistent(jobs: Seq<RelayJob>) -> bool {
    exists|i: int| 0 <= i < jobs.len() && (#[trigger] jobs[i]).reason.spec_persistent()
}

/// Whether one of the jobs is persistent.
pub fn has_persistent(jobs: &Vec<RelayJob>) -> (r: bool)
    ensures
        r == any_persistent(jobs@),
{
    let mut i: usize = 0;
    while i < jobs.len()
        invariant
            i <= jobs.len(),
            forall|j: int| 0 <= j < i ==> !(#[trigger] jobs@[j]).reason.spec_persistent(),
        decreases jobs.len() - i,
    {
        if jobs[i].reason.persistent() {
            return true;
        }
        i += 1;
    }
    false
}

/// The URLs of the connected relays that have a persistent job.
pub open spec fn urls_with_persistent_jobs(connected: Seq<ConnectedRelay>) -> Seq<RelayUrl>
    decreases connected.len(),
{
    if connected.len() == 0 {
        Seq::empty()
    } else {
        let rest = urls_with_persistent_jobs(connected.drop_last());
        if any_persistent(connected.last().jobs@) {
            rest.push(connected.last().url)
        } else {
            rest
        }
    }
}

/// The jobs that stay when the job `job_id` is finished, if a job id is
/// given, else the jobs for `reason`, if a reason is given.
pub open spec fn jobs_left(
    jobs: Seq<RelayJob>,
    job_id: Option<u64>,
    reason: Option<RelayConnectionReason>,
) -> Seq<RelayJob> {
    match job_id {
        Some(id) => jobs_without_id(jobs, id),
        None => match reason {
            Some(reason) => jobs_without_reason(jobs, reason),
            None => jobs,
        },
    }
}

} // verus!
