//! The supervisor's books: which relay is connected for which jobs, and
//! which worker task serves which relay. The supervisor alone changes
//! them. What it decides it hands back as values; the sockets, the tasks
//! and the storage are the host's.

pub mod command;
pub mod exit;
pub mod fanout;
pub mod jobs;
pub mod laws;
pub mod model;
pub mod sorted;
pub mod thread;

use vstd::prelude::*;
use crate::comms::RelayJob;
use crate::overlord::model::{
    jobs_of, has_connection, has_task, ConnectedRelay, MinionTask, OverlordState,
};
use crate::url::RelayUrl;

verus! {

/// The supervisor of the workers, one per connected relay.
pub struct Overlord {
    pub(crate) connected_relays: Vec<ConnectedRelay>,
    pub(crate) minions_task_url: Vec<MinionTask>,
    pub(crate) shutting_down: bool,
}

impl View for Overlord {
    type V = OverlordState;

    open(crate) spec fn view(&self) -> OverlordState {
        OverlordState {
            connected: self.connected_relays@,
            tasks: self.minions_task_url@,
            shutting_down: self.shutting_down,
        }
    }
}

impl Overlord {
    /// A supervisor without workers.
    pub fn new() -> (r: Overlord)
        ensures
            r@.wf(),
            r@ == (OverlordState {
                connected: Seq::empty(),
                tasks: Seq::empty(),
                shutting_down: false,
            }),
    {
        Overlord {
            connected_relays: Vec::new(),
            minions_task_url: Vec::new(),
            shutting_down: false,
        }
    }

    /// Whether the supervisor is shutting down.
    pub fn is_shutting_down(&self) -> (r: bool)
        ensures
            r == self@.shutting_down,
    {
        self.shutting_down
    }

    /// Whether any worker runs.
    pub fn has_minions(&self) -> (r: bool)
        ensures
            r == (self@.tasks.len() > 0),
    {
        self.minions_task_url.len() > 0
    }

    /// How many relays are connected.
    pub fn connected_count(&self) -> (r: usize)
        ensures
            r == self@.connected.len(),
    {
        self.connected_relays.len()
    }

    /// The place of the relay `url` among the connected relays.
    pub fn find_connection(&self, url: &RelayUrl) -> (r: Option<usize>)
        ensures
            r is Some == has_connection(self@.connected, url@),
            r matches Some(i) ==> i < self@.connected.len() && self@.connected[i as int].url@
                == url@,
    {
        let mut i: usize = 0;
        while i < self.connected_relays.len()
            invariant
                i <= self.connected_relays.len(),
                forall|j: int| 0 <= j < i ==> (#[trigger] self.connected_relays@[j]).url@ != url@,
            decreases self.connected_relays.len() - i,
        {
            if self.connected_relays[i].url.same_as(url) {
                return Some(i);
            }
            i += 1;
        }
        None
    }

    /// The place of the task `id` among the worker tasks.
    pub fn find_task(&self, id: u64) -> (r: Option<usize>)
        ensures
            r is Some == has_task(self@.tasks, id),
            r matches Some(i) ==> i < self@.tasks.len() && self@.tasks[i as int].id == id,
    {
        let mut i: usize = 0;
        while i < self.minions_task_url.len()
            invariant
                i <= self.minions_task_url.len(),
                forall|j: int| 0 <= j < i ==> (#[trigger] self.minions_task_url@[j]).id != id,
            decreases self.minions_task_url.len() - i,
        {
            if self.minions_task_url[i].id == id {
                return Some(i);
            }
            i += 1;
        }
        None
    }

    /// Whether the relay `url` is connected.
    pub fn is_connected(&self, url: &RelayUrl) -> (r: bool)
        ensures
            r == has_connection(self@.connected, url@),
    {
        self.find_connection(url).is_some()
    }

    /// The jobs for which the relay `url` is connected, if it is.
    pub fn jobs(&self, url: &RelayUrl) -> (r: Option<&Vec<RelayJob>>)
        requires
            self@.wf(),
        ensures
            r is Some == has_connection(self@.connected, url@),
            r matches Some(js) ==> js@ == jobs_of(self@.connected, url@),
    {
        match self.find_connection(url) {
            Some(i) => {
                proof {
                    crate::overlord::model::lemma_jobs_at(self@.connected, i as int);
                }
                Some(&self.connected_relays[i].jobs)
            },
            None => None,
        }
    }

    /// The URLs of the connected relays.
    pub fn connected_urls(&self) -> (r: Vec<RelayUrl>)
        ensures
            r@.len() == self@.connected.len(),
            forall|i: int| 0 <= i < r@.len() ==> (#[trigger] r@[i]) == self@.connected[i].url,
    {
        let mut out: Vec<RelayUrl> = Vec::new();
        let mut i: usize = 0;
        while i < self.connected_relays.len()
            invariant
                i <= self.connected_relays.len(),
                out@.len() == i,
                forall|j: int| 0 <= j < i ==> (#[trigger] out@[j]) == self.connected_relays@[j].url,
            decreases self.connected_relays.len() - i,
        {
            out.push(self.connected_relays[i].url.clone());
            i += 1;
        }
        out
    }
}

} // verus!
