//! The supervisor's commands: what it settles from its books alone, and
//! what it leaves to the host.

use vstd::prelude::*;
use crate::comms::{MessageView, ToMinionMessage, ToOverlordMessage};
use crate::overlord::Overlord;
use crate::overlord::jobs::option_view;
use crate::overlord::model::{shutdown_for, OverlordState};

verus! {

/// What has become of a command.
#[derive(Debug)]
pub enum Handled {
    /// It is settled. These orders go on the bus to the workers.
    Done(Vec<ToMinionMessage>),
    /// It takes what only the host can read or do. The host reads, asks
    /// the supervisor what to engage, and engages.
    Host(ToOverlordMessage),
}

/// The one message, or none, as a list.
pub open spec fn zero_or_one(msg: Option<MessageView>) -> Seq<MessageView> {
    match msg {
        Some(m) => seq![m],
        None => Seq::empty(),
    }
}

/// The views of the messages, in their order.
pub open spec fn message_views(msgs: Seq<ToMinionMessage>) -> Seq<MessageView> {
    msgs.map_values(|m: ToMinionMessage| m@)
}

/// The one message, or none, as a list.
fn as_list(msg: Option<ToMinionMessage>) -> (r: Vec<ToMinionMessage>)
    ensures
        message_views(r@) == zero_or_one(option_view(msg)),
{
    let mut out: Vec<ToMinionMessage> = Vec::new();
    match msg {
        Some(m) => {
            out.push(m);
        },
        None => {},
    }
    assert(message_views(out@) =~= zero_or_one(option_view(msg)));
    out
}

impl Overlord {
    /// Takes the command `message`. The word of a worker that a job is
    /// done or has been replaced, the command to drop a relay and the
    /// command to shut down are settled at once; every other command is
    /// handed back for the host, and changes nothing.
    pub fn handle_message(&mut self, message: ToOverlordMessage) -> (r: Handled)
        requires
            old(self)@.wf(),
        ensures
            final(self)@.wf(),
            match message {
                ToOverlordMessage::MinionJobComplete(url, job_id) => r matches Handled::Done(msgs)
                    && exists|msg: Option<MessageView>|
                    message_views(msgs@) == zero_or_one(msg) && #[trigger] old(self)@.job_finished(
                        final(self)@,
                        url@,
                        Some(job_id),
                        None,
                        msg,
                    ),
                ToOverlordMessage::MinionJobUpdated(url, old_id, new_id) => r matches Handled::Done(
                    msgs,
                ) && exists|msg: Option<MessageView>|
                    message_views(msgs@) == zero_or_one(msg) && #[trigger] old(self)@.job_updated(
                        final(self)@,
                        url@,
                        old_id,
                        new_id,
                        msg,
                    ),
                ToOverlordMessage::DropRelay(url) => r matches Handled::Done(msgs) && message_views(
                    msgs@,
                ) == seq![shutdown_for(url@)] && final(self)@ == old(self)@,
                ToOverlordMessage::Shutdown => r matches Handled::Done(msgs) && msgs@.len() == 0
                    && final(self)@ == (OverlordState { shutting_down: true, ..old(self)@ }),
                _ => r == Handled::Host(message) && final(self)@ == old(self)@,
            },
    {
        match message {
            ToOverlordMessage::MinionJobComplete(url, job_id) => {
                let msg = self.finish_job(&url, Some(job_id), None);
                Handled::Done(as_list(msg))
            },
            ToOverlordMessage::MinionJobUpdated(url, old_id, new_id) => {
                let msg = self.minion_job_updated(&url, old_id, new_id);
                Handled::Done(as_list(msg))
            },
            ToOverlordMessage::DropRelay(url) => {
                let msg = self.drop_relay(&url);
                let mut msgs: Vec<ToMinionMessage> = Vec::new();
                msgs.push(msg);
                assert(message_views(msgs@) =~= seq![shutdown_for(url@)]);
                Handled::Done(msgs)
            },
            ToOverlordMessage::Shutdown => {
                self.shutdown();
                Handled::Done(Vec::new())
            },
            other => Handled::Host(other),
        }
    }
}

} // verus!
