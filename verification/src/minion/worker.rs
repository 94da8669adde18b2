//! The worker of one relay: what it holds, and what it does with an order
//! from the supervisor or a word from the relay.

use vstd::prelude::*;
use crate::comms::{
    DetailView, Event, ToMinionMessage, ToMinionPayloadDetail, ToOverlordMessage,
};
use crate::error::CoreError;
use crate::keys::{contains_id, Id, PublicKey};
use crate::minion::feed::{
    as_time, events_filters, events_of, feed_times, general_feed, general_feed_filters, mentions,
    mentions_filters, metadata_filters, metadata_of, seconds_before, thread_feed,
    thread_feed_filters, FeedTimes,
};
use crate::minion::filter::{
    filter_views, ClientMessage, ClientMessageView, EventKind, Filter, FilterView,
};
use crate::minion::subscription::{Subscription, SubscriptionView, Subscriptions};
use crate::relay::Relay;
use crate::text::{decimal, decimal_text, joined, key_hex};
use crate::url::RelayUrl;

verus! {

/// What the worker cannot know by itself when it takes an order.
#[derive(Clone, Copy, Debug)]
pub struct MinionEnv {
    /// The time, in seconds since 1970.
    pub now: i64,
    /// By how many seconds a subscription reaches back before the last
    /// success at the relay.
    pub overlap: u64,
    /// How many seconds of feed are asked for at most.
    pub feed_chunk: u64,
    /// Our own key, if we have one.
    pub our_key: Option<PublicKey>,
}

/// What the host is to do for the worker.
#[derive(Debug)]
pub enum MinionAction {
    /// Send this to the relay.
    Send(ClientMessage),
    /// Tell the supervisor that the job of this id is done.
    JobComplete(RelayUrl, u64),
    /// Tell the supervisor that the second job has taken the place of the
    /// first.
    JobUpdated(RelayUrl, u64, u64),
}

/// What the host is to do for the worker, as mathematics.
pub enum ActionView {
    Send(ClientMessageView),
    JobComplete(Seq<char>, u64),
    JobUpdated(Seq<char>, u64, u64),
}

impl View for MinionAction {
    type V = ActionView;

    open spec fn view(&self) -> ActionView {
        match *self {
            MinionAction::Send(m) => ActionView::Send(m@),
            MinionAction::JobComplete(url, id) => ActionView::JobComplete(url@, id),
            MinionAction::JobUpdated(url, old, new) => ActionView::JobUpdated(url@, old, new),
        }
    }
}

impl MinionAction {
    /// The command to the supervisor that the action stands for, if it
    /// stands for one; else the action itself.
    pub fn into_command(self) -> (r: Result<ToOverlordMessage, ClientMessage>)
        ensures
            match self {
                MinionAction::Send(m) => r == Err::<ToOverlordMessage, ClientMessage>(m),
                MinionAction::JobComplete(url, id) => r == Ok::<ToOverlordMessage, ClientMessage>(
                    ToOverlordMessage::MinionJobComplete(url, id),
                ),
                MinionAction::JobUpdated(url, old, new) => r == Ok::<
                    ToOverlordMessage,
                    ClientMessage,
                >(ToOverlordMessage::MinionJobUpdated(url, old, new)),
            },
    {
        match self {
            MinionAction::Send(m) => Err(m),
            MinionAction::JobComplete(url, id) => Ok(ToOverlordMessage::MinionJobComplete(url, id)),
            MinionAction::JobUpdated(url, old, new) => Ok(
                ToOverlordMessage::MinionJobUpdated(url, old, new),
            ),
        }
    }
}

/// The views of the actions, in their order.
pub open spec fn action_views(actions: Seq<MinionAction>) -> Seq<ActionView> {
    actions.map_values(|a: MinionAction| a@)
}

/// A frame from the relay, by its kind.
#[derive(Debug)]
pub enum Frame {
    Text(String),
    Binary,
    Ping(Vec<u8>),
    Pong,
    Close,
    Raw,
}

/// What the worker does with a frame.
#[derive(Debug)]
pub enum Reaction {
    /// Read the text as a message of the relay.
    Ingest(String),
    /// Answer the ping with a pong that carries the same bytes.
    Pong(Vec<u8>),
    /// Nothing.
    Ignore,
    /// Leave the loop: the relay has closed.
    Stop,
}

/// What the worker does with `frame`: a text is read, a ping is answered,
/// a close ends the loop, and all else is passed over.
pub fn react(frame: Frame) -> (r: Reaction)
    ensures
        match frame {
            Frame::Text(t) => r == Reaction::Ingest(t),
            Frame::Ping(bytes) => r == Reaction::Pong(bytes),
            Frame::Close => r is Stop,
            Frame::Binary => r is Ignore,
            Frame::Pong => r is Ignore,
            Frame::Raw => r is Ignore,
        },
{
    match frame {
        Frame::Text(t) => Reaction::Ingest(t),
        Frame::Ping(bytes) => Reaction::Pong(bytes),
        Frame::Close => Reaction::Stop,
        Frame::Binary => Reaction::Ignore,
        Frame::Pong => Reaction::Ignore,
        Frame::Raw => Reaction::Ignore,
    }
}

/// After how many seconds without a frame the worker sends a ping.
pub const KEEPALIVE_SECONDS: u64 = 55;

/// How many seconds the worker waits for the relay's capability document,
/// and for the websocket handshake.
pub const CONNECT_TIMEOUT_SECONDS: u64 = 15;

/// The largest message, and the largest frame, that the worker takes.
pub const MAX_MESSAGE_BYTES: usize = 16777216;

/// The worker of one relay.
pub struct Minion {
    pub(crate) url: RelayUrl,
    pub(crate) relay: Relay,
    pub(crate) subscriptions: Subscriptions,
    pub(crate) next_events_subscription_id: u32,
    pub(crate) sought: Vec<Id>,
    pub(crate) one_shot: Vec<String>,
}

/// What a worker holds.
pub struct MinionState {
    pub url: Seq<char>,
    /// The record of the relay.
    pub relay: Relay,
    /// The subscriptions, by name.
    pub subs: Map<Seq<char>, SubscriptionView>,
    /// The number for the name of the next subscription to events.
    pub next_events: u32,
    /// The events that were asked for since the worker started.
    pub sought: Seq<Id>,
    /// The names of the subscriptions that end when the relay has sent
    /// what it had stored.
    pub one_shot: Seq<String>,
}

impl View for Minion {
    type V = MinionState;

    open(crate) spec fn view(&self) -> MinionState {
        MinionState {
            url: self.url@,
            relay: self.relay,
            subs: self.subscriptions@,
            next_events: self.next_events_subscription_id,
            sought: self.sought@,
            one_shot: self.one_shot@,
        }
    }
}

/// Whether `name` is among `names`.
pub open spec fn has_name(names: Seq<String>, name: Seq<char>) -> bool {
    exists|i: int| 0 <= i < names.len() && (#[trigger] names[i])@ == name
}

/// Whether `after` and `actions` are what comes of subscribing under the
/// name `handle` for `filters`, in the service of the job `job_id`. A
/// subscription that goes by the name keeps its id and gets the filters
/// and the job; the supervisor is told of the change of job. Else a new
/// subscription is held under a fresh id. Either way the relay is asked.
pub open spec fn subscribed(
    before: Map<Seq<char>, SubscriptionView>,
    after: Map<Seq<char>, SubscriptionView>,
    url: Seq<char>,
    actions: Seq<ActionView>,
    handle: Seq<char>,
    job_id: u64,
    filters: Seq<FilterView>,
) -> bool {
    if before.dom().contains(handle) {
        &&& after == before.insert(
            handle,
            SubscriptionView { job_id, filters, ..before[handle] },
        )
        &&& actions == seq![
            ActionView::JobUpdated(url, before[handle].job_id, job_id),
            ActionView::Send(ClientMessageView::Req(before[handle].id, filters)),
        ]
    } else {
        &&& after.dom() == before.dom().insert(handle)
        &&& forall|h: Seq<char>|
            h != handle && before.dom().contains(h) ==> #[trigger] after[h] == before[h]
        &&& after[handle] == (SubscriptionView {
            id: after[handle].id,
            job_id,
            filters,
            eose: false,
        })
        &&& after[handle].id.len() == 32
        &&& actions == seq![ActionView::Send(ClientMessageView::Req(after[handle].id, filters))]
    }
}

/// Whether `after` and `actions` are what comes of closing the
/// subscription that goes by the name `handle`: the relay is told, and
/// the subscription is let go. Nothing happens if there is none.
pub open spec fn unsubscribed(
    before: Map<Seq<char>, SubscriptionView>,
    after: Map<Seq<char>, SubscriptionView>,
    actions: Seq<ActionView>,
    handle: Seq<char>,
) -> bool {
    if before.dom().contains(handle) {
        &&& after == before.remove(handle)
        &&& actions == seq![ActionView::Send(ClientMessageView::Close(before[handle].id))]
    } else {
        &&& after == before
        &&& actions.len() == 0
    }
}

/// Whether `after` and `actions` are what comes of setting the
/// subscription of the name `handle` to `filters`: subscribing, or, where
/// there is nothing to ask for, closing.
pub open spec fn resubscribed(
    before: Map<Seq<char>, SubscriptionView>,
    after: Map<Seq<char>, SubscriptionView>,
    url: Seq<char>,
    actions: Seq<ActionView>,
    handle: Seq<char>,
    job_id: u64,
    filters: Seq<FilterView>,
) -> bool {
    if filters.len() == 0 {
        unsubscribed(before, after, actions, handle)
    } else {
        subscribed(before, after, url, actions, handle, job_id, filters)
    }
}

/// Whether setting the subscription of the name `handle` to `filters`
/// opens a new subscription: there is something to ask for, and no
/// subscription goes by the name.
pub open spec fn opens(
    subs: Map<Seq<char>, SubscriptionView>,
    handle: Seq<char>,
    filters: Seq<FilterView>,
) -> bool {
    filters.len() > 0 && !subs.dom().contains(handle)
}

impl Minion {
    /// Whether the worker is in order.
    pub open(crate) spec fn wf(&self) -> bool {
        self.subscriptions.wf()
    }

    /// A worker for the relay `url`, of which `record` is on record. The
    /// worker holds the record, or a new one where there is none; the
    /// flag says whether the record is new, and so to be stored.
    pub fn new(url: RelayUrl, record: Option<Relay>) -> (r: (Minion, bool))
        ensures
            r.0.wf(),
            r.1 == (record is None),
            r.0@ == (MinionState {
                url: url@,
                relay: match record {
                    Some(relay) => relay,
                    None => r.0@.relay,
                },
                subs: Map::empty(),
                next_events: 0,
                sought: Seq::empty(),
                one_shot: Seq::empty(),
            }),
            record is None ==> r.0@.relay.url@ == url@ && r.0@.relay.rank == 3
                && r.0@.relay.usage_bits == 0 && r.0@.relay.success_count == 0
                && r.0@.relay.failure_count == 0 && r.0@.relay.last_success_at is None
                && !r.0@.relay.hidden,
    {
        let (relay, is_new) = match record {
            Some(relay) => (relay, false),
            None => (Relay::new(url.clone()), true),
        };
        (
            Minion {
                url,
                relay,
                subscriptions: Subscriptions::new(),
                next_events_subscription_id: 0,
                sought: Vec::new(),
                one_shot: Vec::new(),
            },
            is_new,
        )
    }

    /// The relay that the worker serves.
    pub fn url(&self) -> (r: &RelayUrl)
        ensures
            r@ == self@.url,
    {
        &self.url
    }

    /// The record of the relay.
    pub fn relay(&self) -> (r: &Relay)
        ensures
            *r == self@.relay,
    {
        &self.relay
    }

    /// The subscriptions that the worker holds.
    pub fn subscriptions(&self) -> (r: &Subscriptions)
        ensures
            r@ == self@.subs,
            self.wf() ==> r.wf(),
    {
        &self.subscriptions
    }

    /// Whether an order addressed to `target` is for this worker: it is
    /// addressed to its relay, or to all.
    pub fn is_addressed(&self, target: &String) -> (r: bool)
        ensures
            r == (target@ == self@.url || target@ == "all"@),
    {
        let all = "all".to_owned();
        self.url.is_target(target) || *target == all
    }

    /// Notes a connection that succeeded at the time `now`.
    pub fn connected(&mut self, now: u64)
        ensures
            final(self)@.relay == (Relay {
                last_success_at: Some(now),
                success_count: if old(self)@.relay.success_count == u64::MAX {
                    u64::MAX
                } else {
                    (old(self)@.relay.success_count + 1) as u64
                },
                ..old(self)@.relay
            }),
            final(self)@.url == old(self)@.url,
            final(self)@.subs == old(self)@.subs,
            final(self)@.next_events == old(self)@.next_events,
            final(self)@.sought == old(self)@.sought,
            final(self)@.one_shot == old(self)@.one_shot,
            old(self).wf() ==> final(self).wf(),
    {
        self.relay.record_success(now);
    }

    /// How far back the subscriptions look.
    pub fn times(&self, env: &MinionEnv) -> (r: FeedTimes)
        ensures
            r.special_since == as_time(
                crate::minion::feed::special_since(self@.relay.last_success_at, env.overlap),
            ),
            r.feed_since == as_time(
                crate::minion::feed::feed_since(
                    self@.relay.last_success_at,
                    env.overlap,
                    env.feed_chunk,
                    env.now,
                ),
            ),
            r.feed_since >= crate::minion::feed::EPOCH_2020,
            r.special_since >= crate::minion::feed::EPOCH_2020,
    {
        feed_times(self.relay.last_success_at, env.overlap, env.feed_chunk, env.now)
    }

    /// Subscribes under the name `handle` for `filters`, in the service
    /// of the job `job_id`. A subscription that goes by the name is
    /// changed in its place, which always succeeds; a new one needs a
    /// fresh id, and where none can be made nothing changes.
    pub fn subscribe(&mut self, filters: Vec<Filter>, handle: &str, job_id: u64) -> (r: Result<
        Vec<MinionAction>,
        CoreError,
    >)
        requires
            old(self).wf(),
        ensures
            final(self).wf(),
            final(self)@ == (MinionState { subs: final(self)@.subs, ..old(self)@ }),
            match r {
                Ok(actions) => subscribed(
                    old(self)@.subs,
                    final(self)@.subs,
                    old(self)@.url,
                    action_views(actions@),
                    handle@,
                    job_id,
                    filter_views(filters@),
                ),
                Err(e) => e is NoNonce && !old(self)@.subs.dom().contains(handle@) && final(self)@
                    == old(self)@,
            },
    {
        let mut actions: Vec<MinionAction> = Vec::new();
        let ghost wanted = filter_views(filters@);
        if self.subscriptions.has(handle) {
            let ghost was = self.subscriptions@[handle@];
            let old_job_id;
            let req;
            match self.subscriptions.get_mut(handle) {
                Some(sub) => {
                    old_job_id = sub.change_job_id(job_id);
                    let slot = sub.get_mut();
                    *slot = filters;
                    req = sub.req_message();
                },
                None => {
                    proof {
                        assert(false);
                    }
                    return Ok(actions);
                },
            }
            actions.push(MinionAction::JobUpdated(self.url.clone(), old_job_id, job_id));
            actions.push(MinionAction::Send(req));
            proof {
                assert(action_views(actions@) =~= seq![
                    ActionView::JobUpdated(self.url@, was.job_id, job_id),
                    ActionView::Send(ClientMessageView::Req(was.id, wanted)),
                ]);
            }
        } else {
            match self.subscriptions.add(handle, job_id, filters) {
                Ok(_) => {},
                Err(e) => {
                    return Err(e);
                },
            }
            let req = match self.subscriptions.get(handle) {
                Some(sub) => sub.req_message(),
                None => {
                    proof {
                        assert(false);
                    }
                    return Ok(actions);
                },
            };
            actions.push(MinionAction::Send(req));
            proof {
                assert(self.subscriptions@.dom().contains(handle@));
                assert(action_views(actions@) =~= seq![
                    ActionView::Send(
                        ClientMessageView::Req(self.subscriptions@[handle@].id, wanted),
                    ),
                ]);
            }
        }
        Ok(actions)
    }

    /// Closes the subscription that goes by the name `handle`.
    pub fn unsubscribe(&mut self, handle: &str) -> (r: Vec<MinionAction>)
        requires
            old(self).wf(),
        ensures
            final(self).wf(),
            final(self)@ == (MinionState { subs: final(self)@.subs, ..old(self)@ }),
            unsubscribed(old(self)@.subs, final(self)@.subs, action_views(r@), handle@),
    {
        let mut actions: Vec<MinionAction> = Vec::new();
        let close = match self.subscriptions.get(handle) {
            Some(sub) => sub.close_message(),
            None => {
                assert(action_views(actions@) =~= Seq::empty());
                return actions;
            },
        };
        actions.push(MinionAction::Send(close));
        self.subscriptions.remove(handle);
        proof {
            assert(action_views(actions@) =~= seq![
                ActionView::Send(ClientMessageView::Close(old(self)@.subs[handle@].id)),
            ]);
        }
        actions
    }

    /// Sets the subscription of the name `handle` to `filters`: subscribes,
    /// or, where there is nothing to ask for, closes. Only a new
    /// subscription can fail, for want of an id, and then nothing changes.
    pub fn resubscribe(&mut self, filters: Vec<Filter>, handle: &str, job_id: u64) -> (r: Result<
        Vec<MinionAction>,
        CoreError,
    >)
        requires
            old(self).wf(),
        ensures
            final(self).wf(),
            final(self)@ == (MinionState { subs: final(self)@.subs, ..old(self)@ }),
            match r {
                Ok(actions) => resubscribed(
                    old(self)@.subs,
                    final(self)@.subs,
                    old(self)@.url,
                    action_views(actions@),
                    handle@,
                    job_id,
                    filter_views(filters@),
                ),
                Err(e) => e is NoNonce && opens(old(self)@.subs, handle@, filter_views(filters@))
                    && final(self)@ == old(self)@,
            },
    {
        if filters.len() == 0 {
            Ok(self.unsubscribe(handle))
        } else {
            self.subscribe(filters, handle, job_id)
        }
    }
}

} // verus!
