//! What a worker does with an order from the supervisor, and when the
//! relay has sent all that it had stored.

use vstd::prelude::*;
use crate::comms::{DetailView, PayloadView, ToMinionMessage, ToMinionPayloadDetail};
use crate::error::CoreError;
use crate::keys::{contains_id, Id, PublicKey};
use crate::minion::feed::{
    addressed, addressed_filters, as_time, augments, augments_filters, direct_message_filters,
    direct_messages, discover, discover_filters, events_filters, events_of, general_feed,
    general_feed_filters, mentions, mentions_filters, metadata_filters, metadata_of, outbox,
    outbox_filters, seconds_before, thread_feed, thread_feed_filters, FeedTimes,
};
use crate::minion::filter::{filter_views, ClientMessage, ClientMessageView, Filter, FilterView};
use crate::minion::subscription::SubscriptionView;
use crate::minion::worker::{
    action_views, has_name, opens, resubscribed, subscribed, unsubscribed, ActionView, Minion,
    MinionAction, MinionEnv, MinionState,
};
use crate::text::{decimal, decimal_text, joined, key_hex};

verus! {

/// The name of the subscription to events that has the number `n`.
pub open spec fn events_handle(n: u32) -> Seq<char> {
    "temp_events_"@ + decimal_text(n as nat)
}

/// The name of the subscription to what `key` says of itself.
pub open spec fn metadata_handle(key: PublicKey) -> Seq<char> {
    "temp_metadata_"@ + key_hex(key)
}

/// The name of the subscription to the private conversation with
/// `others`: after the first of them, or after ourselves alone.
pub open spec fn dm_handle(others: Seq<PublicKey>) -> Seq<char> {
    if others.len() > 0 {
        "dm_channel_"@ + key_hex(others[0])
    } else {
        "dm_channel_self"@
    }
}

/// The number after `n`, or 0 after the last.
pub open spec fn next_number(n: u32) -> u32 {
    if n == u32::MAX {
        0
    } else {
        (n + 1) as u32
    }
}

/// Whether `after` is `before` with a name of the view `name` at the end.
pub open spec fn name_added(before: Seq<String>, after: Seq<String>, name: Seq<char>) -> bool {
    &&& after.len() == before.len() + 1
    &&& after.drop_last() == before
    &&& after.last()@ == name
}

impl MinionState {
    /// Whether `after` and `actions` are what comes of a subscription
    /// that ends by itself, under the name `handle` for `filters`: the
    /// worker subscribes and remembers the name.
    pub open spec fn subscribed_once(
        self,
        after: MinionState,
        actions: Seq<ActionView>,
        handle: Seq<char>,
        job_id: u64,
        filters: Seq<FilterView>,
    ) -> bool {
        &&& subscribed(self.subs, after.subs, self.url, actions, handle, job_id, filters)
        &&& name_added(self.one_shot, after.one_shot, handle)
        &&& after.url == self.url
        &&& after.relay == self.relay
    }

    /// Whether `after` and `actions` are what comes of setting the
    /// subscription of the name `handle` to `filters`, all else staying
    /// as it is.
    pub open spec fn named(
        self,
        after: MinionState,
        actions: Seq<ActionView>,
        handle: Seq<char>,
        job_id: u64,
        filters: Seq<FilterView>,
    ) -> bool {
        &&& resubscribed(self.subs, after.subs, self.url, actions, handle, job_id, filters)
        &&& after == (MinionState { subs: after.subs, ..self })
    }

    /// The name, if the subscription of the name `handle` set to `filters`
    /// would be a new one.
    pub open spec fn named_anew(self, handle: Seq<char>, filters: Seq<FilterView>) -> Option<
        Seq<char>,
    > {
        if opens(self.subs, handle, filters) {
            Some(handle)
        } else {
            None
        }
    }

    /// The name under which the order `order` opens a new subscription,
    /// if it opens one. Such an order needs a fresh id; every other order
    /// is carried out for certain.
    pub open spec fn new_name(self, order: PayloadView, env: MinionEnv, times: FeedTimes) -> Option<
        Seq<char>,
    > {
        match order.detail {
            DetailView::SubscribeGeneralFeed(identities) => self.named_anew(
                "general_feed"@,
                general_feed(identities, env.our_key, times),
            ),
            DetailView::SubscribeMentions => self.named_anew(
                "mentions"@,
                mentions(env.our_key, times),
            ),
            DetailView::SubscribeOutbox => self.named_anew("outbox"@, outbox(env.our_key)),
            DetailView::SubscribeDiscover(identities) => self.named_anew(
                "discover"@,
                discover(identities),
            ),
            DetailView::SubscribeAugments(ids) => self.named_anew("augments"@, augments(ids)),
            DetailView::SubscribeDmChannel(others) => self.named_anew(
                dm_handle(others),
                direct_messages(env.our_key, others),
            ),
            DetailView::SubscribeThreadFeed(root, ancestors) => self.named_anew(
                "thread_feed"@,
                thread_feed(root, ancestors, as_time(env.now - env.feed_chunk)),
            ),
            DetailView::FetchEvent(id) => if self.sought.contains(id) {
                None
            } else {
                self.named_anew(events_handle(self.next_events), seq![events_of(seq![id])])
            },
            DetailView::FetchEventAddr(ea) => self.named_anew(
                events_handle(self.next_events),
                seq![addressed(ea.kind, ea.author, ea.d)],
            ),
            DetailView::TempSubscribeMetadata(identities) => if identities.len() == 0 {
                None
            } else {
                self.named_anew(metadata_handle(identities[0]), seq![metadata_of(identities)])
            },
            _ => None,
        }
    }

    /// Whether `after`, `keepgoing` and `actions` are what comes of the
    /// order `order`, taken when `env` holds and the subscriptions look
    /// back as far as `times` say.
    pub open spec fn ordered(
        self,
        after: MinionState,
        order: PayloadView,
        env: MinionEnv,
        times: FeedTimes,
        keepgoing: bool,
        actions: Seq<ActionView>,
    ) -> bool {
        let job = order.job_id;
        match order.detail {
            DetailView::Shutdown => !keepgoing && after == self && actions.len() == 0,
            DetailView::PostEvent(e) => keepgoing && after == self && actions == seq![
                ActionView::Send(ClientMessageView::Event(e)),
                ActionView::JobComplete(self.url, job),
            ],
            DetailView::SubscribeGeneralFeed(identities) => keepgoing && self.named(
                after,
                actions,
                "general_feed"@,
                job,
                general_feed(identities, env.our_key, times),
            ),
            DetailView::SubscribeMentions => keepgoing && self.named(
                after,
                actions,
                "mentions"@,
                job,
                mentions(env.our_key, times),
            ),
            DetailView::SubscribeOutbox => keepgoing && self.named(
                after,
                actions,
                "outbox"@,
                job,
                outbox(env.our_key),
            ),
            DetailView::SubscribeDiscover(identities) => keepgoing && self.named(
                after,
                actions,
                "discover"@,
                job,
                discover(identities),
            ),
            DetailView::SubscribeAugments(ids) => keepgoing && self.named(
                after,
                actions,
                "augments"@,
                job,
                augments(ids),
            ),
            DetailView::SubscribeDmChannel(others) => keepgoing && self.named(
                after,
                actions,
                dm_handle(others),
                job,
                direct_messages(env.our_key, others),
            ),
            DetailView::SubscribeThreadFeed(root, ancestors) => keepgoing && self.named(
                after,
                actions,
                "thread_feed"@,
                job,
                thread_feed(root, ancestors, as_time(env.now - env.feed_chunk)),
            ),
            DetailView::UnsubscribeThreadFeed => keepgoing && unsubscribed(
                self.subs,
                after.subs,
                actions,
                "thread_feed"@,
            ) && after == (MinionState { subs: after.subs, ..self }),
            DetailView::FetchEvent(id) => keepgoing && if self.sought.contains(id) {
                after == self && actions == seq![ActionView::JobComplete(self.url, job)]
            } else {
                &&& self.subscribed_once(
                    after,
                    actions,
                    events_handle(self.next_events),
                    job,
                    seq![events_of(seq![id])],
                )
                &&& after.sought == self.sought.push(id)
                &&& after.next_events == next_number(self.next_events)
            },
            DetailView::FetchEventAddr(ea) => {
                &&& keepgoing
                &&& self.subscribed_once(
                    after,
                    actions,
                    events_handle(self.next_events),
                    job,
                    seq![addressed(ea.kind, ea.author, ea.d)],
                )
                &&& after.sought == self.sought
                &&& after.next_events == next_number(self.next_events)
            },
            DetailView::TempSubscribeMetadata(identities) => keepgoing && if identities.len()
                == 0 {
                after == self && actions == seq![ActionView::JobComplete(self.url, job)]
            } else {
                &&& self.subscribed_once(
                    after,
                    actions,
                    metadata_handle(identities[0]),
                    job,
                    seq![metadata_of(identities)],
                )
                &&& after.sought == self.sought
                &&& after.next_events == self.next_events
            },
        }
    }
}

/// How far back the subscriptions of a relay look when `env` holds.
pub open spec fn times_at(last_success_at: Option<u64>, env: MinionEnv) -> FeedTimes {
    FeedTimes {
        feed_since: as_time(
            crate::minion::feed::feed_since(last_success_at, env.overlap, env.feed_chunk, env.now),
        ),
        special_since: as_time(crate::minion::feed::special_since(last_success_at, env.overlap)),
    }
}

impl Minion {
    /// Subscribes under the name `handle` for `filters`, for as long as
    /// it takes the relay to send what it has stored. Where no id can be
    /// made for a new subscription nothing changes.
    fn subscribe_once(&mut self, filters: Vec<Filter>, handle: String, job_id: u64) -> (r: Result<
        Vec<MinionAction>,
        CoreError,
    >)
        requires
            old(self).wf(),
        ensures
            final(self).wf(),
            final(self)@.sought == old(self)@.sought,
            final(self)@.next_events == old(self)@.next_events,
            match r {
                Ok(actions) => old(self)@.subscribed_once(
                    final(self)@,
                    action_views(actions@),
                    handle@,
                    job_id,
                    filter_views(filters@),
                ),
                Err(e) => e is NoNonce && !old(self)@.subs.dom().contains(handle@) && final(self)@
                    == old(self)@,
            },
    {
        match self.subscribe(filters, handle.as_str(), job_id) {
            Ok(actions) => {
                let ghost before = self.one_shot@;
                self.one_shot.push(handle);
                assert(self.one_shot@.drop_last() =~= before);
                Ok(actions)
            },
            Err(e) => Err(e),
        }
    }

    /// The name for the next subscription to events.
    fn next_events_handle(&self) -> (r: String)
        ensures
            r@ == events_handle(self@.next_events),
    {
        let digits = decimal(self.next_events_subscription_id);
        joined("temp_events_", digits.as_str())
    }

    /// Passes on to the number for the name of the subscription to events
    /// after the next.
    fn count_events_handle(&mut self)
        ensures
            final(self)@ == (MinionState {
                next_events: next_number(old(self)@.next_events),
                ..old(self)@
            }),
            old(self).wf() ==> final(self).wf(),
    {
        let n = self.next_events_subscription_id;
        self.next_events_subscription_id = if n == u32::MAX {
            0
        } else {
            n + 1
        };
    }

    /// Takes the order `message`, which is addressed to this worker.
    /// Hands back whether the worker is to go on, and what the host is
    /// to do for it, in this order. An order fails only where it opens a
    /// new subscription and no id can be made for it; nothing changes
    /// then.
    pub fn handle_message(&mut self, message: ToMinionMessage, env: &MinionEnv) -> (r: Result<
        (bool, Vec<MinionAction>),
        CoreError,
    >)
        requires
            old(self).wf(),
        ensures
            final(self).wf(),
            match r {
                Ok(done) => old(self)@.ordered(
                    final(self)@,
                    message.payload@,
                    *env,
                    times_at(old(self)@.relay.last_success_at, *env),
                    done.0,
                    action_views(done.1@),
                ),
                Err(e) => e is NoNonce && final(self)@ == old(self)@ && old(self)@.new_name(
                    message.payload@,
                    *env,
                    times_at(old(self)@.relay.last_success_at, *env),
                ) is Some,
            },
    {
        let job_id = message.payload.job_id;
        let times = self.times(env);
        assert(times == times_at(self@.relay.last_success_at, *env));
        let ghost order = message.payload@;
        let mut keepgoing = true;
        let outcome: Result<Vec<MinionAction>, CoreError> = match message.payload.detail {
            ToMinionPayloadDetail::Shutdown => {
                keepgoing = false;
                let actions: Vec<MinionAction> = Vec::new();
                Ok(actions)
            },
            ToMinionPayloadDetail::PostEvent(event) => {
                let mut actions: Vec<MinionAction> = Vec::new();
                let ghost e = event@;
                actions.push(MinionAction::Send(ClientMessage::Event(event)));
                actions.push(MinionAction::JobComplete(self.url.clone(), job_id));
                assert(action_views(actions@) =~= seq![
                    ActionView::Send(ClientMessageView::Event(e)),
                    ActionView::JobComplete(self.url@, job_id),
                ]);
                Ok(actions)
            },
            ToMinionPayloadDetail::SubscribeGeneralFeed(identities) => {
                let filters = general_feed_filters(&identities, env.our_key, times);
                self.resubscribe(filters, "general_feed", job_id)
            },
            ToMinionPayloadDetail::SubscribeMentions => {
                let filters = mentions_filters(env.our_key, times);
                self.resubscribe(filters, "mentions", job_id)
            },
            ToMinionPayloadDetail::SubscribeOutbox => {
                let filters = outbox_filters(env.our_key);
                self.resubscribe(filters, "outbox", job_id)
            },
            ToMinionPayloadDetail::SubscribeDiscover(identities) => {
                let filters = discover_filters(&identities);
                self.resubscribe(filters, "discover", job_id)
            },
            ToMinionPayloadDetail::SubscribeAugments(ids) => {
                let filters = augments_filters(&ids);
                self.resubscribe(filters, "augments", job_id)
            },
            ToMinionPayloadDetail::SubscribeDmChannel(channel) => {
                let filters = direct_message_filters(env.our_key, &channel.keys);
                let handle = if channel.keys.len() > 0 {
                    let hex = channel.keys[0].as_hex_string();
                    joined("dm_channel_", hex.as_str())
                } else {
                    "dm_channel_self".to_owned()
                };
                self.resubscribe(filters, handle.as_str(), job_id)
            },
            ToMinionPayloadDetail::SubscribeThreadFeed(root, ancestors) => {
                let since = seconds_before(env.now, env.feed_chunk);
                let filters = thread_feed_filters(root, &ancestors, since);
                self.resubscribe(filters, "thread_feed", job_id)
            },
            ToMinionPayloadDetail::UnsubscribeThreadFeed => Ok(self.unsubscribe("thread_feed")),
            ToMinionPayloadDetail::FetchEvent(id) => {
                if contains_id(&self.sought, id) {
                    let mut actions: Vec<MinionAction> = Vec::new();
                    actions.push(MinionAction::JobComplete(self.url.clone(), job_id));
                    assert(action_views(actions@) =~= seq![
                        ActionView::JobComplete(self.url@, job_id),
                    ]);
                    Ok(actions)
                } else {
                    let handle = self.next_events_handle();
                    let mut ids: Vec<Id> = Vec::new();
                    ids.push(id);
                    assert(ids@ =~= seq![id]);
                    let filters = events_filters(&ids);
                    match self.subscribe_once(filters, handle, job_id) {
                        Ok(actions) => {
                            self.sought.push(id);
                            self.count_events_handle();
                            Ok(actions)
                        },
                        Err(e) => Err(e),
                    }
                }
            },
            ToMinionPayloadDetail::FetchEventAddr(ea) => {
                let handle = self.next_events_handle();
                let filters = addressed_filters(ea.kind, ea.author, &ea.d);
                match self.subscribe_once(filters, handle, job_id) {
                    Ok(actions) => {
                        self.count_events_handle();
                        Ok(actions)
                    },
                    Err(e) => Err(e),
                }
            },
            ToMinionPayloadDetail::TempSubscribeMetadata(identities) => {
                if identities.len() == 0 {
                    let mut actions: Vec<MinionAction> = Vec::new();
                    actions.push(MinionAction::JobComplete(self.url.clone(), job_id));
                    assert(action_views(actions@) =~= seq![
                        ActionView::JobComplete(self.url@, job_id),
                    ]);
                    Ok(actions)
                } else {
                    let hex = identities[0].as_hex_string();
                    let handle = joined("temp_metadata_", hex.as_str());
                    let filters = metadata_filters(&identities);
                    self.subscribe_once(filters, handle, job_id)
                }
            },
        };
        match outcome {
            Ok(actions) => {
                proof {
                    assert(old(self)@.ordered(
                        self@,
                        order,
                        *env,
                        times,
                        keepgoing,
                        action_views(actions@),
                    ));
                }
                Ok((keepgoing, actions))
            },
            Err(e) => {
                proof {
                    assert(old(self)@.new_name(order, *env, times) is Some);
                }
                Err(e)
            },
        }
    }

    /// Whether the name `handle` is that of a subscription that ends by
    /// itself.
    fn is_one_shot(&self, handle: &String) -> (r: bool)
        ensures
            r == has_name(self@.one_shot, handle@),
    {
        let mut i: usize = 0;
        while i < self.one_shot.len()
            invariant
                i <= self.one_shot.len(),
                forall|j: int| 0 <= j < i ==> (#[trigger] self.one_shot@[j])@ != handle@,
            decreases self.one_shot.len() - i,
        {
            if self.one_shot[i] == *handle {
                return true;
            }
            i += 1;
        }
        false
    }

    /// To be called when the relay says that it has sent all that it had
    /// stored for the subscription that it knows by `sub_id`. The
    /// subscription is marked; one that ends by itself is closed, and the
    /// supervisor told that its job is done. An id that no subscription
    /// has changes nothing.
    pub fn handle_eose(&mut self, sub_id: &str) -> (r: Vec<MinionAction>)
        requires
            old(self).wf(),
        ensures
            final(self).wf(),
            final(self)@ == (MinionState { subs: final(self)@.subs, ..old(self)@ }),
            (forall|h: Seq<char>|
                old(self)@.subs.dom().contains(h) ==> (#[trigger] old(self)@.subs[h]).id
                    != sub_id@) ==> final(self)@ == old(self)@ && r@.len() == 0,
            (exists|h: Seq<char>|
                old(self)@.subs.dom().contains(h) && (#[trigger] old(self)@.subs[h]).id == sub_id@)
                ==> exists|h: Seq<char>|
                #![trigger old(self)@.subs[h]]
                old(self)@.subs.dom().contains(h) && old(self)@.subs[h].id == sub_id@ && if has_name(
                    old(self)@.one_shot,
                    h,
                ) {
                    &&& final(self)@.subs == old(self)@.subs.remove(h)
                    &&& action_views(r@) == seq![
                        ActionView::Send(ClientMessageView::Close(sub_id@)),
                        ActionView::JobComplete(old(self)@.url, old(self)@.subs[h].job_id),
                    ]
                } else {
                    &&& final(self)@.subs == old(self)@.subs.insert(
                        h,
                        SubscriptionView { eose: true, ..old(self)@.subs[h] },
                    )
                    &&& r@.len() == 0
                },
    {
        let handle = match self.subscriptions.get_handle_by_id(sub_id) {
            Some(handle) => handle,
            None => {
                return Vec::new();
            },
        };
        let ghost h = handle@;
        let ghost was = self.subscriptions@[h];
        let job_id;
        match self.subscriptions.get_mut(handle.as_str()) {
            Some(sub) => {
                sub.set_eose();
                job_id = sub.get_job_id();
            },
            None => {
                proof {
                    assert(false);
                }
                return Vec::new();
            },
        }
        if self.is_one_shot(&handle) {
            let mut actions = self.unsubscribe(handle.as_str());
            let ghost closing = action_views(actions@);
            actions.push(MinionAction::JobComplete(self.url.clone(), job_id));
            proof {
                assert(action_views(actions@) =~= closing.push(
                    ActionView::JobComplete(self.url@, job_id),
                ));
                assert(self@.subs =~= old(self)@.subs.remove(h));
            }
            actions
        } else {
            Vec::new()
        }
    }
}

} // verus!
