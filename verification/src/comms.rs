//! Jobs, and the messages between the supervisor and its workers.

use vstd::prelude::*;
use crate::keys::{Id, PublicKey};
use crate::url::RelayUrl;

verus! {

/// Why a relay is connected. A persistent reason outlives the connection:
/// its job is taken up again when the worker has exited. The others are
/// ephemeral: their job ends with its completion or with the worker.
#[derive(Clone, Copy, Debug, PartialEq, Eq, Structural, Hash)]
pub enum RelayConnectionReason {
    Follow,
    FetchMentions,
    Config,
    Advertising,
    PostEvent,
    PostLike,
    PostContacts,
    PostMetadata,
    FetchMetadata,
    FetchEvent,
    FetchAugments,
    Discovery,
    ReadThread,
    FetchDirectMessages,
}

impl RelayConnectionReason {
    /// Whether the reason is persistent.
    pub open spec fn spec_persistent(&self) -> bool {
        match *self {
            RelayConnectionReason::Follow => true,
            RelayConnectionReason::FetchMentions => true,
            RelayConnectionReason::Config => true,
            RelayConnectionReason::ReadThread => true,
            RelayConnectionReason::FetchDirectMessages => true,
            _ => false,
        }
    }

    /// Whether the reason is persistent.
    #[verifier::when_used_as_spec(spec_persistent)]
    pub fn persistent(&self) -> (r: bool)
        ensures
            r == self.spec_persistent(),
    {
        match self {
            RelayConnectionReason::Follow => true,
            RelayConnectionReason::FetchMentions => true,
            RelayConnectionReason::Config => true,
            RelayConnectionReason::ReadThread => true,
            RelayConnectionReason::FetchDirectMessages => true,
            _ => false,
        }
    }

    /// A few words for the user.
    pub fn description(&self) -> (r: &'static str)
        ensures
            r@ == match *self {
                RelayConnectionReason::Follow => "Following"@,
                RelayConnectionReason::FetchMentions => "Fetching Mentions"@,
                RelayConnectionReason::Config => "Reading our Config"@,
                RelayConnectionReason::Advertising => "Advertising our relay list"@,
                RelayConnectionReason::PostEvent => "Posting an event"@,
                RelayConnectionReason::PostLike => "Posting a reaction"@,
                RelayConnectionReason::PostContacts => "Posting our contact list"@,
                RelayConnectionReason::PostMetadata => "Posting our metadata"@,
                RelayConnectionReason::FetchMetadata => "Fetching metadata"@,
                RelayConnectionReason::FetchEvent => "Fetching events"@,
                RelayConnectionReason::FetchAugments => "Fetching event augments"@,
                RelayConnectionReason::Discovery => "Discovering relay lists"@,
                RelayConnectionReason::ReadThread => "Reading ancestors of a thread"@,
                RelayConnectionReason::FetchDirectMessages => "Fetching direct messages"@,
            },
    {
        match self {
            RelayConnectionReason::Follow => "Following",
            RelayConnectionReason::FetchMentions => "Fetching Mentions",
            RelayConnectionReason::Config => "Reading our Config",
            RelayConnectionReason::Advertising => "Advertising our relay list",
            RelayConnectionReason::PostEvent => "Posting an event",
            RelayConnectionReason::PostLike => "Posting a reaction",
            RelayConnectionReason::PostContacts => "Posting our contact list",
            RelayConnectionReason::PostMetadata => "Posting our metadata",
            RelayConnectionReason::FetchMetadata => "Fetching metadata",
            RelayConnectionReason::FetchEvent => "Fetching events",
            RelayConnectionReason::FetchAugments => "Fetching event augments",
            RelayConnectionReason::Discovery => "Discovering relay lists",
            RelayConnectionReason::ReadThread => "Reading ancestors of a thread",
            RelayConnectionReason::FetchDirectMessages => "Fetching direct messages",
        }
    }
}

/// A signed event as it goes over the wire: its id, and its JSON text as
/// the signer produced it.
#[derive(Debug)]
pub struct Event {
    pub id: Id,
    pub json: String,
}

/// An event as mathematics.
pub struct EventView {
    pub id: Id,
    pub json: Seq<char>,
}

impl View for Event {
    type V = EventView;

    open spec fn view(&self) -> EventView {
        EventView { id: self.id, json: self.json@ }
    }
}

impl Clone for Event {
    fn clone(&self) -> (r: Self)
        ensures
            r@ == self@,
    {
        Event { id: self.id, json: self.json.clone() }
    }
}

/// The address of a replaceable event: kind, author and identifier, with
/// relays, as someone wrote them, where it may be found.
#[derive(Debug)]
pub struct EventAddr {
    pub kind: u32,
    pub author: PublicKey,
    pub d: String,
    pub relays: Vec<String>,
}

/// The address of an event as mathematics.
pub struct EventAddrView {
    pub kind: u32,
    pub author: PublicKey,
    pub d: Seq<char>,
    pub relays: Seq<Seq<char>>,
}

impl View for EventAddr {
    type V = EventAddrView;

    open spec fn view(&self) -> EventAddrView {
        EventAddrView {
            kind: self.kind,
            author: self.author,
            d: self.d@,
            relays: self.relays.deep_view(),
        }
    }
}

impl Clone for EventAddr {
    fn clone(&self) -> (r: Self)
        ensures
            r@ == self@,
    {
        let relays = self.relays.clone();
        assert(relays.deep_view() =~= self.relays.deep_view());
        EventAddr { kind: self.kind, author: self.author, d: self.d.clone(), relays }
    }
}

/// A private conversation, named by the other parties to it.
#[derive(Debug)]
pub struct DmChannel {
    pub keys: Vec<PublicKey>,
}

impl View for DmChannel {
    type V = Seq<PublicKey>;

    open spec fn view(&self) -> Seq<PublicKey> {
        self.keys@
    }
}

impl Clone for DmChannel {
    fn clone(&self) -> (r: Self)
        ensures
            r@ == self@,
    {
        let keys = self.keys.clone();
        assert(keys@ =~= self.keys@);
        DmChannel { keys }
    }
}

/// What a worker is asked to do.
#[derive(Debug)]
pub enum ToMinionPayloadDetail {
    FetchEvent(Id),
    FetchEventAddr(EventAddr),
    PostEvent(Box<Event>),
    Shutdown,
    SubscribeAugments(Vec<Id>),
    SubscribeDiscover(Vec<PublicKey>),
    SubscribeDmChannel(DmChannel),
    SubscribeGeneralFeed(Vec<PublicKey>),
    SubscribeMentions,
    SubscribeOutbox,
    SubscribeThreadFeed(Id, Vec<Id>),
    TempSubscribeMetadata(Vec<PublicKey>),
    UnsubscribeThreadFeed,
}

/// What a worker is asked to do, as mathematics.
pub enum DetailView {
    FetchEvent(Id),
    FetchEventAddr(EventAddrView),
    PostEvent(EventView),
    Shutdown,
    SubscribeAugments(Seq<Id>),
    SubscribeDiscover(Seq<PublicKey>),
    SubscribeDmChannel(Seq<PublicKey>),
    SubscribeGeneralFeed(Seq<PublicKey>),
    SubscribeMentions,
    SubscribeOutbox,
    SubscribeThreadFeed(Id, Seq<Id>),
    TempSubscribeMetadata(Seq<PublicKey>),
    UnsubscribeThreadFeed,
}

impl View for ToMinionPayloadDetail {
    type V = DetailView;

    open spec fn view(&self) -> DetailView {
        match *self {
            ToMinionPayloadDetail::FetchEvent(id) => DetailView::FetchEvent(id),
            ToMinionPayloadDetail::FetchEventAddr(ea) => DetailView::FetchEventAddr(ea@),
            ToMinionPayloadDetail::PostEvent(e) => DetailView::PostEvent(e@),
            ToMinionPayloadDetail::Shutdown => DetailView::Shutdown,
            ToMinionPayloadDetail::SubscribeAugments(ids) => DetailView::SubscribeAugments(ids@),
            ToMinionPayloadDetail::SubscribeDiscover(pks) => DetailView::SubscribeDiscover(pks@),
            ToMinionPayloadDetail::SubscribeDmChannel(c) => DetailView::SubscribeDmChannel(c@),
            ToMinionPayloadDetail::SubscribeGeneralFeed(pks) => DetailView::SubscribeGeneralFeed(
                pks@,
            ),
            ToMinionPayloadDetail::SubscribeMentions => DetailView::SubscribeMentions,
            ToMinionPayloadDetail::SubscribeOutbox => DetailView::SubscribeOutbox,
            ToMinionPayloadDetail::SubscribeThreadFeed(root, ancestors) =>
                DetailView::SubscribeThreadFeed(root, ancestors@),
            ToMinionPayloadDetail::TempSubscribeMetadata(pks) => DetailView::TempSubscribeMetadata(
                pks@,
            ),
            ToMinionPayloadDetail::UnsubscribeThreadFeed => DetailView::UnsubscribeThreadFeed,
        }
    }
}

/// A copy of `keys`.
pub fn copy_keys(keys: &Vec<PublicKey>) -> (r: Vec<PublicKey>)
    ensures
        r@ == keys@,
{
    let r = keys.clone();
    assert(r@ =~= keys@);
    r
}

/// A copy of `ids`.
pub fn copy_ids(ids: &Vec<Id>) -> (r: Vec<Id>)
    ensures
        r@ == ids@,
{
    let r = ids.clone();
    assert(r@ =~= ids@);
    r
}

impl Clone for ToMinionPayloadDetail {
    fn clone(&self) -> (r: Self)
        ensures
            r@ == self@,
    {
        match self {
            ToMinionPayloadDetail::FetchEvent(id) => ToMinionPayloadDetail::FetchEvent(*id),
            ToMinionPayloadDetail::FetchEventAddr(ea) => ToMinionPayloadDetail::FetchEventAddr(
                ea.clone(),
            ),
            ToMinionPayloadDetail::PostEvent(e) => {
                let ev: &Event = &**e;
                ToMinionPayloadDetail::PostEvent(Box::new(ev.clone()))
            },
            ToMinionPayloadDetail::Shutdown => ToMinionPayloadDetail::Shutdown,
            ToMinionPayloadDetail::SubscribeAugments(ids) => ToMinionPayloadDetail::SubscribeAugments(
                copy_ids(ids),
            ),
            ToMinionPayloadDetail::SubscribeDiscover(pks) => ToMinionPayloadDetail::SubscribeDiscover(
                copy_keys(pks),
            ),
            ToMinionPayloadDetail::SubscribeDmChannel(c) => ToMinionPayloadDetail::SubscribeDmChannel(
                c.clone(),
            ),
            ToMinionPayloadDetail::SubscribeGeneralFeed(pks) =>
                ToMinionPayloadDetail::SubscribeGeneralFeed(copy_keys(pks)),
            ToMinionPayloadDetail::SubscribeMentions => ToMinionPayloadDetail::SubscribeMentions,
            ToMinionPayloadDetail::SubscribeOutbox => ToMinionPayloadDetail::SubscribeOutbox,
            ToMinionPayloadDetail::SubscribeThreadFeed(root, ancestors) =>
                ToMinionPayloadDetail::SubscribeThreadFeed(*root, copy_ids(ancestors)),
            ToMinionPayloadDetail::TempSubscribeMetadata(pks) =>
                ToMinionPayloadDetail::TempSubscribeMetadata(copy_keys(pks)),
            ToMinionPayloadDetail::UnsubscribeThreadFeed =>
                ToMinionPayloadDetail::UnsubscribeThreadFeed,
        }
    }
}

/// One order to a worker. `job_id` names the job that the order belongs to;
/// 0 is kept for orders that belong to none, such as a shutdown.
#[derive(Debug)]
pub struct ToMinionPayload {
    pub job_id: u64,
    pub detail: ToMinionPayloadDetail,
}

/// An order to a worker as mathematics.
pub struct PayloadView {
    pub job_id: u64,
    pub detail: DetailView,
}

impl View for ToMinionPayload {
    type V = PayloadView;

    open spec fn view(&self) -> PayloadView {
        PayloadView { job_id: self.job_id, detail: self.detail@ }
    }
}

impl Clone for ToMinionPayload {
    fn clone(&self) -> (r: Self)
        ensures
            r@ == self@,
    {
        ToMinionPayload { job_id: self.job_id, detail: self.detail.clone() }
    }
}

/// An order on the bus to the workers. `target` is the text of the URL of
/// the relay whose worker is meant, or `"all"`.
#[derive(Debug)]
pub struct ToMinionMessage {
    pub target: String,
    pub payload: ToMinionPayload,
}

/// An order on the bus as mathematics.
pub struct MessageView {
    pub target: Seq<char>,
    pub payload: PayloadView,
}

impl View for ToMinionMessage {
    type V = MessageView;

    open spec fn view(&self) -> MessageView {
        MessageView { target: self.target@, payload: self.payload@ }
    }
}

impl Clone for ToMinionMessage {
    fn clone(&self) -> (r: Self)
        ensures
            r@ == self@,
    {
        ToMinionMessage { target: self.target.clone(), payload: self.payload.clone() }
    }
}

/// The order to stop, which belongs to no job.
pub open spec fn shutdown_payload() -> PayloadView {
    PayloadView { job_id: 0, detail: DetailView::Shutdown }
}

impl ToMinionMessage {
    /// An order for the worker of `url`.
    pub fn to_relay(url: &RelayUrl, payload: ToMinionPayload) -> (r: ToMinionMessage)
        ensures
            r@ == (MessageView { target: url@, payload: payload@ }),
    {
        ToMinionMessage { target: url.as_str().to_owned(), payload }
    }

    /// An order for every worker.
    pub fn to_all(payload: ToMinionPayload) -> (r: ToMinionMessage)
        ensures
            r@ == (MessageView { target: "all"@, payload: payload@ }),
    {
        ToMinionMessage { target: "all".to_owned(), payload }
    }

    /// The order to the worker of `url` to stop.
    pub fn shutdown(url: &RelayUrl) -> (r: ToMinionMessage)
        ensures
            r@ == (MessageView { target: url@, payload: shutdown_payload() }),
    {
        ToMinionMessage::to_relay(
            url,
            ToMinionPayload { job_id: 0, detail: ToMinionPayloadDetail::Shutdown },
        )
    }

    /// The order to every worker to stop.
    pub fn shutdown_all() -> (r: ToMinionMessage)
        ensures
            r@ == (MessageView { target: "all"@, payload: shutdown_payload() }),
    {
        ToMinionMessage::to_all(
            ToMinionPayload { job_id: 0, detail: ToMinionPayloadDetail::Shutdown },
        )
    }
}

/// One reason to be connected to a relay, with the order that serves it.
#[derive(Debug)]
pub struct RelayJob {
    pub reason: RelayConnectionReason,
    pub payload: ToMinionPayload,
}

/// A job as mathematics.
pub struct JobView {
    pub reason: RelayConnectionReason,
    pub payload: PayloadView,
}

impl View for RelayJob {
    type V = JobView;

    open spec fn view(&self) -> JobView {
        JobView { reason: self.reason, payload: self.payload@ }
    }
}

impl Clone for RelayJob {
    fn clone(&self) -> (r: Self)
        ensures
            r@ == self@,
    {
        RelayJob { reason: self.reason, payload: self.payload.clone() }
    }
}

impl RelayJob {
    /// A job for `reason` with the order `detail`, under the id `job_id`.
    pub fn new(reason: RelayConnectionReason, job_id: u64, detail: ToMinionPayloadDetail) -> (r:
        RelayJob)
        ensures
            r == (RelayJob { reason, payload: ToMinionPayload { job_id, detail } }),
    {
        RelayJob { reason, payload: ToMinionPayload { job_id, detail } }
    }
}

/// A list of people that the user keeps.
#[derive(Clone, Copy, Debug, PartialEq, Eq, Structural, Hash)]
pub enum PersonList {
    Muted,
    Followed,
}

/// A command to the supervisor. Commands are taken in the order in which
/// they were given, one at a time.
#[derive(Debug)]
pub enum ToOverlordMessage {
    AddRelay(RelayUrl),
    AdvertiseRelayList,
    DeletePost(Id),
    DropRelay(RelayUrl),
    FetchEvent(Id, Vec<RelayUrl>),
    FetchEventAddr(EventAddr),
    HideOrShowRelay(RelayUrl, bool),
    Like(Id, PublicKey),
    /// A worker has done the job of this id.
    MinionJobComplete(RelayUrl, u64),
    /// A worker has put the second job in the place of the first.
    MinionJobUpdated(RelayUrl, u64, u64),
    PickRelays,
    Post { content: String, tags: Vec<Vec<String>>, in_reply_to: Option<Id>, dm_channel: Option<DmChannel> },
    PushMetadata(String),
    PushPersonList(PersonList),
    RankRelay(RelayUrl, u8),
    ReengageMinion(RelayUrl, Vec<RelayJob>),
    RefreshSubscribedMetadata,
    Repost(Id),
    SetDmChannel(DmChannel),
    SetThreadFeed { id: Id, referenced_by: Id, relays: Vec<RelayUrl>, author: Option<PublicKey> },
    Shutdown,
    SubscribeConfig(RelayUrl),
    SubscribeDiscover(Vec<PublicKey>, Option<Vec<RelayUrl>>),
    UpdateMetadata(PublicKey),
    UpdateMetadataInBulk(Vec<PublicKey>),
    VisibleNotesChanged(Vec<Id>),
}

} // verus!
