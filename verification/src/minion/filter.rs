//! The filters by which a relay is told what we want, and the messages
//! that carry them.

use vstd::prelude::*;
use crate::comms::{copy_ids, copy_keys, Event, EventView};
use crate::keys::{Id, PublicKey};

verus! {

/// The kinds of event that the core asks for.
#[derive(Clone, Copy, Debug, PartialEq, Eq, Structural, Hash)]
pub enum EventKind {
    Metadata,
    TextNote,
    ContactList,
    EncryptedDirectMessage,
    EventDeletion,
    Reaction,
    RelayList,
    /// Any other kind, by its number.
    Other(u32),
}

impl EventKind {
    /// The number of the kind on the wire.
    pub fn number(&self) -> (r: u32)
        ensures
            r == match *self {
                EventKind::Metadata => 0u32,
                EventKind::TextNote => 1u32,
                EventKind::ContactList => 3u32,
                EventKind::EncryptedDirectMessage => 4u32,
                EventKind::EventDeletion => 5u32,
                EventKind::Reaction => 7u32,
                EventKind::RelayList => 10002u32,
                EventKind::Other(n) => n,
            },
    {
        match self {
            EventKind::Metadata => 0,
            EventKind::TextNote => 1,
            EventKind::ContactList => 3,
            EventKind::EncryptedDirectMessage => 4,
            EventKind::EventDeletion => 5,
            EventKind::Reaction => 7,
            EventKind::RelayList => 10002,
            EventKind::Other(n) => *n,
        }
    }
}

/// What events we want from a relay: those that meet every condition
/// that is set. An empty list sets no condition.
#[derive(Debug)]
pub struct Filter {
    /// The event is one of these.
    pub ids: Vec<Id>,
    /// Its author is one of these.
    pub authors: Vec<PublicKey>,
    /// Its kind is one of these.
    pub kinds: Vec<EventKind>,
    /// It refers to one of these events.
    pub e: Vec<Id>,
    /// It refers to one of these people.
    pub p: Vec<PublicKey>,
    /// Its identifier is one of these.
    pub d: Vec<String>,
    /// It was made at this time or later.
    pub since: Option<i64>,
}

/// A filter as mathematics.
pub struct FilterView {
    pub ids: Seq<Id>,
    pub authors: Seq<PublicKey>,
    pub kinds: Seq<EventKind>,
    pub e: Seq<Id>,
    pub p: Seq<PublicKey>,
    pub d: Seq<Seq<char>>,
    pub since: Option<i64>,
}

impl View for Filter {
    type V = FilterView;

    open spec fn view(&self) -> FilterView {
        FilterView {
            ids: self.ids@,
            authors: self.authors@,
            kinds: self.kinds@,
            e: self.e@,
            p: self.p@,
            d: self.d.deep_view(),
            since: self.since,
        }
    }
}

/// The filter that sets no condition.
pub open spec fn any_event() -> FilterView {
    FilterView {
        ids: Seq::empty(),
        authors: Seq::empty(),
        kinds: Seq::empty(),
        e: Seq::empty(),
        p: Seq::empty(),
        d: Seq::empty(),
        since: None,
    }
}

/// A copy of `kinds`.
pub fn copy_kinds(kinds: &Vec<EventKind>) -> (r: Vec<EventKind>)
    ensures
        r@ == kinds@,
{
    let r = kinds.clone();
    assert(r@ =~= kinds@);
    r
}

impl Clone for Filter {
    fn clone(&self) -> (r: Self)
        ensures
            r@ == self@,
    {
        let d = self.d.clone();
        assert(d.deep_view() =~= self.d.deep_view());
        Filter {
            ids: copy_ids(&self.ids),
            authors: copy_keys(&self.authors),
            kinds: copy_kinds(&self.kinds),
            e: copy_ids(&self.e),
            p: copy_keys(&self.p),
            d,
            since: self.since,
        }
    }
}

impl Filter {
    /// The filter that sets no condition.
    pub fn new() -> (r: Filter)
        ensures
            r@ == any_event(),
    {
        let r = Filter {
            ids: Vec::new(),
            authors: Vec::new(),
            kinds: Vec::new(),
            e: Vec::new(),
            p: Vec::new(),
            d: Vec::new(),
            since: None,
        };
        assert(r.d.deep_view() =~= Seq::<Seq<char>>::empty());
        r
    }
}

/// The views of the filters, in their order.
pub open spec fn filter_views(filters: Seq<Filter>) -> Seq<FilterView> {
    filters.map_values(|f: Filter| f@)
}

/// A copy of `filters`.
pub fn copy_filters(filters: &Vec<Filter>) -> (r: Vec<Filter>)
    ensures
        filter_views(r@) == filter_views(filters@),
{
    let mut out: Vec<Filter> = Vec::new();
    let mut i: usize = 0;
    while i < filters.len()
        invariant
            i <= filters.len(),
            out@.len() == i,
            forall|j: int| 0 <= j < i ==> (#[trigger] out@[j])@ == filters@[j]@,
        decreases filters.len() - i,
    {
        out.push(filters[i].clone());
        i += 1;
    }
    assert(filter_views(out@) =~= filter_views(filters@));
    out
}

/// A message to a relay.
#[derive(Debug)]
pub enum ClientMessage {
    /// Here is an event.
    Event(Box<Event>),
    /// Open the subscription of this id, or give it these filters.
    Req(String, Vec<Filter>),
    /// Close the subscription of this id.
    Close(String),
}

/// A message to a relay as mathematics.
pub enum ClientMessageView {
    Event(EventView),
    Req(Seq<char>, Seq<FilterView>),
    Close(Seq<char>),
}

impl View for ClientMessage {
    type V = ClientMessageView;

    open spec fn view(&self) -> ClientMessageView {
        match *self {
            ClientMessage::Event(e) => ClientMessageView::Event(e@),
            ClientMessage::Req(id, filters) => ClientMessageView::Req(id@, filter_views(filters@)),
            ClientMessage::Close(id) => ClientMessageView::Close(id@),
        }
    }
}

} // verus!
