//! How far back a subscription looks, and what it asks for.

use vstd::prelude::*;
use crate::comms::{copy_ids, copy_keys};
use crate::keys::{Id, PublicKey};
use crate::minion::filter::{any_event, EventKind, Filter, FilterView};

verus! {

/// The first second of 2020. No subscription looks back further: there is
/// nothing older that we need, and some relays do not take early dates.
pub const EPOCH_2020: i64 = 1577836800;

/// The time as a `i64` holds it: itself, or the last time there is.
pub open spec fn as_time(t: int) -> i64 {
    if t > i64::MAX {
        i64::MAX
    } else if t < i64::MIN {
        i64::MIN
    } else {
        t as i64
    }
}

/// The later of two times.
pub open spec fn later_of(a: int, b: int) -> int {
    if a >= b {
        a
    } else {
        b
    }
}

/// From when on we ask for what concerns us alone: from our last success
/// at the relay, less the overlap that makes up for clocks that differ and
/// for events that travel slowly; never from before 2020. A relay at
/// which we never succeeded counts as last seen in 1970.
pub open spec fn special_since(last_success_at: Option<u64>, overlap: u64) -> int {
    let last: int = match last_success_at {
        Some(t) => t as int,
        None => 0,
    };
    later_of(last - overlap, EPOCH_2020 as int)
}

/// From when on we ask for the feed: as for what concerns us alone, but
/// no further back than one chunk of feed before `now`.
pub open spec fn feed_since(last_success_at: Option<u64>, overlap: u64, feed_chunk: u64, now: i64) -> int {
    later_of(special_since(last_success_at, overlap), now - feed_chunk)
}

/// How far back the subscriptions of a relay look.
#[derive(Clone, Copy, Debug, PartialEq, Eq, Structural)]
pub struct FeedTimes {
    pub feed_since: i64,
    pub special_since: i64,
}

/// How far back the subscriptions of a relay look at the time `now`.
pub fn feed_times(last_success_at: Option<u64>, overlap: u64, feed_chunk: u64, now: i64) -> (r:
    FeedTimes)
    ensures
        r.special_since == as_time(special_since(last_success_at, overlap)),
        r.feed_since == as_time(feed_since(last_success_at, overlap, feed_chunk, now)),
        r.special_since >= EPOCH_2020,
        r.feed_since >= EPOCH_2020,
        r.feed_since >= r.special_since,
{
    let last: i128 = match last_success_at {
        Some(t) => t as i128,
        None => 0,
    };
    let mut special: i128 = last - overlap as i128;
    if special < EPOCH_2020 as i128 {
        special = EPOCH_2020 as i128;
    }
    let chunk_ago: i128 = now as i128 - feed_chunk as i128;
    let feed: i128 = if special >= chunk_ago {
        special
    } else {
        chunk_ago
    };
    FeedTimes { feed_since: clamp_time(feed), special_since: clamp_time(special) }
}

/// The time as a `i64` holds it.
fn clamp_time(t: i128) -> (r: i64)
    ensures
        r == as_time(t as int),
{
    if t > i64::MAX as i128 {
        i64::MAX
    } else if t < i64::MIN as i128 {
        i64::MIN
    } else {
        t as i64
    }
}

/// The time `seconds` before `now`, or the first time there is.
pub fn seconds_before(now: i64, seconds: u64) -> (r: i64)
    ensures
        r == as_time(now - seconds),
{
    clamp_time(now as i128 - seconds as i128)
}

/// The kinds of event that make up a feed.
pub open spec fn feed_kinds() -> Seq<EventKind> {
    seq![EventKind::TextNote, EventKind::Reaction, EventKind::EventDeletion]
}

/// The kinds of event that make up a feed.
pub fn feed_kind_list() -> (r: Vec<EventKind>)
    ensures
        r@ == feed_kinds(),
{
    let mut kinds: Vec<EventKind> = Vec::new();
    kinds.push(EventKind::TextNote);
    kinds.push(EventKind::Reaction);
    kinds.push(EventKind::EventDeletion);
    assert(kinds@ =~= feed_kinds());
    kinds
}

/// The filter for what the people `authors` post, from `since` on.
pub open spec fn authors_feed(authors: Seq<PublicKey>, since: i64) -> FilterView {
    FilterView { authors, kinds: feed_kinds(), since: Some(since), ..any_event() }
}

/// The filter for what mentions `key`, from `since` on.
pub open spec fn mentions_of(key: PublicKey, since: i64) -> FilterView {
    FilterView { p: seq![key], since: Some(since), ..any_event() }
}

/// The filters of the general feed: what the identities post, unless
/// there are none; and what mentions us, if we have a key.
pub open spec fn general_feed(
    identities: Seq<PublicKey>,
    our_key: Option<PublicKey>,
    times: FeedTimes,
) -> Seq<FilterView> {
    let feed = if identities.len() > 0 {
        seq![authors_feed(identities, times.feed_since)]
    } else {
        Seq::empty()
    };
    match our_key {
        Some(key) => feed.push(mentions_of(key, times.special_since)),
        None => feed,
    }
}

/// The filter for what mentions `key`, from `since` on.
pub fn mentions_filter(key: PublicKey, since: i64) -> (r: Filter)
    ensures
        r@ == mentions_of(key, since),
{
    let mut f = Filter::new();
    f.p.push(key);
    f.since = Some(since);
    assert(f.p@ =~= seq![key]);
    f
}

/// The filters of the general feed.
pub fn general_feed_filters(
    identities: &Vec<PublicKey>,
    our_key: Option<PublicKey>,
    times: FeedTimes,
) -> (r: Vec<Filter>)
    ensures
        crate::minion::filter::filter_views(r@) == general_feed(identities@, our_key, times),
{
    let mut filters: Vec<Filter> = Vec::new();
    if identities.len() > 0 {
        let mut f = Filter::new();
        f.authors = copy_keys(identities);
        f.kinds = feed_kind_list();
        f.since = Some(times.feed_since);
        filters.push(f);
    }
    match our_key {
        Some(key) => {
            filters.push(mentions_filter(key, times.special_since));
        },
        None => {},
    }
    assert(crate::minion::filter::filter_views(filters@) =~= general_feed(
        identities@,
        our_key,
        times,
    ));
    filters
}

/// The filters for what mentions us: one, if we have a key.
pub open spec fn mentions(our_key: Option<PublicKey>, times: FeedTimes) -> Seq<FilterView> {
    match our_key {
        Some(key) => seq![mentions_of(key, times.special_since)],
        None => Seq::empty(),
    }
}

/// The filters for what mentions us.
pub fn mentions_filters(our_key: Option<PublicKey>, times: FeedTimes) -> (r: Vec<Filter>)
    ensures
        crate::minion::filter::filter_views(r@) == mentions(our_key, times),
{
    let mut filters: Vec<Filter> = Vec::new();
    match our_key {
        Some(key) => {
            filters.push(mentions_filter(key, times.special_since));
        },
        None => {},
    }
    assert(crate::minion::filter::filter_views(filters@) =~= mentions(our_key, times));
    filters
}

/// The filters of a thread: the event `root` and its ancestors
/// themselves; and what refers to any of them, from `since` on.
pub open spec fn thread_feed(root: Id, ancestors: Seq<Id>, since: i64) -> Seq<FilterView> {
    seq![
        FilterView { ids: seq![root] + ancestors, ..any_event() },
        FilterView { e: seq![root] + ancestors, since: Some(since), ..any_event() },
    ]
}

/// The filters of a thread.
pub fn thread_feed_filters(root: Id, ancestors: &Vec<Id>, since: i64) -> (r: Vec<Filter>)
    ensures
        crate::minion::filter::filter_views(r@) == thread_feed(root, ancestors@, since),
{
    let mut ids: Vec<Id> = Vec::new();
    ids.push(root);
    let mut rest = copy_ids(ancestors);
    ids.append(&mut rest);
    assert(ids@ =~= seq![root] + ancestors@);
    let mut first = Filter::new();
    first.ids = copy_ids(&ids);
    let mut second = Filter::new();
    second.e = ids;
    second.since = Some(since);
    let mut filters: Vec<Filter> = Vec::new();
    filters.push(first);
    filters.push(second);
    assert(crate::minion::filter::filter_views(filters@) =~= thread_feed(root, ancestors@, since));
    filters
}

/// The filter for what one person posts, from `since` on.
pub fn person_feed_filters(pubkey: PublicKey, since: i64) -> (r: Vec<Filter>)
    ensures
        crate::minion::filter::filter_views(r@) == seq![authors_feed(seq![pubkey], since)],
{
    let mut f = Filter::new();
    f.authors.push(pubkey);
    f.kinds = feed_kind_list();
    f.since = Some(since);
    assert(f.authors@ =~= seq![pubkey]);
    let mut filters: Vec<Filter> = Vec::new();
    filters.push(f);
    assert(crate::minion::filter::filter_views(filters@) =~= seq![
        authors_feed(seq![pubkey], since),
    ]);
    filters
}

/// The filter for what the identities say of themselves and whom they
/// follow.
pub open spec fn metadata_of(identities: Seq<PublicKey>) -> FilterView {
    FilterView {
        authors: identities,
        kinds: seq![EventKind::Metadata, EventKind::ContactList],
        ..any_event()
    }
}

/// The filter for what the identities say of themselves and whom they
/// follow.
pub fn metadata_filters(identities: &Vec<PublicKey>) -> (r: Vec<Filter>)
    ensures
        crate::minion::filter::filter_views(r@) == seq![metadata_of(identities@)],
{
    let mut f = Filter::new();
    f.authors = copy_keys(identities);
    f.kinds.push(EventKind::Metadata);
    f.kinds.push(EventKind::ContactList);
    assert(f.kinds@ =~= seq![EventKind::Metadata, EventKind::ContactList]);
    let mut filters: Vec<Filter> = Vec::new();
    filters.push(f);
    assert(crate::minion::filter::filter_views(filters@) =~= seq![metadata_of(identities@)]);
    filters
}

/// The filter for the events `ids` themselves.
pub open spec fn events_of(ids: Seq<Id>) -> FilterView {
    FilterView { ids, ..any_event() }
}

/// The filter for the events `ids` themselves.
pub fn events_filters(ids: &Vec<Id>) -> (r: Vec<Filter>)
    ensures
        crate::minion::filter::filter_views(r@) == seq![events_of(ids@)],
{
    let mut f = Filter::new();
    f.ids = copy_ids(ids);
    let mut filters: Vec<Filter> = Vec::new();
    filters.push(f);
    assert(crate::minion::filter::filter_views(filters@) =~= seq![events_of(ids@)]);
    filters
}

/// The filter for what we have made known of ourselves: who we are, whom
/// we follow, and which relays we use.
pub open spec fn outbox_of(key: PublicKey) -> FilterView {
    FilterView {
        authors: seq![key],
        kinds: seq![EventKind::Metadata, EventKind::ContactList, EventKind::RelayList],
        ..any_event()
    }
}

/// The filters of our outbox: one, if we have a key.
pub open spec fn outbox(our_key: Option<PublicKey>) -> Seq<FilterView> {
    match our_key {
        Some(key) => seq![outbox_of(key)],
        None => Seq::empty(),
    }
}

/// The filters of our outbox.
pub fn outbox_filters(our_key: Option<PublicKey>) -> (r: Vec<Filter>)
    ensures
        crate::minion::filter::filter_views(r@) == outbox(our_key),
{
    let mut filters: Vec<Filter> = Vec::new();
    match our_key {
        Some(key) => {
            let mut f = Filter::new();
            f.authors.push(key);
            f.kinds.push(EventKind::Metadata);
            f.kinds.push(EventKind::ContactList);
            f.kinds.push(EventKind::RelayList);
            assert(f.authors@ =~= seq![key]);
            assert(f.kinds@ =~= seq![
                EventKind::Metadata,
                EventKind::ContactList,
                EventKind::RelayList,
            ]);
            filters.push(f);
        },
        None => {},
    }
    assert(crate::minion::filter::filter_views(filters@) =~= outbox(our_key));
    filters
}

/// The filters by which the relay lists of the identities are found: one,
/// unless there are no identities.
pub open spec fn discover(identities: Seq<PublicKey>) -> Seq<FilterView> {
    if identities.len() > 0 {
        seq![FilterView { authors: identities, kinds: seq![EventKind::RelayList], ..any_event() }]
    } else {
        Seq::empty()
    }
}

/// The filters by which the relay lists of the identities are found.
pub fn discover_filters(identities: &Vec<PublicKey>) -> (r: Vec<Filter>)
    ensures
        crate::minion::filter::filter_views(r@) == discover(identities@),
{
    let mut filters: Vec<Filter> = Vec::new();
    if identities.len() > 0 {
        let mut f = Filter::new();
        f.authors = copy_keys(identities);
        f.kinds.push(EventKind::RelayList);
        assert(f.kinds@ =~= seq![EventKind::RelayList]);
        filters.push(f);
    }
    assert(crate::minion::filter::filter_views(filters@) =~= discover(identities@));
    filters
}

/// The filters for what was added to the events `ids`, reactions and
/// deletions: one, unless there are no events.
pub open spec fn augments(ids: Seq<Id>) -> Seq<FilterView> {
    if ids.len() > 0 {
        seq![
            FilterView {
                e: ids,
                kinds: seq![EventKind::Reaction, EventKind::EventDeletion],
                ..any_event()
            },
        ]
    } else {
        Seq::empty()
    }
}

/// The filters for what was added to the events `ids`.
pub fn augments_filters(ids: &Vec<Id>) -> (r: Vec<Filter>)
    ensures
        crate::minion::filter::filter_views(r@) == augments(ids@),
{
    let mut filters: Vec<Filter> = Vec::new();
    if ids.len() > 0 {
        let mut f = Filter::new();
        f.e = copy_ids(ids);
        f.kinds.push(EventKind::Reaction);
        f.kinds.push(EventKind::EventDeletion);
        assert(f.kinds@ =~= seq![EventKind::Reaction, EventKind::EventDeletion]);
        filters.push(f);
    }
    assert(crate::minion::filter::filter_views(filters@) =~= augments(ids@));
    filters
}

/// The filters of a private conversation with `others`: the direct
/// messages among us and them; none without a key of our own.
pub open spec fn direct_messages(our_key: Option<PublicKey>, others: Seq<PublicKey>) -> Seq<
    FilterView,
> {
    match our_key {
        Some(key) => seq![
            FilterView {
                authors: seq![key] + others,
                kinds: seq![EventKind::EncryptedDirectMessage],
                p: seq![key] + others,
                ..any_event()
            },
        ],
        None => Seq::empty(),
    }
}

/// The filters of a private conversation with `others`.
pub fn direct_message_filters(our_key: Option<PublicKey>, others: &Vec<PublicKey>) -> (r: Vec<
    Filter,
>)
    ensures
        crate::minion::filter::filter_views(r@) == direct_messages(our_key, others@),
{
    let mut filters: Vec<Filter> = Vec::new();
    match our_key {
        Some(key) => {
            let mut parties: Vec<PublicKey> = Vec::new();
            parties.push(key);
            let mut rest = copy_keys(others);
            parties.append(&mut rest);
            assert(parties@ =~= seq![key] + others@);
            let mut f = Filter::new();
            f.authors = copy_keys(&parties);
            f.p = parties;
            f.kinds.push(EventKind::EncryptedDirectMessage);
            assert(f.kinds@ =~= seq![EventKind::EncryptedDirectMessage]);
            filters.push(f);
        },
        None => {},
    }
    assert(crate::minion::filter::filter_views(filters@) =~= direct_messages(our_key, others@));
    filters
}

/// The filter for the event of the kind `kind` that `author` keeps under
/// the identifier `d`.
pub open spec fn addressed(kind: u32, author: PublicKey, d: Seq<char>) -> FilterView {
    FilterView {
        authors: seq![author],
        kinds: seq![EventKind::Other(kind)],
        d: seq![d],
        ..any_event()
    }
}

/// The filter for the event of the kind `kind` that `author` keeps under
/// the identifier `d`.
pub fn addressed_filters(kind: u32, author: PublicKey, d: &String) -> (r: Vec<Filter>)
    ensures
        crate::minion::filter::filter_views(r@) == seq![addressed(kind, author, d@)],
{
    let mut f = Filter::new();
    f.authors.push(author);
    f.kinds.push(EventKind::Other(kind));
    f.d.push(d.clone());
    assert(f.authors@ =~= seq![author]);
    assert(f.kinds@ =~= seq![EventKind::Other(kind)]);
    assert(f.d.deep_view() =~= seq![d@]);
    let mut filters: Vec<Filter> = Vec::new();
    filters.push(f);
    assert(crate::minion::filter::filter_views(filters@) =~= seq![addressed(kind, author, d@)]);
    filters
}

} // verus!
