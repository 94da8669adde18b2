use gossip_lib::comms::{
    DmChannel, Event, EventAddr, ToMinionMessage, ToMinionPayload, ToMinionPayloadDetail,
    ToOverlordMessage,
};
use gossip_lib::keys::{Id, PublicKey};
use gossip_lib::minion::feed::{feed_times, person_feed_filters, seconds_before, EPOCH_2020};
use gossip_lib::minion::filter::{ClientMessage, EventKind, Filter};
use gossip_lib::minion::subscription::{Subscription, Subscriptions};
use gossip_lib::minion::worker::{
    react, Frame, Minion, MinionAction, MinionEnv, Reaction, CONNECT_TIMEOUT_SECONDS,
    KEEPALIVE_SECONDS, MAX_MESSAGE_BYTES,
};
use gossip_lib::relay::Relay;
use gossip_lib::text::{decimal, joined};
use gossip_lib::url::RelayUrl;

const M1: &str = "wss://relay.example.com/";
const T0: i64 = 1_700_000_000;

fn murl() -> RelayUrl {
    RelayUrl::try_from_str(M1).unwrap()
}

fn mkey(n: u64) -> PublicKey {
    PublicKey { w0: 0, w1: n, w2: 0, w3: 0 }
}

fn mid(n: u64) -> Id {
    Id { w0: 0, w1: 0, w2: n, w3: 0 }
}

fn minion(last_success_at: Option<u64>) -> Minion {
    let mut relay = Relay::new(murl());
    relay.last_success_at = last_success_at;
    Minion::new(murl(), Some(relay)).0
}

fn env(now: i64, our_key: Option<PublicKey>) -> MinionEnv {
    MinionEnv { now, overlap: 300, feed_chunk: 86400, our_key }
}

fn order(job_id: u64, detail: ToMinionPayloadDetail) -> ToMinionMessage {
    ToMinionMessage { target: M1.to_string(), payload: ToMinionPayload { job_id, detail } }
}

fn req(action: &MinionAction) -> (&String, &Vec<Filter>) {
    match action {
        MinionAction::Send(ClientMessage::Req(id, filters)) => (id, filters),
        other => panic!("expected a request, got {:?}", other),
    }
}

#[test]
fn general_feed_filter_construction() {
    let mut m = minion(Some(T0 as u64));
    let e = env(T0 + 10_000, Some(mkey(9)));
    let (go, actions) = m.handle_message(
        order(5, ToMinionPayloadDetail::SubscribeGeneralFeed(vec![mkey(1), mkey(2)])),
        &e,
    ).unwrap();
    assert!(go);
    assert_eq!(actions.len(), 1);
    let (id, filters) = req(&actions[0]);
    assert_eq!(id.len(), 32);
    assert_eq!(filters.len(), 2);
    assert_eq!(filters[0].authors, vec![mkey(1), mkey(2)]);
    assert_eq!(
        filters[0].kinds,
        vec![EventKind::TextNote, EventKind::Reaction, EventKind::EventDeletion]
    );
    assert_eq!(filters[0].since, Some(T0 - 300));
    assert!(filters[0].ids.is_empty() && filters[0].e.is_empty() && filters[0].p.is_empty());
    assert_eq!(filters[1].p, vec![mkey(9)]);
    assert_eq!(filters[1].since, Some(T0 - 300));
    assert!(filters[1].authors.is_empty() && filters[1].kinds.is_empty());

    let sub = m.subscriptions().get("general_feed").unwrap();
    assert_eq!(&sub.get_id(), id);
    assert_eq!(sub.get_job_id(), 5);
    assert!(!sub.eose());
}

#[test]
fn feed_since_is_never_before_2020() {
    assert_eq!(EPOCH_2020, 1577836800);
    // a relay never reached, long ago
    let t = feed_times(None, 300, 86400, 1000);
    assert_eq!((t.feed_since, t.special_since), (EPOCH_2020, EPOCH_2020));
    // a relay last reached long ago: the feed goes back one chunk only
    let t = feed_times(Some(1_600_000_000), 300, 86400, T0);
    assert_eq!((t.feed_since, t.special_since), (T0 - 86400, 1_600_000_000 - 300));
    let t = feed_times(Some(1_500_000_000), 300, 86400, T0);
    assert_eq!((t.feed_since, t.special_since), (T0 - 86400, EPOCH_2020));
    // the ends of the range
    let t = feed_times(Some(u64::MAX), 0, 0, i64::MIN);
    assert_eq!((t.feed_since, t.special_since), (i64::MAX, i64::MAX));
    let t = feed_times(Some(0), u64::MAX, u64::MAX, i64::MIN);
    assert_eq!((t.feed_since, t.special_since), (EPOCH_2020, EPOCH_2020));
    let t = feed_times(None, 0, 0, i64::MAX);
    assert_eq!((t.feed_since, t.special_since), (i64::MAX, EPOCH_2020));
    assert_eq!(seconds_before(5, 10), -5);
    assert_eq!(seconds_before(i64::MIN, 1), i64::MIN);
}

#[test]
fn general_feed_without_a_key_or_without_people() {
    let mut m = minion(None);
    let e = env(T0, None);
    let (_, actions) = m.handle_message(
        order(1, ToMinionPayloadDetail::SubscribeGeneralFeed(vec![mkey(1)])),
        &e,
    ).unwrap();
    let (id, filters) = req(&actions[0]);
    let id = id.clone();
    assert_eq!(filters.len(), 1);
    assert_eq!(filters[0].since, Some(T0 - 86400));

    // with nobody to follow and no key there is nothing to ask: the subscription is closed
    let (go, actions) =
        m.handle_message(order(2, ToMinionPayloadDetail::SubscribeGeneralFeed(vec![])), &e).unwrap();
    assert!(go);
    assert_eq!(actions.len(), 1);
    assert!(matches!(&actions[0], MinionAction::Send(ClientMessage::Close(c)) if *c == id));
    assert!(!m.subscriptions().has("general_feed"));
    // and closing what is not open does nothing
    let (_, actions) =
        m.handle_message(order(3, ToMinionPayloadDetail::SubscribeGeneralFeed(vec![])), &e).unwrap();
    assert!(actions.is_empty());
    let (_, actions) = m.handle_message(order(3, ToMinionPayloadDetail::SubscribeMentions), &e).unwrap();
    assert!(actions.is_empty());
}

#[test]
fn a_replaced_subscription_keeps_its_id_and_tells_the_supervisor() {
    let mut m = minion(None);
    let e = env(T0, Some(mkey(9)));
    let (_, first) = m.handle_message(order(10, ToMinionPayloadDetail::SubscribeMentions), &e).unwrap();
    let id = req(&first[0]).0.clone();
    let (_, second) = m.handle_message(order(11, ToMinionPayloadDetail::SubscribeMentions), &e).unwrap();
    assert_eq!(second.len(), 2);
    assert!(matches!(&second[0], MinionAction::JobUpdated(u, 10, 11) if u.as_str() == M1));
    let (again, filters) = req(&second[1]);
    assert_eq!(again, &id);
    assert_eq!(filters.len(), 1);
    assert_eq!(filters[0].p, vec![mkey(9)]);
    assert_eq!(filters[0].since, Some(EPOCH_2020));
    assert_eq!(m.subscriptions().get("mentions").unwrap().get_job_id(), 11);
    let told = second.into_iter().next().unwrap().into_command().unwrap();
    assert!(matches!(told, ToOverlordMessage::MinionJobUpdated(u, 10, 11) if u.as_str() == M1));
}

#[test]
fn thread_feed() {
    let mut m = minion(None);
    let e = env(T0, None);
    let (_, actions) = m.handle_message(
        order(1, ToMinionPayloadDetail::SubscribeThreadFeed(mid(1), vec![mid(2), mid(3)])),
        &e,
    ).unwrap();
    let (id, filters) = req(&actions[0]);
    let id = id.clone();
    assert_eq!(filters.len(), 2);
    assert_eq!(filters[0].ids, vec![mid(1), mid(2), mid(3)]);
    assert_eq!(filters[0].since, None);
    assert!(filters[0].e.is_empty());
    assert_eq!(filters[1].e, vec![mid(1), mid(2), mid(3)]);
    assert_eq!(filters[1].since, Some(T0 - 86400));
    assert!(filters[1].ids.is_empty());
    let (go, actions) = m.handle_message(order(0, ToMinionPayloadDetail::UnsubscribeThreadFeed), &e).unwrap();
    assert!(go);
    assert!(matches!(&actions[0], MinionAction::Send(ClientMessage::Close(c)) if *c == id));
    assert!(!m.subscriptions().has("thread_feed"));
    let (_, actions) = m.handle_message(order(0, ToMinionPayloadDetail::UnsubscribeThreadFeed), &e).unwrap();
    assert!(actions.is_empty());
}

#[test]
fn shutdown_and_post() {
    let mut m = minion(None);
    let e = env(T0, None);
    let event = Event { id: mid(4), json: "{\"id\":\"04\"}".to_string() };
    let (go, actions) =
        m.handle_message(order(8, ToMinionPayloadDetail::PostEvent(Box::new(event))), &e).unwrap();
    assert!(go);
    assert_eq!(actions.len(), 2);
    assert!(matches!(&actions[0], MinionAction::Send(ClientMessage::Event(ev)) if ev.json == "{\"id\":\"04\"}" && ev.id == mid(4)));
    assert!(matches!(&actions[1], MinionAction::JobComplete(u, 8) if u.as_str() == M1));
    let mut it = actions.into_iter();
    assert!(matches!(it.next().unwrap().into_command(), Err(ClientMessage::Event(_))));
    assert!(matches!(it.next().unwrap().into_command(), Ok(ToOverlordMessage::MinionJobComplete(_, 8))));
    let (go, actions) = m.handle_message(order(0, ToMinionPayloadDetail::Shutdown), &e).unwrap();
    assert!(!go);
    assert!(actions.is_empty());
}

#[test]
fn an_event_is_fetched_once() {
    let mut m = minion(None);
    let e = env(T0, None);
    let (_, actions) = m.handle_message(order(1, ToMinionPayloadDetail::FetchEvent(mid(7))), &e).unwrap();
    assert_eq!(actions.len(), 1);
    let (id, filters) = req(&actions[0]);
    let id = id.clone();
    assert_eq!(filters.len(), 1);
    assert_eq!(filters[0].ids, vec![mid(7)]);
    assert!(m.subscriptions().has("temp_events_0"));
    // asked for again, the event is not fetched again; the job is done
    let (_, actions) = m.handle_message(order(2, ToMinionPayloadDetail::FetchEvent(mid(7))), &e).unwrap();
    assert_eq!(actions.len(), 1);
    assert!(matches!(&actions[0], MinionAction::JobComplete(_, 2)));
    let (_, actions) = m.handle_message(order(3, ToMinionPayloadDetail::FetchEvent(mid(8))), &e).unwrap();
    assert_eq!(req(&actions[0]).1[0].ids, vec![mid(8)]);
    assert!(m.subscriptions().has("temp_events_1"));

    // when the relay has sent what it had, the subscription ends and the job is done
    let actions = m.handle_eose(&id);
    assert_eq!(actions.len(), 2);
    assert!(matches!(&actions[0], MinionAction::Send(ClientMessage::Close(c)) if *c == id));
    assert!(matches!(&actions[1], MinionAction::JobComplete(u, 1) if u.as_str() == M1));
    assert!(!m.subscriptions().has("temp_events_0"));
    assert!(m.subscriptions().has("temp_events_1"));
    assert!(m.handle_eose(&id).is_empty());
    assert!(m.handle_eose("no such subscription").is_empty());
}

#[test]
fn a_lasting_subscription_outlives_the_end_of_what_was_stored() {
    let mut m = minion(None);
    let e = env(T0, Some(mkey(9)));
    let (_, actions) = m.handle_message(order(1, ToMinionPayloadDetail::SubscribeMentions), &e).unwrap();
    let id = req(&actions[0]).0.clone();
    assert!(m.handle_eose(&id).is_empty());
    let sub = m.subscriptions().get("mentions").unwrap();
    assert!(sub.eose());
    assert_eq!(sub.get_job_id(), 1);
    assert_eq!(m.subscriptions().get_handle_by_id(&id), Some("mentions".to_string()));
}

#[test]
fn metadata_and_the_other_subscriptions() {
    let mut m = minion(None);
    let e = env(T0, Some(mkey(9)));
    let (_, actions) = m.handle_message(
        order(1, ToMinionPayloadDetail::TempSubscribeMetadata(vec![mkey(0xab), mkey(2)])),
        &e,
    ).unwrap();
    let (_, filters) = req(&actions[0]);
    assert_eq!(filters[0].authors, vec![mkey(0xab), mkey(2)]);
    assert_eq!(filters[0].kinds, vec![EventKind::Metadata, EventKind::ContactList]);
    assert_eq!(filters[0].since, None);
    let handle = format!(
        "temp_metadata_{}{}{}{}",
        "0000000000000000", "00000000000000ab", "0000000000000000", "0000000000000000"
    );
    assert_eq!(mkey(0xab).as_hex_string().len(), 64);
    assert!(m.subscriptions().has(&handle));
    let (_, actions) =
        m.handle_message(order(2, ToMinionPayloadDetail::TempSubscribeMetadata(vec![])), &e).unwrap();
    assert!(matches!(&actions[0], MinionAction::JobComplete(_, 2)));

    let (_, actions) = m.handle_message(order(3, ToMinionPayloadDetail::SubscribeOutbox), &e).unwrap();
    let (_, filters) = req(&actions[0]);
    assert_eq!(filters[0].authors, vec![mkey(9)]);
    assert_eq!(
        filters[0].kinds,
        vec![EventKind::Metadata, EventKind::ContactList, EventKind::RelayList]
    );
    assert!(m.subscriptions().has("outbox"));

    let (_, actions) =
        m.handle_message(order(4, ToMinionPayloadDetail::SubscribeDiscover(vec![mkey(1)])), &e).unwrap();
    let (_, filters) = req(&actions[0]);
    assert_eq!(filters[0].authors, vec![mkey(1)]);
    assert_eq!(filters[0].kinds, vec![EventKind::RelayList]);
    assert!(m.subscriptions().has("discover"));

    let (_, actions) =
        m.handle_message(order(5, ToMinionPayloadDetail::SubscribeAugments(vec![mid(1)])), &e).unwrap();
    let (_, filters) = req(&actions[0]);
    assert_eq!(filters[0].e, vec![mid(1)]);
    assert_eq!(filters[0].kinds, vec![EventKind::Reaction, EventKind::EventDeletion]);
    assert!(m.subscriptions().has("augments"));
    let (_, actions) =
        m.handle_message(order(6, ToMinionPayloadDetail::SubscribeAugments(vec![])), &e).unwrap();
    assert!(matches!(&actions[0], MinionAction::Send(ClientMessage::Close(_))));
    assert!(!m.subscriptions().has("augments"));

    let (_, actions) = m.handle_message(
        order(7, ToMinionPayloadDetail::SubscribeDmChannel(DmChannel { keys: vec![mkey(3)] })),
        &e,
    ).unwrap();
    let (_, filters) = req(&actions[0]);
    assert_eq!(filters[0].kinds, vec![EventKind::EncryptedDirectMessage]);
    assert_eq!(filters[0].authors, vec![mkey(9), mkey(3)]);
    assert_eq!(filters[0].p, vec![mkey(9), mkey(3)]);
    let handle = format!("dm_channel_{}", mkey(3).as_hex_string());
    assert!(m.subscriptions().has(&handle));
    let (_, _) = m.handle_message(
        order(8, ToMinionPayloadDetail::SubscribeDmChannel(DmChannel { keys: vec![] })),
        &e,
    ).unwrap();
    assert!(m.subscriptions().has("dm_channel_self"));

    let ea = EventAddr { kind: 30000, author: mkey(5), d: "list".to_string(), relays: vec![] };
    let (_, actions) = m.handle_message(order(9, ToMinionPayloadDetail::FetchEventAddr(ea)), &e).unwrap();
    let (_, filters) = req(&actions[0]);
    assert_eq!(filters[0].authors, vec![mkey(5)]);
    assert_eq!(filters[0].kinds, vec![EventKind::Other(30000)]);
    assert_eq!(filters[0].d, vec!["list".to_string()]);
    assert!(m.subscriptions().has("temp_events_0"));
}

#[test]
fn the_feed_of_one_person() {
    let filters = person_feed_filters(mkey(4), T0 - 86400);
    assert_eq!(filters.len(), 1);
    assert_eq!(filters[0].authors, vec![mkey(4)]);
    assert_eq!(
        filters[0].kinds,
        vec![EventKind::TextNote, EventKind::Reaction, EventKind::EventDeletion]
    );
    assert_eq!(filters[0].since, Some(T0 - 86400));
}

#[test]
fn who_an_order_is_for() {
    let m = minion(None);
    assert!(m.is_addressed(&M1.to_string()));
    assert!(m.is_addressed(&"all".to_string()));
    assert!(!m.is_addressed(&"wss://other.example.com/".to_string()));
    assert!(!m.is_addressed(&"".to_string()));
    assert_eq!(m.url().as_str(), M1);
}

#[test]
fn a_new_relay_gets_a_record() {
    let (m, is_new) = Minion::new(murl(), None);
    assert!(is_new);
    assert_eq!(m.relay().rank, 3);
    assert_eq!(m.relay().url.as_str(), M1);
    assert_eq!(m.relay().last_success_at, None);
    let mut known = Relay::new(murl());
    known.rank = 7;
    let (mut m, is_new) = Minion::new(murl(), Some(known));
    assert!(!is_new);
    assert_eq!(m.relay().rank, 7);
    m.connected(12345);
    assert_eq!(m.relay().last_success_at, Some(12345));
    assert_eq!(m.relay().success_count, 1);
    let mut r = Relay::new(murl());
    r.bump_failure_count();
    assert_eq!(r.failure_count, 1);
    r.failure_count = u64::MAX;
    r.bump_failure_count();
    assert_eq!(r.failure_count, u64::MAX);
}

#[test]
fn frames_from_the_relay() {
    assert!(matches!(react(Frame::Text("[\"EOSE\",\"x\"]".to_string())), Reaction::Ingest(t) if t == "[\"EOSE\",\"x\"]"));
    assert!(matches!(react(Frame::Ping(vec![1, 2, 3])), Reaction::Pong(b) if b == vec![1, 2, 3]));
    assert!(matches!(react(Frame::Close), Reaction::Stop));
    assert!(matches!(react(Frame::Binary), Reaction::Ignore));
    assert!(matches!(react(Frame::Pong), Reaction::Ignore));
    assert!(matches!(react(Frame::Raw), Reaction::Ignore));
    assert_eq!(KEEPALIVE_SECONDS, 55);
    assert_eq!(CONNECT_TIMEOUT_SECONDS, 15);
    assert_eq!(MAX_MESSAGE_BYTES, 16 * 1024 * 1024);
}

#[test]
fn the_table_of_subscriptions() {
    let mut t = Subscriptions::new();
    assert!(!t.has("a"));
    assert!(t.get("a").is_none());
    let mut f = Filter::new();
    f.ids.push(mid(1));
    t.add("a", 3, vec![f]).unwrap();
    t.add("b", 4, vec![]).unwrap();
    assert!(t.has("a") && t.has("b") && !t.has("c"));
    let a = t.get("a").unwrap();
    let id_a = a.get_id();
    assert_eq!(id_a.len(), 32);
    assert_eq!(a.get_job_id(), 3);
    let id_b = t.get("b").unwrap().get_id();
    assert_ne!(id_a, id_b);
    assert_eq!(t.get_handle_by_id(&id_b), Some("b".to_string()));
    assert_eq!(t.get_handle_by_id("nobody"), None);

    match a_req(t.get("a").unwrap()) {
        (id, n) => {
            assert_eq!(id, id_a);
            assert_eq!(n, 1);
        }
    }
    assert!(matches!(t.get("a").unwrap().close_message(), ClientMessage::Close(id) if id == id_a));

    t.get_mut("a").unwrap().get_mut().clear();
    assert_eq!(a_req(t.get("a").unwrap()).1, 0);
    t.get_mut_by_id(&id_b).unwrap().set_eose();
    assert!(t.get("b").unwrap().eose());
    assert!(!t.get("a").unwrap().eose());
    assert!(t.get_mut("c").is_none());
    assert!(t.get_mut_by_id("nobody").is_none());
    assert_eq!(t.get_mut("a").unwrap().change_job_id(9), 3);
    assert_eq!(t.get("a").unwrap().get_job_id(), 9);

    // a name is held once: adding under it again replaces
    t.add("a", 5, vec![]).unwrap();
    assert_ne!(t.get("a").unwrap().get_id(), id_a);
    assert_eq!(t.get_handle_by_id(&id_a), None);
    t.remove("a");
    t.remove("a");
    assert!(!t.has("a") && t.has("b"));
    let s = Subscription::with_id("fixed".to_string());
    assert_eq!(s.get_id(), "fixed");
    t.put("b", s);
    assert_eq!(t.get_handle_by_id("fixed"), Some("b".to_string()));
}

fn a_req(s: &Subscription) -> (String, usize) {
    match s.req_message() {
        ClientMessage::Req(id, filters) => (id, filters.len()),
        other => panic!("expected a request, got {:?}", other),
    }
}

#[test]
fn fresh_subscriptions_have_ids_of_their_own() {
    let mut seen = std::collections::HashSet::new();
    for _ in 0..50 {
        let s = Subscription::new().unwrap();
        assert_eq!(s.get_id().len(), 32);
        assert_eq!(s.get_job_id(), 0);
        assert!(!s.eose());
        seen.insert(s.get_id());
    }
    assert_eq!(seen.len(), 50);
}

#[test]
fn numbers_and_keys_as_text() {
    assert_eq!(decimal(0), "0");
    assert_eq!(decimal(7), "7");
    assert_eq!(decimal(10), "10");
    assert_eq!(decimal(4294967295), "4294967295");
    assert_eq!(joined("temp_events_", "12"), "temp_events_12");
    let k = PublicKey { w0: 0x0123456789abcdef, w1: 0, w2: u64::MAX, w3: 0x10 };
    assert_eq!(
        k.as_hex_string(),
        "0123456789abcdef0000000000000000ffffffffffffffff0000000000000010"
    );
    assert!(PublicKey { w0: 0, w1: 9, w2: 0, w3: 0 } < PublicKey { w0: 1, w1: 0, w2: 0, w3: 0 });
    assert_eq!(EventKind::RelayList.number(), 10002);
    assert_eq!(EventKind::Other(31).number(), 31);
    assert_eq!(EventKind::TextNote.number(), 1);
}
