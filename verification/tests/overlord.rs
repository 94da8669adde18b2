use gossip_lib::comms::{
    DmChannel, Event, EventAddr, RelayConnectionReason, RelayJob, ToMinionMessage,
    ToMinionPayloadDetail, ToOverlordMessage,
};
use gossip_lib::error::CoreError;
use gossip_lib::job_id::{
    fresh_job_id, fresh_job_id_other_than, job_id_other_than, nonzero_job_id,
};
use gossip_lib::keys::{Id, PublicKey};
use gossip_lib::overlord::command::Handled;
use gossip_lib::overlord::exit::{exclusion_for, reengage_jobs, rekey, MinionExit};
use gossip_lib::overlord::fanout::{
    assignment_jobs, dedup_urls, delete_relay_urls, dm_recipient, fetch_event,
    fetch_event_addr, jobs_for_each, mailbox_relay_urls, post_relay_urls, relay_list_entries,
    relays_usable_for, RelayListUsage,
};
use gossip_lib::overlord::jobs::{Engagement, EngagePlan, SHUTDOWN_REPEAT_SECONDS};
use gossip_lib::overlord::sorted::{sort_ids, sort_urls};
use gossip_lib::overlord::thread::{
    group_by_relay, metadata_jobs, metadata_relays_per_person, set_thread_feed, Referred,
    ThreadContext,
};
use gossip_lib::overlord::Overlord;
use gossip_lib::relay::Relay;
use gossip_lib::relays::model::{PersonScores, RelayScore};
use gossip_lib::relays::{RelayAssignment, RelayTracker};
use gossip_lib::url::RelayUrl;

const O1: &str = "wss://one.example.com/";
const O2: &str = "wss://two.example.com/";
const O3: &str = "wss://three.example.com/";

fn ourl(text: &str) -> RelayUrl {
    RelayUrl::try_from_str(text).unwrap()
}

fn okey(n: u64) -> PublicKey {
    PublicKey { w0: n, w1: 0, w2: 0, w3: 0 }
}

fn oid(n: u64) -> Id {
    Id { w0: 0, w1: 0, w2: 0, w3: n }
}

fn job(reason: RelayConnectionReason, id: u64, detail: ToMinionPayloadDetail) -> RelayJob {
    RelayJob::new(reason, id, detail)
}

fn follow(id: u64) -> RelayJob {
    job(
        RelayConnectionReason::Follow,
        id,
        ToMinionPayloadDetail::SubscribeGeneralFeed(vec![okey(1), okey(2)]),
    )
}

fn mentions(id: u64) -> RelayJob {
    job(RelayConnectionReason::FetchMentions, id, ToMinionPayloadDetail::SubscribeMentions)
}

fn post(id: u64) -> RelayJob {
    let event = Event { id: oid(id), json: "{}".to_string() };
    job(RelayConnectionReason::PostEvent, id, ToMinionPayloadDetail::PostEvent(Box::new(event)))
}

fn augments(id: u64) -> RelayJob {
    job(
        RelayConnectionReason::FetchAugments,
        id,
        ToMinionPayloadDetail::SubscribeAugments(vec![oid(1)]),
    )
}

fn ids_of(o: &Overlord, url: &str) -> Vec<u64> {
    o.jobs(&ourl(url)).unwrap().iter().map(|j| j.payload.job_id).collect()
}

/// Engages, and starts the worker where the plan asks for one.
fn engage(o: &mut Overlord, task: u64, url: &str, jobs: Vec<RelayJob>) -> EngagePlan {
    let plan = o.engage_minion(ourl(url), jobs, false, Some(3));
    match plan.action {
        Engagement::Spawn(u, jobs) => {
            let again = EngagePlan {
                create_record: plan.create_record,
                action: Engagement::Spawn(u.clone(), Vec::new()),
            };
            o.minion_started(task, u, jobs).unwrap();
            again
        }
        action => EngagePlan { create_record: plan.create_record, action },
    }
}

fn is_shutdown_for(m: &ToMinionMessage, url: &str) -> bool {
    m.target == url
        && m.payload.job_id == 0
        && matches!(m.payload.detail, ToMinionPayloadDetail::Shutdown)
}

#[test]
fn engage_is_a_no_op_when_offline_or_without_jobs_or_for_rank_zero() {
    let mut o = Overlord::new();
    let plan = o.engage_minion(ourl(O1), vec![follow(1)], true, Some(3));
    assert!(matches!(plan.action, Engagement::Nothing) && !plan.create_record);
    let plan = o.engage_minion(ourl(O1), vec![], false, None);
    assert!(matches!(plan.action, Engagement::Nothing) && !plan.create_record);
    let plan = o.engage_minion(ourl(O1), vec![follow(1)], false, Some(0));
    assert!(matches!(plan.action, Engagement::Nothing) && !plan.create_record);
    assert_eq!(o.connected_count(), 0);
    assert!(!o.has_minions());

    // a connected relay of rank 0 gets no more jobs either
    engage(&mut o, 1, O1, vec![follow(1)]);
    let plan = o.engage_minion(ourl(O1), vec![mentions(2)], false, Some(0));
    assert!(matches!(plan.action, Engagement::Nothing));
    let plan = o.engage_minion(ourl(O1), vec![mentions(2)], true, Some(3));
    assert!(matches!(plan.action, Engagement::Nothing));
    assert_eq!(ids_of(&o, O1), vec![1]);
}

#[test]
fn engage_spawns_then_forwards() {
    let mut o = Overlord::new();
    let plan = o.engage_minion(ourl(O1), vec![follow(1), mentions(2)], false, None);
    assert!(plan.create_record);
    let (u, jobs) = match plan.action {
        Engagement::Spawn(u, jobs) => (u, jobs),
        _ => panic!("expected a worker to be started"),
    };
    assert_eq!(u.as_str(), O1);
    assert_eq!(jobs.len(), 2);
    // nothing is on the books until the worker is reported
    assert!(!o.is_connected(&ourl(O1)));
    assert!(o.jobs(&ourl(O1)).is_none());
    o.minion_started(7, u, jobs).unwrap();
    assert!(o.is_connected(&ourl(O1)));
    assert!(o.has_minions());
    assert_eq!(ids_of(&o, O1), vec![1, 2]);

    let plan = o.engage_minion(ourl(O1), vec![post(3), post(4)], false, Some(3));
    assert!(!plan.create_record);
    let msgs = match plan.action {
        Engagement::Forward(msgs) => msgs,
        _ => panic!("expected orders for the worker"),
    };
    assert_eq!(msgs.len(), 2);
    assert_eq!(msgs[0].target, O1);
    assert_eq!(msgs[0].payload.job_id, 3);
    assert_eq!(msgs[1].payload.job_id, 4);
    assert!(matches!(msgs[1].payload.detail, ToMinionPayloadDetail::PostEvent(ref e) if e.id == oid(4)));
    assert_eq!(ids_of(&o, O1), vec![1, 2, 3, 4]);
    assert_eq!(o.connected_urls().len(), 1);
}

#[test]
fn a_worker_is_entered_once() {
    let mut o = Overlord::new();
    o.minion_started(1, ourl(O1), vec![follow(1)]).unwrap();
    let e = o.minion_started(2, ourl(O1), vec![follow(2)]).unwrap_err();
    assert!(matches!(e, CoreError::UnknownMinion));
    let e = o.minion_started(1, ourl(O2), vec![follow(2)]).unwrap_err();
    assert_eq!(e.message(), "No such minion");
    assert_eq!(o.connected_count(), 1);
    assert_eq!(ids_of(&o, O1), vec![1]);
}

#[test]
fn job_complete_removes_exactly_that_job() {
    let mut o = Overlord::new();
    engage(&mut o, 1, O1, vec![follow(1), mentions(2)]);
    engage(&mut o, 2, O2, vec![follow(5)]);
    engage(&mut o, 1, O1, vec![post(3)]);
    assert_eq!(ids_of(&o, O1), vec![1, 2, 3]);
    assert!(o.finish_job(&ourl(O1), Some(3), None).is_none());
    assert_eq!(ids_of(&o, O1), vec![1, 2]);
    assert_eq!(ids_of(&o, O2), vec![5]);
    // an id that no job has, the id 0, and a relay that is not connected
    assert!(o.finish_job(&ourl(O1), Some(9), None).is_none());
    assert!(o.finish_job(&ourl(O1), Some(0), None).is_none());
    assert!(o.finish_job(&ourl(O3), Some(1), None).is_none());
    assert_eq!(ids_of(&o, O1), vec![1, 2]);
    // by reason; the id comes first where both are given
    assert!(o.finish_job(&ourl(O1), None, Some(RelayConnectionReason::Follow)).is_none());
    assert_eq!(ids_of(&o, O1), vec![2]);
    assert!(o.finish_job(&ourl(O1), Some(7), Some(RelayConnectionReason::FetchMentions)).is_none());
    assert_eq!(ids_of(&o, O1), vec![2]);
    // the last job gone, the worker is told to stop
    let m = o.finish_job(&ourl(O1), Some(2), None).unwrap();
    assert!(is_shutdown_for(&m, O1));
    assert!(ids_of(&o, O1).is_empty());
    assert!(o.is_connected(&ourl(O1)));
}

#[test]
fn maybe_disconnect_on_fetch_augments_alone() {
    let mut o = Overlord::new();
    engage(&mut o, 1, O1, vec![augments(4)]);
    // finishing another job removes nothing, and the relay is idle
    let m = o.finish_job(&ourl(O1), Some(99), None).unwrap();
    assert!(is_shutdown_for(&m, O1));
    assert_eq!(ids_of(&o, O1), vec![4]);
    let m = o.maybe_disconnect_relay(&ourl(O1)).unwrap();
    assert!(is_shutdown_for(&m, O1));
    // two jobs to fetch augments keep it
    engage(&mut o, 1, O1, vec![augments(5)]);
    assert!(o.maybe_disconnect_relay(&ourl(O1)).is_none());
    assert!(o.maybe_disconnect_relay(&ourl(O2)).is_none());
    // one other job keeps it
    let mut o = Overlord::new();
    engage(&mut o, 1, O1, vec![follow(4)]);
    assert!(o.maybe_disconnect_relay(&ourl(O1)).is_none());
}

#[test]
fn job_updated_replaces_the_row_of_the_old_job() {
    let mut o = Overlord::new();
    engage(&mut o, 1, O1, vec![follow(1), mentions(2), follow(3), post(4)]);
    assert!(o.minion_job_updated(&ourl(O1), 1, 3).is_none());
    assert_eq!(ids_of(&o, O1), vec![3, 2, 4]);
    let jobs = o.jobs(&ourl(O1)).unwrap();
    assert_eq!(jobs[0].reason, RelayConnectionReason::Follow);
    // no row of the new job: the old row is renamed all the same
    assert!(o.minion_job_updated(&ourl(O1), 2, 8).is_none());
    assert_eq!(ids_of(&o, O1), vec![3, 8, 4]);
    // no row of the old job: the row of the new job goes
    assert!(o.minion_job_updated(&ourl(O1), 50, 4).is_none());
    assert_eq!(ids_of(&o, O1), vec![3, 8]);
    // the id 0 names no job
    assert!(o.minion_job_updated(&ourl(O1), 0, 3).is_none());
    assert!(o.minion_job_updated(&ourl(O1), 3, 0).is_none());
    assert!(o.minion_job_updated(&ourl(O2), 3, 8).is_none());
    assert_eq!(ids_of(&o, O1), vec![3, 8]);
    // a job put in its own place goes
    assert!(o.minion_job_updated(&ourl(O1), 3, 3).is_none());
    assert_eq!(ids_of(&o, O1), vec![8]);
    assert!(is_shutdown_for(&o.minion_job_updated(&ourl(O1), 1, 8).unwrap(), O1));
}

#[test]
fn adding_then_dropping_a_relay_restores_the_books() {
    let mut o = Overlord::new();
    let mut picker = RelayTracker::new(2, 5);
    engage(&mut o, 1, O1, vec![follow(1)]);
    engage(&mut o, 2, O2, vec![follow(2)]);
    let m = o.drop_relay(&ourl(O2));
    assert!(is_shutdown_for(&m, O2));
    assert_eq!(o.connected_count(), 2);
    let plan = o.handle_task_nextjoined(2, MinionExit::Completed, &mut picker, 100).unwrap();
    assert_eq!(plan.url.as_str(), O2);
    assert_eq!(o.connected_count(), 1);
    assert!(o.is_connected(&ourl(O1)));
    assert!(!o.is_connected(&ourl(O2)));
    assert_eq!(ids_of(&o, O1), vec![1]);
    assert!(o.find_task(2).is_none());
    assert_eq!(o.find_task(1), Some(0));
}

#[test]
fn persistent_jobs_survive_the_exit_of_the_worker() {
    let mut o = Overlord::new();
    let mut picker = RelayTracker::new(2, 5);
    engage(&mut o, 11, O1, vec![follow(1), mentions(2)]);
    engage(&mut o, 11, O1, vec![post(3)]);
    let plan = o.handle_task_nextjoined(11, MinionExit::OtherError, &mut picker, 1000).unwrap();
    assert_eq!(plan.url.as_str(), O1);
    assert_eq!(plan.exclusion, 60);
    assert!(plan.failed);
    assert!(plan.recover);
    assert_eq!(picker.excluded_until(&ourl(O1)), Some(1060));
    assert!(!o.is_connected(&ourl(O1)));
    assert!(!o.has_minions());
    let ids: Vec<u64> = plan.persistent_jobs.iter().map(|j| j.payload.job_id).collect();
    assert_eq!(ids, vec![1, 2]);
    let again = reengage_jobs(plan.persistent_jobs);
    assert_eq!(again.len(), 2);
    assert_eq!(again[0].reason, RelayConnectionReason::Follow);
    assert!(matches!(again[0].payload.detail, ToMinionPayloadDetail::SubscribeGeneralFeed(ref k) if k.len() == 2));
    assert_eq!(again[1].reason, RelayConnectionReason::FetchMentions);
    assert!(again.iter().all(|j| j.payload.job_id != 0));
    assert_ne!(again[0].payload.job_id, 1);
    assert_ne!(again[1].payload.job_id, 2);
    let plan = engage(&mut o, 12, O1, again);
    assert!(matches!(plan.action, Engagement::Spawn(..)));
    assert_eq!(o.jobs(&ourl(O1)).unwrap().len(), 2);

    // a task that is not on the books changes nothing
    assert!(o.handle_task_nextjoined(11, MinionExit::Completed, &mut picker, 1000).is_none());
    assert!(o.is_connected(&ourl(O1)));
}

#[test]
fn nothing_is_recovered_while_shutting_down() {
    let mut o = Overlord::new();
    let mut picker = RelayTracker::new(2, 5);
    engage(&mut o, 1, O1, vec![follow(1)]);
    assert!(!o.is_shutting_down());
    o.shutdown();
    assert!(o.is_shutting_down());
    let all = o.shutdown_broadcast();
    assert_eq!(all.target, "all");
    assert_eq!(all.payload.job_id, 0);
    assert!(matches!(all.payload.detail, ToMinionPayloadDetail::Shutdown));
    let plan = o.handle_task_nextjoined(1, MinionExit::Completed, &mut picker, 5).unwrap();
    assert!(!plan.recover);
    assert!(!plan.failed);
    assert_eq!(plan.exclusion, 0);
    assert!(plan.persistent_jobs.is_empty());
    assert_eq!(picker.excluded_until(&ourl(O1)), Some(5));
}

#[test]
fn exclusion_by_the_way_the_worker_ended() {
    assert_eq!(exclusion_for(MinionExit::Completed), 0);
    assert_eq!(exclusion_for(MinionExit::ConnectionClosed), 0);
    assert_eq!(exclusion_for(MinionExit::JoinError), 60);
    assert_eq!(exclusion_for(MinionExit::OtherError), 60);
    assert_eq!(exclusion_for(MinionExit::ResetWithoutClosingHandshake), 30);
    assert_eq!(exclusion_for(MinionExit::ProtocolError), 120);
    assert_eq!(exclusion_for(MinionExit::RelayRejectedUs), 60 * 60 * 24 * 365);
    for status in [301, 308, 401, 402, 403, 404, 407, 451, 501, 502] {
        assert_eq!(exclusion_for(MinionExit::HttpStatus(status)), 60 * 60 * 24);
    }
    for status in [400, 410, 429, 500, 503, 599, 65535] {
        assert_eq!(exclusion_for(MinionExit::HttpStatus(status)), 90);
    }
    for status in [0, 101, 200, 302, 399] {
        assert_eq!(exclusion_for(MinionExit::HttpStatus(status)), 60);
    }
}

#[test]
fn exit_returns_the_covered_to_the_planner() {
    let mut o = Overlord::new();
    let mut picker = RelayTracker::new(2, 5);
    let mut r = Relay::new(ourl(O1));
    r.success_count = 1;
    picker.add_relay(r);
    picker.refresh_person_relay_scores(
        vec![PersonScores {
            pubkey: okey(1),
            scores: vec![RelayScore { url: ourl(O1), score: 10 }],
        }],
        true,
    );
    let picked = picker.pick(0).unwrap();
    let jobs = assignment_jobs(picker.get_relay_assignment(&picked).unwrap());
    assert_eq!(jobs.len(), 2);
    assert_eq!(jobs[0].reason, RelayConnectionReason::Follow);
    assert!(matches!(jobs[0].payload.detail, ToMinionPayloadDetail::SubscribeGeneralFeed(ref k) if *k == vec![okey(1)]));
    assert_eq!(jobs[1].reason, RelayConnectionReason::FetchMentions);
    assert!(matches!(jobs[1].payload.detail, ToMinionPayloadDetail::SubscribeMentions));
    engage(&mut o, 1, O1, jobs);
    assert_eq!(picker.pubkey_count(okey(1)), Some(1));
    let plan = o
        .handle_task_nextjoined(1, MinionExit::HttpStatus(404), &mut picker, 10)
        .unwrap();
    assert_eq!(plan.exclusion, 86400);
    assert_eq!(picker.pubkey_count(okey(1)), Some(2));
    assert!(picker.get_relay_assignment(&ourl(O1)).is_none());
    assert_eq!(picker.excluded_until(&ourl(O1)), Some(86410));
}

#[test]
fn commands_settled_from_the_books() {
    let mut o = Overlord::new();
    engage(&mut o, 1, O1, vec![follow(1), post(2)]);
    match o.handle_message(ToOverlordMessage::MinionJobComplete(ourl(O1), 2)) {
        Handled::Done(msgs) => assert!(msgs.is_empty()),
        _ => panic!("expected the command to be settled"),
    }
    assert_eq!(ids_of(&o, O1), vec![1]);
    match o.handle_message(ToOverlordMessage::MinionJobUpdated(ourl(O1), 1, 6)) {
        Handled::Done(msgs) => assert!(msgs.is_empty()),
        _ => panic!("expected the command to be settled"),
    }
    assert_eq!(ids_of(&o, O1), vec![6]);
    match o.handle_message(ToOverlordMessage::MinionJobComplete(ourl(O1), 6)) {
        Handled::Done(msgs) => {
            assert_eq!(msgs.len(), 1);
            assert!(is_shutdown_for(&msgs[0], O1));
        }
        _ => panic!("expected the command to be settled"),
    }
    match o.handle_message(ToOverlordMessage::DropRelay(ourl(O2))) {
        Handled::Done(msgs) => {
            assert_eq!(msgs.len(), 1);
            assert!(is_shutdown_for(&msgs[0], O2));
        }
        _ => panic!("expected the command to be settled"),
    }
    match o.handle_message(ToOverlordMessage::PickRelays) {
        Handled::Host(ToOverlordMessage::PickRelays) => {}
        _ => panic!("expected the command to be left to the host"),
    }
    match o.handle_message(ToOverlordMessage::RankRelay(ourl(O1), 4)) {
        Handled::Host(ToOverlordMessage::RankRelay(u, 4)) => assert_eq!(u.as_str(), O1),
        _ => panic!("expected the command to be left to the host"),
    }
    assert!(!o.is_shutting_down());
    match o.handle_message(ToOverlordMessage::Shutdown) {
        Handled::Done(msgs) => assert!(msgs.is_empty()),
        _ => panic!("expected the command to be settled"),
    }
    assert!(o.is_shutting_down());
}

#[test]
fn persistent_relays_for_augments() {
    let mut o = Overlord::new();
    engage(&mut o, 1, O1, vec![post(1)]);
    engage(&mut o, 2, O2, vec![post(2), mentions(3)]);
    engage(&mut o, 3, O3, vec![follow(4)]);
    let urls: Vec<String> =
        o.persistent_relay_urls().iter().map(|u| u.as_str().to_owned()).collect();
    assert_eq!(urls, vec![O2.to_string(), O3.to_string()]);
}

#[test]
fn job_ids_are_never_zero() {
    assert_eq!(nonzero_job_id(0), 1);
    assert_eq!(nonzero_job_id(1), 1);
    assert_eq!(nonzero_job_id(u64::MAX), u64::MAX);
    let mut seen = std::collections::HashSet::new();
    for _ in 0..200 {
        let id = fresh_job_id();
        assert_ne!(id, 0);
        seen.insert(id);
    }
    // a source that handed the same number back each time would not get here
    assert!(seen.len() > 190);
    let j = RelayJob::fresh(RelayConnectionReason::Config, ToMinionPayloadDetail::SubscribeOutbox);
    assert_eq!(j.reason, RelayConnectionReason::Config);
    assert_ne!(j.payload.job_id, 0);
    let j = rekey(j, 77);
    assert_eq!(j.payload.job_id, 77);
    assert!(matches!(j.payload.detail, ToMinionPayloadDetail::SubscribeOutbox));
}

#[test]
fn a_job_taken_up_again_gets_another_id() {
    assert_eq!(job_id_other_than(7, 1), 7);
    assert_eq!(job_id_other_than(0, 9), 1);
    assert_eq!(job_id_other_than(7, 7), 8);
    assert_eq!(job_id_other_than(0, 1), 2);
    assert_eq!(job_id_other_than(u64::MAX, u64::MAX), 1);
    assert_eq!(job_id_other_than(5, 0), 5);
    for old in [0, 1, 2, u64::MAX] {
        let id = fresh_job_id_other_than(old);
        assert_ne!(id, 0);
        assert_ne!(id, old);
    }
    assert_eq!(SHUTDOWN_REPEAT_SECONDS, 10);
    assert_eq!(metadata_relays_per_person(2), 3);
    assert_eq!(metadata_relays_per_person(255), 256);
}

#[test]
fn reasons_are_persistent_or_not() {
    type R = RelayConnectionReason;
    for r in [R::Follow, R::FetchMentions, R::Config, R::ReadThread, R::FetchDirectMessages] {
        assert!(r.persistent());
    }
    for r in [
        R::Advertising,
        R::PostEvent,
        R::PostLike,
        R::PostContacts,
        R::PostMetadata,
        R::FetchMetadata,
        R::FetchEvent,
        R::FetchAugments,
        R::Discovery,
    ] {
        assert!(!r.persistent());
    }
    assert_eq!(R::Follow.description(), "Following");
    assert_eq!(R::FetchAugments.description(), "Fetching event augments");
}

fn orelay(text: &str, bits: u64, rank: u8) -> Relay {
    let mut r = Relay::new(ourl(text));
    r.usage_bits = bits;
    r.rank = rank;
    r
}

fn texts(urls: &[RelayUrl]) -> Vec<String> {
    urls.iter().map(|u| u.as_str().to_owned()).collect()
}

#[test]
fn a_post_goes_to_the_best_relays_of_the_tagged_and_to_ours() {
    let relays = vec![
        orelay(O1, Relay::WRITE | Relay::READ, 3),
        orelay(O2, Relay::WRITE, 0),
        orelay(O3, Relay::READ, 3),
        orelay("wss://four.example.com/", Relay::WRITE, 9),
    ];
    let tagged = vec![
        vec![
            RelayScore { url: ourl("wss://a.example.com/"), score: 9 },
            RelayScore { url: ourl(O1), score: 8 },
            RelayScore { url: ourl("wss://c.example.com/"), score: 7 },
        ],
        vec![RelayScore { url: ourl("wss://a.example.com/"), score: 1 }],
        vec![],
    ];
    let urls = post_relay_urls(&tagged, &relays);
    assert_eq!(
        texts(&urls),
        vec!["wss://a.example.com/", "wss://four.example.com/", O1]
    );
    assert_eq!(texts(&relays_usable_for(&relays, Relay::WRITE)), vec![O1, "wss://four.example.com/"]);
    assert_eq!(texts(&relays_usable_for(&relays, Relay::READ)), vec![O1, O3]);
    assert!(relays_usable_for(&relays, Relay::DISCOVER).is_empty());

    let urls = delete_relay_urls(&relays, vec![ourl(O3), ourl(O1), ourl(O3)]);
    assert_eq!(texts(&urls), vec!["wss://four.example.com/", O1, O3]);
    assert_eq!(texts(&dedup_urls(&[ourl(O2), ourl(O1), ourl(O2)].to_vec())), vec![O2, O1]);
}

#[test]
fn a_post_goes_out_in_the_order_of_the_texts() {
    // the better relay of the one tagged comes later in the order of texts
    let tagged = vec![vec![
        RelayScore { url: ourl("wss://z.example.com/"), score: 9 },
        RelayScore { url: ourl("wss://b.example.com/"), score: 8 },
    ]];
    let relays = vec![orelay("wss://m.example.com/", Relay::WRITE, 3)];
    assert_eq!(
        texts(&post_relay_urls(&tagged, &relays)),
        vec!["wss://b.example.com/", "wss://m.example.com/", "wss://z.example.com/"]
    );
}

#[test]
fn urls_and_ids_in_order_each_once() {
    let urls = vec![
        ourl("wss://b.example.com/x"),
        ourl("wss://b.example.com/"),
        ourl("wss://a.example.com:9/"),
        ourl("wss://b.example.com/x"),
        ourl("ws://b.example.com/"),
        ourl("wss://a.example.com/"),
        ourl("wss://b.example.com/"),
    ];
    assert_eq!(
        texts(&sort_urls(&urls)),
        vec![
            "ws://b.example.com/",
            "wss://a.example.com/",
            "wss://a.example.com:9/",
            "wss://b.example.com/",
            "wss://b.example.com/x",
        ]
    );
    assert!(sort_urls(&vec![]).is_empty());
    let low = Id { w0: 0, w1: 0, w2: 0, w3: 0x0a };
    let high = Id { w0: 0, w1: 0, w2: 0, w3: 0x10 };
    let top = Id { w0: 0xf000000000000000, w1: 0, w2: 0, w3: 0 };
    let mid = Id { w0: 0, w1: 1, w2: 0, w3: 0 };
    assert_eq!(
        sort_ids(&vec![top, high, low, mid, high, top, low]),
        vec![low, high, mid, top]
    );
    assert!(sort_ids(&vec![]).is_empty());
}

#[test]
fn one_job_for_each_relay() {
    let event = Event { id: oid(5), json: "{\"kind\":1}".to_string() };
    let detail = ToMinionPayloadDetail::PostEvent(Box::new(event));
    let out = jobs_for_each(vec![ourl(O1), ourl(O2)], RelayConnectionReason::PostLike, &detail);
    assert_eq!(out.len(), 2);
    assert_eq!(out[0].url.as_str(), O1);
    assert_eq!(out[1].url.as_str(), O2);
    for e in &out {
        assert_eq!(e.jobs.len(), 1);
        assert_eq!(e.jobs[0].reason, RelayConnectionReason::PostLike);
        assert_ne!(e.jobs[0].payload.job_id, 0);
        assert!(matches!(e.jobs[0].payload.detail, ToMinionPayloadDetail::PostEvent(ref e) if e.json == "{\"kind\":1}"));
    }
    assert!(fetch_event(oid(1), vec![ourl(O1)], true).is_empty());
    let out = fetch_event(oid(1), vec![ourl(O1), ourl(O1)], false);
    assert_eq!(out.len(), 2);
    assert!(matches!(out[1].jobs[0].payload.detail, ToMinionPayloadDetail::FetchEvent(id) if id == oid(1)));
    assert_eq!(out[1].jobs[0].reason, RelayConnectionReason::FetchEvent);

    let ea = EventAddr {
        kind: 30023,
        author: okey(4),
        d: "article".to_string(),
        relays: vec!["wss://ONE.example.com".to_string(), "nonsense".to_string(), O3.to_string()],
    };
    let out = fetch_event_addr(&ea);
    assert_eq!(out.len(), 2);
    assert_eq!(out[0].url.as_str(), O1);
    assert_eq!(out[1].url.as_str(), O3);
    assert!(matches!(out[0].jobs[0].payload.detail, ToMinionPayloadDetail::FetchEventAddr(ref a) if a.d == "article" && a.kind == 30023 && a.relays.len() == 3));
}

#[test]
fn direct_messages_go_to_one() {
    let me = okey(1);
    assert_eq!(dm_recipient(&DmChannel { keys: vec![] }, me).unwrap(), me);
    assert_eq!(dm_recipient(&DmChannel { keys: vec![okey(2)] }, me).unwrap(), okey(2));
    let e = dm_recipient(&DmChannel { keys: vec![okey(2), okey(3)] }, me).unwrap_err();
    assert!(matches!(e, CoreError::GroupDmsNotYetSupported));
    assert_eq!(e.message(), "Group DMs are not yet supported");
}

#[test]
fn our_relay_list() {
    let relays = vec![
        orelay(O1, Relay::INBOX | Relay::OUTBOX, 0),
        orelay(O2, Relay::INBOX | Relay::READ, 3),
        orelay(O3, Relay::OUTBOX, 3),
        orelay("wss://four.example.com/", Relay::READ | Relay::WRITE, 3),
    ];
    let list = relay_list_entries(&relays);
    assert_eq!(list.len(), 3);
    assert_eq!(list[0].url.as_str(), O1);
    assert_eq!(list[0].usage, RelayListUsage::Both);
    assert_eq!(list[1].usage, RelayListUsage::Read);
    assert_eq!(list[2].usage, RelayListUsage::Write);
    assert_eq!(texts(&mailbox_relay_urls(&relays)), vec![O1, O2, O3]);
}

#[test]
fn a_thread_is_read_where_it_may_be_found() {
    let context = ThreadContext {
        relays: vec![ourl(O1)],
        seen_on_referencing: vec![],
        seen_on_event: vec![],
        author_relays: vec![ourl(O2), ourl(O1)],
        highest_local_parent: None,
        referred: vec![
            Referred { id: oid(7), relay: Some(ourl(O3)) },
            Referred { id: oid(8), relay: None },
            Referred { id: oid(7), relay: Some(ourl(O2)) },
        ],
        people_relays: vec![ourl(O3)],
    };
    let plan = set_thread_feed(oid(5), context);
    assert_eq!(plan.parent, oid(5));
    let cancel = plan.cancel.unwrap();
    assert_eq!(cancel.target, "all");
    assert_eq!(cancel.payload.job_id, 0);
    assert!(matches!(cancel.payload.detail, ToMinionPayloadDetail::UnsubscribeThreadFeed));
    let urls: Vec<&str> = plan.engage.iter().map(|e| e.url.as_str()).collect();
    assert_eq!(urls, vec![O1, O3, O2]);
    for e in &plan.engage {
        assert_eq!(e.jobs[0].reason, RelayConnectionReason::ReadThread);
        assert!(matches!(e.jobs[0].payload.detail, ToMinionPayloadDetail::SubscribeThreadFeed(root, ref a) if root == oid(5) && *a == vec![oid(5), oid(7), oid(8)]));
    }

    // with two relays known the author's are not asked; with the event at hand it is not missing
    let context = ThreadContext {
        relays: vec![ourl(O1)],
        seen_on_referencing: vec![ourl(O1)],
        seen_on_event: vec![],
        author_relays: vec![ourl(O2)],
        highest_local_parent: Some(oid(4)),
        referred: vec![],
        people_relays: vec![],
    };
    let plan = set_thread_feed(oid(5), context);
    assert_eq!(plan.parent, oid(4));
    assert_eq!(plan.engage.len(), 1);
    assert!(matches!(plan.engage[0].jobs[0].payload.detail, ToMinionPayloadDetail::SubscribeThreadFeed(_, ref a) if a.is_empty()));

    // without any relay nothing is done
    let context = ThreadContext {
        relays: vec![],
        seen_on_referencing: vec![],
        seen_on_event: vec![],
        author_relays: vec![],
        highest_local_parent: None,
        referred: vec![Referred { id: oid(7), relay: None }],
        people_relays: vec![],
    };
    let plan = set_thread_feed(oid(5), context);
    assert!(plan.cancel.is_none());
    assert!(plan.engage.is_empty());
    assert_eq!(plan.parent, oid(5));
}

#[test]
fn people_are_sorted_into_their_relays() {
    let list = |urls: &[&str]| urls.iter().map(|u| RelayScore { url: ourl(u), score: 1 }).collect();
    let people = vec![
        PersonScores { pubkey: okey(1), scores: list(&[O1, O2, O3]) },
        PersonScores { pubkey: okey(2), scores: list(&[O2]) },
        PersonScores { pubkey: okey(3), scores: list(&[]) },
        PersonScores { pubkey: okey(4), scores: list(&[O3, O1]) },
    ];
    let groups: Vec<RelayAssignment> = group_by_relay(&people, 2);
    let shape: Vec<(String, Vec<PublicKey>)> =
        groups.iter().map(|g| (g.relay_url.as_str().to_owned(), g.pubkeys.clone())).collect();
    assert_eq!(
        shape,
        vec![
            (O1.to_string(), vec![okey(1), okey(4)]),
            (O2.to_string(), vec![okey(1), okey(2)]),
            (O3.to_string(), vec![okey(4)]),
        ]
    );
    assert!(group_by_relay(&people, 0).is_empty());
    let out = metadata_jobs(groups);
    assert_eq!(out.len(), 3);
    assert_eq!(out[1].url.as_str(), O2);
    assert_eq!(out[1].jobs[0].reason, RelayConnectionReason::FetchMetadata);
    assert!(matches!(out[1].jobs[0].payload.detail, ToMinionPayloadDetail::TempSubscribeMetadata(ref k) if *k == vec![okey(1), okey(2)]));
    assert_ne!(out[1].jobs[0].payload.job_id, 0);
}
