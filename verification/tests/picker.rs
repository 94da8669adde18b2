use gossip_lib::keys::PublicKey;
use gossip_lib::relay::Relay;
use gossip_lib::relays::model::{PersonScores, RelayScore};
use gossip_lib::relays::{RelayAssignment, RelayPickFailure, RelayTracker};
use gossip_lib::url::RelayUrl;

fn key(n: u64) -> PublicKey {
    PublicKey { w0: 0, w1: 0, w2: 0, w3: n }
}

fn url(text: &str) -> RelayUrl {
    RelayUrl::try_from_str(text).unwrap()
}

fn relay(text: &str, rank: u8, success_count: u64, failure_count: u64) -> Relay {
    let mut r = Relay::new(url(text));
    r.rank = rank;
    r.success_count = success_count;
    r.failure_count = failure_count;
    r
}

fn scores(pubkey: PublicKey, list: &[(&str, u64)]) -> PersonScores {
    PersonScores {
        pubkey,
        scores: list.iter().map(|(u, s)| RelayScore { url: url(u), score: *s }).collect(),
    }
}

const R1: &str = "wss://r1.example.com/";
const R2: &str = "wss://r2.example.com/";

fn two_relays(rank1: u8) -> RelayTracker {
    let mut t = RelayTracker::new(2, 5);
    t.add_relay(relay(R1, rank1, 10, 0));
    t.add_relay(relay(R2, 3, 10, 0));
    t.refresh_person_relay_scores(
        vec![scores(key(1), &[(R1, 100), (R2, 50)]), scores(key(2), &[(R1, 80), (R2, 40)])],
        true,
    );
    t
}

fn picked(t: &mut RelayTracker, now: i64) -> String {
    match t.pick(now) {
        Ok(u) => u.as_str().to_owned(),
        Err(f) => panic!("pick failed: {}", f.to_string()),
    }
}

fn coverage(t: &RelayTracker, p: PublicKey) -> u8 {
    let mut n = 0;
    for u in [R1, R2] {
        if let Some(a) = t.get_relay_assignment(&url(u)) {
            if a.pubkeys.contains(&p) {
                n += 1;
            }
        }
    }
    n
}

#[test]
fn picker_covers_two_identities_with_one_relay() {
    let mut t = two_relays(3);
    assert_eq!(t.pubkey_count(key(1)), Some(2));
    assert_eq!(t.pubkey_count(key(2)), Some(2));

    assert_eq!(picked(&mut t, 1000), R1);
    assert_eq!(t.get_relay_assignment(&url(R1)).unwrap().pubkeys, vec![key(1), key(2)]);
    assert_eq!(t.pubkey_count(key(1)), Some(1));
    assert_eq!(t.pubkey_count(key(2)), Some(1));

    assert_eq!(picked(&mut t, 1000), R2);
    assert_eq!(t.get_relay_assignment(&url(R2)).unwrap().pubkeys, vec![key(1), key(2)]);
    assert_eq!(t.pubkey_count(key(1)), None);
    assert_eq!(t.pubkey_count(key(2)), None);
    assert!(!t.has_people_left());

    assert!(matches!(t.pick(1000), Err(RelayPickFailure::NoPeopleLeft)));
    assert_eq!(t.assignment_count(), 2);
}

#[test]
fn picker_honours_exclusion() {
    let mut t = two_relays(3);
    assert_eq!(picked(&mut t, 1000), R1);
    t.relay_disconnected(&url(R1), 60, 1000);
    assert_eq!(t.excluded_until(&url(R1)), Some(1060));
    assert!(t.get_relay_assignment(&url(R1)).is_none());
    assert_eq!(t.pubkey_count(key(1)), Some(2));
    assert_eq!(t.pubkey_count(key(2)), Some(2));

    // one second later the relay in time-out is passed over
    assert_eq!(picked(&mut t, 1001), R2);
    assert_eq!(t.excluded_until(&url(R1)), Some(1060));
    // at the last second of the time-out it still is
    assert!(matches!(t.pick(1060), Err(RelayPickFailure::NoProgress)));
    assert_eq!(t.excluded_until(&url(R1)), Some(1060));
    // after it the relay may be picked again
    assert_eq!(picked(&mut t, 1061), R1);
    assert_eq!(t.excluded_until(&url(R1)), None);
}

#[test]
fn picker_is_stuck_when_the_other_relay_has_everyone() {
    let mut t = two_relays(3);
    assert_eq!(picked(&mut t, 1000), R1);
    assert_eq!(picked(&mut t, 1000), R2);
    t.relay_disconnected(&url(R1), 60, 1000);
    t.refresh_person_relay_scores(
        vec![scores(key(1), &[(R1, 100), (R2, 50)]), scores(key(2), &[(R1, 80), (R2, 40)])],
        true,
    );
    assert_eq!(t.pubkey_count(key(1)), Some(2));
    // R1 is in time-out and R2 has both identities already
    assert!(matches!(t.pick(1001), Err(RelayPickFailure::NoProgress)));
    assert_eq!(picked(&mut t, 1061), R1);
}

#[test]
fn rank_zero_suppresses_use() {
    let mut t = two_relays(0);
    assert_eq!(picked(&mut t, 1000), R2);
    assert!(t.get_relay_assignment(&url(R1)).is_none());
    // nothing is left but the relay of rank 0
    assert!(matches!(t.pick(1000), Err(RelayPickFailure::NoProgress)));
    assert_eq!(t.pubkey_count(key(1)), Some(1));
}

#[test]
fn pick_without_relays_or_people() {
    let mut t = RelayTracker::new(2, 5);
    assert!(matches!(t.pick(0), Err(RelayPickFailure::NoPeopleLeft)));
    t.add_someone(key(1));
    assert!(matches!(t.pick(0), Err(RelayPickFailure::NoRelays)));
    t.add_relay(relay(R1, 3, 1, 0));
    // the person has no relay on any list
    assert!(matches!(t.pick(0), Err(RelayPickFailure::NoProgress)));
    assert_eq!(t.pubkey_count(key(1)), Some(2));
}

#[test]
fn budget_holds_across_picks_and_disconnections() {
    let mut t = two_relays(3);
    let within = |t: &RelayTracker| {
        for p in [key(1), key(2)] {
            let seeking = t.pubkey_count(p).unwrap_or(0);
            assert!(seeking + coverage(t, p) <= t.num_relays_per_person());
        }
    };
    within(&t);
    let _ = t.pick(10);
    within(&t);
    let _ = t.pick(10);
    within(&t);
    t.relay_disconnected(&url(R2), 30, 10);
    within(&t);
    assert_eq!(t.pubkey_count(key(1)), Some(1));
    t.relay_disconnected(&url(R1), 30, 10);
    within(&t);
    assert_eq!(t.pubkey_count(key(1)), Some(2));
    // a relay without an assignment gives nothing back
    t.relay_disconnected(&url(R1), 30, 10);
    assert_eq!(t.pubkey_count(key(1)), Some(2));
    let _ = t.pick(41);
    within(&t);
    assert_eq!(coverage(&t, key(1)), 1);
}

#[test]
fn exclusion_is_extended_never_shortened() {
    let mut t = two_relays(3);
    t.relay_disconnected(&url(R1), 86400, 100);
    assert_eq!(t.excluded_until(&url(R1)), Some(86500));
    t.relay_disconnected(&url(R1), 30, 200);
    assert_eq!(t.excluded_until(&url(R1)), Some(86500));
    t.relay_disconnected(&url(R1), 31536000, 200);
    assert_eq!(t.excluded_until(&url(R1)), Some(31536200));
    t.relay_disconnected(&url(R2), u64::MAX, 5);
    assert_eq!(t.excluded_until(&url(R2)), Some(i64::MAX));
}

#[test]
fn a_relay_that_could_not_be_engaged_is_left_alone() {
    let mut t = two_relays(3);
    assert_eq!(picked(&mut t, 1000), R1);
    t.engage_failed(&url(R1), 1000);
    assert_eq!(t.excluded_until(&url(R1)), Some(1120));
    assert!(t.get_relay_assignment(&url(R1)).is_none());
    assert_eq!(t.pubkey_count(key(1)), Some(2));
    assert_eq!(picked(&mut t, 1120), R2);
    assert_eq!(picked(&mut t, 1121), R1);
}

#[test]
fn at_the_cap_only_connected_relays_are_picked() {
    let mut t = RelayTracker::new(1, 1);
    t.add_relay(relay(R1, 3, 1, 0));
    t.add_relay(relay(R2, 3, 1, 0));
    t.refresh_person_relay_scores(
        vec![scores(key(1), &[(R1, 100)]), scores(key(2), &[(R2, 500)])],
        true,
    );
    assert_eq!(picked(&mut t, 0), R2);
    t.relay_connected(url(R2));
    assert!(t.is_connected(&url(R2)));
    // R1 would serve the first identity, but the cap is reached
    assert!(matches!(t.pick(0), Err(RelayPickFailure::NoProgress)));
    assert_eq!(t.assignment_count(), 1);
    t.set_connected_relays(&vec![]);
    assert!(!t.is_connected(&url(R2)));
    t.relay_disconnected(&url(R2), 0, 0);
    assert_eq!(picked(&mut t, 1), R2);
    // a relay that is connected for another reason may be picked at the cap
    t.set_connected_relays(&vec![url(R2), url(R2), url(R1)]);
    assert!(t.is_connected(&url(R1)));
    assert_eq!(picked(&mut t, 1), R1);
    assert_eq!(t.assignment_count(), 2);
    t.set_max_relays(2);
    assert_eq!(t.max_relays(), 2);
}

#[test]
fn the_last_of_equal_scores_wins() {
    let mut t = RelayTracker::new(1, 5);
    t.add_relay(relay(R1, 3, 1, 0));
    t.add_relay(relay(R2, 3, 1, 0));
    t.refresh_person_relay_scores(vec![scores(key(1), &[(R1, 7), (R2, 7)])], true);
    assert_eq!(picked(&mut t, 0), R2);
}

#[test]
fn scores_are_weighted_by_rank_and_success() {
    let mut t = RelayTracker::new(1, 5);
    // weight 3: rank 3, always succeeded; weight 5: rank 9, succeeded 3 times in 7
    t.add_relay(relay(R1, 3, 5, 0));
    t.add_relay(relay(R2, 9, 3, 4));
    assert_eq!(relay(R1, 3, 5, 0).score_multiplier(), 3);
    assert_eq!(relay(R2, 9, 3, 4).score_multiplier(), 5);
    assert_eq!(relay(R2, 9, 0, 0).score_multiplier(), 5);
    assert_eq!(relay(R2, 3, 0, 0).score_multiplier(), 1);
    assert_eq!(relay(R2, 9, 0, 4).score_multiplier(), 0);
    assert_eq!(relay(R2, 0, 4, 0).score_multiplier(), 0);
    t.refresh_person_relay_scores(vec![scores(key(1), &[(R1, 10), (R2, 7)])], true);
    assert_eq!(t.relay_score(0), 30);
    assert_eq!(t.relay_score(1), 35);
    assert_eq!(picked(&mut t, 0), R2);
}

#[test]
fn scores_stop_at_the_largest_number() {
    let mut t = RelayTracker::new(1, 5);
    t.add_relay(relay(R1, 3, 1, 0));
    t.refresh_person_relay_scores(
        vec![scores(key(1), &[(R1, u64::MAX)]), scores(key(2), &[(R1, 5), (R1, 6)])],
        true,
    );
    assert_eq!(t.relay_score(0), u64::MAX);
    t.remove_someone(key(1));
    assert_eq!(t.relay_score(0), 33);
}

#[test]
fn add_and_remove_someone() {
    let mut t = two_relays(3);
    t.add_someone(key(3));
    assert_eq!(t.pubkey_count(key(3)), Some(2));
    assert_eq!(picked(&mut t, 0), R1);
    // one who is counted already, or covered, is not added again
    t.add_someone(key(1));
    assert_eq!(t.pubkey_count(key(1)), Some(1));
    assert_eq!(picked(&mut t, 0), R2);
    t.add_someone(key(1));
    assert_eq!(t.pubkey_count(key(1)), None);

    t.remove_someone(key(1));
    assert_eq!(t.get_relay_assignment(&url(R1)).unwrap().pubkeys, vec![key(2)]);
    assert_eq!(t.get_relay_assignment(&url(R2)).unwrap().pubkeys, vec![key(2)]);
    t.remove_someone(key(3));
    assert_eq!(t.pubkey_count(key(3)), None);
}

#[test]
fn refresh_keeps_counts_unless_asked() {
    let mut t = two_relays(3);
    assert_eq!(picked(&mut t, 0), R1);
    t.refresh_person_relay_scores(vec![scores(key(1), &[(R2, 1)])], false);
    assert_eq!(t.pubkey_count(key(1)), Some(1));
    assert_eq!(t.pubkey_count(key(2)), Some(1));
    // the second identity has no list any more
    assert_eq!(picked(&mut t, 0), R2);
    assert_eq!(t.get_relay_assignment(&url(R2)).unwrap().pubkeys, vec![key(1)]);
    // the later of two lists for one identity stands
    t.refresh_person_relay_scores(
        vec![scores(key(5), &[(R1, 1)]), scores(key(5), &[(R2, 1)])],
        true,
    );
    assert_eq!(t.pubkey_count(key(5)), Some(2));
    assert_eq!(t.pubkey_count(key(1)), None);
    assert_eq!(picked(&mut t, 0), R2);
}

#[test]
fn merge_in_unites_under_one_relay() {
    let mut a = RelayAssignment { relay_url: url(R1), pubkeys: vec![key(1), key(2)] };
    let b = RelayAssignment { relay_url: url(R1), pubkeys: vec![key(2), key(3), key(3)] };
    assert!(a.merge_in(b).is_ok());
    assert_eq!(a.pubkeys, vec![key(1), key(2), key(3)]);
    let c = RelayAssignment { relay_url: url(R2), pubkeys: vec![key(9)] };
    let e = a.merge_in(c).unwrap_err();
    assert_eq!(e.message(), "Attempted to merge relay assignments on different relays");
    assert_eq!(a.pubkeys, vec![key(1), key(2), key(3)]);
}

#[test]
fn pick_failures_in_words() {
    assert_eq!(RelayPickFailure::NoRelays.to_string(), "No relays to pick from.");
    assert_eq!(RelayPickFailure::NoPeopleLeft.to_string(), "All people accounted for.");
    assert_eq!(RelayPickFailure::NoProgress.to_string(), "Unable to make further progress.");
}

#[test]
fn relay_urls_are_canonical() {
    let u = RelayUrl::try_from_str("Wss://MyRelay.Example.COM").unwrap();
    assert_eq!(u.as_str(), "wss://myrelay.example.com/");
    assert!(u.same_as(&url("wss://myrelay.example.com/")));
    assert!(!u.same_as(&url("wss://myrelay.example.com/path")));
    assert!(u.is_target(&"wss://myrelay.example.com/".to_string()));
    for bad in ["", "not a url", "https://example.com/", "wss://localhost/", "wss://127.0.0.1/"] {
        let e = RelayUrl::try_from_str(bad).unwrap_err();
        assert!(matches!(e, gossip_lib::error::CoreError::InvalidUrl(ref t) if t == bad));
        assert_eq!(e.message(), "Invalid URL");
    }
}
