//! The planner and its state.

use vstd::prelude::*;
use crate::keys::PublicKey;
use crate::relay::Relay;
use crate::url::{contains_url, has_url, RelayUrl};
use crate::relays::RelayAssignment;
use crate::relays::lookup::{find_assignment, find_count, find_exclusion, find_relay};
use crate::relays::model::{
    count_of, counts_put_all, has_assignment, has_count, is_excluded, relay_put, relays_put_all,
    scores_put_all, Exclusion, PersonScores, PickerState, PubkeyCount,
};

verus! {

/// Assigns the people we follow to the relays we watch. It remembers which
/// identities are assigned to which relay, which still need relays and how
/// many, which relays are in time-out, and the scores by which assignments
/// are made.
pub struct RelayTracker {
    pub(crate) all_relays: Vec<Relay>,
    pub(crate) connected_relays: Vec<RelayUrl>,
    pub(crate) relay_assignments: Vec<RelayAssignment>,
    pub(crate) excluded_relays: Vec<Exclusion>,
    pub(crate) pubkey_counts: Vec<PubkeyCount>,
    pub(crate) person_relay_scores: Vec<PersonScores>,
    pub(crate) num_relays_per_person: u8,
    pub(crate) max_relays: usize,
}

impl View for RelayTracker {
    type V = PickerState;

    open(crate) spec fn view(&self) -> PickerState {
        PickerState {
            all_relays: self.all_relays@,
            connected: self.connected_relays@,
            assignments: self.relay_assignments@,
            excluded: self.excluded_relays@,
            counts: self.pubkey_counts@,
            scores: self.person_relay_scores@,
            num_relays_per_person: self.num_relays_per_person,
            max_relays: self.max_relays,
        }
    }
}

impl RelayTracker {
    /// A planner that knows no relay and follows nobody.
    pub fn new(num_relays_per_person: u8, max_relays: usize) -> (r: RelayTracker)
        ensures
            r@ == (PickerState {
                all_relays: Seq::empty(),
                connected: Seq::empty(),
                assignments: Seq::empty(),
                excluded: Seq::empty(),
                counts: Seq::empty(),
                scores: Seq::empty(),
                num_relays_per_person,
                max_relays,
            }),
            r@.wf(),
    {
        RelayTracker {
            all_relays: Vec::new(),
            connected_relays: Vec::new(),
            relay_assignments: Vec::new(),
            excluded_relays: Vec::new(),
            pubkey_counts: Vec::new(),
            person_relay_scores: Vec::new(),
            num_relays_per_person,
            max_relays,
        }
    }

    /// How many relays each identity is to be covered by.
    pub fn num_relays_per_person(&self) -> (r: u8)
        ensures
            r == self@.num_relays_per_person,
    {
        self.num_relays_per_person
    }

    /// How many relays may hold assignments.
    pub fn max_relays(&self) -> (r: usize)
        ensures
            r == self@.max_relays,
    {
        self.max_relays
    }

    /// Changes how many relays may hold assignments.
    pub fn set_max_relays(&mut self, max_relays: usize)
        ensures
            final(self)@ == (PickerState { max_relays, ..old(self)@ }),
    {
        self.max_relays = max_relays;
    }

    /// How many relays hold assignments.
    pub fn assignment_count(&self) -> (r: usize)
        ensures
            r == self@.assignments.len(),
    {
        self.relay_assignments.len()
    }

    /// The assignment of the relay `url`, if it has one.
    pub fn get_relay_assignment(&self, url: &RelayUrl) -> (r: Option<&RelayAssignment>)
        ensures
            r is Some == has_assignment(self@.assignments, url@),
            r matches Some(a) ==> a.relay_url@ == url@ && self@.assignments.contains(*a),
    {
        match find_assignment(&self.relay_assignments, url) {
            Some(i) => {
                assert(self.relay_assignments@[i as int] == self@.assignments[i as int]);
                Some(&self.relay_assignments[i])
            },
            None => None,
        }
    }

    /// How many more relays the identity `p` seeks, if it has an entry.
    pub fn pubkey_count(&self, p: PublicKey) -> (r: Option<u8>)
        requires
            self@.wf(),
        ensures
            r is Some == has_count(self@.counts, p),
            r matches Some(c) ==> c == count_of(self@.counts, p),
    {
        match find_count(&self.pubkey_counts, p) {
            Some(i) => {
                assert(self@.counts[i as int].pubkey == p);
                Some(self.pubkey_counts[i].count)
            },
            None => None,
        }
    }

    /// Whether any identity has an entry among the counts.
    pub fn has_people_left(&self) -> (r: bool)
        ensures
            r == (self@.counts.len() > 0),
    {
        self.pubkey_counts.len() > 0
    }

    /// Until when the relay `url` is excluded, if it is.
    pub fn excluded_until(&self, url: &RelayUrl) -> (r: Option<i64>)
        ensures
            r is Some == is_excluded(self@.excluded, url@),
            r matches Some(t) ==> exists|i: int|
                0 <= i < self@.excluded.len() && (#[trigger] self@.excluded[i]).url@ == url@
                    && self@.excluded[i].until == t,
    {
        match find_exclusion(&self.excluded_relays, url) {
            Some(i) => {
                assert(self@.excluded[i as int].url@ == url@);
                Some(self.excluded_relays[i].until)
            },
            None => None,
        }
    }

    /// Whether the relay `url` is connected, as far as the planner was told.
    pub fn is_connected(&self, url: &RelayUrl) -> (r: bool)
        ensures
            r == has_url(self@.connected, url@),
    {
        contains_url(&self.connected_relays, url)
    }

    /// Notes that the relay `url` is connected.
    pub fn relay_connected(&mut self, url: RelayUrl)
        requires
            old(self)@.wf(),
        ensures
            final(self)@.wf(),
            final(self)@ == (PickerState {
                connected: if has_url(old(self)@.connected, url@) {
                    old(self)@.connected
                } else {
                    old(self)@.connected.push(url)
                },
                ..old(self)@
            }),
    {
        if !contains_url(&self.connected_relays, &url) {
            self.connected_relays.push(url);
        }
    }

    /// Takes `urls` for the relays that are connected, each once.
    pub fn set_connected_relays(&mut self, urls: &Vec<RelayUrl>)
        requires
            old(self)@.wf(),
        ensures
            final(self)@.wf(),
            final(self)@ == (PickerState {
                connected: crate::overlord::fanout::deduped(urls@),
                ..old(self)@
            }),
    {
        self.connected_relays = crate::overlord::fanout::dedup_urls(urls);
    }

    /// Makes the relay known, or replaces what was known of it.
    pub fn add_relay(&mut self, relay: Relay)
        requires
            old(self)@.wf(),
        ensures
            final(self)@.wf(),
            final(self)@ == (PickerState {
                all_relays: relay_put(old(self)@.all_relays, relay),
                ..old(self)@
            }),
    {
        let ghost before = self.all_relays@;
        match find_relay(&self.all_relays, &relay.url) {
            Some(i) => {
                proof {
                    let chosen = choose|c: int|
                        0 <= c < before.len() && (#[trigger] before[c]).url@ == relay.url@;
                    assert(before[i as int].url@ == relay.url@);
                    assert(chosen == i);
                }
                self.all_relays.set(i, relay);
                proof {
                    let after = self.all_relays@;
                    assert forall|a: int, b: int|
                        0 <= a < after.len() && 0 <= b < after.len() && a != b implies (
                    #[trigger] after[a]).url@ != (#[trigger] after[b]).url@ by {
                        assert(after[a].url@ == before[a].url@);
                        assert(after[b].url@ == before[b].url@);
                    }
                }
            },
            None => {
                self.all_relays.push(relay);
                proof {
                    let after = self.all_relays@;
                    assert forall|a: int, b: int|
                        0 <= a < after.len() && 0 <= b < after.len() && a != b implies (
                    #[trigger] after[a]).url@ != (#[trigger] after[b]).url@ by {
                        if a < before.len() {
                            assert(after[a] == before[a]);
                        }
                        if b < before.len() {
                            assert(after[b] == before[b]);
                        }
                    }
                }
            },
        }
    }

    /// Starts anew: with the relays `relays`, where of two of one URL the
    /// later stands; with each identity to be covered by
    /// `num_relays_per_person` relays; and following `followed`, each of
    /// whom seeks that many relays. Nothing is connected, assigned or
    /// excluded.
    pub fn init(&mut self, relays: Vec<Relay>, num_relays_per_person: u8, followed: Vec<PersonScores>)
        ensures
            final(self)@.wf(),
            final(self)@ == (PickerState {
                all_relays: relays_put_all(Seq::empty(), relays@),
                connected: Seq::empty(),
                assignments: Seq::empty(),
                excluded: Seq::empty(),
                counts: counts_put_all(Seq::empty(), followed@, num_relays_per_person),
                scores: scores_put_all(Seq::empty(), followed@),
                num_relays_per_person,
                max_relays: old(self)@.max_relays,
            }),
    {
        self.all_relays = Vec::new();
        self.connected_relays = Vec::new();
        self.relay_assignments = Vec::new();
        self.excluded_relays = Vec::new();
        self.pubkey_counts = Vec::new();
        self.person_relay_scores = Vec::new();
        self.num_relays_per_person = num_relays_per_person;
        let mut i: usize = 0;
        assert(relays@.take(0) =~= Seq::empty());
        while i < relays.len()
            invariant
                i <= relays.len(),
                self@.wf(),
                self@ == (PickerState {
                    all_relays: relays_put_all(Seq::empty(), relays@.take(i as int)),
                    connected: Seq::empty(),
                    assignments: Seq::empty(),
                    excluded: Seq::empty(),
                    counts: Seq::empty(),
                    scores: Seq::empty(),
                    num_relays_per_person,
                    max_relays: old(self)@.max_relays,
                }),
            decreases relays.len() - i,
        {
            assert(relays@.take(i + 1).drop_last() =~= relays@.take(i as int));
            self.add_relay(relays[i].clone());
            i += 1;
        }
        assert(relays@.take(i as int) =~= relays@);
        self.refresh_person_relay_scores(followed, true);
    }
}

} // verus!
