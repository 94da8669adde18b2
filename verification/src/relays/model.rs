//! The planner's state as mathematics: sequences of entries, each kind of
//! entry keyed by a relay's URL or by an identity, and what the planner
//! computes from them.

use vstd::prelude::*;
use crate::keys::PublicKey;
use crate::relay::Relay;
use crate::url::{has_url, distinct_urls, RelayUrl};
use crate::relays::{RelayAssignment, RelayPickFailure};

verus! {

/// A relay that is not to be picked before the time `until`.
#[derive(Debug)]
pub struct Exclusion {
    pub url: RelayUrl,
    pub until: i64,
}

impl Clone for Exclusion {
    fn clone(&self) -> (r: Self)
        ensures
            r == *self,
    {
        Exclusion { url: self.url.clone(), until: self.until }
    }
}

/// How many more relays an identity is still to be assigned to.
#[derive(Clone, Copy, Debug, PartialEq, Eq, Structural)]
pub struct PubkeyCount {
    pub pubkey: PublicKey,
    pub count: u8,
}

/// How well a relay is thought to serve one identity.
#[derive(Debug)]
pub struct RelayScore {
    pub url: RelayUrl,
    pub score: u64,
}

/// The relays on which an identity is likely to be found, best first.
#[derive(Debug)]
pub struct PersonScores {
    pub pubkey: PublicKey,
    pub scores: Vec<RelayScore>,
}

/// Whether `url` is excluded.
pub open spec fn is_excluded(excluded: Seq<Exclusion>, url: Seq<char>) -> bool {
    exists|i: int| 0 <= i < excluded.len() && (#[trigger] excluded[i]).url@ == url
}

/// Whether `url` is excluded until `t` or later.
pub open spec fn excluded_until(excluded: Seq<Exclusion>, url: Seq<char>, t: int) -> bool {
    exists|i: int|
        0 <= i < excluded.len() && (#[trigger] excluded[i]).url@ == url && excluded[i].until >= t
}

/// Whether `url` has an assignment.
pub open spec fn has_assignment(assignments: Seq<RelayAssignment>, url: Seq<char>) -> bool {
    exists|i: int| 0 <= i < assignments.len() && (#[trigger] assignments[i]).relay_url@ == url
}

/// Whether the relay `url` is assigned the identity `p`.
pub open spec fn is_assigned(assignments: Seq<RelayAssignment>, url: Seq<char>, p: PublicKey) -> bool {
    exists|i: int|
        0 <= i < assignments.len() && (#[trigger] assignments[i]).relay_url@ == url
            && assignments[i].pubkeys@.contains(p)
}

/// Whether `p` has an entry among the counts.
pub open spec fn has_count(counts: Seq<PubkeyCount>, p: PublicKey) -> bool {
    exists|i: int| 0 <= i < counts.len() && (#[trigger] counts[i]).pubkey == p
}

/// How many more relays `p` seeks: its count, or 0 where it has none.
pub open spec fn count_of(counts: Seq<PubkeyCount>, p: PublicKey) -> nat {
    if has_count(counts, p) {
        let i = choose|i: int| 0 <= i < counts.len() && (#[trigger] counts[i]).pubkey == p;
        counts[i].count as nat
    } else {
        0
    }
}

/// Whether `p` has a list of relay scores.
pub open spec fn has_scores(scores: Seq<PersonScores>, p: PublicKey) -> bool {
    exists|i: int| 0 <= i < scores.len() && (#[trigger] scores[i]).pubkey == p
}

/// Whether the relay `url` is on the list of relays of `p`.
pub open spec fn names_relay(scores: Seq<PersonScores>, p: PublicKey, url: Seq<char>) -> bool {
    exists|i: int, k: int|
        0 <= i < scores.len() && 0 <= k < scores[i].scores@.len() && scores[i].pubkey == p && (
        #[trigger] scores[i].scores@[k]).url@ == url
}

/// How many assignments hold `p`.
pub open spec fn covering(assignments: Seq<RelayAssignment>, p: PublicKey) -> nat
    decreases assignments.len(),
{
    if assignments.len() == 0 {
        0
    } else {
        covering(assignments.drop_last(), p) + if assignments.last().pubkeys@.contains(p) {
            1nat
        } else {
            0nat
        }
    }
}

/// Whether no two of the relays have one URL.
pub open spec fn distinct_relays(relays: Seq<Relay>) -> bool {
    forall|i: int, j: int|
        0 <= i < relays.len() && 0 <= j < relays.len() && i != j ==> (#[trigger] relays[i]).url@
            != (#[trigger] relays[j]).url@
}

/// Whether no two of the assignments are for one relay.
pub open spec fn distinct_assignments(assignments: Seq<RelayAssignment>) -> bool {
    forall|i: int, j: int|
        0 <= i < assignments.len() && 0 <= j < assignments.len() && i != j ==> (
        #[trigger] assignments[i]).relay_url@ != (#[trigger] assignments[j]).relay_url@
}

/// Whether no relay is excluded twice.
pub open spec fn distinct_exclusions(excluded: Seq<Exclusion>) -> bool {
    forall|i: int, j: int|
        0 <= i < excluded.len() && 0 <= j < excluded.len() && i != j ==> (
        #[trigger] excluded[i]).url@ != (#[trigger] excluded[j]).url@
}

/// Whether no identity is counted twice.
pub open spec fn distinct_counts(counts: Seq<PubkeyCount>) -> bool {
    forall|i: int, j: int|
        0 <= i < counts.len() && 0 <= j < counts.len() && i != j ==> (#[trigger] counts[i]).pubkey
            != (#[trigger] counts[j]).pubkey
}

/// Whether no identity has two lists of scores.
pub open spec fn distinct_people(scores: Seq<PersonScores>) -> bool {
    forall|i: int, j: int|
        0 <= i < scores.len() && 0 <= j < scores.len() && i != j ==> (#[trigger] scores[i]).pubkey
            != (#[trigger] scores[j]).pubkey
}

/// The exclusions that have not run out at the time `now`.
pub open spec fn live_exclusions(excluded: Seq<Exclusion>, now: i64) -> Seq<Exclusion>
    decreases excluded.len(),
{
    if excluded.len() == 0 {
        excluded
    } else {
        let rest = live_exclusions(excluded.drop_last(), now);
        if excluded.last().until >= now {
            rest.push(excluded.last())
        } else {
            rest
        }
    }
}

/// The sum of the scores that `entries` give the relay `url`.
pub open spec fn entry_sum(entries: Seq<RelayScore>, url: Seq<char>) -> nat
    decreases entries.len(),
{
    if entries.len() == 0 {
        0
    } else {
        entry_sum(entries.drop_last(), url) + if entries.last().url@ == url {
            entries.last().score as nat
        } else {
            0nat
        }
    }
}

/// What one person adds to the score of the relay `url`: the scores that
/// the person's list gives it, if the person still seeks relays and the
/// relay does not have the person already.
pub open spec fn contribution(
    counts: Seq<PubkeyCount>,
    assignments: Seq<RelayAssignment>,
    person: PersonScores,
    url: Seq<char>,
) -> nat {
    if count_of(counts, person.pubkey) > 0 && !is_assigned(assignments, url, person.pubkey) {
        entry_sum(person.scores@, url)
    } else {
        0
    }
}

/// What `people` together add to the score of the relay `url`.
pub open spec fn people_sum(
    counts: Seq<PubkeyCount>,
    assignments: Seq<RelayAssignment>,
    people: Seq<PersonScores>,
    url: Seq<char>,
) -> nat
    decreases people.len(),
{
    if people.len() == 0 {
        0
    } else {
        people_sum(counts, assignments, people.drop_last(), url) + contribution(
            counts,
            assignments,
            people.last(),
            url,
        )
    }
}

/// A score as the planner holds it: no larger than a `u64` can be.
pub open spec fn capped(n: nat) -> nat {
    if n > u64::MAX {
        u64::MAX as nat
    } else {
        n
    }
}

/// Whether a pick of the relay `url` covers the identity counted by `c`:
/// the identity still seeks relays, the relay is on its list, and the relay
/// does not have it already.
pub open spec fn covers(
    assignments: Seq<RelayAssignment>,
    scores: Seq<PersonScores>,
    url: Seq<char>,
    c: PubkeyCount,
) -> bool {
    c.count > 0 && !is_assigned(assignments, url, c.pubkey) && names_relay(scores, c.pubkey, url)
}

/// The identities that a pick of the relay `url` covers, in the order of
/// `counts`.
pub open spec fn covered_keys(
    assignments: Seq<RelayAssignment>,
    scores: Seq<PersonScores>,
    counts: Seq<PubkeyCount>,
    url: Seq<char>,
) -> Seq<PublicKey>
    decreases counts.len(),
{
    if counts.len() == 0 {
        Seq::empty()
    } else {
        let rest = covered_keys(assignments, scores, counts.drop_last(), url);
        if covers(assignments, scores, url, counts.last()) {
            rest.push(counts.last().pubkey)
        } else {
            rest
        }
    }
}

/// The counts after a pick of the relay `url`: each covered identity seeks
/// one relay fewer, and an identity that seeks none has no entry any more.
pub open spec fn counts_after_pick(
    assignments: Seq<RelayAssignment>,
    scores: Seq<PersonScores>,
    counts: Seq<PubkeyCount>,
    url: Seq<char>,
) -> Seq<PubkeyCount>
    decreases counts.len(),
{
    if counts.len() == 0 {
        Seq::empty()
    } else {
        let rest = counts_after_pick(assignments, scores, counts.drop_last(), url);
        let c = counts.last();
        if covers(assignments, scores, url, c) {
            if c.count > 1 {
                rest.push(PubkeyCount { pubkey: c.pubkey, count: (c.count - 1) as u8 })
            } else {
                rest
            }
        } else if c.count > 0 {
            rest.push(c)
        } else {
            rest
        }
    }
}

/// Whether `after` is `before` with the identities `keys` added to the
/// assignment of the relay `url`: appended to the relay's assignment where
/// it has one, else in a new assignment at the end.
pub open spec fn installed(
    before: Seq<RelayAssignment>,
    after: Seq<RelayAssignment>,
    url: Seq<char>,
    keys: Seq<PublicKey>,
) -> bool {
    if has_assignment(before, url) {
        &&& after.len() == before.len()
        &&& forall|i: int|
            0 <= i < before.len() ==> (#[trigger] after[i]).relay_url@ == before[i].relay_url@
        &&& forall|i: int|
            0 <= i < before.len() && before[i].relay_url@ != url ==> (#[trigger] after[i])
                == before[i]
        &&& forall|i: int|
            0 <= i < before.len() && before[i].relay_url@ == url ==> (#[trigger] after[i]).pubkeys@
                == before[i].pubkeys@ + keys
    } else {
        &&& after.len() == before.len() + 1
        &&& after.drop_last() == before
        &&& after.last().relay_url@ == url
        &&& after.last().pubkeys@ == keys
    }
}

/// Whether `after` is `before` without the assignment of the relay `url`.
pub open spec fn uninstalled(
    before: Seq<RelayAssignment>,
    after: Seq<RelayAssignment>,
    url: Seq<char>,
) -> bool {
    if has_assignment(before, url) {
        exists|k: int|
            0 <= k < before.len() && (#[trigger] before[k]).relay_url@ == url && after
                == before.remove(k)
    } else {
        after == before
    }
}

/// The identities that the relay `url` is assigned; none where it has no
/// assignment.
pub open spec fn assigned_keys(assignments: Seq<RelayAssignment>, url: Seq<char>) -> Seq<
    PublicKey,
> {
    if has_assignment(assignments, url) {
        let k = choose|k: int|
            0 <= k < assignments.len() && (#[trigger] assignments[k]).relay_url@ == url;
        assignments[k].pubkeys@
    } else {
        Seq::empty()
    }
}

/// The counts after `p` has been given back one relay to seek, never more
/// than `cap` in all.
pub open spec fn count_returned(counts: Seq<PubkeyCount>, p: PublicKey, cap: u8) -> Seq<
    PubkeyCount,
> {
    if has_count(counts, p) {
        let i = choose|i: int| 0 <= i < counts.len() && (#[trigger] counts[i]).pubkey == p;
        let c = counts[i].count;
        counts.update(
            i,
            PubkeyCount { pubkey: p, count: if c < cap { (c + 1) as u8 } else { cap } },
        )
    } else {
        counts.push(PubkeyCount { pubkey: p, count: if cap > 0 { 1u8 } else { 0u8 } })
    }
}

/// The counts after each of `keys` has been given back one relay to seek.
pub open spec fn counts_returned(counts: Seq<PubkeyCount>, keys: Seq<PublicKey>, cap: u8) -> Seq<
    PubkeyCount,
>
    decreases keys.len(),
{
    if keys.len() == 0 {
        counts
    } else {
        count_returned(counts_returned(counts, keys.drop_last(), cap), keys.last(), cap)
    }
}

/// The time `seconds` after `now`, or the last time there is.
pub open spec fn time_after(now: i64, seconds: u64) -> i64 {
    if now + seconds > i64::MAX {
        i64::MAX
    } else {
        (now + seconds) as i64
    }
}

/// Whether `after` is `before` with the relay `url` excluded until `hence`,
/// or until the end of the exclusion it had if that is later.
pub open spec fn excluded_more(
    before: Seq<Exclusion>,
    after: Seq<Exclusion>,
    url: Seq<char>,
    hence: i64,
) -> bool {
    if is_excluded(before, url) {
        &&& after.len() == before.len()
        &&& forall|i: int|
            0 <= i < before.len() && before[i].url@ != url ==> (#[trigger] after[i]) == before[i]
        &&& forall|i: int|
            0 <= i < before.len() && before[i].url@ == url ==> (#[trigger] after[i]).url@ == url
                && after[i].until == if before[i].until > hence {
                before[i].until
            } else {
                hence
            }
    } else {
        &&& after.len() == before.len() + 1
        &&& after.drop_last() == before
        &&& after.last().url@ == url
        &&& after.last().until == hence
    }
}

/// Whether some assignment holds `p`.
pub open spec fn is_covered(assignments: Seq<RelayAssignment>, p: PublicKey) -> bool {
    exists|i: int|
        0 <= i < assignments.len() && (#[trigger] assignments[i]).pubkeys@.contains(p)
}

/// The counts without the entry of `p`.
pub open spec fn counts_without(counts: Seq<PubkeyCount>, p: PublicKey) -> Seq<PubkeyCount> {
    if has_count(counts, p) {
        counts.remove(choose|i: int| 0 <= i < counts.len() && (#[trigger] counts[i]).pubkey == p)
    } else {
        counts
    }
}

/// Whether `after` is `before` with `p` taken out of every assignment.
pub open spec fn unassigned(
    before: Seq<RelayAssignment>,
    after: Seq<RelayAssignment>,
    p: PublicKey,
) -> bool {
    &&& after.len() == before.len()
    &&& forall|i: int|
        0 <= i < before.len() ==> (#[trigger] after[i]).relay_url == before[i].relay_url
            && after[i].pubkeys@ == before[i].pubkeys@.remove_value(p)
}

/// The lists of scores with the list `e` put in: in the place of the list
/// that the same identity had, or at the end.
pub open spec fn scores_put(acc: Seq<PersonScores>, e: PersonScores) -> Seq<PersonScores> {
    if has_scores(acc, e.pubkey) {
        acc.update(
            choose|i: int| 0 <= i < acc.len() && (#[trigger] acc[i]).pubkey == e.pubkey,
            e,
        )
    } else {
        acc.push(e)
    }
}

/// The lists of scores with each of `es` put in, in their order.
pub open spec fn scores_put_all(acc: Seq<PersonScores>, es: Seq<PersonScores>) -> Seq<PersonScores>
    decreases es.len(),
{
    if es.len() == 0 {
        acc
    } else {
        scores_put(scores_put_all(acc, es.drop_last()), es.last())
    }
}

/// The counts with the count of `p` set to `n`.
pub open spec fn count_put(acc: Seq<PubkeyCount>, p: PublicKey, n: u8) -> Seq<PubkeyCount> {
    if has_count(acc, p) {
        acc.update(
            choose|i: int| 0 <= i < acc.len() && (#[trigger] acc[i]).pubkey == p,
            PubkeyCount { pubkey: p, count: n },
        )
    } else {
        acc.push(PubkeyCount { pubkey: p, count: n })
    }
}

/// The counts with the count of each identity of `es` set to `n`.
pub open spec fn counts_put_all(acc: Seq<PubkeyCount>, es: Seq<PersonScores>, n: u8) -> Seq<
    PubkeyCount,
>
    decreases es.len(),
{
    if es.len() == 0 {
        acc
    } else {
        count_put(counts_put_all(acc, es.drop_last(), n), es.last().pubkey, n)
    }
}

/// Whether a relay with the URL `url` is known.
pub open spec fn has_relay(relays: Seq<Relay>, url: Seq<char>) -> bool {
    exists|i: int| 0 <= i < relays.len() && (#[trigger] relays[i]).url@ == url
}

/// The relays with `relay` put in: in the place of the relay of the same
/// URL, or at the end.
pub open spec fn relay_put(relays: Seq<Relay>, relay: Relay) -> Seq<Relay> {
    if has_relay(relays, relay.url@) {
        relays.update(
            choose|i: int| 0 <= i < relays.len() && (#[trigger] relays[i]).url@ == relay.url@,
            relay,
        )
    } else {
        relays.push(relay)
    }
}

/// The relays with each of `more` put in, in their order.
pub open spec fn relays_put_all(relays: Seq<Relay>, more: Seq<Relay>) -> Seq<Relay>
    decreases more.len(),
{
    if more.len() == 0 {
        relays
    } else {
        relay_put(relays_put_all(relays, more.drop_last()), more.last())
    }
}

/// The planner's state.
pub struct PickerState {
    /// Every relay that might be used, each once.
    pub all_relays: Seq<Relay>,
    /// The relays that are connected.
    pub connected: Seq<RelayUrl>,
    /// Which relay covers which identities; at most one entry per relay.
    pub assignments: Seq<RelayAssignment>,
    /// The relays that are not to be picked for now.
    pub excluded: Seq<Exclusion>,
    /// The identities that still seek relays.
    pub counts: Seq<PubkeyCount>,
    /// For each followed identity, its relays.
    pub scores: Seq<PersonScores>,
    /// How many relays each identity is to be covered by.
    pub num_relays_per_person: u8,
    /// How many relays may hold assignments.
    pub max_relays: usize,
}

impl PickerState {
    /// Each collection holds each key once, and no assignment holds an
    /// identity twice.
    pub open spec fn wf(self) -> bool {
        &&& distinct_relays(self.all_relays)
        &&& distinct_urls(self.connected)
        &&& distinct_assignments(self.assignments)
        &&& forall|i: int|
            0 <= i < self.assignments.len() ==> (
            #[trigger] self.assignments[i]).pubkeys@.no_duplicates()
        &&& distinct_exclusions(self.excluded)
        &&& distinct_counts(self.counts)
        &&& distinct_people(self.scores)
    }

    /// Whether as many relays hold assignments as may.
    pub open spec fn at_cap(self) -> bool {
        self.assignments.len() >= self.max_relays
    }

    /// Whether the relay `url` may be picked: it is not excluded, and where
    /// the cap is reached it is connected already.
    pub open spec fn eligible(self, url: Seq<char>) -> bool {
        !is_excluded(self.excluded, url) && (self.at_cap() ==> has_url(self.connected, url))
    }

    /// The score of the relay `url` before its weight is applied.
    pub open spec fn raw_score(self, url: Seq<char>) -> nat {
        if self.eligible(url) {
            people_sum(self.counts, self.assignments, self.scores, url)
        } else {
            0
        }
    }

    /// The score of the `i`-th relay.
    pub open spec fn score(self, i: int) -> nat {
        capped(self.raw_score(self.all_relays[i].url@) * (self.all_relays[i].multiplier() as nat))
    }

    /// Whether the `w`-th relay wins: none scores higher, and of those that
    /// score as high it is the last.
    pub open spec fn is_winner(self, w: int) -> bool {
        &&& 0 <= w < self.all_relays.len()
        &&& forall|j: int| 0 <= j < self.all_relays.len() ==> self.score(j) <= self.score(w)
        &&& forall|j: int| w < j < self.all_relays.len() ==> self.score(j) < self.score(w)
    }

    /// The relay that wins.
    pub open spec fn winner(self) -> int {
        choose|w: int| self.is_winner(w)
    }

    /// The URL of the relay that wins.
    pub open spec fn winner_url(self) -> Seq<char> {
        self.all_relays[self.winner()].url@
    }

    /// Whether a pick gets anywhere: the winner has a score. It then
    /// covers someone.
    pub open spec fn can_progress(self) -> bool {
        self.score(self.winner()) > 0
    }

    /// Why a pick fails in this state, if it does.
    pub open spec fn pick_failure(self) -> Option<RelayPickFailure> {
        if self.counts.len() == 0 {
            Some(RelayPickFailure::NoPeopleLeft)
        } else if self.all_relays.len() == 0 {
            Some(RelayPickFailure::NoRelays)
        } else if !self.can_progress() {
            Some(RelayPickFailure::NoProgress)
        } else {
            None
        }
    }

    /// Whether `after` is this state after the pick of its winner: the
    /// covered identities seek one relay fewer and are assigned to the
    /// winner, and nothing else has changed.
    pub open spec fn picked(self, after: PickerState) -> bool {
        let url = self.winner_url();
        &&& after.all_relays == self.all_relays
        &&& after.connected == self.connected
        &&& after.excluded == self.excluded
        &&& after.scores == self.scores
        &&& after.num_relays_per_person == self.num_relays_per_person
        &&& after.max_relays == self.max_relays
        &&& after.counts == counts_after_pick(self.assignments, self.scores, self.counts, url)
        &&& installed(self.assignments, after.assignments, url, self.covered(url))
    }

    /// Whether `after` is this state after a pick at the time `now` that
    /// returned a relay.
    pub open spec fn pick_succeeded(self, after: PickerState, now: i64) -> bool {
        self.pruned(now).pick_failure() is None && self.pruned(now).picked(after)
    }

    /// The state with the exclusions that have run out at `now` removed.
    pub open spec fn pruned(self, now: i64) -> PickerState {
        PickerState { excluded: live_exclusions(self.excluded, now), ..self }
    }

    /// The identities that a pick of the relay `url` covers.
    pub open spec fn covered(self, url: Seq<char>) -> Seq<PublicKey> {
        covered_keys(self.assignments, self.scores, self.counts, url)
    }

    /// Whether `after` is this state after the relay `url` has disconnected
    /// at the time `now` and is to be left alone for `seconds`: its
    /// assignment is gone, each identity it covered seeks one relay more,
    /// and the relay is excluded until then.
    pub open spec fn disconnected(self, after: PickerState, url: Seq<char>, seconds: u64, now: i64) -> bool {
        &&& after.all_relays == self.all_relays
        &&& after.connected == self.connected
        &&& after.scores == self.scores
        &&& after.num_relays_per_person == self.num_relays_per_person
        &&& after.max_relays == self.max_relays
        &&& uninstalled(self.assignments, after.assignments, url)
        &&& after.counts == counts_returned(
            self.counts,
            assigned_keys(self.assignments, url),
            self.num_relays_per_person,
        )
        &&& excluded_more(self.excluded, after.excluded, url, time_after(now, seconds))
    }

    /// No identity is covered by more relays, together with those it still
    /// seeks, than each identity is to have.
    pub open spec fn within_budget(self) -> bool {
        forall|p: PublicKey|
            #![trigger count_of(self.counts, p)]
            #![trigger covering(self.assignments, p)]
            count_of(self.counts, p) + covering(self.assignments, p) <= self.num_relays_per_person
    }

    /// Every followed identity still seeks a relay or is covered by one.
    pub open spec fn everyone_accounted_for(self) -> bool {
        forall|i: int|
            0 <= i < self.scores.len() ==> count_of(self.counts, (#[trigger] self.scores[i]).pubkey)
                > 0 || covering(self.assignments, self.scores[i].pubkey) > 0
    }
}

} // verus!
