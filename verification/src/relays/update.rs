//! What changes the planner's state between picks.

use vstd::prelude::*;
use crate::keys::PublicKey;
use crate::url::RelayUrl;
use crate::relays::RelayAssignment;
use crate::relays::lookup::{find_assignment, find_count, find_exclusion, find_person};
use crate::relays::model::{
    assigned_keys, count_put, count_returned, counts_put_all, counts_returned, counts_without,
    distinct_assignments, distinct_counts, distinct_people, has_assignment, has_count, has_scores,
    is_covered, is_excluded, scores_put, scores_put_all, time_after, unassigned, Exclusion,
    PersonScores, PickerState, PubkeyCount,
};
use crate::relays::tracker::RelayTracker;

verus! {

/// For how many seconds a relay is left alone that was picked and could
/// not be engaged.
pub const ENGAGE_FAILED_SECONDS: u64 = 120;

/// The time `seconds` after `now`, or the last time there is.
pub fn later(now: i64, seconds: u64) -> (r: i64)
    ensures
        r == time_after(now, seconds),
{
    let sum: i128 = now as i128 + seconds as i128;
    if sum > i64::MAX as i128 {
        i64::MAX
    } else {
        sum as i64
    }
}

/// Giving a relay back to an identity keeps each identity counted once.
pub proof fn lemma_count_returned(counts: Seq<PubkeyCount>, p: PublicKey, cap: u8)
    requires
        distinct_counts(counts),
    ensures
        distinct_counts(count_returned(counts, p, cap)),
{
    let after = count_returned(counts, p, cap);
    if has_count(counts, p) {
        let i = choose|i: int| 0 <= i < counts.len() && (#[trigger] counts[i]).pubkey == p;
        assert forall|a: int, b: int|
            0 <= a < after.len() && 0 <= b < after.len() && a != b implies (
        #[trigger] after[a]).pubkey != (#[trigger] after[b]).pubkey by {
            assert(after[a].pubkey == counts[a].pubkey);
            assert(after[b].pubkey == counts[b].pubkey);
        }
    } else {
        assert forall|a: int, b: int|
            0 <= a < after.len() && 0 <= b < after.len() && a != b implies (
        #[trigger] after[a]).pubkey != (#[trigger] after[b]).pubkey by {
            if a < counts.len() {
                assert(after[a] == counts[a]);
            }
            if b < counts.len() {
                assert(after[b] == counts[b]);
            }
        }
    }
}

/// Setting a count keeps each identity counted once.
pub proof fn lemma_count_put(counts: Seq<PubkeyCount>, p: PublicKey, n: u8)
    requires
        distinct_counts(counts),
    ensures
        distinct_counts(count_put(counts, p, n)),
{
    let after = count_put(counts, p, n);
    if has_count(counts, p) {
        assert forall|a: int, b: int|
            0 <= a < after.len() && 0 <= b < after.len() && a != b implies (
        #[trigger] after[a]).pubkey != (#[trigger] after[b]).pubkey by {
            assert(after[a].pubkey == counts[a].pubkey);
            assert(after[b].pubkey == counts[b].pubkey);
        }
    } else {
        assert forall|a: int, b: int|
            0 <= a < after.len() && 0 <= b < after.len() && a != b implies (
        #[trigger] after[a]).pubkey != (#[trigger] after[b]).pubkey by {
            if a < counts.len() {
                assert(after[a] == counts[a]);
            }
            if b < counts.len() {
                assert(after[b] == counts[b]);
            }
        }
    }
}

/// Putting a list of scores in keeps each identity listed once.
pub proof fn lemma_scores_put(scores: Seq<PersonScores>, e: PersonScores)
    requires
        distinct_people(scores),
    ensures
        distinct_people(scores_put(scores, e)),
{
    let after = scores_put(scores, e);
    if has_scores(scores, e.pubkey) {
        assert forall|a: int, b: int|
            0 <= a < after.len() && 0 <= b < after.len() && a != b implies (
        #[trigger] after[a]).pubkey != (#[trigger] after[b]).pubkey by {
            assert(after[a].pubkey == scores[a].pubkey);
            assert(after[b].pubkey == scores[b].pubkey);
        }
    } else {
        assert forall|a: int, b: int|
            0 <= a < after.len() && 0 <= b < after.len() && a != b implies (
        #[trigger] after[a]).pubkey != (#[trigger] after[b]).pubkey by {
            if a < scores.len() {
                assert(after[a] == scores[a]);
            }
            if b < scores.len() {
                assert(after[b] == scores[b]);
            }
        }
    }
}

/// Sets the count of `p` to `n`.
fn put_count(counts: &mut Vec<PubkeyCount>, p: PublicKey, n: u8)
    requires
        distinct_counts(old(counts)@),
    ensures
        final(counts)@ == count_put(old(counts)@, p, n),
        distinct_counts(final(counts)@),
{
    proof {
        lemma_count_put(counts@, p, n);
    }
    match find_count(counts, p) {
        Some(i) => {
            let ghost chosen = choose|c: int|
                0 <= c < counts@.len() && (#[trigger] counts@[c]).pubkey == p;
            assert(counts@[i as int].pubkey == p);
            assert(chosen == i);
            counts.set(i, PubkeyCount { pubkey: p, count: n });
        },
        None => {
            counts.push(PubkeyCount { pubkey: p, count: n });
        },
    }
}

/// Puts the list of scores `e` in.
fn put_scores(scores: &mut Vec<PersonScores>, e: PersonScores)
    requires
        distinct_people(old(scores)@),
    ensures
        final(scores)@ == scores_put(old(scores)@, e),
        distinct_people(final(scores)@),
{
    proof {
        lemma_scores_put(scores@, e);
    }
    match find_person(scores, e.pubkey) {
        Some(i) => {
            let ghost chosen = choose|c: int|
                0 <= c < scores@.len() && (#[trigger] scores@[c]).pubkey == e.pubkey;
            assert(scores@[i as int].pubkey == e.pubkey);
            assert(chosen == i);
            scores.set(i, e);
        },
        None => {
            scores.push(e);
        },
    }
}

/// The place of `p` in `keys`.
fn position_of(keys: &Vec<PublicKey>, p: PublicKey) -> (r: Option<usize>)
    ensures
        match r {
            Some(i) => keys@.index_of_first(p) == Some(i as int) && i < keys.len(),
            None => keys@.index_of_first(p) is None,
        },
{
    let mut i: usize = 0;
    while i < keys.len()
        invariant
            i <= keys.len(),
            forall|j: int| 0 <= j < i ==> keys@[j] != p,
        decreases keys.len() - i,
    {
        if keys[i] == p {
            proof {
                keys@.index_of_first_ensures(p);
                assert(keys@.contains(p));
                let first = keys@.index_of_first(p).unwrap();
                if first < i {
                    assert(keys@[first] != p);
                }
                if i < first {
                    assert(keys@[i as int] != p);
                }
            }
            return Some(i);
        }
        i += 1;
    }
    proof {
        keys@.index_of_first_ensures(p);
    }
    None
}

impl RelayTracker {
    /// Gives each of `keys` one relay back to seek.
    pub(crate) fn give_back(&mut self, keys: &Vec<PublicKey>)
        requires
            old(self)@.wf(),
        ensures
            final(self)@.wf(),
            final(self)@ == (PickerState {
                counts: counts_returned(old(self)@.counts, keys@, old(self)@.num_relays_per_person),
                ..old(self)@
            }),
    {
        let cap = self.num_relays_per_person;
        let mut j: usize = 0;
        assert(keys@.take(0) =~= Seq::empty());
        while j < keys.len()
            invariant
                j <= keys.len(),
                cap == old(self)@.num_relays_per_person,
                self@.wf(),
                self@ == (PickerState {
                    counts: counts_returned(old(self)@.counts, keys@.take(j as int), cap),
                    ..old(self)@
                }),
            decreases keys.len() - j,
        {
            let p = keys[j];
            assert(keys@.take(j + 1).drop_last() =~= keys@.take(j as int));
            proof {
                lemma_count_returned(self@.counts, p, cap);
            }
            match find_count(&self.pubkey_counts, p) {
                Some(i) => {
                    let ghost chosen = choose|c: int|
                        0 <= c < self@.counts.len() && (#[trigger] self@.counts[c]).pubkey == p;
                    assert(self@.counts[i as int].pubkey == p);
                    assert(chosen == i);
                    let c = self.pubkey_counts[i].count;
                    let more: u8 = if c < cap {
                        c + 1
                    } else {
                        cap
                    };
                    self.pubkey_counts.set(i, PubkeyCount { pubkey: p, count: more });
                },
                None => {
                    let first: u8 = if cap > 0 {
                        1
                    } else {
                        0
                    };
                    self.pubkey_counts.push(PubkeyCount { pubkey: p, count: first });
                },
            }
            j += 1;
        }
        assert(keys@.take(j as int) =~= keys@);
    }

    /// Excludes the relay `url` until `hence`, or leaves it excluded until
    /// later than that.
    fn exclude_until(&mut self, url: &RelayUrl, hence: i64)
        requires
            old(self)@.wf(),
        ensures
            final(self)@.wf(),
            final(self)@ == (PickerState { excluded: final(self)@.excluded, ..old(self)@ }),
            crate::relays::model::excluded_more(
                old(self)@.excluded,
                final(self)@.excluded,
                url@,
                hence,
            ),
    {
        let ghost before = self.excluded_relays@;
        match find_exclusion(&self.excluded_relays, url) {
            Some(i) => {
                assert(before[i as int].url@ == url@);
                if self.excluded_relays[i].until < hence {
                    self.excluded_relays.set(i, Exclusion { url: url.clone(), until: hence });
                }
                proof {
                    let after = self.excluded_relays@;
                    assert forall|a: int, b: int|
                        0 <= a < after.len() && 0 <= b < after.len() && a != b implies (
                    #[trigger] after[a]).url@ != (#[trigger] after[b]).url@ by {
                        assert(after[a].url@ == before[a].url@);
                        assert(after[b].url@ == before[b].url@);
                    }
                    assert forall|k: int| 0 <= k < before.len() && before[k].url@ == url@ implies (
                    #[trigger] after[k]).url@ == url@ && after[k].until == if before[k].until
                        > hence {
                        before[k].until
                    } else {
                        hence
                    } by {
                        assert(before[k].url@ == before[i as int].url@);
                        assert(k == i);
                    }
                }
            },
            None => {
                self.excluded_relays.push(Exclusion { url: url.clone(), until: hence });
                proof {
                    let after = self.excluded_relays@;
                    assert(after.drop_last() =~= before);
                    assert forall|a: int, b: int|
                        0 <= a < after.len() && 0 <= b < after.len() && a != b implies (
                    #[trigger] after[a]).url@ != (#[trigger] after[b]).url@ by {
                        if a < before.len() {
                            assert(after[a] == before[a]);
                        }
                        if b < before.len() {
                            assert(after[b] == before[b]);
                        }
                    }
                }
            },
        }
    }

    /// To be called when the relay `url` has disconnected at the time
    /// `now`: what it was assigned is free to be assigned again, and the
    /// relay is not picked for the next `seconds` seconds, nor before the
    /// end of an exclusion that it already had. Pick again afterwards.
    pub fn relay_disconnected(&mut self, url: &RelayUrl, seconds: u64, now: i64)
        requires
            old(self)@.wf(),
        ensures
            final(self)@.wf(),
            old(self)@.disconnected(final(self)@, url@, seconds, now),
            old(self)@.within_budget() ==> final(self)@.within_budget(),
            old(self)@.everyone_accounted_for() && old(self)@.num_relays_per_person >= 1 ==> final(self)@.everyone_accounted_for(),
    {
        proof {
            assert forall|after: PickerState| #[trigger]
                old(self)@.disconnected(after, url@, seconds, now) implies (old(self)@.within_budget() ==> after.within_budget()) && (old(self)@.everyone_accounted_for()
                && old(self)@.num_relays_per_person >= 1 ==> after.everyone_accounted_for()) by {
                if old(self)@.within_budget() {
                    crate::relays::laws::lemma_disconnect_keeps_budget(
                        old(self)@,
                        after,
                        url@,
                        seconds,
                        now,
                    );
                }
                if old(self)@.everyone_accounted_for() && old(self)@.num_relays_per_person >= 1 {
                    crate::relays::laws::lemma_disconnect_keeps_everyone_accounted_for(
                        old(self)@,
                        after,
                        url@,
                        seconds,
                        now,
                    );
                }
            }
        }
        let hence = later(now, seconds);
        self.exclude_until(url, hence);
        let ghost before = self.relay_assignments@;
        match find_assignment(&self.relay_assignments, url) {
            Some(k) => {
                let a = self.relay_assignments.remove(k);
                proof {
                    let after = self.relay_assignments@;
                    assert(before[k as int].relay_url@ == url@);
                    let chosen = choose|c: int|
                        0 <= c < before.len() && (#[trigger] before[c]).relay_url@ == url@;
                    assert(chosen == k);
                    assert(distinct_assignments(after)) by {
                        assert forall|i: int, j: int|
                            0 <= i < after.len() && 0 <= j < after.len() && i != j implies (
                        #[trigger] after[i]).relay_url@ != (#[trigger] after[j]).relay_url@ by {
                            let i0 = if i < k {
                                i
                            } else {
                                i + 1
                            };
                            let j0 = if j < k {
                                j
                            } else {
                                j + 1
                            };
                            assert(after[i] == before[i0]);
                            assert(after[j] == before[j0]);
                        }
                    }
                    assert forall|i: int| 0 <= i < after.len() implies (
                    #[trigger] after[i]).pubkeys@.no_duplicates() by {
                        let i0 = if i < k {
                            i
                        } else {
                            i + 1
                        };
                        assert(after[i] == before[i0]);
                    }
                }
                self.give_back(&a.pubkeys);
            },
            None => {
                assert(!has_assignment(before, url@));
            },
        }
    }

    /// To be called when the relay `url`, picked a moment ago, could not be
    /// engaged at the time `now`: it counts as disconnected, and is left
    /// alone for two minutes.
    pub fn engage_failed(&mut self, url: &RelayUrl, now: i64)
        requires
            old(self)@.wf(),
        ensures
            final(self)@.wf(),
            old(self)@.disconnected(final(self)@, url@, ENGAGE_FAILED_SECONDS, now),
    {
        self.relay_disconnected(url, ENGAGE_FAILED_SECONDS, now);
    }

    /// Starts to follow `pubkey`: it seeks as many relays as each identity
    /// is to have. Nothing changes if it is counted already, or covered by
    /// a relay.
    pub fn add_someone(&mut self, pubkey: PublicKey)
        requires
            old(self)@.wf(),
        ensures
            final(self)@.wf(),
            final(self)@ == (PickerState {
                counts: if has_count(old(self)@.counts, pubkey) || is_covered(
                    old(self)@.assignments,
                    pubkey,
                ) {
                    old(self)@.counts
                } else {
                    old(self)@.counts.push(
                        PubkeyCount { pubkey, count: old(self)@.num_relays_per_person },
                    )
                },
                ..old(self)@
            }),
    {
        if find_count(&self.pubkey_counts, pubkey).is_some() {
            return ;
        }
        let mut i: usize = 0;
        while i < self.relay_assignments.len()
            invariant
                i <= self.relay_assignments.len(),
                self@ == old(self)@,
                self@.wf(),
                forall|j: int|
                    0 <= j < i ==> !(#[trigger] self.relay_assignments@[j]).pubkeys@.contains(
                        pubkey,
                    ),
            decreases self.relay_assignments.len() - i,
        {
            if crate::keys::contains_key(&self.relay_assignments[i].pubkeys, pubkey) {
                return ;
            }
            i += 1;
        }
        let ghost before = self.pubkey_counts@;
        self.pubkey_counts.push(PubkeyCount { pubkey, count: self.num_relays_per_person });
        proof {
            let after = self.pubkey_counts@;
            assert forall|a: int, b: int|
                0 <= a < after.len() && 0 <= b < after.len() && a != b implies (
            #[trigger] after[a]).pubkey != (#[trigger] after[b]).pubkey by {
                if a < before.len() {
                    assert(after[a] == before[a]);
                }
                if b < before.len() {
                    assert(after[b] == before[b]);
                }
            }
        }
    }

    /// Stops following `pubkey`: it seeks no relay any more, and no
    /// assignment holds it. The relays that covered it stay assigned to
    /// the others.
    pub fn remove_someone(&mut self, pubkey: PublicKey)
        requires
            old(self)@.wf(),
        ensures
            final(self)@.wf(),
            final(self)@ == (PickerState {
                counts: counts_without(old(self)@.counts, pubkey),
                assignments: final(self)@.assignments,
                ..old(self)@
            }),
            unassigned(old(self)@.assignments, final(self)@.assignments, pubkey),
    {
        match find_count(&self.pubkey_counts, pubkey) {
            Some(i) => {
                let ghost before = self.pubkey_counts@;
                let ghost chosen = choose|c: int|
                    0 <= c < before.len() && (#[trigger] before[c]).pubkey == pubkey;
                assert(before[i as int].pubkey == pubkey);
                assert(chosen == i);
                let _ = self.pubkey_counts.remove(i);
                proof {
                    let after = self.pubkey_counts@;
                    assert forall|a: int, b: int|
                        0 <= a < after.len() && 0 <= b < after.len() && a != b implies (
                    #[trigger] after[a]).pubkey != (#[trigger] after[b]).pubkey by {
                        let a0 = if a < i {
                            a
                        } else {
                            a + 1
                        };
                        let b0 = if b < i {
                            b
                        } else {
                            b + 1
                        };
                        assert(after[a] == before[a0]);
                        assert(after[b] == before[b0]);
                    }
                }
            },
            None => {},
        }
        let ghost start = self.relay_assignments@;
        let mut k: usize = 0;
        while k < self.relay_assignments.len()
            invariant
                k <= self.relay_assignments.len(),
                old(self)@.wf(),
                start == old(self)@.assignments,
                self.relay_assignments@.len() == start.len(),
                self@ == (PickerState {
                    counts: counts_without(old(self)@.counts, pubkey),
                    assignments: self.relay_assignments@,
                    ..old(self)@
                }),
                distinct_counts(self@.counts),
                forall|i: int|
                    0 <= i < k ==> (#[trigger] self.relay_assignments@[i]).relay_url
                        == start[i].relay_url && self.relay_assignments@[i].pubkeys@
                        == start[i].pubkeys@.remove_value(pubkey),
                forall|i: int|
                    k <= i < start.len() ==> (#[trigger] self.relay_assignments@[i]) == start[i],
                forall|i: int|
                    0 <= i < start.len() ==> (#[trigger] self.relay_assignments@[i]).relay_url@
                        == start[i].relay_url@ && self.relay_assignments@[i].pubkeys@.no_duplicates(),
            decreases self.relay_assignments.len() - k,
        {
            let ghost now = self.relay_assignments@;
            match position_of(&self.relay_assignments[k].pubkeys, pubkey) {
                Some(pos) => {
                    let mut a = self.relay_assignments.remove(k);
                    let ghost held = a.pubkeys@;
                    let _ = a.pubkeys.remove(pos);
                    proof {
                        assert(held == start[k as int].pubkeys@);
                        assert(a.pubkeys@ == held.remove_value(pubkey));
                        assert(held.no_duplicates());
                        assert(a.pubkeys@.no_duplicates()) by {
                            assert forall|x: int, y: int|
                                0 <= x < a.pubkeys@.len() && 0 <= y < a.pubkeys@.len() && x
                                    != y implies a.pubkeys@[x] != a.pubkeys@[y] by {
                                let x0 = if x < pos {
                                    x
                                } else {
                                    x + 1
                                };
                                let y0 = if y < pos {
                                    y
                                } else {
                                    y + 1
                                };
                                assert(a.pubkeys@[x] == held[x0]);
                                assert(a.pubkeys@[y] == held[y0]);
                            }
                        }
                    }
                    self.relay_assignments.insert(k, a);
                    proof {
                        let after = self.relay_assignments@;
                        assert forall|i: int| 0 <= i < start.len() && i != k implies (
                        #[trigger] after[i]) == now[i] by {}
                    }
                },
                None => {
                    assert(start[k as int].pubkeys@.remove_value(pubkey) == start[k as int].pubkeys@);
                },
            }
            k += 1;
        }
        proof {
            let after = self.relay_assignments@;
            assert forall|i: int, j: int|
                0 <= i < after.len() && 0 <= j < after.len() && i != j implies (
            #[trigger] after[i]).relay_url@ != (#[trigger] after[j]).relay_url@ by {
                assert(after[i].relay_url@ == start[i].relay_url@);
                assert(after[j].relay_url@ == start[j].relay_url@);
            }
        }
    }

    /// Takes the followed identities and their relays anew. With
    /// `initialize_counts` each of them seeks as many relays as each
    /// identity is to have, and nobody else seeks any; without it the
    /// counts stay. Where an identity comes twice its later list stands.
    pub fn refresh_person_relay_scores(
        &mut self,
        followed: Vec<PersonScores>,
        initialize_counts: bool,
    )
        requires
            old(self)@.wf(),
        ensures
            final(self)@.wf(),
            final(self)@ == (PickerState {
                scores: scores_put_all(Seq::empty(), followed@),
                counts: if initialize_counts {
                    counts_put_all(Seq::empty(), followed@, old(self)@.num_relays_per_person)
                } else {
                    old(self)@.counts
                },
                ..old(self)@
            }),
    {
        let mut followed = followed;
        let ghost all = followed@;
        self.person_relay_scores = Vec::new();
        if initialize_counts {
            self.pubkey_counts = Vec::new();
        }
        let n = self.num_relays_per_person;
        let ghost mut done: int = 0;
        assert(all.take(0) =~= Seq::empty());
        assert(all.skip(0) =~= all);
        while followed.len() > 0
            invariant
                0 <= done <= all.len(),
                followed@ == all.skip(done),
                n == old(self)@.num_relays_per_person,
                distinct_people(self.person_relay_scores@),
                distinct_counts(self.pubkey_counts@),
                self@ == (PickerState {
                    scores: scores_put_all(Seq::empty(), all.take(done)),
                    counts: if initialize_counts {
                        counts_put_all(Seq::empty(), all.take(done), n)
                    } else {
                        old(self)@.counts
                    },
                    ..old(self)@
                }),
            decreases followed.len(),
        {
            let e = followed.remove(0);
            proof {
                assert(e == all[done]);
                assert(all.take(done + 1).drop_last() =~= all.take(done));
                assert(all.take(done + 1).last() == all[done]);
                assert(all.skip(done).remove(0) =~= all.skip(done + 1));
                done = done + 1;
            }
            if initialize_counts {
                put_count(&mut self.pubkey_counts, e.pubkey, n);
            }
            put_scores(&mut self.person_relay_scores, e);
        }
        assert(all.take(done) =~= all);
    }
}

} // verus!
