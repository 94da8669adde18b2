//! One pick: the relay to engage next, and the identities it covers.

use vstd::prelude::*;
use crate::keys::{contains_key, PublicKey};
use crate::url::{contains_url, has_url, RelayUrl};
use crate::relays::{RelayAssignment, RelayPickFailure};
use crate::relays::lookup::{find_assignment, find_count, find_exclusion, on_list};
use crate::relays::model::{
    capped, contribution, count_of, counts_after_pick, covered_keys, covers, distinct_assignments,
    distinct_counts, distinct_exclusions, entry_sum, has_assignment, has_count, installed,
    is_assigned, is_excluded, live_exclusions, names_relay, people_sum, Exclusion, PersonScores,
    PickerState, PubkeyCount, RelayScore,
};
use crate::relays::tracker::RelayTracker;

verus! {

/// The live exclusions are the exclusions that end at `now` or later, and
/// none is there twice if none was.
pub proof fn lemma_live_exclusions(excluded: Seq<Exclusion>, now: i64)
    ensures
        forall|e: Exclusion|
            #![trigger live_exclusions(excluded, now).contains(e)]
            #![trigger excluded.contains(e)]
            live_exclusions(excluded, now).contains(e) <==> excluded.contains(e) && e.until >= now,
        distinct_exclusions(excluded) ==> distinct_exclusions(live_exclusions(excluded, now)),
    decreases excluded.len(),
{
    let live = live_exclusions(excluded, now);
    if excluded.len() > 0 {
        let rest = excluded.drop_last();
        let last = excluded.last();
        lemma_live_exclusions(rest, now);
        let live_rest = live_exclusions(rest, now);
        assert forall|e: Exclusion|
            #![trigger live.contains(e)]
            #![trigger excluded.contains(e)]
            live.contains(e) <==> excluded.contains(e) && e.until >= now by {
            if live.contains(e) {
                let j = choose|j: int| 0 <= j < live.len() && live[j] == e;
                if j < live_rest.len() {
                    assert(live_rest[j] == e);
                    assert(live_rest.contains(e));
                    let k = choose|k: int| 0 <= k < rest.len() && rest[k] == e;
                    assert(excluded[k] == e);
                } else {
                    assert(excluded[excluded.len() - 1] == e);
                }
            }
            if excluded.contains(e) && e.until >= now {
                let k = choose|k: int| 0 <= k < excluded.len() && excluded[k] == e;
                if k < rest.len() {
                    assert(rest[k] == e);
                    assert(rest.contains(e));
                    let j = choose|j: int| 0 <= j < live_rest.len() && live_rest[j] == e;
                    assert(live[j] == e);
                } else {
                    assert(live[live.len() - 1] == e);
                }
            }
        }
        if distinct_exclusions(excluded) {
            assert(distinct_exclusions(rest)) by {
                assert forall|i: int, j: int|
                    0 <= i < rest.len() && 0 <= j < rest.len() && i != j implies (
                #[trigger] rest[i]).url@ != (#[trigger] rest[j]).url@ by {
                    assert(rest[i] == excluded[i]);
                    assert(rest[j] == excluded[j]);
                }
            }
            assert forall|i: int, j: int|
                0 <= i < live.len() && 0 <= j < live.len() && i != j implies (
            #[trigger] live[i]).url@ != (#[trigger] live[j]).url@ by {
                if i < live_rest.len() && j < live_rest.len() {
                    assert(live[i] == live_rest[i]);
                    assert(live[j] == live_rest[j]);
                } else {
                    let (inner, outer) = if i < live_rest.len() {
                        (i, j)
                    } else {
                        (j, i)
                    };
                    assert(live[inner] == live_rest[inner]);
                    assert(live_rest.contains(live_rest[inner]));
                    assert(rest.contains(live_rest[inner]));
                    let k = choose|k: int| 0 <= k < rest.len() && rest[k] == live_rest[inner];
                    assert(excluded[k] == live[inner]);
                    assert(live[outer] == excluded[excluded.len() - 1]);
                }
            }
        }
    }
}

/// The exclusions that have not run out at the time `now`.
pub fn prune_exclusions(excluded: &Vec<Exclusion>, now: i64) -> (r: Vec<Exclusion>)
    ensures
        r@ == live_exclusions(excluded@, now),
{
    let mut out: Vec<Exclusion> = Vec::new();
    let mut i: usize = 0;
    assert(excluded@.take(0) =~= Seq::empty());
    while i < excluded.len()
        invariant
            i <= excluded.len(),
            out@ == live_exclusions(excluded@.take(i as int), now),
        decreases excluded.len() - i,
    {
        assert(excluded@.take(i + 1).drop_last() =~= excluded@.take(i as int));
        if excluded[i].until >= now {
            out.push(excluded[i].clone());
        }
        i += 1;
    }
    assert(excluded@.take(i as int) =~= excluded@);
    out
}

/// The sum of two capped numbers, capped, is the cap of the sum.
pub proof fn lemma_capped_add(a: nat, b: nat)
    ensures
        capped(capped(a) + capped(b)) == capped(a + b),
{
}

/// Capping before a multiplication changes nothing after the cap.
pub proof fn lemma_capped_mul(a: nat, m: nat)
    ensures
        capped(capped(a) * m) == capped(a * m),
{
    if a > u64::MAX {
        if m > 0 {
            assert(a * m >= a) by (nonlinear_arith)
                requires
                    m >= 1,
                    a >= 0,
            ;
            assert((u64::MAX as nat) * m >= u64::MAX as nat) by (nonlinear_arith)
                requires
                    m >= 1,
            ;
        } else {
            assert(a * m == 0) by (nonlinear_arith)
                requires
                    m == 0,
            ;
            assert((u64::MAX as nat) * m == 0) by (nonlinear_arith)
                requires
                    m == 0,
            ;
        }
    }
}

/// The sum of the scores that `entries` give the relay `url`, capped.
pub fn entry_total(entries: &Vec<RelayScore>, url: &RelayUrl) -> (r: u64)
    ensures
        r == capped(entry_sum(entries@, url@)),
{
    let mut total: u64 = 0;
    let mut i: usize = 0;
    assert(entries@.take(0) =~= Seq::empty());
    while i < entries.len()
        invariant
            i <= entries.len(),
            total == capped(entry_sum(entries@.take(i as int), url@)),
        decreases entries.len() - i,
    {
        assert(entries@.take(i + 1).drop_last() =~= entries@.take(i as int));
        proof {
            let before = entry_sum(entries@.take(i as int), url@);
            let term: nat = if entries@[i as int].url@ == url@ {
                entries@[i as int].score as nat
            } else {
                0
            };
            lemma_capped_add(before, term);
        }
        if entries[i].url.same_as(url) {
            total = total.saturating_add(entries[i].score);
        }
        i += 1;
    }
    assert(entries@.take(i as int) =~= entries@);
    total
}

/// With each key once, the count of an identity is that of its entry.
pub proof fn lemma_count_at(counts: Seq<PubkeyCount>, i: int)
    requires
        distinct_counts(counts),
        0 <= i < counts.len(),
    ensures
        has_count(counts, counts[i].pubkey),
        count_of(counts, counts[i].pubkey) == counts[i].count,
{
    let p = counts[i].pubkey;
    assert(has_count(counts, p));
    let c = choose|c: int| 0 <= c < counts.len() && (#[trigger] counts[c]).pubkey == p;
    assert(c == i);
}

/// With each relay once, a relay is assigned an identity exactly when its
/// one assignment holds it.
pub proof fn lemma_assigned_at(assignments: Seq<RelayAssignment>, k: int, p: PublicKey)
    requires
        distinct_assignments(assignments),
        0 <= k < assignments.len(),
    ensures
        is_assigned(assignments, assignments[k].relay_url@, p) == assignments[k].pubkeys@.contains(
            p,
        ),
{
    let url = assignments[k].relay_url@;
    if is_assigned(assignments, url, p) {
        let i = choose|i: int|
            0 <= i < assignments.len() && (#[trigger] assignments[i]).relay_url@ == url
                && assignments[i].pubkeys@.contains(p);
        assert(i == k);
    }
}

impl RelayTracker {
    /// Whether the relay `url`, whose assignment, if any, stands at `slot`,
    /// is assigned the identity `p`.
    fn slot_holds(&self, slot: Option<usize>, url: &RelayUrl, p: PublicKey) -> (r: bool)
        requires
            self@.wf(),
            match slot {
                Some(k) => k < self@.assignments.len() && self@.assignments[k as int].relay_url@
                    == url@,
                None => !has_assignment(self@.assignments, url@),
            },
        ensures
            r == is_assigned(self@.assignments, url@, p),
    {
        match slot {
            Some(k) => {
                proof {
                    lemma_assigned_at(self@.assignments, k as int, p);
                }
                contains_key(&self.relay_assignments[k].pubkeys, p)
            },
            None => false,
        }
    }

    /// Whether the identity `p` still seeks a relay.
    fn seeks(&self, p: PublicKey) -> (r: bool)
        requires
            self@.wf(),
        ensures
            r == (count_of(self@.counts, p) > 0),
    {
        match find_count(&self.pubkey_counts, p) {
            Some(c) => {
                proof {
                    lemma_count_at(self@.counts, c as int);
                }
                self.pubkey_counts[c].count > 0
            },
            None => false,
        }
    }

    /// The score of the `i`-th relay.
    pub fn relay_score(&self, i: usize) -> (r: u64)
        requires
            self@.wf(),
            i < self@.all_relays.len(),
        ensures
            r == self@.score(i as int),
    {
        let relay = &self.all_relays[i];
        let ghost url = relay.url@;
        let ghost m = relay.multiplier() as nat;
        if find_exclusion(&self.excluded_relays, &relay.url).is_some() {
            assert(self@.raw_score(url) == 0);
            assert(0 * m == 0) by (nonlinear_arith);
            return 0;
        }
        let at_cap = self.relay_assignments.len() >= self.max_relays;
        if at_cap && !contains_url(&self.connected_relays, &relay.url) {
            assert(self@.raw_score(url) == 0);
            assert(0 * m == 0) by (nonlinear_arith);
            return 0;
        }
        assert(self@.eligible(url));
        let slot = find_assignment(&self.relay_assignments, &relay.url);
        let mut total: u64 = 0;
        let mut j: usize = 0;
        assert(self.person_relay_scores@.take(0) =~= Seq::empty());
        while j < self.person_relay_scores.len()
            invariant
                self@.wf(),
                i < self@.all_relays.len(),
                relay == &self.all_relays[i as int],
                url == relay.url@,
                j <= self.person_relay_scores.len(),
                match slot {
                    Some(k) => k < self@.assignments.len() && self@.assignments[k as int].relay_url@
                        == url,
                    None => !has_assignment(self@.assignments, url),
                },
                total == capped(
                    people_sum(
                        self@.counts,
                        self@.assignments,
                        self.person_relay_scores@.take(j as int),
                        url,
                    ),
                ),
            decreases self.person_relay_scores.len() - j,
        {
            let person = &self.person_relay_scores[j];
            assert(self.person_relay_scores@.take(j + 1).drop_last()
                =~= self.person_relay_scores@.take(j as int));
            proof {
                lemma_capped_add(
                    people_sum(
                        self@.counts,
                        self@.assignments,
                        self.person_relay_scores@.take(j as int),
                        url,
                    ),
                    contribution(self@.counts, self@.assignments, *person, url),
                );
            }
            if self.seeks(person.pubkey) && !self.slot_holds(slot, &relay.url, person.pubkey) {
                let e = entry_total(&person.scores, &relay.url);
                total = total.saturating_add(e);
            }
            j += 1;
        }
        assert(self.person_relay_scores@.take(j as int) =~= self.person_relay_scores@);
        let weight = relay.score_multiplier();
        proof {
            lemma_capped_mul(self@.raw_score(url), m);
        }
        match total.checked_mul(weight) {
            Some(v) => v,
            None => u64::MAX,
        }
    }

    /// The relay that wins, and its score.
    fn find_winner(&self) -> (r: (usize, u64))
        requires
            self@.wf(),
            self@.all_relays.len() > 0,
        ensures
            self@.is_winner(r.0 as int),
            r.0 as int == self@.winner(),
            r.1 == self@.score(r.0 as int),
    {
        let mut best: usize = 0;
        let mut best_score: u64 = self.relay_score(0);
        let mut i: usize = 1;
        while i < self.all_relays.len()
            invariant
                self@.wf(),
                1 <= i <= self.all_relays.len(),
                best < i,
                best_score == self@.score(best as int),
                forall|j: int| 0 <= j < i ==> self@.score(j) <= best_score,
                forall|j: int| best < j < i ==> self@.score(j) < best_score,
            decreases self.all_relays.len() - i,
        {
            let s = self.relay_score(i);
            if s >= best_score {
                best = i;
                best_score = s;
            }
            i += 1;
        }
        proof {
            assert(self@.is_winner(best as int));
            lemma_winner_unique(self@, best as int, self@.winner());
        }
        (best, best_score)
    }

    /// The identities that a pick of the relay `url` covers, and the counts
    /// that the pick leaves.
    fn split_covered(&self, url: &RelayUrl) -> (r: (Vec<PublicKey>, Vec<PubkeyCount>))
        requires
            self@.wf(),
        ensures
            r.0@ == covered_keys(self@.assignments, self@.scores, self@.counts, url@),
            r.1@ == counts_after_pick(self@.assignments, self@.scores, self@.counts, url@),
    {
        let slot = find_assignment(&self.relay_assignments, url);
        let mut covered: Vec<PublicKey> = Vec::new();
        let mut left: Vec<PubkeyCount> = Vec::new();
        let mut i: usize = 0;
        assert(self.pubkey_counts@.take(0) =~= Seq::empty());
        while i < self.pubkey_counts.len()
            invariant
                self@.wf(),
                i <= self.pubkey_counts.len(),
                match slot {
                    Some(k) => k < self@.assignments.len() && self@.assignments[k as int].relay_url@
                        == url@,
                    None => !has_assignment(self@.assignments, url@),
                },
                covered@ == covered_keys(
                    self@.assignments,
                    self@.scores,
                    self.pubkey_counts@.take(i as int),
                    url@,
                ),
                left@ == counts_after_pick(
                    self@.assignments,
                    self@.scores,
                    self.pubkey_counts@.take(i as int),
                    url@,
                ),
            decreases self.pubkey_counts.len() - i,
        {
            let c = self.pubkey_counts[i];
            assert(self.pubkey_counts@.take(i + 1).drop_last() =~= self.pubkey_counts@.take(
                i as int,
            ));
            if c.count > 0 && !self.slot_holds(slot, url, c.pubkey) && on_list(
                &self.person_relay_scores,
                c.pubkey,
                url,
            ) {
                covered.push(c.pubkey);
                if c.count > 1 {
                    left.push(PubkeyCount { pubkey: c.pubkey, count: c.count - 1 });
                }
            } else if c.count > 0 {
                left.push(c);
            }
            i += 1;
        }
        assert(self.pubkey_counts@.take(i as int) =~= self.pubkey_counts@);
        (covered, left)
    }

    /// Adds the identities `keys` to the assignment of the relay `url`.
    fn install(&mut self, url: RelayUrl, keys: Vec<PublicKey>)
        requires
            old(self)@.wf(),
            keys@.no_duplicates(),
            forall|p: PublicKey| keys@.contains(p) ==> !is_assigned(old(self)@.assignments, url@, p),
        ensures
            final(self)@.wf(),
            installed(old(self)@.assignments, final(self)@.assignments, url@, keys@),
            final(self)@ == (PickerState { assignments: final(self)@.assignments, ..old(self)@ }),
    {
        match find_assignment(&self.relay_assignments, &url) {
            Some(k) => {
                let ghost before = self.relay_assignments@;
                let ghost added = keys@;
                let mut a = self.relay_assignments.remove(k);
                let mut keys = keys;
                proof {
                    assert(a == before[k as int]);
                    assert(a.pubkeys@.no_duplicates());
                    assert forall|i: int, j: int|
                        0 <= i < a.pubkeys@.len() && 0 <= j < added.len() implies a.pubkeys@[i]
                        != added[j] by {
                        lemma_assigned_at(before, k as int, added[j]);
                        assert(added.contains(added[j]));
                        if a.pubkeys@[i] == added[j] {
                            assert(a.pubkeys@.contains(added[j]));
                        }
                    }
                    vstd::seq_lib::lemma_no_dup_in_concat(a.pubkeys@, added);
                }
                a.pubkeys.append(&mut keys);
                self.relay_assignments.insert(k, a);
                proof {
                    let after = self.relay_assignments@;
                    assert(has_assignment(before, url@));
                    assert forall|i: int| 0 <= i < before.len() implies (
                    #[trigger] after[i]).relay_url@ == before[i].relay_url@ by {}
                    assert(distinct_assignments(after)) by {
                        assert forall|i: int, j: int|
                            0 <= i < after.len() && 0 <= j < after.len() && i != j implies (
                        #[trigger] after[i]).relay_url@ != (#[trigger] after[j]).relay_url@ by {
                            assert(after[i].relay_url@ == before[i].relay_url@);
                            assert(after[j].relay_url@ == before[j].relay_url@);
                        }
                    }
                    assert forall|i: int| 0 <= i < before.len() && before[i].relay_url@
                        == url@ implies (#[trigger] after[i]).pubkeys@ == before[i].pubkeys@
                        + added by {
                        assert(before[i].relay_url@ == before[k as int].relay_url@);
                        assert(i == k);
                    }
                    assert forall|i: int| 0 <= i < after.len() implies (
                    #[trigger] after[i]).pubkeys@.no_duplicates() by {
                        if i != k {
                            assert(after[i] == before[i]);
                        }
                    }
                }
            },
            None => {
                let ghost before = self.relay_assignments@;
                self.relay_assignments.push(RelayAssignment { relay_url: url, pubkeys: keys });
                proof {
                    let after = self.relay_assignments@;
                    assert(after.drop_last() =~= before);
                    assert(!has_assignment(before, url@));
                }
            },
        }
    }

    /// Makes the next assignment and returns the relay that has it. It is
    /// for the caller to make the assignment happen.
    ///
    /// First the exclusions that have run out at `now` are dropped. Then,
    /// if nobody seeks a relay, the pick fails with `NoPeopleLeft`; if no
    /// relay is known, with `NoRelays`. Otherwise every relay is scored,
    /// and the one with the highest score wins, the last of them if
    /// several score alike. If its score is 0 the pick fails with
    /// `NoProgress`. A failed pick changes nothing but the exclusions.
    pub fn pick(&mut self, now: i64) -> (r: Result<RelayUrl, RelayPickFailure>)
        requires
            old(self)@.wf(),
        ensures
            final(self)@.wf(),
            match r {
                Err(f) => old(self)@.pruned(now).pick_failure() == Some(f) && final(self)@ == old(self)@.pruned(now),
                Ok(url) => old(self)@.pick_succeeded(final(self)@, now) && url@ == old(self)@.pruned(now).winner_url(),
            },
            old(self)@.within_budget() ==> final(self)@.within_budget(),
            old(self)@.everyone_accounted_for() ==> final(self)@.everyone_accounted_for(),
    {
        self.excluded_relays = prune_exclusions(&self.excluded_relays, now);
        proof {
            lemma_live_exclusions(old(self)@.excluded, now);
        }
        let ghost s0 = self@;
        assert(s0 == old(self)@.pruned(now));
        if self.pubkey_counts.len() == 0 {
            return Err(RelayPickFailure::NoPeopleLeft);
        }
        if self.all_relays.len() == 0 {
            return Err(RelayPickFailure::NoRelays);
        }
        let (w, score) = self.find_winner();
        if score == 0 {
            return Err(RelayPickFailure::NoProgress);
        }
        let url = self.all_relays[w].url.clone();
        let (covered, left) = self.split_covered(&url);
        proof {
            lemma_positive_score_covers(s0, w as int);
        }
        if covered.len() == 0 {
            return Err(RelayPickFailure::NoProgress);
        }
        proof {
            lemma_covered_keys(s0.assignments, s0.scores, s0.counts, url@);
            lemma_counts_after_pick(s0.assignments, s0.scores, s0.counts, url@);
        }
        self.pubkey_counts = left;
        self.install(url.clone(), covered);
        proof {
            if old(self)@.within_budget() {
                crate::relays::laws::lemma_pick_keeps_budget(old(self)@, self@, now);
            }
            if old(self)@.everyone_accounted_for() {
                crate::relays::laws::lemma_pick_keeps_everyone_accounted_for(
                    old(self)@,
                    self@,
                    now,
                );
            }
        }
        Ok(url)
    }
}

/// A positive sum over entries has an entry for the relay.
pub proof fn lemma_entry_sum_positive(entries: Seq<RelayScore>, url: Seq<char>)
    requires
        entry_sum(entries, url) > 0,
    ensures
        exists|k: int| 0 <= k < entries.len() && (#[trigger] entries[k]).url@ == url,
    decreases entries.len(),
{
    if entries.len() > 0 {
        if entries.last().url@ == url {
            assert(entries[entries.len() - 1].url@ == url);
        } else {
            lemma_entry_sum_positive(entries.drop_last(), url);
            let k = choose|k: int|
                0 <= k < entries.drop_last().len() && (#[trigger] entries.drop_last()[k]).url@
                    == url;
            assert(entries[k].url@ == url);
        }
    }
}

/// A positive sum over people has a person who adds to it.
pub proof fn lemma_people_sum_positive(
    counts: Seq<PubkeyCount>,
    assignments: Seq<RelayAssignment>,
    people: Seq<PersonScores>,
    url: Seq<char>,
)
    requires
        people_sum(counts, assignments, people, url) > 0,
    ensures
        exists|i: int|
            0 <= i < people.len() && contribution(counts, assignments, #[trigger] people[i], url)
                > 0,
    decreases people.len(),
{
    if people.len() > 0 {
        if contribution(counts, assignments, people.last(), url) > 0 {
            assert(contribution(counts, assignments, people[people.len() - 1], url) > 0);
        } else {
            let rest = people.drop_last();
            lemma_people_sum_positive(counts, assignments, rest, url);
            let i = choose|i: int|
                0 <= i < rest.len() && contribution(counts, assignments, #[trigger] rest[i], url)
                    > 0;
            assert(people[i] == rest[i]);
        }
    }
}

/// A relay with a score covers someone.
pub proof fn lemma_positive_score_covers(s: PickerState, w: int)
    requires
        s.wf(),
        0 <= w < s.all_relays.len(),
        s.score(w) > 0,
    ensures
        s.covered(s.all_relays[w].url@).len() > 0,
{
    let url = s.all_relays[w].url@;
    let raw = s.raw_score(url);
    let m = s.all_relays[w].multiplier() as nat;
    assert(raw > 0) by {
        if raw == 0 {
            assert(raw * m == 0) by (nonlinear_arith)
                requires
                    raw == 0,
            ;
        }
    }
    lemma_people_sum_positive(s.counts, s.assignments, s.scores, url);
    let i = choose|i: int|
        0 <= i < s.scores.len() && contribution(s.counts, s.assignments, #[trigger] s.scores[i], url)
            > 0;
    let p = s.scores[i].pubkey;
    lemma_entry_sum_positive(s.scores[i].scores@, url);
    let k = choose|k: int|
        0 <= k < s.scores[i].scores@.len() && (#[trigger] s.scores[i].scores@[k]).url@ == url;
    assert(s.scores[i].scores@[k].url@ == url);
    assert(names_relay(s.scores, p, url));
    assert(has_count(s.counts, p));
    let c = choose|c: int| 0 <= c < s.counts.len() && (#[trigger] s.counts[c]).pubkey == p;
    lemma_count_at(s.counts, c);
    assert(covers(s.assignments, s.scores, url, s.counts[c]));
    lemma_covered_keys(s.assignments, s.scores, s.counts, url);
    assert(s.covered(url).contains(p));
}

/// Only one relay wins.
pub proof fn lemma_winner_unique(s: PickerState, a: int, b: int)
    requires
        s.is_winner(a),
        s.is_winner(b),
    ensures
        a == b,
{
    assert(s.score(a) <= s.score(b));
    assert(s.score(b) <= s.score(a));
}

/// The covered identities are among those counted, each is covered, and
/// none is there twice if none is counted twice.
pub proof fn lemma_covered_keys(
    assignments: Seq<RelayAssignment>,
    scores: Seq<PersonScores>,
    counts: Seq<PubkeyCount>,
    url: Seq<char>,
)
    ensures
        forall|p: PublicKey| #[trigger]
            covered_keys(assignments, scores, counts, url).contains(p) <==> exists|i: int|
                0 <= i < counts.len() && (#[trigger] counts[i]).pubkey == p && covers(
                    assignments,
                    scores,
                    url,
                    counts[i],
                ),
        distinct_counts(counts) ==> covered_keys(assignments, scores, counts, url).no_duplicates(),
    decreases counts.len(),
{
    let all = covered_keys(assignments, scores, counts, url);
    if counts.len() > 0 {
        let rest = counts.drop_last();
        let c = counts.last();
        lemma_covered_keys(assignments, scores, rest, url);
        let inner = covered_keys(assignments, scores, rest, url);
        assert forall|p: PublicKey| #[trigger] all.contains(p) <==> exists|i: int|
            0 <= i < counts.len() && (#[trigger] counts[i]).pubkey == p && covers(
                assignments,
                scores,
                url,
                counts[i],
            ) by {
            if all.contains(p) {
                let j = choose|j: int| 0 <= j < all.len() && all[j] == p;
                if j < inner.len() {
                    assert(inner[j] == p);
                    assert(inner.contains(p));
                    let i = choose|i: int|
                        0 <= i < rest.len() && (#[trigger] rest[i]).pubkey == p && covers(
                            assignments,
                            scores,
                            url,
                            rest[i],
                        );
                    assert(counts[i].pubkey == p);
                } else {
                    assert(counts[counts.len() - 1].pubkey == p);
                }
            }
            if exists|i: int|
                0 <= i < counts.len() && (#[trigger] counts[i]).pubkey == p && covers(
                    assignments,
                    scores,
                    url,
                    counts[i],
                ) {
                let i = choose|i: int|
                    0 <= i < counts.len() && (#[trigger] counts[i]).pubkey == p && covers(
                        assignments,
                        scores,
                        url,
                        counts[i],
                    );
                if i < rest.len() {
                    assert(rest[i].pubkey == p);
                    assert(inner.contains(p));
                    let j = choose|j: int| 0 <= j < inner.len() && inner[j] == p;
                    assert(all[j] == p);
                } else {
                    assert(all[all.len() - 1] == p);
                }
            }
        }
        if distinct_counts(counts) {
            assert(distinct_counts(rest)) by {
                assert forall|i: int, j: int|
                    0 <= i < rest.len() && 0 <= j < rest.len() && i != j implies (
                #[trigger] rest[i]).pubkey != (#[trigger] rest[j]).pubkey by {
                    assert(rest[i] == counts[i]);
                    assert(rest[j] == counts[j]);
                }
            }
            if covers(assignments, scores, url, c) {
                if inner.contains(c.pubkey) {
                    let i = choose|i: int|
                        0 <= i < rest.len() && (#[trigger] rest[i]).pubkey == c.pubkey && covers(
                            assignments,
                            scores,
                            url,
                            rest[i],
                        );
                    assert(counts[i].pubkey == counts[counts.len() - 1].pubkey);
                    assert(false);
                }
                assert(all.no_duplicates()) by {
                    assert forall|i: int, j: int|
                        0 <= i < all.len() && 0 <= j < all.len() && i != j implies all[i]
                        != all[j] by {
                        if i < inner.len() && j < inner.len() {
                            assert(all[i] == inner[i] && all[j] == inner[j]);
                        } else if i < inner.len() {
                            assert(inner[i] == all[i]);
                            assert(inner.contains(all[i]));
                        } else {
                            assert(inner[j] == all[j]);
                            assert(inner.contains(all[j]));
                        }
                    }
                }
            }
        }
    }
}

/// The counts that a pick leaves are entries of identities that were
/// counted, in their order; so none is there twice if none was.
pub proof fn lemma_counts_after_pick(
    assignments: Seq<RelayAssignment>,
    scores: Seq<PersonScores>,
    counts: Seq<PubkeyCount>,
    url: Seq<char>,
)
    ensures
        forall|j: int|
            0 <= j < counts_after_pick(assignments, scores, counts, url).len() ==> has_count(
                counts,
                (#[trigger] counts_after_pick(assignments, scores, counts, url)[j]).pubkey,
            ),
        distinct_counts(counts) ==> distinct_counts(
            counts_after_pick(assignments, scores, counts, url),
        ),
    decreases counts.len(),
{
    let all = counts_after_pick(assignments, scores, counts, url);
    if counts.len() > 0 {
        let rest = counts.drop_last();
        let c = counts.last();
        lemma_counts_after_pick(assignments, scores, rest, url);
        let inner = counts_after_pick(assignments, scores, rest, url);
        assert forall|j: int| 0 <= j < all.len() implies has_count(
            counts,
            (#[trigger] all[j]).pubkey,
        ) by {
            if j < inner.len() {
                assert(all[j] == inner[j]);
                assert(has_count(rest, inner[j].pubkey));
                let i = choose|i: int|
                    0 <= i < rest.len() && (#[trigger] rest[i]).pubkey == inner[j].pubkey;
                assert(counts[i].pubkey == all[j].pubkey);
            } else {
                assert(counts[counts.len() - 1].pubkey == all[j].pubkey);
            }
        }
        if distinct_counts(counts) {
            assert(distinct_counts(rest)) by {
                assert forall|i: int, j: int|
                    0 <= i < rest.len() && 0 <= j < rest.len() && i != j implies (
                #[trigger] rest[i]).pubkey != (#[trigger] rest[j]).pubkey by {
                    assert(rest[i] == counts[i]);
                    assert(rest[j] == counts[j]);
                }
            }
            assert forall|i: int, j: int|
                0 <= i < all.len() && 0 <= j < all.len() && i != j implies (
            #[trigger] all[i]).pubkey != (#[trigger] all[j]).pubkey by {
                if i < inner.len() && j < inner.len() {
                    assert(all[i] == inner[i] && all[j] == inner[j]);
                } else {
                    let (lo, hi) = if i < inner.len() {
                        (i, j)
                    } else {
                        (j, i)
                    };
                    assert(all[lo] == inner[lo]);
                    assert(has_count(rest, inner[lo].pubkey));
                    let k = choose|k: int|
                        0 <= k < rest.len() && (#[trigger] rest[k]).pubkey == inner[lo].pubkey;
                    assert(counts[k].pubkey == all[lo].pubkey);
                    assert(all[hi].pubkey == counts[counts.len() - 1].pubkey);
                }
            }
        }
    }
}

} // verus!
