//! Letting go of assignments that nobody needs any more.

use vstd::prelude::*;
use crate::keys::PublicKey;
use crate::url::RelayUrl;
use crate::relays::RelayAssignment;
use crate::relays::lookup::{find_person, on_list};
use crate::relays::model::{
    counts_returned, distinct_assignments, distinct_people, has_scores, names_relay, PersonScores,
    PickerState,
};
use crate::relays::tracker::RelayTracker;

verus! {

/// Those of `keys` that still need the relay `url`: the identities that
/// are followed and have the relay on their list.
pub open spec fn kept_keys(scores: Seq<PersonScores>, url: Seq<char>, keys: Seq<PublicKey>) -> Seq<
    PublicKey,
>
    decreases keys.len(),
{
    if keys.len() == 0 {
        Seq::empty()
    } else {
        let rest = kept_keys(scores, url, keys.drop_last());
        if names_relay(scores, keys.last(), url) {
            rest.push(keys.last())
        } else {
            rest
        }
    }
}

/// Those of `keys` that no longer need the relay `url` but are followed
/// still, and so need another.
pub open spec fn dropped_keys(scores: Seq<PersonScores>, url: Seq<char>, keys: Seq<PublicKey>) -> Seq<
    PublicKey,
>
    decreases keys.len(),
{
    if keys.len() == 0 {
        Seq::empty()
    } else {
        let rest = dropped_keys(scores, url, keys.drop_last());
        if !names_relay(scores, keys.last(), url) && has_scores(scores, keys.last()) {
            rest.push(keys.last())
        } else {
            rest
        }
    }
}

/// The identities that the assignments let go of and that are followed
/// still, assignment after assignment.
pub open spec fn all_dropped(scores: Seq<PersonScores>, assignments: Seq<RelayAssignment>) -> Seq<
    PublicKey,
>
    decreases assignments.len(),
{
    if assignments.len() == 0 {
        Seq::empty()
    } else {
        all_dropped(scores, assignments.drop_last()) + dropped_keys(
            scores,
            assignments.last().relay_url@,
            assignments.last().pubkeys@,
        )
    }
}

/// Whether `after` and `idle` are what is left of the assignments
/// `before`: each assignment holds the identities that still need its
/// relay, in their order; and an assignment that would hold nobody is
/// gone, its relay being idle.
pub open spec fn collected(
    scores: Seq<PersonScores>,
    before: Seq<RelayAssignment>,
    after: Seq<RelayAssignment>,
    idle: Seq<RelayUrl>,
) -> bool
    decreases before.len(),
{
    if before.len() == 0 {
        after.len() == 0 && idle.len() == 0
    } else {
        let a = before.last();
        let kept = kept_keys(scores, a.relay_url@, a.pubkeys@);
        if kept.len() == 0 {
            idle.len() > 0 && idle.last() == a.relay_url && collected(
                scores,
                before.drop_last(),
                after,
                idle.drop_last(),
            )
        } else {
            after.len() > 0 && after.last().relay_url == a.relay_url && after.last().pubkeys@
                == kept && collected(scores, before.drop_last(), after.drop_last(), idle)
        }
    }
}

/// The kept identities are among those held, and none is there twice if
/// none was.
pub proof fn lemma_kept_keys(scores: Seq<PersonScores>, url: Seq<char>, keys: Seq<PublicKey>)
    ensures
        forall|p: PublicKey| #[trigger]
            kept_keys(scores, url, keys).contains(p) ==> keys.contains(p),
        keys.no_duplicates() ==> kept_keys(scores, url, keys).no_duplicates(),
    decreases keys.len(),
{
    let kept = kept_keys(scores, url, keys);
    if keys.len() > 0 {
        let rest = keys.drop_last();
        lemma_kept_keys(scores, url, rest);
        let inner = kept_keys(scores, url, rest);
        assert forall|p: PublicKey| #[trigger] kept.contains(p) implies keys.contains(p) by {
            let j = choose|j: int| 0 <= j < kept.len() && kept[j] == p;
            if j < inner.len() {
                assert(inner[j] == p);
                assert(inner.contains(p));
                let i = choose|i: int| 0 <= i < rest.len() && rest[i] == p;
                assert(keys[i] == p);
            } else {
                assert(keys[keys.len() - 1] == p);
            }
        }
        if keys.no_duplicates() {
            assert(rest.no_duplicates()) by {
                assert forall|i: int, j: int|
                    0 <= i < rest.len() && 0 <= j < rest.len() && i != j implies rest[i]
                    != rest[j] by {
                    assert(rest[i] == keys[i] && rest[j] == keys[j]);
                }
            }
            assert forall|i: int, j: int|
                0 <= i < kept.len() && 0 <= j < kept.len() && i != j implies kept[i] != kept[j] by {
                if i < inner.len() && j < inner.len() {
                    assert(kept[i] == inner[i] && kept[j] == inner[j]);
                } else {
                    let lo = if i < inner.len() {
                        i
                    } else {
                        j
                    };
                    assert(kept[lo] == inner[lo]);
                    assert(inner.contains(inner[lo]));
                    assert(rest.contains(inner[lo]));
                    let k = choose|k: int| 0 <= k < rest.len() && rest[k] == inner[lo];
                    assert(keys[k] == rest[k]);
                }
            }
        }
    }
}

/// What is left of assignments that are in order is in order: every
/// relay that is left was there, none is there twice, and no assignment
/// holds an identity twice.
pub proof fn lemma_collected(
    scores: Seq<PersonScores>,
    before: Seq<RelayAssignment>,
    after: Seq<RelayAssignment>,
    idle: Seq<RelayUrl>,
)
    requires
        collected(scores, before, after, idle),
        distinct_assignments(before),
        forall|i: int| 0 <= i < before.len() ==> (#[trigger] before[i]).pubkeys@.no_duplicates(),
    ensures
        distinct_assignments(after),
        forall|i: int| 0 <= i < after.len() ==> (#[trigger] after[i]).pubkeys@.no_duplicates(),
        forall|i: int|
            0 <= i < after.len() ==> exists|k: int|
                0 <= k < before.len() && (#[trigger] before[k]).relay_url@ == (
                #[trigger] after[i]).relay_url@,
        after.len() + idle.len() == before.len(),
    decreases before.len(),
{
    if before.len() > 0 {
        let a = before.last();
        let rest = before.drop_last();
        let kept = kept_keys(scores, a.relay_url@, a.pubkeys@);
        assert(distinct_assignments(rest)) by {
            assert forall|i: int, j: int|
                0 <= i < rest.len() && 0 <= j < rest.len() && i != j implies (
            #[trigger] rest[i]).relay_url@ != (#[trigger] rest[j]).relay_url@ by {
                assert(rest[i] == before[i]);
                assert(rest[j] == before[j]);
            }
        }
        assert forall|i: int| 0 <= i < rest.len() implies (
        #[trigger] rest[i]).pubkeys@.no_duplicates() by {
            assert(rest[i] == before[i]);
        }
        if kept.len() == 0 {
            lemma_collected(scores, rest, after, idle.drop_last());
            assert forall|i: int| 0 <= i < after.len() implies exists|k: int|
                0 <= k < before.len() && (#[trigger] before[k]).relay_url@ == (
                #[trigger] after[i]).relay_url@ by {
                let k = choose|k: int|
                    0 <= k < rest.len() && (#[trigger] rest[k]).relay_url@ == after[i].relay_url@;
                assert(before[k] == rest[k]);
            }
        } else {
            let inner = after.drop_last();
            lemma_collected(scores, rest, inner, idle);
            lemma_kept_keys(scores, a.relay_url@, a.pubkeys@);
            assert(before[before.len() - 1].pubkeys@.no_duplicates());
            assert forall|i: int| 0 <= i < after.len() implies (
            #[trigger] after[i]).pubkeys@.no_duplicates() by {
                if i < inner.len() {
                    assert(after[i] == inner[i]);
                }
            }
            assert forall|i: int| 0 <= i < after.len() implies exists|k: int|
                0 <= k < before.len() && (#[trigger] before[k]).relay_url@ == (
                #[trigger] after[i]).relay_url@ by {
                if i < inner.len() {
                    assert(after[i] == inner[i]);
                    let k = choose|k: int|
                        0 <= k < rest.len() && (#[trigger] rest[k]).relay_url@
                            == inner[i].relay_url@;
                    assert(before[k] == rest[k]);
                } else {
                    assert(before[before.len() - 1].relay_url@ == after[i].relay_url@);
                }
            }
            assert forall|i: int, j: int|
                0 <= i < after.len() && 0 <= j < after.len() && i != j implies (
            #[trigger] after[i]).relay_url@ != (#[trigger] after[j]).relay_url@ by {
                if i < inner.len() && j < inner.len() {
                    assert(after[i] == inner[i] && after[j] == inner[j]);
                } else {
                    let lo = if i < inner.len() {
                        i
                    } else {
                        j
                    };
                    assert(after[lo] == inner[lo]);
                    let k = choose|k: int|
                        0 <= k < rest.len() && (#[trigger] rest[k]).relay_url@
                            == inner[lo].relay_url@;
                    assert(before[k] == rest[k]);
                    assert(before[k].relay_url@ != before[before.len() - 1].relay_url@);
                }
            }
        }
    }
}

impl PickerState {
    /// Whether `after` and `idle` are what comes of letting go of what
    /// nobody needs: the assignments are collected, and each identity
    /// that an assignment let go of seeks one relay more, if it is
    /// followed still.
    pub open spec fn garbage_collected(self, after: PickerState, idle: Seq<RelayUrl>) -> bool {
        &&& after.all_relays == self.all_relays
        &&& after.connected == self.connected
        &&& after.excluded == self.excluded
        &&& after.scores == self.scores
        &&& after.num_relays_per_person == self.num_relays_per_person
        &&& after.max_relays == self.max_relays
        &&& collected(self.scores, self.assignments, after.assignments, idle)
        &&& after.counts == counts_returned(
            self.counts,
            all_dropped(self.scores, self.assignments),
            self.num_relays_per_person,
        )
    }
}

impl RelayTracker {
    /// Lets go of what nobody needs any more. An identity stays with a
    /// relay as long as it is followed and has the relay on its list; one
    /// that does not is taken out of the relay's assignment, and seeks
    /// one relay more if it is followed still. The relays whose assignments are left without
    /// anyone are handed back, their assignments gone: their jobs to
    /// follow are done.
    pub fn garbage_collect(&mut self) -> (r: Vec<RelayUrl>)
        requires
            old(self)@.wf(),
        ensures
            final(self)@.wf(),
            old(self)@.garbage_collected(final(self)@, r@),
    {
        let mut pending: Vec<RelayAssignment> = Vec::new();
        pending.append(&mut self.relay_assignments);
        let ghost all = pending@;
        assert(all == old(self)@.assignments);
        let ghost mut done: int = 0;
        let mut kept_all: Vec<RelayAssignment> = Vec::new();
        let mut idle: Vec<RelayUrl> = Vec::new();
        let mut returned: Vec<PublicKey> = Vec::new();
        assert(all.take(0) =~= Seq::empty());
        assert(all.skip(0) =~= all);
        while pending.len() > 0
            invariant
                0 <= done <= all.len(),
                pending@ == all.skip(done),
                distinct_people(self.person_relay_scores@),
                self.person_relay_scores@ == old(self)@.scores,
                collected(old(self)@.scores, all.take(done), kept_all@, idle@),
                returned@ == all_dropped(old(self)@.scores, all.take(done)),
                self@ == (PickerState { assignments: Seq::empty(), ..old(self)@ }),
            decreases pending.len(),
        {
            let a = pending.remove(0);
            proof {
                assert(a == all[done]);
                assert(all.take(done + 1).drop_last() =~= all.take(done));
                assert(all.skip(done).remove(0) =~= all.skip(done + 1));
            }
            let mut kept: Vec<PublicKey> = Vec::new();
            let mut dropped: Vec<PublicKey> = Vec::new();
            let mut i: usize = 0;
            assert(a.pubkeys@.take(0) =~= Seq::empty());
            while i < a.pubkeys.len()
                invariant
                    i <= a.pubkeys.len(),
                    distinct_people(self.person_relay_scores@),
                    self.person_relay_scores@ == old(self)@.scores,
                    kept@ == kept_keys(old(self)@.scores, a.relay_url@, a.pubkeys@.take(i as int)),
                    dropped@ == dropped_keys(
                        old(self)@.scores,
                        a.relay_url@,
                        a.pubkeys@.take(i as int),
                    ),
                decreases a.pubkeys.len() - i,
            {
                assert(a.pubkeys@.take(i + 1).drop_last() =~= a.pubkeys@.take(i as int));
                let p = a.pubkeys[i];
                if on_list(&self.person_relay_scores, p, &a.relay_url) {
                    kept.push(p);
                } else if find_person(&self.person_relay_scores, p).is_some() {
                    dropped.push(p);
                }
                i += 1;
            }
            assert(a.pubkeys@.take(i as int) =~= a.pubkeys@);
            let ghost kept_before = kept_all@;
            let ghost idle_before = idle@;
            returned.append(&mut dropped);
            if kept.len() == 0 {
                idle.push(a.relay_url);
                assert(idle@.drop_last() =~= idle_before);
            } else {
                kept_all.push(RelayAssignment { relay_url: a.relay_url, pubkeys: kept });
                assert(kept_all@.drop_last() =~= kept_before);
            }
            proof {
                done = done + 1;
            }
        }
        assert(all.take(done) =~= all);
        proof {
            lemma_collected(old(self)@.scores, all, kept_all@, idle@);
        }
        self.relay_assignments = kept_all;
        self.give_back(&returned);
        idle
    }
}

} // verus!
