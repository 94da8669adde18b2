//! What holds of the planner over any run of picks and disconnections.

use vstd::prelude::*;
use crate::keys::PublicKey;
use crate::url::has_url;
use crate::relays::{RelayAssignment, RelayPickFailure};
use crate::relays::model::{
    assigned_keys, count_of, count_returned, counts_after_pick, counts_returned, covered_keys,
    covering, covers, distinct_assignments, distinct_counts, excluded_more, excluded_until,
    has_assignment, has_count, installed, is_assigned, is_covered, is_excluded, live_exclusions,
    names_relay, uninstalled, Exclusion, PersonScores, PickerState, PubkeyCount,
};
use crate::relays::pick::{
    lemma_assigned_at, lemma_count_at, lemma_counts_after_pick, lemma_covered_keys,
    lemma_live_exclusions,
};
use crate::relays::update::lemma_count_returned;

verus! {

/// One if `b`, else nought.
pub open spec fn one_if(b: bool) -> nat {
    if b {
        1
    } else {
        0
    }
}

/// The count of an identity after an entry was added at the end.
pub proof fn lemma_count_of_push(counts: Seq<PubkeyCount>, c: PubkeyCount, p: PublicKey)
    requires
        distinct_counts(counts.push(c)),
    ensures
        distinct_counts(counts),
        count_of(counts.push(c), p) == if p == c.pubkey {
            c.count as nat
        } else {
            count_of(counts, p)
        },
{
    let more = counts.push(c);
    assert(distinct_counts(counts)) by {
        assert forall|i: int, j: int|
            0 <= i < counts.len() && 0 <= j < counts.len() && i != j implies (
        #[trigger] counts[i]).pubkey != (#[trigger] counts[j]).pubkey by {
            assert(more[i] == counts[i]);
            assert(more[j] == counts[j]);
        }
    }
    if p == c.pubkey {
        lemma_count_at(more, counts.len() as int);
    } else {
        if has_count(counts, p) {
            let i = choose|i: int| 0 <= i < counts.len() && (#[trigger] counts[i]).pubkey == p;
            assert(more[i] == counts[i]);
            lemma_count_at(more, i);
            lemma_count_at(counts, i);
        } else {
            if has_count(more, p) {
                let i = choose|i: int| 0 <= i < more.len() && (#[trigger] more[i]).pubkey == p;
                assert(more[i] == counts[i]);
            }
        }
    }
}

/// The count of an identity after an entry was changed in its place.
pub proof fn lemma_count_of_update(counts: Seq<PubkeyCount>, i: int, c: PubkeyCount, p: PublicKey)
    requires
        distinct_counts(counts),
        0 <= i < counts.len(),
        c.pubkey == counts[i].pubkey,
    ensures
        distinct_counts(counts.update(i, c)),
        count_of(counts.update(i, c), p) == if p == c.pubkey {
            c.count as nat
        } else {
            count_of(counts, p)
        },
{
    let more = counts.update(i, c);
    assert(distinct_counts(more)) by {
        assert forall|a: int, b: int|
            0 <= a < more.len() && 0 <= b < more.len() && a != b implies (
        #[trigger] more[a]).pubkey != (#[trigger] more[b]).pubkey by {
            assert(more[a].pubkey == counts[a].pubkey);
            assert(more[b].pubkey == counts[b].pubkey);
        }
    }
    if p == c.pubkey {
        lemma_count_at(more, i);
    } else {
        if has_count(counts, p) {
            let k = choose|k: int| 0 <= k < counts.len() && (#[trigger] counts[k]).pubkey == p;
            assert(more[k] == counts[k]);
            lemma_count_at(more, k);
            lemma_count_at(counts, k);
        } else {
            if has_count(more, p) {
                let k = choose|k: int| 0 <= k < more.len() && (#[trigger] more[k]).pubkey == p;
                assert(more[k].pubkey == counts[k].pubkey);
            }
        }
    }
}

/// How many relays an identity seeks after a pick: one fewer if the pick
/// covers it.
pub proof fn lemma_count_after_pick(
    assignments: Seq<RelayAssignment>,
    scores: Seq<PersonScores>,
    counts: Seq<PubkeyCount>,
    url: Seq<char>,
    p: PublicKey,
)
    requires
        distinct_counts(counts),
    ensures
        count_of(counts_after_pick(assignments, scores, counts, url), p) + one_if(
            covered_keys(assignments, scores, counts, url).contains(p),
        ) == count_of(counts, p),
        covered_keys(assignments, scores, counts, url).contains(p) ==> count_of(counts, p) > 0
            && !is_assigned(assignments, url, p),
    decreases counts.len(),
{
    let after = counts_after_pick(assignments, scores, counts, url);
    let covered = covered_keys(assignments, scores, counts, url);
    lemma_covered_keys(assignments, scores, counts, url);
    lemma_counts_after_pick(assignments, scores, counts, url);
    if covered.contains(p) {
        let i = choose|i: int|
            0 <= i < counts.len() && (#[trigger] counts[i]).pubkey == p && covers(
                assignments,
                scores,
                url,
                counts[i],
            );
        lemma_count_at(counts, i);
    }
    if counts.len() > 0 {
        let rest = counts.drop_last();
        let c = counts.last();
        assert(counts =~= rest.push(c));
        lemma_count_of_push(rest, c, p);
        lemma_count_after_pick(assignments, scores, rest, url, p);
        lemma_covered_keys(assignments, scores, rest, url);
        let after_rest = counts_after_pick(assignments, scores, rest, url);
        let covered_rest = covered_keys(assignments, scores, rest, url);
        if p == c.pubkey {
            assert(!has_count(rest, p)) by {
                if has_count(rest, p) {
                    let i = choose|i: int| 0 <= i < rest.len() && (#[trigger] rest[i]).pubkey == p;
                    assert(counts[i].pubkey == counts[counts.len() - 1].pubkey);
                }
            }
            assert(!covered_rest.contains(p));
            assert(!has_count(after_rest, p)) by {
                lemma_counts_after_pick(assignments, scores, rest, url);
                if has_count(after_rest, p) {
                    let j = choose|j: int|
                        0 <= j < after_rest.len() && (#[trigger] after_rest[j]).pubkey == p;
                    assert(has_count(rest, after_rest[j].pubkey));
                }
            }
            if covers(assignments, scores, url, c) {
                assert(covered[covered.len() - 1] == p);
                if c.count > 1 {
                    lemma_count_of_push(
                        after_rest,
                        PubkeyCount { pubkey: c.pubkey, count: (c.count - 1) as u8 },
                        p,
                    );
                }
            } else {
                assert(!covered.contains(p)) by {
                    if covered.contains(p) {
                        let i = choose|i: int|
                            0 <= i < counts.len() && (#[trigger] counts[i]).pubkey == p && covers(
                                assignments,
                                scores,
                                url,
                                counts[i],
                            );
                        assert(i == counts.len() - 1);
                    }
                }
                if c.count > 0 {
                    lemma_count_of_push(after_rest, c, p);
                }
            }
        } else {
            assert(covered.contains(p) == covered_rest.contains(p)) by {
                if covered.contains(p) {
                    let i = choose|i: int|
                        0 <= i < counts.len() && (#[trigger] counts[i]).pubkey == p && covers(
                            assignments,
                            scores,
                            url,
                            counts[i],
                        );
                    assert(rest[i] == counts[i]);
                }
                if covered_rest.contains(p) {
                    let i = choose|i: int|
                        0 <= i < rest.len() && (#[trigger] rest[i]).pubkey == p && covers(
                            assignments,
                            scores,
                            url,
                            rest[i],
                        );
                    assert(rest[i] == counts[i]);
                }
            }
            if covers(assignments, scores, url, c) {
                if c.count > 1 {
                    lemma_count_of_push(
                        after_rest,
                        PubkeyCount { pubkey: c.pubkey, count: (c.count - 1) as u8 },
                        p,
                    );
                }
            } else if c.count > 0 {
                lemma_count_of_push(after_rest, c, p);
            }
        }
    }
}

/// Two lists of assignments of one length that differ in one place at
/// most cover an identity equally often, that place apart.
pub proof fn lemma_covering_differs_at(
    a: Seq<RelayAssignment>,
    b: Seq<RelayAssignment>,
    k: int,
    p: PublicKey,
)
    requires
        a.len() == b.len(),
        0 <= k < a.len(),
        forall|i: int|
            0 <= i < a.len() && i != k ==> (#[trigger] a[i]).pubkeys@.contains(p)
                == b[i].pubkeys@.contains(p),
    ensures
        covering(a, p) + one_if(b[k].pubkeys@.contains(p)) == covering(b, p) + one_if(
            a[k].pubkeys@.contains(p),
        ),
    decreases a.len(),
{
    let ra = a.drop_last();
    let rb = b.drop_last();
    if k == a.len() - 1 {
        lemma_covering_same(ra, rb, p);
    } else {
        assert forall|i: int| 0 <= i < ra.len() && i != k implies (
        #[trigger] ra[i]).pubkeys@.contains(p) == rb[i].pubkeys@.contains(p) by {
            assert(ra[i] == a[i]);
        }
        lemma_covering_differs_at(ra, rb, k, p);
        assert(a[a.len() - 1].pubkeys@.contains(p) == b[a.len() - 1].pubkeys@.contains(p));
    }
}

/// Two lists of assignments that hold an identity in the same places
/// cover it equally often.
pub proof fn lemma_covering_same(a: Seq<RelayAssignment>, b: Seq<RelayAssignment>, p: PublicKey)
    requires
        a.len() == b.len(),
        forall|i: int|
            0 <= i < a.len() ==> (#[trigger] a[i]).pubkeys@.contains(p) == b[i].pubkeys@.contains(
                p,
            ),
    ensures
        covering(a, p) == covering(b, p),
    decreases a.len(),
{
    if a.len() > 0 {
        let ra = a.drop_last();
        let rb = b.drop_last();
        assert forall|i: int| 0 <= i < ra.len() implies (#[trigger] ra[i]).pubkeys@.contains(p)
            == rb[i].pubkeys@.contains(p) by {
            assert(ra[i] == a[i]);
        }
        lemma_covering_same(ra, rb, p);
        assert(a[a.len() - 1].pubkeys@.contains(p) == b[a.len() - 1].pubkeys@.contains(p));
    }
}

/// Without one assignment an identity is covered once less, if that
/// assignment held it.
pub proof fn lemma_covering_remove(a: Seq<RelayAssignment>, k: int, p: PublicKey)
    requires
        0 <= k < a.len(),
    ensures
        covering(a.remove(k), p) + one_if(a[k].pubkeys@.contains(p)) == covering(a, p),
    decreases a.len(),
{
    let r = a.remove(k);
    if k == a.len() - 1 {
        assert(r =~= a.drop_last());
    } else {
        lemma_covering_remove(a.drop_last(), k, p);
        assert(r.drop_last() =~= a.drop_last().remove(k));
        assert(r.last() == a.last());
    }
}

/// An identity is covered exactly when some assignment holds it.
pub proof fn lemma_covering_positive(a: Seq<RelayAssignment>, p: PublicKey)
    ensures
        covering(a, p) > 0 <==> is_covered(a, p),
        covering(a, p) <= a.len(),
    decreases a.len(),
{
    if a.len() > 0 {
        let r = a.drop_last();
        lemma_covering_positive(r, p);
        if is_covered(r, p) {
            let i = choose|i: int| 0 <= i < r.len() && (#[trigger] r[i]).pubkeys@.contains(p);
            assert(a[i].pubkeys@.contains(p));
        }
        if is_covered(a, p) {
            let i = choose|i: int| 0 <= i < a.len() && (#[trigger] a[i]).pubkeys@.contains(p);
            if i < r.len() {
                assert(r[i].pubkeys@.contains(p));
            }
        }
        if a.last().pubkeys@.contains(p) {
            assert(a[a.len() - 1].pubkeys@.contains(p));
        }
    }
}

/// After identities were added to the assignment of a relay that had none
/// of them, each of them is covered once more, and nobody else.
pub proof fn lemma_covering_installed(
    before: Seq<RelayAssignment>,
    after: Seq<RelayAssignment>,
    url: Seq<char>,
    keys: Seq<PublicKey>,
    p: PublicKey,
)
    requires
        distinct_assignments(before),
        installed(before, after, url, keys),
        keys.contains(p) ==> !is_assigned(before, url, p),
    ensures
        covering(after, p) == covering(before, p) + one_if(keys.contains(p)),
{
    if has_assignment(before, url) {
        let k = choose|k: int| 0 <= k < before.len() && (#[trigger] before[k]).relay_url@ == url;
        lemma_assigned_at(before, k, p);
        assert forall|i: int| 0 <= i < before.len() && i != k implies (
        #[trigger] before[i]).pubkeys@.contains(p) == after[i].pubkeys@.contains(p) by {
            assert(before[i].relay_url@ != before[k].relay_url@);
            assert(after[i] == before[i]);
        }
        lemma_covering_differs_at(before, after, k, p);
        assert(after[k].pubkeys@ == before[k].pubkeys@ + keys);
        let joined = before[k].pubkeys@ + keys;
        assert(joined.contains(p) == (before[k].pubkeys@.contains(p) || keys.contains(p))) by {
            if before[k].pubkeys@.contains(p) {
                let i = choose|i: int| 0 <= i < before[k].pubkeys@.len() && before[k].pubkeys@[i] == p;
                assert(joined[i] == p);
            }
            if keys.contains(p) {
                let i = choose|i: int| 0 <= i < keys.len() && keys[i] == p;
                assert(joined[before[k].pubkeys@.len() + i] == p);
            }
            if joined.contains(p) {
                let i = choose|i: int| 0 <= i < joined.len() && joined[i] == p;
                if i < before[k].pubkeys@.len() {
                    assert(before[k].pubkeys@[i] == p);
                } else {
                    assert(keys[i - before[k].pubkeys@.len()] == p);
                }
            }
        }
    } else {
        assert(after.last().pubkeys@ == keys);
    }
}

/// A pick keeps every identity within its budget: what it seeks and what
/// covers it are together no more than each identity is to have.
pub proof fn lemma_pick_keeps_budget(s: PickerState, after: PickerState, now: i64)
    requires
        s.wf(),
        s.within_budget(),
        s.pick_succeeded(after, now),
    ensures
        after.within_budget(),
{
    let s0 = s.pruned(now);
    let url = s0.winner_url();
    let covered = s0.covered(url);
    assert forall|p: PublicKey|
        #![trigger count_of(after.counts, p)]
        #![trigger covering(after.assignments, p)]
        count_of(after.counts, p) + covering(after.assignments, p)
            <= after.num_relays_per_person by {
        lemma_count_after_pick(s0.assignments, s0.scores, s0.counts, url, p);
        lemma_covering_installed(s0.assignments, after.assignments, url, covered, p);
        assert(count_of(s.counts, p) + covering(s.assignments, p) <= s.num_relays_per_person);
    }
}

/// The count of an identity after one was given a relay back.
pub proof fn lemma_count_of_returned(counts: Seq<PubkeyCount>, q: PublicKey, cap: u8, p: PublicKey)
    requires
        distinct_counts(counts),
    ensures
        count_of(count_returned(counts, q, cap), p) == if p != q {
            count_of(counts, p)
        } else if count_of(counts, q) < cap {
            count_of(counts, q) + 1
        } else {
            cap as nat
        },
{
    lemma_count_returned(counts, q, cap);
    if has_count(counts, q) {
        let i = choose|i: int| 0 <= i < counts.len() && (#[trigger] counts[i]).pubkey == q;
        lemma_count_at(counts, i);
        let c = counts[i].count;
        lemma_count_of_update(
            counts,
            i,
            PubkeyCount { pubkey: q, count: if c < cap { (c + 1) as u8 } else { cap } },
            p,
        );
    } else {
        lemma_count_of_push(
            counts,
            PubkeyCount { pubkey: q, count: if cap > 0 { 1u8 } else { 0u8 } },
            p,
        );
    }
}

/// The count of an identity after each of `keys` was given a relay back.
pub proof fn lemma_count_of_all_returned(
    counts: Seq<PubkeyCount>,
    keys: Seq<PublicKey>,
    cap: u8,
    p: PublicKey,
)
    requires
        distinct_counts(counts),
        keys.no_duplicates(),
    ensures
        distinct_counts(counts_returned(counts, keys, cap)),
        count_of(counts_returned(counts, keys, cap), p) == if !keys.contains(p) {
            count_of(counts, p)
        } else if count_of(counts, p) < cap {
            count_of(counts, p) + 1
        } else {
            cap as nat
        },
    decreases keys.len(),
{
    if keys.len() > 0 {
        let rest = keys.drop_last();
        let q = keys.last();
        assert(rest.no_duplicates()) by {
            assert forall|i: int, j: int|
                0 <= i < rest.len() && 0 <= j < rest.len() && i != j implies rest[i] != rest[j] by {
                assert(rest[i] == keys[i] && rest[j] == keys[j]);
            }
        }
        lemma_count_of_all_returned(counts, rest, cap, p);
        let mid = counts_returned(counts, rest, cap);
        lemma_count_returned(mid, q, cap);
        lemma_count_of_returned(mid, q, cap, p);
        assert(!rest.contains(q)) by {
            if rest.contains(q) {
                let i = choose|i: int| 0 <= i < rest.len() && rest[i] == q;
                assert(keys[i] == keys[keys.len() - 1]);
            }
        }
        assert(keys.contains(p) == (rest.contains(p) || p == q)) by {
            if rest.contains(p) {
                let i = choose|i: int| 0 <= i < rest.len() && rest[i] == p;
                assert(keys[i] == p);
            }
            if p == q {
                assert(keys[keys.len() - 1] == p);
            }
            if keys.contains(p) {
                let i = choose|i: int| 0 <= i < keys.len() && keys[i] == p;
                if i < rest.len() {
                    assert(rest[i] == p);
                }
            }
        }
    }
}

/// A disconnection keeps every identity within its budget.
pub proof fn lemma_disconnect_keeps_budget(
    s: PickerState,
    after: PickerState,
    url: Seq<char>,
    seconds: u64,
    now: i64,
)
    requires
        s.wf(),
        s.within_budget(),
        s.disconnected(after, url, seconds, now),
    ensures
        after.within_budget(),
{
    let keys = assigned_keys(s.assignments, url);
    let cap = s.num_relays_per_person;
    assert forall|p: PublicKey|
        #![trigger count_of(after.counts, p)]
        #![trigger covering(after.assignments, p)]
        count_of(after.counts, p) + covering(after.assignments, p)
            <= after.num_relays_per_person by {
        assert(count_of(s.counts, p) + covering(s.assignments, p) <= s.num_relays_per_person);
        if has_assignment(s.assignments, url) {
            let k = choose|k: int|
                0 <= k < s.assignments.len() && (#[trigger] s.assignments[k]).relay_url@ == url;
            let k2 = choose|k2: int|
                0 <= k2 < s.assignments.len() && (#[trigger] s.assignments[k2]).relay_url@ == url
                    && after.assignments == s.assignments.remove(k2);
            assert(k2 == k);
            assert(keys == s.assignments[k].pubkeys@);
            lemma_covering_remove(s.assignments, k, p);
            lemma_count_of_all_returned(s.counts, keys, cap, p);
        } else {
            assert(keys =~= Seq::empty());
            lemma_count_of_all_returned(s.counts, keys, cap, p);
        }
    }
}

/// Within the budget no identity is covered by more relays than each
/// identity is to have.
pub proof fn lemma_budget_bounds_coverage(s: PickerState, p: PublicKey)
    requires
        s.within_budget(),
    ensures
        covering(s.assignments, p) <= s.num_relays_per_person,
{
    assert(count_of(s.counts, p) + covering(s.assignments, p) <= s.num_relays_per_person);
}

/// A pick keeps every followed identity accounted for: one that no longer
/// seeks a relay is covered by one.
pub proof fn lemma_pick_keeps_everyone_accounted_for(s: PickerState, after: PickerState, now: i64)
    requires
        s.wf(),
        s.everyone_accounted_for(),
        s.pick_succeeded(after, now),
    ensures
        after.everyone_accounted_for(),
{
    let s0 = s.pruned(now);
    let url = s0.winner_url();
    let covered = s0.covered(url);
    assert forall|i: int| 0 <= i < after.scores.len() implies count_of(
        after.counts,
        (#[trigger] after.scores[i]).pubkey,
    ) > 0 || covering(after.assignments, after.scores[i].pubkey) > 0 by {
        let p = s.scores[i].pubkey;
        lemma_count_after_pick(s0.assignments, s0.scores, s0.counts, url, p);
        lemma_covering_installed(s0.assignments, after.assignments, url, covered, p);
    }
}

/// A disconnection keeps every followed identity accounted for, where
/// each identity is to have at least one relay.
pub proof fn lemma_disconnect_keeps_everyone_accounted_for(
    s: PickerState,
    after: PickerState,
    url: Seq<char>,
    seconds: u64,
    now: i64,
)
    requires
        s.wf(),
        s.num_relays_per_person >= 1,
        s.everyone_accounted_for(),
        s.disconnected(after, url, seconds, now),
    ensures
        after.everyone_accounted_for(),
{
    let keys = assigned_keys(s.assignments, url);
    let cap = s.num_relays_per_person;
    assert forall|i: int| 0 <= i < after.scores.len() implies count_of(
        after.counts,
        (#[trigger] after.scores[i]).pubkey,
    ) > 0 || covering(after.assignments, after.scores[i].pubkey) > 0 by {
        let p = s.scores[i].pubkey;
        if has_assignment(s.assignments, url) {
            let k = choose|k: int|
                0 <= k < s.assignments.len() && (#[trigger] s.assignments[k]).relay_url@ == url;
            let k2 = choose|k2: int|
                0 <= k2 < s.assignments.len() && (#[trigger] s.assignments[k2]).relay_url@ == url
                    && after.assignments == s.assignments.remove(k2);
            assert(k2 == k);
            assert(keys == s.assignments[k].pubkeys@);
            lemma_covering_remove(s.assignments, k, p);
            lemma_count_of_all_returned(s.counts, keys, cap, p);
        } else {
            assert(keys =~= Seq::empty());
            lemma_count_of_all_returned(s.counts, keys, cap, p);
        }
    }
}

/// Where every followed identity is accounted for and a pick fails
/// because nobody seeks a relay, every followed identity is covered by
/// at least one relay.
pub proof fn lemma_no_people_left_means_covered(s: PickerState, now: i64)
    requires
        s.everyone_accounted_for(),
        s.pruned(now).pick_failure() == Some(RelayPickFailure::NoPeopleLeft),
    ensures
        forall|i: int|
            0 <= i < s.scores.len() ==> is_covered(s.assignments, (#[trigger] s.scores[i]).pubkey),
{
    assert forall|i: int| 0 <= i < s.scores.len() implies is_covered(
        s.assignments,
        (#[trigger] s.scores[i]).pubkey,
    ) by {
        let p = s.scores[i].pubkey;
        assert(!has_count(s.counts, p));
        lemma_covering_positive(s.assignments, p);
    }
}

/// A relay that has disconnected is excluded until the time asked for.
pub proof fn lemma_disconnected_is_excluded(
    s: PickerState,
    after: PickerState,
    url: Seq<char>,
    seconds: u64,
    now: i64,
)
    requires
        s.disconnected(after, url, seconds, now),
    ensures
        excluded_until(after.excluded, url, now + seconds) || excluded_until(
            after.excluded,
            url,
            i64::MAX as int,
        ),
{
    let hence = crate::relays::model::time_after(now, seconds);
    if is_excluded(s.excluded, url) {
        let i = choose|i: int| 0 <= i < s.excluded.len() && (#[trigger] s.excluded[i]).url@ == url;
        assert(after.excluded[i].url@ == url && after.excluded[i].until >= hence);
    } else {
        let last = after.excluded.len() - 1;
        assert(after.excluded[last].url@ == url && after.excluded[last].until == hence);
    }
}

/// A pick before the time an exclusion ends leaves the exclusion in place.
pub proof fn lemma_exclusion_outlasts_picks(
    excluded: Seq<Exclusion>,
    url: Seq<char>,
    until: int,
    now: i64,
)
    requires
        excluded_until(excluded, url, until),
        now <= until,
    ensures
        excluded_until(live_exclusions(excluded, now), url, until),
{
    let i = choose|i: int|
        0 <= i < excluded.len() && (#[trigger] excluded[i]).url@ == url && excluded[i].until
            >= until;
    lemma_live_exclusions(excluded, now);
    let live = live_exclusions(excluded, now);
    assert(excluded.contains(excluded[i]));
    assert(live.contains(excluded[i]));
    let j = choose|j: int| 0 <= j < live.len() && live[j] == excluded[i];
    assert(live[j].url@ == url && live[j].until >= until);
}

/// An excluded relay has no score, and so does a relay of rank 0.
pub proof fn lemma_no_score(s: PickerState, w: int)
    requires
        0 <= w < s.all_relays.len(),
        is_excluded(s.excluded, s.all_relays[w].url@) || s.all_relays[w].rank == 0,
    ensures
        s.score(w) == 0,
{
    let m = s.all_relays[w].multiplier() as nat;
    let raw = s.raw_score(s.all_relays[w].url@);
    if s.all_relays[w].rank == 0 {
        assert(m == 0) by {
            let r = s.all_relays[w];
            assert(13 * r.rank == 0);
            assert(13 * r.rank * r.success_count == 0) by (nonlinear_arith)
                requires
                    13 * r.rank == 0,
            ;
            if r.success_count + r.failure_count == 0 {
                assert(0int / 20 == 0);
            } else {
                let den = 10 * (r.success_count + r.failure_count);
                assert(0int / den == 0) by (nonlinear_arith)
                    requires
                        den > 0,
                ;
            }
        }
        assert(raw * m == 0) by (nonlinear_arith)
            requires
                m == 0,
        ;
    } else {
        assert(raw == 0);
        assert(raw * m == 0) by (nonlinear_arith)
            requires
                raw == 0,
        ;
    }
}

/// The relay that a pick returns is not excluded and not of rank 0.
pub proof fn lemma_picked_relay_is_usable(s: PickerState, after: PickerState, now: i64)
    requires
        s.pick_succeeded(after, now),
    ensures
        !is_excluded(s.pruned(now).excluded, s.pruned(now).winner_url()),
        s.all_relays[s.pruned(now).winner()].rank != 0,
        s.pruned(now).is_winner(s.pruned(now).winner()),
{
    let s0 = s.pruned(now);
    assert(s0.all_relays.len() > 0);
    lemma_winner_exists(s0);
    let w = s0.winner();
    if is_excluded(s0.excluded, s0.all_relays[w].url@) || s0.all_relays[w].rank == 0 {
        lemma_no_score(s0, w);
    }
}

/// A relay that is excluded until a time is not picked at that time or
/// before it, and stays excluded as it was.
pub proof fn lemma_excluded_relay_is_not_picked(
    s: PickerState,
    after: PickerState,
    url: Seq<char>,
    until: int,
    now: i64,
)
    requires
        excluded_until(s.excluded, url, until),
        now <= until,
        s.pick_succeeded(after, now),
    ensures
        s.pruned(now).winner_url() != url,
        excluded_until(after.excluded, url, until),
{
    lemma_exclusion_outlasts_picks(s.excluded, url, until, now);
    lemma_picked_relay_is_usable(s, after, now);
    let live = s.pruned(now).excluded;
    let i = choose|i: int|
        0 <= i < live.len() && (#[trigger] live[i]).url@ == url && live[i].until >= until;
    assert(is_excluded(live, live[i].url@));
}

/// Where there are relays, one of them wins.
pub proof fn lemma_winner_exists(s: PickerState)
    requires
        s.all_relays.len() > 0,
    ensures
        s.is_winner(s.winner()),
{
    lemma_best_of(s, s.all_relays.len() as int);
    let n = s.all_relays.len() as int;
    let w = choose|w: int| #[trigger] best_among(s, w, n);
    assert(s.is_winner(w));
}

/// Whether the `w`-th relay is the last of the best among the first `n`.
pub open spec fn best_among(s: PickerState, w: int, n: int) -> bool {
    &&& 0 <= w < n
    &&& forall|j: int| 0 <= j < n ==> s.score(j) <= s.score(w)
    &&& forall|j: int| w < j < n ==> s.score(j) < s.score(w)
}

/// Among the first `n` relays one is the last of the best.
pub proof fn lemma_best_of(s: PickerState, n: int)
    requires
        0 < n <= s.all_relays.len(),
    ensures
        exists|w: int| #[trigger] best_among(s, w, n),
    decreases n,
{
    if n == 1 {
        assert(best_among(s, 0, 1));
    } else {
        let m = n - 1;
        lemma_best_of(s, m);
        let w = choose|w: int| #[trigger] best_among(s, w, m);
        if s.score(n - 1) >= s.score(w) {
            assert(best_among(s, n - 1, n));
        } else {
            assert(best_among(s, w, n));
        }
    }
}

/// Where as many relays hold assignments as may, a pick returns a relay
/// that is connected already.
pub proof fn lemma_pick_at_cap_is_connected(s: PickerState, after: PickerState, now: i64)
    requires
        s.pick_succeeded(after, now),
        s.at_cap(),
    ensures
        has_url(s.connected, s.pruned(now).winner_url()),
{
    let s0 = s.pruned(now);
    lemma_winner_exists(s0);
    let w = s0.winner();
    let url = s0.all_relays[w].url@;
    let m = s0.all_relays[w].multiplier() as nat;
    if !has_url(s.connected, url) {
        assert(s0.raw_score(url) == 0);
        assert(s0.raw_score(url) * m == 0) by (nonlinear_arith)
            requires
                s0.raw_score(url) == 0,
        ;
    }
}

/// Where every connected relay holds an assignment and no more relays
/// hold assignments than may, a pick leaves it so: it never takes the
/// number of relays with assignments over the cap.
pub proof fn lemma_pick_respects_cap(s: PickerState, after: PickerState, now: i64)
    requires
        s.pick_succeeded(after, now),
        s.assignments.len() <= s.max_relays,
        forall|url: Seq<char>| has_url(s.connected, url) ==> has_assignment(s.assignments, url),
    ensures
        after.assignments.len() <= after.max_relays,
{
    if s.at_cap() {
        lemma_pick_at_cap_is_connected(s, after, now);
    }
}

} // verus!
