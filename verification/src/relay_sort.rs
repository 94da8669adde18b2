//! The order in which the list of relays shows them.

use std::cmp::Ordering;
use vstd::prelude::*;
use crate::error::CoreError;
use crate::lex::{lemma_lex_less, lex_less};
use crate::relay::Relay;
use crate::relay_ui::{filter_relay, shown, RelaySorting, RelayUi};
use crate::url::{host_and_port, RelayUrl};

verus! {

/// The comparison of `str` (`Ord::cmp`): texts are ordered by their bytes,
/// which orders them character by character by the numbers of their
/// characters.
#[verifier::external_body]
fn text_order(a: &str, b: &str) -> (r: Ordering)
    ensures
        (r == Ordering::Less) == lex_less(a@, b@),
        (r == Ordering::Greater) == lex_less(b@, a@),
        (r == Ordering::Equal) == (a@ == b@),
{
    a.cmp(b)
}

/// Whether the text `a` comes before the text `b`.
pub fn text_before(a: &str, b: &str) -> (r: bool)
    ensures
        r == lex_less(a@, b@),
{
    match text_order(a, b) {
        Ordering::Less => true,
        _ => false,
    }
}

/// The text by which a relay is sorted by name: its host, or nothing
/// where its URL yields none.
pub open spec fn name_of(url: Seq<char>) -> Seq<char> {
    match host_and_port(url) {
        Ok(host) => host,
        Err(_) => Seq::empty(),
    }
}

/// The text by which a relay is sorted by name.
fn sort_name(url: &RelayUrl) -> (r: String)
    ensures
        r@ == name_of(url@),
{
    match url.host() {
        Ok(host) => host,
        Err(_) => String::new(),
    }
}

/// Whether the list, sorted by `sort`, shows the relay `a` before the
/// relay `b`. Where neither comes before the other they may stand either
/// way.
pub open spec fn sorts_before(sort: RelaySorting, a: &Relay, b: &Relay) -> bool {
    let by_url = lex_less(a.url@, b.url@);
    match sort {
        RelaySorting::Rank => a.rank > b.rank || (a.rank == b.rank && (a.usage_bits > b.usage_bits
            || (a.usage_bits == b.usage_bits && by_url))),
        RelaySorting::Name => lex_less(name_of(a.url@), name_of(b.url@)),
        RelaySorting::WriteRelays => {
            let wa = a.spec_has_usage_bits(Relay::WRITE);
            let wb = b.spec_has_usage_bits(Relay::WRITE);
            (wa && !wb) || (wa == wb && by_url)
        },
        RelaySorting::AdvertiseRelays => {
            let aa = a.spec_has_usage_bits(Relay::ADVERTISE);
            let ab = b.spec_has_usage_bits(Relay::ADVERTISE);
            (aa && !ab) || (aa == ab && by_url)
        },
        RelaySorting::HighestFollowing => by_url,
        RelaySorting::HighestSuccessRate => a.succeeds_more(b) || (!b.succeeds_more(a) && by_url),
        RelaySorting::LowestSuccessRate => b.succeeds_more(a) || (!a.succeeds_more(b) && by_url),
    }
}

/// Of two relays at most one is shown before the other.
pub proof fn lemma_sorts_before(sort: RelaySorting, a: &Relay, b: &Relay)
    ensures
        !(sorts_before(sort, a, b) && sorts_before(sort, b, a)),
{
    lemma_lex_less(a.url@, b.url@);
    lemma_lex_less(name_of(a.url@), name_of(b.url@));
    let (n1, d1) = crate::relay::success_fraction(a.success_count, a.failure_count);
    let (n2, d2) = crate::relay::success_fraction(b.success_count, b.failure_count);
    assert(!(n1 * d2 > n2 * d1 && n2 * d1 > n1 * d2));
}

/// How the list orders the relays `a` and `b`: `Less` where it shows `a`
/// before `b`, `Greater` where it shows `b` before `a`.
pub fn sort_relay(rui: &RelayUi, a: &Relay, b: &Relay) -> (r: Ordering)
    ensures
        (r == Ordering::Less) == sorts_before(rui.sort, a, b),
        (r == Ordering::Greater) == sorts_before(rui.sort, b, a),
{
    proof {
        lemma_sorts_before(rui.sort, a, b);
        lemma_lex_less(a.url@, b.url@);
    }
    let by_url = text_order(a.url.as_str(), b.url.as_str());
    match rui.sort {
        RelaySorting::Rank => {
            if a.rank > b.rank {
                Ordering::Less
            } else if a.rank < b.rank {
                Ordering::Greater
            } else if a.usage_bits > b.usage_bits {
                Ordering::Less
            } else if a.usage_bits < b.usage_bits {
                Ordering::Greater
            } else {
                by_url
            }
        },
        RelaySorting::Name => {
            let na = sort_name(&a.url);
            let nb = sort_name(&b.url);
            text_order(na.as_str(), nb.as_str())
        },
        RelaySorting::WriteRelays => {
            let wa = a.has_usage_bits(Relay::WRITE);
            let wb = b.has_usage_bits(Relay::WRITE);
            if wa && !wb {
                Ordering::Less
            } else if wb && !wa {
                Ordering::Greater
            } else {
                by_url
            }
        },
        RelaySorting::AdvertiseRelays => {
            let aa = a.has_usage_bits(Relay::ADVERTISE);
            let ab = b.has_usage_bits(Relay::ADVERTISE);
            if aa && !ab {
                Ordering::Less
            } else if ab && !aa {
                Ordering::Greater
            } else {
                by_url
            }
        },
        RelaySorting::HighestFollowing => by_url,
        RelaySorting::HighestSuccessRate => {
            if a.has_higher_success_rate(b) {
                Ordering::Less
            } else if b.has_higher_success_rate(a) {
                Ordering::Greater
            } else {
                by_url
            }
        },
        RelaySorting::LowestSuccessRate => {
            if b.has_higher_success_rate(a) {
                Ordering::Less
            } else if a.has_higher_success_rate(b) {
                Ordering::Greater
            } else {
                by_url
            }
        },
    }
}

/// Whether no relay of `relays` stands right after one that the list,
/// sorted by `sort`, shows after it.
pub open spec fn in_order(sort: RelaySorting, relays: Seq<Relay>) -> bool {
    forall|i: int, j: int|
        0 <= i && j == i + 1 && j < relays.len() ==> !sorts_before(
            sort,
            &#[trigger] relays[j],
            &#[trigger] relays[i],
        )
}

/// The relays that the list shows: those that serve a purpose and that
/// the search and the filter let through.
pub open spec fn listed(rui: &RelayUi, relays: Seq<Relay>) -> Seq<Relay>
    decreases relays.len(),
{
    if relays.len() == 0 {
        Seq::empty()
    } else {
        let rest = listed(rui, relays.drop_last());
        if relays.last().usage_bits != 0 && shown(rui, &relays.last()) {
            rest.push(relays.last())
        } else {
            rest
        }
    }
}

/// Puts `relay` into `sorted`, which is in order, behind the relays that
/// are not shown after it.
fn insert_in_order(rui: &RelayUi, sorted: &mut Vec<Relay>, relay: Relay)
    requires
        in_order(rui.sort, old(sorted)@),
    ensures
        in_order(rui.sort, final(sorted)@),
        final(sorted)@.to_multiset() == old(sorted)@.to_multiset().insert(relay),
{
    let mut j: usize = sorted.len();
    while j > 0 && shown_before(rui, &relay, &sorted[j - 1])
        invariant
            j <= sorted.len(),
            sorted@ == old(sorted)@,
            j < sorted.len() ==> sorts_before(rui.sort, &relay, &sorted@[j as int]),
            in_order(rui.sort, sorted@),
        decreases j,
    {
        j -= 1;
    }
    let ghost before = sorted@;
    proof {
        vstd::seq_lib::to_multiset_insert(before, j as int, relay);
        if j < before.len() {
            lemma_sorts_before(rui.sort, &relay, &before[j as int]);
        }
    }
    sorted.insert(j, relay);
    proof {
        let after = sorted@;
        assert forall|i: int, k: int| 0 <= i && k == i + 1 && k < after.len() implies !sorts_before(
            rui.sort,
            &#[trigger] after[k],
            &#[trigger] after[i],
        ) by {
            if k < j {
                assert(after[k] == before[k] && after[i] == before[i]);
            } else if k == j {
                assert(after[i] == before[i]);
            } else if i == j {
                assert(after[k] == before[i]);
            } else {
                assert(after[k] == before[i] && after[i] == before[i - 1]);
            }
        }
    }
}

/// Whether the list shows the relay `a` before the relay `b`.
pub fn shown_before(rui: &RelayUi, a: &Relay, b: &Relay) -> (r: bool)
    ensures
        r == sorts_before(rui.sort, a, b),
{
    match sort_relay(rui, a, b) {
        Ordering::Less => true,
        _ => false,
    }
}

/// The relays for the list: of `relays`, those that the list shows, in
/// the order of the list.
pub fn get_relays(rui: &RelayUi, relays: Vec<Relay>) -> (r: Vec<Relay>)
    ensures
        r@.to_multiset() == listed(rui, relays@).to_multiset(),
        in_order(rui.sort, r@),
{
    let mut relays = relays;
    let ghost all = relays@;
    let ghost mut done: int = 0;
    let mut out: Vec<Relay> = Vec::new();
    assert(all.take(0) =~= Seq::empty());
    assert(all.skip(0) =~= all);
    while relays.len() > 0
        invariant
            0 <= done <= all.len(),
            relays@ == all.skip(done),
            out@.to_multiset() == listed(rui, all.take(done)).to_multiset(),
            in_order(rui.sort, out@),
        decreases relays.len(),
    {
        let relay = relays.remove(0);
        proof {
            assert(relay == all[done]);
            assert(all.take(done + 1).drop_last() =~= all.take(done));
            assert(all.skip(done).remove(0) =~= all.skip(done + 1));
            vstd::seq_lib::to_multiset_build(listed(rui, all.take(done)), relay);
            done = done + 1;
        }
        if relay.has_any_usage_bit() && filter_relay(rui, &relay) {
            insert_in_order(rui, &mut out, relay);
        }
    }
    assert(all.take(done) =~= all);
    out
}

} // verus!
