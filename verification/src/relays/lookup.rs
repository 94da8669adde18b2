//! Finding an entry by its key.

use vstd::prelude::*;
use crate::keys::PublicKey;
use crate::relay::Relay;
use crate::url::RelayUrl;
use crate::relays::RelayAssignment;
use crate::relays::model::{
    distinct_people, names_relay, Exclusion, PersonScores, PubkeyCount, RelayScore,
};

verus! {

/// The place of the first relay with the URL `url`.
pub fn find_relay(relays: &Vec<Relay>, url: &RelayUrl) -> (r: Option<usize>)
    ensures
        match r {
            Some(i) => i < relays.len() && relays@[i as int].url@ == url@ && forall|j: int|
                0 <= j < i ==> (#[trigger] relays@[j]).url@ != url@,
            None => forall|j: int| 0 <= j < relays.len() ==> (#[trigger] relays@[j]).url@ != url@,
        },
{
    let mut i: usize = 0;
    while i < relays.len()
        invariant
            i <= relays.len(),
            forall|j: int| 0 <= j < i ==> (#[trigger] relays@[j]).url@ != url@,
        decreases relays.len() - i,
    {
        if relays[i].url.same_as(url) {
            return Some(i);
        }
        i += 1;
    }
    None
}

/// The place of the first assignment for the relay `url`.
pub fn find_assignment(assignments: &Vec<RelayAssignment>, url: &RelayUrl) -> (r: Option<usize>)
    ensures
        match r {
            Some(i) => i < assignments.len() && assignments@[i as int].relay_url@ == url@
                && forall|j: int| 0 <= j < i ==> (#[trigger] assignments@[j]).relay_url@ != url@,
            None => forall|j: int|
                0 <= j < assignments.len() ==> (#[trigger] assignments@[j]).relay_url@ != url@,
        },
{
    let mut i: usize = 0;
    while i < assignments.len()
        invariant
            i <= assignments.len(),
            forall|j: int| 0 <= j < i ==> (#[trigger] assignments@[j]).relay_url@ != url@,
        decreases assignments.len() - i,
    {
        if assignments[i].relay_url.same_as(url) {
            return Some(i);
        }
        i += 1;
    }
    None
}

/// The place of the first exclusion of the relay `url`.
pub fn find_exclusion(excluded: &Vec<Exclusion>, url: &RelayUrl) -> (r: Option<usize>)
    ensures
        match r {
            Some(i) => i < excluded.len() && excluded@[i as int].url@ == url@ && forall|j: int|
                0 <= j < i ==> (#[trigger] excluded@[j]).url@ != url@,
            None => forall|j: int|
                0 <= j < excluded.len() ==> (#[trigger] excluded@[j]).url@ != url@,
        },
{
    let mut i: usize = 0;
    while i < excluded.len()
        invariant
            i <= excluded.len(),
            forall|j: int| 0 <= j < i ==> (#[trigger] excluded@[j]).url@ != url@,
        decreases excluded.len() - i,
    {
        if excluded[i].url.same_as(url) {
            return Some(i);
        }
        i += 1;
    }
    None
}

/// The place of the first count of the identity `p`.
pub fn find_count(counts: &Vec<PubkeyCount>, p: PublicKey) -> (r: Option<usize>)
    ensures
        match r {
            Some(i) => i < counts.len() && counts@[i as int].pubkey == p && forall|j: int|
                0 <= j < i ==> (#[trigger] counts@[j]).pubkey != p,
            None => forall|j: int| 0 <= j < counts.len() ==> (#[trigger] counts@[j]).pubkey != p,
        },
{
    let mut i: usize = 0;
    while i < counts.len()
        invariant
            i <= counts.len(),
            forall|j: int| 0 <= j < i ==> (#[trigger] counts@[j]).pubkey != p,
        decreases counts.len() - i,
    {
        if counts[i].pubkey == p {
            return Some(i);
        }
        i += 1;
    }
    None
}

/// The place of the first list of relay scores of the identity `p`.
pub fn find_person(scores: &Vec<PersonScores>, p: PublicKey) -> (r: Option<usize>)
    ensures
        match r {
            Some(i) => i < scores.len() && scores@[i as int].pubkey == p && forall|j: int|
                0 <= j < i ==> (#[trigger] scores@[j]).pubkey != p,
            None => forall|j: int| 0 <= j < scores.len() ==> (#[trigger] scores@[j]).pubkey != p,
        },
{
    let mut i: usize = 0;
    while i < scores.len()
        invariant
            i <= scores.len(),
            forall|j: int| 0 <= j < i ==> (#[trigger] scores@[j]).pubkey != p,
        decreases scores.len() - i,
    {
        if scores[i].pubkey == p {
            return Some(i);
        }
        i += 1;
    }
    None
}

/// Whether one of `entries` is for the relay `url`.
pub fn lists_relay(entries: &Vec<RelayScore>, url: &RelayUrl) -> (r: bool)
    ensures
        r == exists|k: int| 0 <= k < entries.len() && (#[trigger] entries@[k]).url@ == url@,
{
    let mut i: usize = 0;
    while i < entries.len()
        invariant
            i <= entries.len(),
            forall|j: int| 0 <= j < i ==> (#[trigger] entries@[j]).url@ != url@,
        decreases entries.len() - i,
    {
        if entries[i].url.same_as(url) {
            return true;
        }
        i += 1;
    }
    false
}

/// Whether the relay `url` is on the list of relays of `p`.
pub fn on_list(scores: &Vec<PersonScores>, p: PublicKey, url: &RelayUrl) -> (r: bool)
    requires
        distinct_people(scores@),
    ensures
        r == names_relay(scores@, p, url@),
{
    match find_person(scores, p) {
        Some(i) => {
            let r = lists_relay(&scores[i].scores, url);
            proof {
                let s = scores@;
                if names_relay(s, p, url@) {
                    let (i2, k2) = choose|i2: int, k2: int|
                        0 <= i2 < s.len() && 0 <= k2 < s[i2].scores@.len() && s[i2].pubkey == p && (
                        #[trigger] s[i2].scores@[k2]).url@ == url@;
                    assert(i2 == i);
                }
                if r {
                    let k = choose|k: int|
                        0 <= k < s[i as int].scores@.len() && (#[trigger] s[i as int].scores@[k]).url@
                            == url@;
                    assert(s[i as int].scores@[k].url@ == url@);
                }
            }
            r
        },
        None => false,
    }
}

} // verus!
