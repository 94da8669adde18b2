//! The relay picker: which relay to engage next, and which of the followed
//! identities it is to cover.

pub mod collect;
pub mod laws;
pub mod lookup;
pub mod model;
pub mod pick;
pub mod tracker;
pub mod update;

pub use tracker::RelayTracker;

use vstd::prelude::*;
use crate::error::CoreError;
use crate::keys::{contains_key, PublicKey};
use crate::url::RelayUrl;

verus! {

/// A relay and the identities whose general feed it serves, or will serve.
#[derive(Debug)]
pub struct RelayAssignment {
    pub relay_url: RelayUrl,
    pub pubkeys: Vec<PublicKey>,
}

/// `a`, and after it the identities of `b` that are not there yet, each
/// once, in the order of `b`.
pub open spec fn union_keys(a: Seq<PublicKey>, b: Seq<PublicKey>) -> Seq<PublicKey>
    decreases b.len(),
{
    if b.len() == 0 {
        a
    } else {
        let u = union_keys(a, b.drop_last());
        if u.contains(b.last()) {
            u
        } else {
            u.push(b.last())
        }
    }
}

/// The union holds exactly what either holds, and nothing twice if `a`
/// held nothing twice.
pub proof fn lemma_union_keys(a: Seq<PublicKey>, b: Seq<PublicKey>)
    ensures
        forall|p: PublicKey|
            union_keys(a, b).contains(p) <==> a.contains(p) || b.contains(p),
        a.no_duplicates() ==> union_keys(a, b).no_duplicates(),
        a.is_prefix_of(union_keys(a, b)),
    decreases b.len(),
{
    if b.len() > 0 {
        let rest = b.drop_last();
        lemma_union_keys(a, rest);
        let u = union_keys(a, rest);
        let full = union_keys(a, b);
        assert forall|p: PublicKey| full.contains(p) <==> a.contains(p) || b.contains(p) by {
            if b.contains(p) {
                let i = choose|i: int| 0 <= i < b.len() && b[i] == p;
                if i < rest.len() {
                    assert(rest[i] == p);
                    assert(rest.contains(p));
                }
            }
            if rest.contains(p) {
                let i = choose|i: int| 0 <= i < rest.len() && rest[i] == p;
                assert(b[i] == p);
            }
            if u.contains(b.last()) {
            } else {
                if full.contains(p) {
                    let i = choose|i: int| 0 <= i < full.len() && full[i] == p;
                    if i < u.len() {
                        assert(u[i] == p);
                    } else {
                        assert(p == b.last());
                        assert(b[b.len() - 1] == p);
                    }
                }
                if u.contains(p) {
                    let i = choose|i: int| 0 <= i < u.len() && u[i] == p;
                    assert(full[i] == p);
                }
                if p == b.last() {
                    assert(full[full.len() - 1] == p);
                }
            }
        }
    }
}

impl RelayAssignment {
    /// Whether no identity is held twice.
    pub open spec fn wf(&self) -> bool {
        self.pubkeys@.no_duplicates()
    }

    /// Takes over the identities of `other`, an assignment for the same
    /// relay; one that is held already is not added again. An assignment
    /// for another relay is refused, and nothing changes.
    pub fn merge_in(&mut self, other: RelayAssignment) -> (r: Result<(), CoreError>)
        ensures
            match r {
                Ok(_) => old(self).relay_url@ == other.relay_url@ && final(self).relay_url == old(self).relay_url && final(self).pubkeys@ == union_keys(
                    old(self).pubkeys@,
                    other.pubkeys@,
                ),
                Err(CoreError::MergeDifferentRelays) => old(self).relay_url@ != other.relay_url@
                    && *final(self) == *old(self),
                Err(_) => false,
            },
            old(self).wf() ==> final(self).wf(),
    {
        if !self.relay_url.same_as(&other.relay_url) {
            return Err(CoreError::MergeDifferentRelays);
        }
        let mut i: usize = 0;
        while i < other.pubkeys.len()
            invariant
                i <= other.pubkeys.len(),
                self.relay_url == old(self).relay_url,
                self.pubkeys@ == union_keys(old(self).pubkeys@, other.pubkeys@.take(i as int)),
            decreases other.pubkeys.len() - i,
        {
            let p = other.pubkeys[i];
            assert(other.pubkeys@.take(i + 1).drop_last() == other.pubkeys@.take(i as int));
            if !contains_key(&self.pubkeys, p) {
                self.pubkeys.push(p);
            }
            i += 1;
        }
        proof {
            assert(other.pubkeys@.take(i as int) == other.pubkeys@);
            lemma_union_keys(old(self).pubkeys@, other.pubkeys@);
        }
        Ok(())
    }
}

/// Why the planner could not pick a relay.
#[derive(Clone, Copy, Debug, PartialEq, Eq, Structural)]
pub enum RelayPickFailure {
    /// There are no relays to pick from.
    NoRelays,
    /// Nobody is left who seeks a relay: the good end.
    NoPeopleLeft,
    /// No relay would serve anyone who still seeks one: stuck.
    NoProgress,
}

impl RelayPickFailure {
    /// The failure in words.
    pub fn to_string(&self) -> (r: String)
        ensures
            r@ == match *self {
                RelayPickFailure::NoRelays => "No relays to pick from."@,
                RelayPickFailure::NoPeopleLeft => "All people accounted for."@,
                RelayPickFailure::NoProgress => "Unable to make further progress."@,
            },
    {
        match self {
            RelayPickFailure::NoRelays => "No relays to pick from.".to_owned(),
            RelayPickFailure::NoPeopleLeft => "All people accounted for.".to_owned(),
            RelayPickFailure::NoProgress => "Unable to make further progress.".to_owned(),
        }
    }
}

} // verus!
