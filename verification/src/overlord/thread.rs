//! Where a thread is read from, and who is asked for whose metadata.

use vstd::prelude::*;
use crate::comms::{
    DetailView, RelayConnectionReason, RelayJob, ToMinionMessage, ToMinionPayload,
    ToMinionPayloadDetail,
};
use crate::keys::{Id, PublicKey};
use crate::overlord::fanout::{
    each_engaged, first_urls, jobs_for_each, push_first_urls, Engage,
};
use crate::overlord::sorted::{sort_ids, sort_urls, sorted_ids_of, sorted_set_of};
use crate::url::has_url;
use crate::relays::RelayAssignment;
use crate::relays::model::PersonScores;
use crate::url::RelayUrl;

verus! {

/// An event that another refers to, and the relay, if any, at which it
/// is said to be found.
#[derive(Debug)]
pub struct Referred {
    pub id: Id,
    pub relay: Option<RelayUrl>,
}

/// The ids of the events referred to.
pub open spec fn referred_ids(referred: Seq<Referred>) -> Seq<Id>
    decreases referred.len(),
{
    if referred.len() == 0 {
        Seq::empty()
    } else {
        referred_ids(referred.drop_last()).push(referred.last().id)
    }
}

/// The relays at which the events referred to are said to be found.
pub open spec fn referred_relays(referred: Seq<Referred>) -> Seq<RelayUrl>
    decreases referred.len(),
{
    if referred.len() == 0 {
        Seq::empty()
    } else {
        let rest = referred_relays(referred.drop_last());
        match referred.last().relay {
            Some(url) => rest.push(url),
            None => rest,
        }
    }
}

/// What is known of a thread when the user opens it.
#[derive(Debug)]
pub struct ThreadContext {
    /// The relays that the user interface names.
    pub relays: Vec<RelayUrl>,
    /// The relays on which the event was seen from which the user came.
    pub seen_on_referencing: Vec<RelayUrl>,
    /// The relays on which the event itself was seen.
    pub seen_on_event: Vec<RelayUrl>,
    /// The relays to which the author of the event writes, best first;
    /// none where the author is not known.
    pub author_relays: Vec<RelayUrl>,
    /// The highest ancestor of the event that we have, the event itself
    /// where we have no ancestor of it, or nothing where we do not have
    /// the event.
    pub highest_local_parent: Option<Id>,
    /// The events that this highest ancestor refers to.
    pub referred: Vec<Referred>,
    /// The relays that this highest ancestor names for the people it
    /// mentions, who may well have written what it answers.
    pub people_relays: Vec<RelayUrl>,
}

/// What the host is to do to show a thread.
#[derive(Debug)]
pub struct ThreadFeedPlan {
    /// The event from which the thread is shown.
    pub parent: Id,
    /// The order to every worker to end its subscription to the thread
    /// that was shown before; nothing where no relay is known for the
    /// new thread.
    pub cancel: Option<ToMinionMessage>,
    /// The relays to engage.
    pub engage: Vec<Engage>,
}

/// The relays that may know a thread: those that are named or have seen
/// the events; the author's, where those are fewer than two; and those
/// that the highest ancestor names.
pub open spec fn thread_candidates(c: ThreadContext) -> Seq<RelayUrl> {
    let known = c.relays@ + c.seen_on_referencing@ + c.seen_on_event@;
    let widened = if known.len() < 2 {
        known + c.author_relays@
    } else {
        known
    };
    widened + referred_relays(c.referred@) + c.people_relays@
}

/// The events that may be missing from a thread of the event `id`: the
/// event itself where we do not have it, and those that its highest
/// ancestor refers to.
pub open spec fn missing_candidates(id: Id, c: ThreadContext) -> Seq<Id> {
    let own = if c.highest_local_parent is None {
        seq![id]
    } else {
        Seq::empty()
    };
    own + referred_ids(c.referred@)
}

/// What the host is to do to show the thread of the event `id`. The
/// thread is shown from the highest ancestor that we have, or from the
/// event itself. Where a relay may know the thread, every worker is told
/// to end the thread it had, and each such relay is engaged, once, in the
/// order of the relays' texts, to read the thread with the events that
/// may be missing, each once, in the order of their texts in hexadecimal
/// digits.
pub fn set_thread_feed(id: Id, context: ThreadContext) -> (r: ThreadFeedPlan)
    ensures
        r.parent == match context.highest_local_parent {
            Some(parent) => parent,
            None => id,
        },
        thread_candidates(context).len() == 0 ==> r.cancel is None && r.engage@.len() == 0,
        thread_candidates(context).len() > 0 ==> {
            &&& r.cancel matches Some(m)
            &&& m@.target == "all"@
            &&& m@.payload.job_id == 0
            &&& m@.payload.detail == DetailView::UnsubscribeThreadFeed
            &&& exists|urls: Seq<RelayUrl>, ancestors: Seq<Id>|
                sorted_set_of(urls, thread_candidates(context)) && sorted_ids_of(
                    ancestors,
                    missing_candidates(id, context),
                ) && #[trigger] each_engaged(
                    urls,
                    r.engage@,
                    RelayConnectionReason::ReadThread,
                    DetailView::SubscribeThreadFeed(id, ancestors),
                )
        },
{
    let ghost c = context;
    let context = context;
    let mut missing: Vec<Id> = Vec::new();
    let parent = match context.highest_local_parent {
        Some(parent) => parent,
        None => {
            missing.push(id);
            id
        },
    };
    let mut all: Vec<RelayUrl> = context.relays;
    let mut more = context.seen_on_referencing;
    all.append(&mut more);
    let mut more = context.seen_on_event;
    all.append(&mut more);
    if all.len() < 2 {
        let mut more = context.author_relays;
        all.append(&mut more);
    }
    let ghost widened = all@;
    let ghost own = missing@;
    let mut i: usize = 0;
    assert(context.referred@.take(0) =~= Seq::empty());
    assert(all@ =~= widened + referred_relays(context.referred@.take(0)));
    assert(missing@ =~= own + referred_ids(context.referred@.take(0)));
    while i < context.referred.len()
        invariant
            i <= context.referred.len(),
            all@ == widened + referred_relays(context.referred@.take(i as int)),
            missing@ == own + referred_ids(context.referred@.take(i as int)),
        decreases context.referred.len() - i,
    {
        assert(context.referred@.take(i + 1).drop_last() =~= context.referred@.take(i as int));
        let entry = &context.referred[i];
        missing.push(entry.id);
        match &entry.relay {
            Some(url) => {
                all.push(url.clone());
            },
            None => {},
        }
        assert(all@ =~= widened + referred_relays(context.referred@.take(i + 1)));
        assert(missing@ =~= own + referred_ids(context.referred@.take(i + 1)));
        i += 1;
    }
    assert(context.referred@.take(i as int) =~= context.referred@);
    let mut more = context.people_relays;
    all.append(&mut more);
    let ghost candidates = all@;
    assert(candidates == thread_candidates(c));
    assert(missing@ =~= missing_candidates(id, c));
    let urls = sort_urls(&all);
    let ancestors = sort_ids(&missing);
    let ghost sorted = urls@;
    let ghost found = ancestors@;
    if urls.len() == 0 {
        proof {
            if candidates.len() > 0 {
                assert(has_url(candidates, candidates[0]@));
                assert(has_url(sorted, candidates[0]@));
            }
        }
        return ThreadFeedPlan { parent, cancel: None, engage: Vec::new() };
    }
    proof {
        assert(has_url(sorted, sorted[0]@));
        assert(has_url(candidates, sorted[0]@));
    }
    let cancel = ToMinionMessage::to_all(
        ToMinionPayload { job_id: 0, detail: ToMinionPayloadDetail::UnsubscribeThreadFeed },
    );
    let detail = ToMinionPayloadDetail::SubscribeThreadFeed(id, ancestors);
    let engage = jobs_for_each(urls, RelayConnectionReason::ReadThread, &detail);
    let plan = ThreadFeedPlan { parent, cancel: Some(cancel), engage };
    proof {
        assert(sorted_set_of(sorted, thread_candidates(c)));
        assert(sorted_ids_of(found, missing_candidates(id, c)));
        assert(each_engaged(
            sorted,
            plan.engage@,
            RelayConnectionReason::ReadThread,
            DetailView::SubscribeThreadFeed(id, found),
        ));
    }
    plan
}

/// From how many relays the metadata of a person is asked where the
/// person's feed is read from `num_relays_per_person`: from one more,
/// metadata mattering more than the feed.
pub fn metadata_relays_per_person(num_relays_per_person: u8) -> (r: usize)
    ensures
        r == num_relays_per_person + 1,
{
    let n: usize = num_relays_per_person as usize;
    n + 1
}

/// A relay and the people to ask it for.
pub struct Group {
    pub url: RelayUrl,
    pub pubkeys: Seq<PublicKey>,
}

/// Whether the relay `url` has a group.
pub open spec fn has_group(groups: Seq<Group>, url: Seq<char>) -> bool {
    exists|i: int| 0 <= i < groups.len() && (#[trigger] groups[i]).url@ == url
}

/// The groups with `p` added to the group of the relay `url`, or with a
/// new group for the relay at the end.
pub open spec fn group_put(groups: Seq<Group>, url: RelayUrl, p: PublicKey) -> Seq<Group> {
    if has_group(groups, url@) {
        let i = choose|i: int|
            0 <= i < groups.len() && (#[trigger] groups[i]).url@ == url@ && forall|j: int|
                0 <= j < i ==> (#[trigger] groups[j]).url@ != url@;
        groups.update(i, Group { url: groups[i].url, pubkeys: groups[i].pubkeys.push(p) })
    } else {
        groups.push(Group { url, pubkeys: seq![p] })
    }
}

/// The groups with `p` added to the group of each of `urls`.
pub open spec fn group_put_all(groups: Seq<Group>, urls: Seq<RelayUrl>, p: PublicKey) -> Seq<Group>
    decreases urls.len(),
{
    if urls.len() == 0 {
        groups
    } else {
        group_put(group_put_all(groups, urls.drop_last(), p), urls.last(), p)
    }
}

/// The people sorted into the relays at which to ask for them: each into
/// the first `n` relays of its list.
pub open spec fn grouped(people: Seq<PersonScores>, n: nat) -> Seq<Group>
    decreases people.len(),
{
    if people.len() == 0 {
        Seq::empty()
    } else {
        group_put_all(
            grouped(people.drop_last(), n),
            first_urls(people.last().scores@, n),
            people.last().pubkey,
        )
    }
}

/// The groups that the assignments stand for.
pub open spec fn groups_of(assignments: Seq<RelayAssignment>) -> Seq<Group> {
    assignments.map_values(|a: RelayAssignment| Group { url: a.relay_url, pubkeys: a.pubkeys@ })
}

/// Adds `p` to the group of the relay `url`.
fn put_in_group(groups: &mut Vec<RelayAssignment>, url: RelayUrl, p: PublicKey)
    ensures
        groups_of(final(groups)@) == group_put(groups_of(old(groups)@), url, p),
{
    let ghost before = groups_of(groups@);
    assert(before.len() == groups@.len());
    assert forall|j: int| 0 <= j < before.len() implies (#[trigger] before[j]).url
        == groups@[j].relay_url && before[j].pubkeys == groups@[j].pubkeys@ by {}
    match crate::relays::lookup::find_assignment(groups, &url) {
        Some(i) => {
            proof {
                assert(before[i as int].url@ == url@);
                assert forall|j: int| 0 <= j < i implies (#[trigger] before[j]).url@ != url@ by {
                    assert(groups@[j].relay_url@ != url@);
                }
                let chosen = choose|c: int|
                    0 <= c < before.len() && (#[trigger] before[c]).url@ == url@ && forall|j: int|
                        0 <= j < c ==> (#[trigger] before[j]).url@ != url@;
                if chosen < i {
                    assert(before[chosen].url@ != url@);
                }
                if i < chosen {
                    assert(before[i as int].url@ != url@);
                }
                assert(chosen == i);
            }
            let mut a = groups.remove(i);
            a.pubkeys.push(p);
            groups.insert(i, a);
            assert(groups_of(groups@) =~= group_put(before, url, p));
        },
        None => {
            proof {
                if has_group(before, url@) {
                    let c = choose|c: int|
                        0 <= c < before.len() && (#[trigger] before[c]).url@ == url@;
                    assert(groups@[c].relay_url@ != url@);
                }
            }
            let mut pubkeys: Vec<PublicKey> = Vec::new();
            pubkeys.push(p);
            groups.push(RelayAssignment { relay_url: url, pubkeys });
            assert(groups_of(groups@) =~= group_put(before, url, p));
        },
    }
}

/// The people sorted into the relays at which to ask for them: each into
/// the first `n` relays of its list. A relay's group holds the people in
/// the order in which they come; the groups stand in the order in which
/// their relays first come.
pub fn group_by_relay(people: &Vec<PersonScores>, n: usize) -> (r: Vec<RelayAssignment>)
    ensures
        groups_of(r@) == grouped(people@, n as nat),
{
    let mut groups: Vec<RelayAssignment> = Vec::new();
    let mut i: usize = 0;
    assert(people@.take(0) =~= Seq::empty());
    assert(groups_of(groups@) =~= grouped(people@.take(0), n as nat));
    while i < people.len()
        invariant
            i <= people.len(),
            groups_of(groups@) == grouped(people@.take(i as int), n as nat),
        decreases people.len() - i,
    {
        assert(people@.take(i + 1).drop_last() =~= people@.take(i as int));
        let person = &people[i];
        let mut urls: Vec<RelayUrl> = Vec::new();
        push_first_urls(&mut urls, &person.scores, n);
        assert(urls@ =~= first_urls(person.scores@, n as nat));
        let ghost start = groups_of(groups@);
        let mut k: usize = 0;
        assert(urls@.take(0) =~= Seq::empty());
        while k < urls.len()
            invariant
                k <= urls.len(),
                groups_of(groups@) == group_put_all(start, urls@.take(k as int), person.pubkey),
            decreases urls.len() - k,
        {
            assert(urls@.take(k + 1).drop_last() =~= urls@.take(k as int));
            put_in_group(&mut groups, urls[k].clone(), person.pubkey);
            k += 1;
        }
        assert(urls@.take(k as int) =~= urls@);
        i += 1;
    }
    assert(people@.take(i as int) =~= people@);
    groups
}

/// Whether `out` engages the relay of each group, in their order, with
/// one job to fetch the metadata of the people of the group, under an id
/// that is not 0.
pub open spec fn metadata_engaged(groups: Seq<RelayAssignment>, out: Seq<Engage>) -> bool {
    &&& out.len() == groups.len()
    &&& forall|i: int|
        0 <= i < groups.len() ==> {
            &&& (#[trigger] out[i]).url == groups[i].relay_url
            &&& out[i].jobs@.len() == 1
            &&& out[i].jobs@[0].reason == RelayConnectionReason::FetchMetadata
            &&& out[i].jobs@[0].payload.detail@ == DetailView::TempSubscribeMetadata(
                groups[i].pubkeys@,
            )
            &&& out[i].jobs@[0].payload.job_id != 0
        }
}

/// The jobs that fetch the metadata of the people of each group from
/// the group's relay.
pub fn metadata_jobs(groups: Vec<RelayAssignment>) -> (r: Vec<Engage>)
    ensures
        metadata_engaged(groups@, r@),
{
    let mut groups = groups;
    let ghost all = groups@;
    let ghost mut done: int = 0;
    let mut out: Vec<Engage> = Vec::new();
    assert(all.skip(0) =~= all);
    while groups.len() > 0
        invariant
            0 <= done <= all.len(),
            groups@ == all.skip(done),
            metadata_engaged(all.take(done), out@),
        decreases groups.len(),
    {
        let group = groups.remove(0);
        proof {
            assert(group == all[done]);
            assert(all.skip(done).remove(0) =~= all.skip(done + 1));
        }
        let ghost so_far = out@;
        let job = RelayJob::fresh(
            RelayConnectionReason::FetchMetadata,
            ToMinionPayloadDetail::TempSubscribeMetadata(group.pubkeys),
        );
        let mut jobs: Vec<RelayJob> = Vec::new();
        jobs.push(job);
        out.push(Engage { url: group.relay_url, jobs });
        proof {
            assert forall|i: int| 0 <= i < done + 1 implies {
                &&& (#[trigger] out@[i]).url == all.take(done + 1)[i].relay_url
                &&& out@[i].jobs@.len() == 1
                &&& out@[i].jobs@[0].reason == RelayConnectionReason::FetchMetadata
                &&& out@[i].jobs@[0].payload.detail@ == DetailView::TempSubscribeMetadata(
                    all.take(done + 1)[i].pubkeys@,
                )
                &&& out@[i].jobs@[0].payload.job_id != 0
            } by {
                if i < done {
                    assert(out@[i] == so_far[i]);
                    assert(all.take(done)[i] == all.take(done + 1)[i]);
                }
            }
            done = done + 1;
        }
    }
    assert(all.take(done) =~= all);
    out
}

} // verus!
