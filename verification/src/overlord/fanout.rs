//! Which relays a command goes out to, and with which jobs.

use vstd::prelude::*;
use crate::comms::{
    DetailView, DmChannel, Event, EventAddr, RelayConnectionReason, RelayJob, ToMinionMessage,
    ToMinionPayloadDetail,
};
use crate::error::CoreError;
use crate::keys::{Id, PublicKey};
use crate::overlord::sorted::{sort_urls, sorted_set_of};
use crate::relay::Relay;
use crate::relays::RelayAssignment;
use crate::relays::model::RelayScore;
use crate::url::{contains_url, distinct_urls, has_url, RelayUrl};

verus! {

/// A relay to engage, and the jobs to engage it with.
#[derive(Debug)]
pub struct Engage {
    pub url: RelayUrl,
    pub jobs: Vec<RelayJob>,
}

/// The URLs of the relays that may be used for `bits`: those that serve
/// them and are not of rank 0.
pub open spec fn usable_urls(relays: Seq<Relay>, bits: u64) -> Seq<RelayUrl>
    decreases relays.len(),
{
    if relays.len() == 0 {
        Seq::empty()
    } else {
        let rest = usable_urls(relays.drop_last(), bits);
        if relays.last().spec_usable_for(bits) {
            rest.push(relays.last().url)
        } else {
            rest
        }
    }
}

/// The URLs of the relays that may be used for `bits`.
pub fn relays_usable_for(relays: &Vec<Relay>, bits: u64) -> (r: Vec<RelayUrl>)
    ensures
        r@ == usable_urls(relays@, bits),
{
    let mut out: Vec<RelayUrl> = Vec::new();
    let mut i: usize = 0;
    assert(relays@.take(0) =~= Seq::empty());
    while i < relays.len()
        invariant
            i <= relays.len(),
            out@ == usable_urls(relays@.take(i as int), bits),
        decreases relays.len() - i,
    {
        assert(relays@.take(i + 1).drop_last() =~= relays@.take(i as int));
        if relays[i].usable_for(bits) {
            out.push(relays[i].url.clone());
        }
        i += 1;
    }
    assert(relays@.take(i as int) =~= relays@);
    out
}

/// The URLs, each once, in the order in which they first come.
pub open spec fn deduped(urls: Seq<RelayUrl>) -> Seq<RelayUrl>
    decreases urls.len(),
{
    if urls.len() == 0 {
        Seq::empty()
    } else {
        let rest = deduped(urls.drop_last());
        if has_url(rest, urls.last()@) {
            rest
        } else {
            rest.push(urls.last())
        }
    }
}

/// Deduplication keeps every URL, and keeps none twice.
pub proof fn lemma_deduped(urls: Seq<RelayUrl>)
    ensures
        distinct_urls(deduped(urls)),
        forall|u: Seq<char>|
            #![trigger has_url(deduped(urls), u)]
            #![trigger has_url(urls, u)]
            has_url(deduped(urls), u) == has_url(urls, u),
    decreases urls.len(),
{
    let out = deduped(urls);
    if urls.len() > 0 {
        let rest = urls.drop_last();
        let last = urls.last();
        lemma_deduped(rest);
        let inner = deduped(rest);
        assert forall|u: Seq<char>|
            #![trigger has_url(out, u)]
            #![trigger has_url(urls, u)]
            has_url(out, u) == has_url(urls, u) by {
            if has_url(out, u) {
                let j = choose|j: int| 0 <= j < out.len() && (#[trigger] out[j])@ == u;
                if j < inner.len() {
                    assert(inner[j]@ == u);
                    assert(has_url(inner, u));
                    assert(has_url(rest, u));
                    let i = choose|i: int| 0 <= i < rest.len() && (#[trigger] rest[i])@ == u;
                    assert(urls[i]@ == u);
                } else {
                    assert(urls[urls.len() - 1]@ == u);
                }
            }
            if has_url(urls, u) {
                let i = choose|i: int| 0 <= i < urls.len() && (#[trigger] urls[i])@ == u;
                if i < rest.len() {
                    assert(rest[i]@ == u);
                    assert(has_url(rest, u));
                    assert(has_url(inner, u));
                    let j = choose|j: int| 0 <= j < inner.len() && (#[trigger] inner[j])@ == u;
                    assert(out[j]@ == u);
                } else {
                    if has_url(inner, last@) {
                        let j = choose|j: int|
                            0 <= j < inner.len() && (#[trigger] inner[j])@ == last@;
                        assert(out[j]@ == u);
                    } else {
                        assert(out[out.len() - 1]@ == u);
                    }
                }
            }
        }
        assert forall|i: int, j: int|
            0 <= i < out.len() && 0 <= j < out.len() && i != j implies #[trigger] out[i]@
            != #[trigger] out[j]@ by {
            if i < inner.len() && j < inner.len() {
                assert(out[i] == inner[i] && out[j] == inner[j]);
            } else if i < inner.len() {
                assert(out[i] == inner[i]);
            } else {
                assert(out[j] == inner[j]);
            }
        }
    }
}

/// The URLs, each once, in the order in which they first come.
pub fn dedup_urls(urls: &Vec<RelayUrl>) -> (r: Vec<RelayUrl>)
    ensures
        r@ == deduped(urls@),
        distinct_urls(r@),
        forall|u: Seq<char>|
            #![trigger has_url(r@, u)]
            #![trigger has_url(urls@, u)]
            has_url(r@, u) == has_url(urls@, u),
{
    let mut out: Vec<RelayUrl> = Vec::new();
    let mut i: usize = 0;
    assert(urls@.take(0) =~= Seq::empty());
    while i < urls.len()
        invariant
            i <= urls.len(),
            out@ == deduped(urls@.take(i as int)),
        decreases urls.len() - i,
    {
        assert(urls@.take(i + 1).drop_last() =~= urls@.take(i as int));
        if !contains_url(&out, &urls[i]) {
            out.push(urls[i].clone());
        }
        i += 1;
    }
    assert(urls@.take(i as int) =~= urls@);
    proof {
        lemma_deduped(urls@);
    }
    out
}

/// The URLs of the first `n` of `scores`, or of all where there are fewer.
pub open spec fn first_urls(scores: Seq<RelayScore>, n: nat) -> Seq<RelayUrl>
    decreases scores.len(),
{
    if scores.len() == 0 {
        Seq::empty()
    } else if scores.len() > n {
        first_urls(scores.drop_last(), n)
    } else {
        first_urls(scores.drop_last(), n).push(scores.last().url)
    }
}

/// Appends to `out` the URLs of the first `n` of `scores`.
pub fn push_first_urls(out: &mut Vec<RelayUrl>, scores: &Vec<RelayScore>, n: usize)
    ensures
        final(out)@ == old(out)@ + first_urls(scores@, n as nat),
{
    let mut i: usize = 0;
    assert(scores@.take(0) =~= Seq::empty());
    assert(out@ =~= old(out)@ + first_urls(scores@.take(0), n as nat));
    while i < scores.len() && i < n
        invariant
            i <= scores.len(),
            i <= n,
            out@ == old(out)@ + first_urls(scores@.take(i as int), n as nat),
        decreases scores.len() - i,
    {
        assert(scores@.take(i + 1).drop_last() =~= scores@.take(i as int));
        out.push(scores[i].url.clone());
        assert(out@ =~= old(out)@ + first_urls(scores@.take(i + 1), n as nat));
        i += 1;
    }
    proof {
        lemma_first_urls_stop(scores@, i as int, n as nat);
    }
}

/// Past the first `n`, or where there are no more, nothing is added.
pub proof fn lemma_first_urls_stop(scores: Seq<RelayScore>, i: int, n: nat)
    requires
        0 <= i <= scores.len(),
        i == n || i == scores.len(),
        i <= n,
    ensures
        first_urls(scores, n) == first_urls(scores.take(i), n),
    decreases scores.len(),
{
    if i == scores.len() {
        assert(scores.take(i) =~= scores);
    } else {
        lemma_first_urls_stop(scores.drop_last(), i, n);
        assert(scores.drop_last().take(i) =~= scores.take(i));
    }
}

/// The URLs of the first `n` relays of each list, list after list.
pub open spec fn best_urls(lists: Seq<Vec<RelayScore>>, n: nat) -> Seq<RelayUrl>
    decreases lists.len(),
{
    if lists.len() == 0 {
        Seq::empty()
    } else {
        best_urls(lists.drop_last(), n) + first_urls(lists.last()@, n)
    }
}

/// The relays that a post is meant for: the two best relays to read of
/// each person tagged in it, then every relay that we write to.
pub open spec fn post_candidates(tagged: Seq<Vec<RelayScore>>, relays: Seq<Relay>) -> Seq<
    RelayUrl,
> {
    best_urls(tagged, 2) + usable_urls(relays, Relay::WRITE)
}

/// The relays that a post goes out to: the two best relays to read of
/// each person tagged in it, and every relay that we write to; each relay
/// once, in the order of their texts. `tagged` holds, for each person
/// tagged in the post, the relays that the person reads, best first;
/// `relays` are the relays on record.
pub fn post_relay_urls(tagged: &Vec<Vec<RelayScore>>, relays: &Vec<Relay>) -> (r: Vec<RelayUrl>)
    ensures
        sorted_set_of(r@, post_candidates(tagged@, relays@)),
        distinct_urls(r@),
{
    let mut all: Vec<RelayUrl> = Vec::new();
    let mut i: usize = 0;
    assert(tagged@.take(0) =~= Seq::empty());
    while i < tagged.len()
        invariant
            i <= tagged.len(),
            all@ == best_urls(tagged@.take(i as int), 2),
        decreases tagged.len() - i,
    {
        assert(tagged@.take(i + 1).drop_last() =~= tagged@.take(i as int));
        push_first_urls(&mut all, &tagged[i], 2);
        i += 1;
    }
    assert(tagged@.take(i as int) =~= tagged@);
    let mut writes = relays_usable_for(relays, Relay::WRITE);
    all.append(&mut writes);
    sort_urls(&all)
}

/// The relays that the deletion of an event goes out to: every relay that
/// we write to, and the relays on which the event was seen; each relay
/// once, in the order of their texts.
pub fn delete_relay_urls(relays: &Vec<Relay>, seen_on: Vec<RelayUrl>) -> (r: Vec<RelayUrl>)
    ensures
        sorted_set_of(r@, usable_urls(relays@, Relay::WRITE) + seen_on@),
        distinct_urls(r@),
{
    let mut all = relays_usable_for(relays, Relay::WRITE);
    let mut seen_on = seen_on;
    all.append(&mut seen_on);
    sort_urls(&all)
}

/// Whether `out` engages each of `urls`, in their order, with one job for
/// `reason` that carries the order `detail` under an id that is not 0.
pub open spec fn each_engaged(
    urls: Seq<RelayUrl>,
    out: Seq<Engage>,
    reason: RelayConnectionReason,
    detail: DetailView,
) -> bool {
    &&& out.len() == urls.len()
    &&& forall|i: int|
        0 <= i < urls.len() ==> {
            &&& (#[trigger] out[i]).url == urls[i]
            &&& out[i].jobs@.len() == 1
            &&& out[i].jobs@[0].reason == reason
            &&& out[i].jobs@[0].payload.detail@ == detail
            &&& out[i].jobs@[0].payload.job_id != 0
        }
}

/// One job for `reason` with the order `detail` for each of `urls`, each
/// job under a fresh id.
pub fn jobs_for_each(
    urls: Vec<RelayUrl>,
    reason: RelayConnectionReason,
    detail: &ToMinionPayloadDetail,
) -> (r: Vec<Engage>)
    ensures
        each_engaged(urls@, r@, reason, detail@),
{
    let mut urls = urls;
    let ghost all = urls@;
    let ghost mut done: int = 0;
    let mut out: Vec<Engage> = Vec::new();
    assert(all.skip(0) =~= all);
    while urls.len() > 0
        invariant
            0 <= done <= all.len(),
            urls@ == all.skip(done),
            each_engaged(all.take(done), out@, reason, detail@),
        decreases urls.len(),
    {
        let url = urls.remove(0);
        proof {
            assert(url == all[done]);
            assert(all.skip(done).remove(0) =~= all.skip(done + 1));
        }
        let ghost so_far = out@;
        let job = RelayJob::fresh(reason, detail.clone());
        let mut jobs: Vec<RelayJob> = Vec::new();
        jobs.push(job);
        out.push(Engage { url, jobs });
        proof {
            assert forall|i: int| 0 <= i < done + 1 implies {
                &&& (#[trigger] out@[i]).url == all.take(done + 1)[i]
                &&& out@[i].jobs@.len() == 1
                &&& out@[i].jobs@[0].reason == reason
                &&& out@[i].jobs@[0].payload.detail@ == detail@
                &&& out@[i].jobs@[0].payload.job_id != 0
            } by {
                if i < done {
                    assert(out@[i] == so_far[i]);
                    assert(all.take(done)[i] == all.take(done + 1)[i]);
                }
            }
            done = done + 1;
        }
    }
    assert(all.take(done) =~= all);
    out
}

/// The jobs that make an assignment happen: to follow the identities it
/// holds, and to fetch what mentions us.
pub fn assignment_jobs(assignment: &RelayAssignment) -> (r: Vec<RelayJob>)
    ensures
        r@.len() == 2,
        r@[0].reason == RelayConnectionReason::Follow,
        r@[0].payload.detail@ == DetailView::SubscribeGeneralFeed(assignment.pubkeys@),
        r@[0].payload.job_id != 0,
        r@[1].reason == RelayConnectionReason::FetchMentions,
        r@[1].payload.detail@ == DetailView::SubscribeMentions,
        r@[1].payload.job_id != 0,
{
    let mut jobs: Vec<RelayJob> = Vec::new();
    jobs.push(
        RelayJob::fresh(
            RelayConnectionReason::Follow,
            ToMinionPayloadDetail::SubscribeGeneralFeed(
                crate::comms::copy_keys(&assignment.pubkeys),
            ),
        ),
    );
    jobs.push(
        RelayJob::fresh(
            RelayConnectionReason::FetchMentions,
            ToMinionPayloadDetail::SubscribeMentions,
        ),
    );
    jobs
}

/// The jobs to fetch the event `id` from `urls`: none where we have the
/// event, else one for each relay.
pub fn fetch_event(id: Id, urls: Vec<RelayUrl>, has_event: bool) -> (r: Vec<Engage>)
    ensures
        has_event ==> r@.len() == 0,
        !has_event ==> each_engaged(
            urls@,
            r@,
            RelayConnectionReason::FetchEvent,
            DetailView::FetchEvent(id),
        ),
{
    if has_event {
        Vec::new()
    } else {
        jobs_for_each(urls, RelayConnectionReason::FetchEvent, &ToMinionPayloadDetail::FetchEvent(id))
    }
}

/// The relay URLs among `texts`, in their order; what is no relay URL is
/// passed over.
pub open spec fn valid_urls(texts: Seq<String>, urls: Seq<RelayUrl>) -> bool
    decreases texts.len(),
{
    if texts.len() == 0 {
        urls.len() == 0
    } else {
        match crate::url::canonical_relay_url(texts.last()@) {
            Some(u) => urls.len() > 0 && urls.last()@ == u && valid_urls(
                texts.drop_last(),
                urls.drop_last(),
            ),
            None => valid_urls(texts.drop_last(), urls),
        }
    }
}

/// The relay URLs among `texts`.
pub fn parse_urls(texts: &Vec<String>) -> (r: Vec<RelayUrl>)
    ensures
        valid_urls(texts@, r@),
{
    let mut out: Vec<RelayUrl> = Vec::new();
    let mut i: usize = 0;
    assert(texts@.take(0) =~= Seq::empty());
    while i < texts.len()
        invariant
            i <= texts.len(),
            valid_urls(texts@.take(i as int), out@),
        decreases texts.len() - i,
    {
        assert(texts@.take(i + 1).drop_last() =~= texts@.take(i as int));
        let ghost so_far = out@;
        match RelayUrl::try_from_str(texts[i].as_str()) {
            Ok(u) => {
                out.push(u);
                assert(out@.drop_last() =~= so_far);
            },
            Err(_) => {},
        }
        i += 1;
    }
    assert(texts@.take(i as int) =~= texts@);
    out
}

/// The jobs to fetch the event at the address `ea`: one for each of the
/// relays that the address names, as far as they are relay URLs.
pub fn fetch_event_addr(ea: &EventAddr) -> (r: Vec<Engage>)
    ensures
        exists|urls: Seq<RelayUrl>|
            valid_urls(ea.relays@, urls) && #[trigger] each_engaged(
                urls,
                r@,
                RelayConnectionReason::FetchEvent,
                DetailView::FetchEventAddr(ea@),
            ),
{
    let urls = parse_urls(&ea.relays);
    let ghost witness = urls@;
    let detail = ToMinionPayloadDetail::FetchEventAddr(ea.clone());
    jobs_for_each(urls, RelayConnectionReason::FetchEvent, &detail)
}

/// To whom a direct message in the conversation `channel` goes: to the
/// other party, or to ourselves where there is none. A conversation of
/// more than two is refused.
pub fn dm_recipient(channel: &DmChannel, me: PublicKey) -> (r: Result<PublicKey, CoreError>)
    ensures
        match r {
            Ok(p) => channel.keys@.len() <= 1 && p == if channel.keys@.len() == 0 {
                me
            } else {
                channel.keys@[0]
            },
            Err(CoreError::GroupDmsNotYetSupported) => channel.keys@.len() > 1,
            Err(_) => false,
        },
{
    if channel.keys.len() > 1 {
        Err(CoreError::GroupDmsNotYetSupported)
    } else if channel.keys.len() == 0 {
        Ok(me)
    } else {
        Ok(channel.keys[0])
    }
}

/// How a relay is listed when we advertise our relays.
#[derive(Clone, Copy, Debug, PartialEq, Eq, Structural)]
pub enum RelayListUsage {
    /// We read there and write there.
    Both,
    /// We read there: others are to send there what is for us.
    Read,
    /// We write there: others find there what we post.
    Write,
}

/// An entry of our relay list.
#[derive(Debug)]
pub struct RelayListEntry {
    pub url: RelayUrl,
    pub usage: RelayListUsage,
}

/// How the relay is listed, if it is: as the inbox and outbox bits say.
pub open spec fn listed_as(relay: Relay) -> Option<RelayListUsage> {
    if relay.spec_has_usage_bits(Relay::INBOX) && relay.spec_has_usage_bits(Relay::OUTBOX) {
        Some(RelayListUsage::Both)
    } else if relay.spec_has_usage_bits(Relay::INBOX) {
        Some(RelayListUsage::Read)
    } else if relay.spec_has_usage_bits(Relay::OUTBOX) {
        Some(RelayListUsage::Write)
    } else {
        None
    }
}

/// Our relay list: the relays that are our inbox or our outbox.
pub open spec fn relay_list(relays: Seq<Relay>) -> Seq<RelayListEntry>
    decreases relays.len(),
{
    if relays.len() == 0 {
        Seq::empty()
    } else {
        let rest = relay_list(relays.drop_last());
        match listed_as(relays.last()) {
            Some(usage) => rest.push(RelayListEntry { url: relays.last().url, usage }),
            None => rest,
        }
    }
}

/// Our relay list, to be advertised.
pub fn relay_list_entries(relays: &Vec<Relay>) -> (r: Vec<RelayListEntry>)
    ensures
        r@ == relay_list(relays@),
{
    let mut out: Vec<RelayListEntry> = Vec::new();
    let mut i: usize = 0;
    assert(relays@.take(0) =~= Seq::empty());
    while i < relays.len()
        invariant
            i <= relays.len(),
            out@ == relay_list(relays@.take(i as int)),
        decreases relays.len() - i,
    {
        assert(relays@.take(i + 1).drop_last() =~= relays@.take(i as int));
        let relay = &relays[i];
        let inbox = relay.has_usage_bits(Relay::INBOX);
        let outbox = relay.has_usage_bits(Relay::OUTBOX);
        if inbox && outbox {
            out.push(RelayListEntry { url: relay.url.clone(), usage: RelayListUsage::Both });
        } else if inbox {
            out.push(RelayListEntry { url: relay.url.clone(), usage: RelayListUsage::Read });
        } else if outbox {
            out.push(RelayListEntry { url: relay.url.clone(), usage: RelayListUsage::Write });
        }
        i += 1;
    }
    assert(relays@.take(i as int) =~= relays@);
    out
}

/// The URLs of the relays that are our inbox or our outbox, whatever
/// their rank.
pub open spec fn mailbox_urls(relays: Seq<Relay>) -> Seq<RelayUrl>
    decreases relays.len(),
{
    if relays.len() == 0 {
        Seq::empty()
    } else {
        let rest = mailbox_urls(relays.drop_last());
        if listed_as(relays.last()) is Some {
            rest.push(relays.last().url)
        } else {
            rest
        }
    }
}

/// The URLs of the relays that are our inbox or our outbox: those on
/// which a private conversation is followed.
pub fn mailbox_relay_urls(relays: &Vec<Relay>) -> (r: Vec<RelayUrl>)
    ensures
        r@ == mailbox_urls(relays@),
{
    let mut out: Vec<RelayUrl> = Vec::new();
    let mut i: usize = 0;
    assert(relays@.take(0) =~= Seq::empty());
    while i < relays.len()
        invariant
            i <= relays.len(),
            out@ == mailbox_urls(relays@.take(i as int)),
        decreases relays.len() - i,
    {
        assert(relays@.take(i + 1).drop_last() =~= relays@.take(i as int));
        let relay = &relays[i];
        if relay.has_usage_bits(Relay::INBOX) || relay.has_usage_bits(Relay::OUTBOX) {
            out.push(relay.url.clone());
        }
        i += 1;
    }
    assert(relays@.take(i as int) =~= relays@);
    out
}

} // verus!
