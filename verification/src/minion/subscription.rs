//! The subscriptions that a worker holds at its relay, each under a name
//! that says what it is for.

use vstd::prelude::*;
use crate::error::CoreError;
use crate::minion::filter::{copy_filters, filter_views, ClientMessage, ClientMessageView, Filter};

verus! {

/// `textnonce::TextNonce::sized(32)`: a text of 32 characters of the
/// base64 alphabet, made of the time and of random bytes; or an error,
/// where the clock stands before 1970. The contract claims the length
/// alone.
#[verifier::external_body]
fn fresh_nonce() -> (r: Option<String>)
    ensures
        r matches Some(s) ==> s@.len() == 32,
{
    match textnonce::TextNonce::sized(32) {
        Ok(nonce) => Some(nonce.into_string()),
        Err(_) => None,
    }
}

/// One subscription: the id by which the relay knows it, the job it
/// serves, what it asks for, and whether the relay has sent all that it
/// had stored.
#[derive(Debug)]
pub struct Subscription {
    id: String,
    job_id: u64,
    filters: Vec<Filter>,
    eose: bool,
}

/// A subscription as mathematics.
pub struct SubscriptionView {
    pub id: Seq<char>,
    pub job_id: u64,
    pub filters: Seq<FilterView>,
    pub eose: bool,
}

pub use crate::minion::filter::FilterView;

impl View for Subscription {
    type V = SubscriptionView;

    closed spec fn view(&self) -> SubscriptionView {
        SubscriptionView {
            id: self.id@,
            job_id: self.job_id,
            filters: filter_views(self.filters@),
            eose: self.eose,
        }
    }
}

impl Subscription {
    /// A subscription under the id `id` that asks for nothing yet.
    pub fn with_id(id: String) -> (r: Subscription)
        ensures
            r@ == (SubscriptionView { id: id@, job_id: 0, filters: Seq::empty(), eose: false }),
    {
        let r = Subscription { id, job_id: 0, filters: Vec::new(), eose: false };
        assert(filter_views(r.filters@) =~= Seq::empty());
        r
    }

    /// A subscription under a fresh id that asks for nothing yet. It fails
    /// where no id can be made.
    pub fn new() -> (r: Result<Subscription, CoreError>)
        ensures
            match r {
                Ok(s) => s@.id.len() == 32 && s@.job_id == 0 && s@.filters == Seq::<
                    FilterView,
                >::empty() && !s@.eose,
                Err(e) => e is NoNonce,
            },
    {
        match fresh_nonce() {
            Some(id) => Ok(Subscription::with_id(id)),
            None => Err(CoreError::NoNonce),
        }
    }

    /// The id by which the relay knows the subscription.
    pub fn get_id(&self) -> (r: String)
        ensures
            r@ == self@.id,
    {
        self.id.clone()
    }

    /// The job that the subscription serves.
    pub fn get_job_id(&self) -> (r: u64)
        ensures
            r == self@.job_id,
    {
        self.job_id
    }

    /// Whether the relay has sent all that it had stored.
    pub fn eose(&self) -> (r: bool)
        ensures
            r == self@.eose,
    {
        self.eose
    }

    /// The filters, to be changed in place.
    pub fn get_mut(&mut self) -> (r: &mut Vec<Filter>)
        ensures
            filter_views((*r)@) == old(self)@.filters,
            final(self)@ == (SubscriptionView {
                filters: filter_views((*final(r))@),
                ..old(self)@
            }),
    {
        &mut self.filters
    }

    /// Notes that the relay has sent all that it had stored.
    pub fn set_eose(&mut self)
        ensures
            final(self)@ == (SubscriptionView { eose: true, ..old(self)@ }),
    {
        self.eose = true;
    }

    /// Puts the subscription to the service of the job `job_id`, and hands
    /// back the job that it served.
    pub fn change_job_id(&mut self, job_id: u64) -> (r: u64)
        ensures
            r == old(self)@.job_id,
            final(self)@ == (SubscriptionView { job_id, ..old(self)@ }),
    {
        let old_job_id = self.job_id;
        self.job_id = job_id;
        old_job_id
    }

    /// The message that opens the subscription at the relay, or gives it
    /// its present filters.
    pub fn req_message(&self) -> (r: ClientMessage)
        ensures
            r@ == ClientMessageView::Req(self@.id, self@.filters),
    {
        ClientMessage::Req(self.id.clone(), copy_filters(&self.filters))
    }

    /// The message that closes the subscription at the relay.
    pub fn close_message(&self) -> (r: ClientMessage)
        ensures
            r@ == ClientMessageView::Close(self@.id),
    {
        ClientMessage::Close(self.id.clone())
    }
}

} // verus!

verus! {

/// A subscription and the name under which the worker holds it.
#[derive(Debug)]
pub struct SubscriptionEntry {
    pub(crate) handle: String,
    pub(crate) sub: Subscription,
}

/// The subscriptions of one worker, by name.
#[derive(Debug)]
pub struct Subscriptions {
    pub(crate) entries: Vec<SubscriptionEntry>,
}

impl Subscriptions {
    /// Whether a subscription goes by the name `handle`.
    pub closed spec fn has_handle(&self, handle: Seq<char>) -> bool {
        exists|i: int| 0 <= i < self.entries@.len() && (#[trigger] self.entries@[i]).handle@ == handle
    }

    /// The place of the subscription that goes by the name `handle`.
    pub closed spec fn place_of(&self, handle: Seq<char>) -> int {
        choose|i: int| 0 <= i < self.entries@.len() && (#[trigger] self.entries@[i]).handle@ == handle
    }

    /// No name is held twice.
    pub closed spec fn wf(&self) -> bool {
        forall|i: int, j: int|
            0 <= i < self.entries@.len() && 0 <= j < self.entries@.len() && i != j ==> (
            #[trigger] self.entries@[i]).handle@ != (#[trigger] self.entries@[j]).handle@
    }
}

impl View for Subscriptions {
    type V = Map<Seq<char>, SubscriptionView>;

    closed spec fn view(&self) -> Map<Seq<char>, SubscriptionView> {
        Map::new(
            |h: Seq<char>| self.has_handle(h),
            |h: Seq<char>| self.entries@[self.place_of(h)].sub@,
        )
    }
}

impl Subscriptions {
    /// With each name once, the subscription under a name is that of its
    /// entry.
    proof fn lemma_at(&self, i: int)
        requires
            self.wf(),
            0 <= i < self.entries@.len(),
        ensures
            self@.dom().contains(self.entries@[i].handle@),
            self@[self.entries@[i].handle@] == self.entries@[i].sub@,
            self.place_of(self.entries@[i].handle@) == i,
    {
        let h = self.entries@[i].handle@;
        assert(self.has_handle(h));
        assert(self.place_of(h) == i);
    }

    /// The place of the subscription that goes by the name `handle`.
    fn find(&self, handle: &str) -> (r: Option<usize>)
        requires
            self.wf(),
        ensures
            r is Some == self@.dom().contains(handle@),
            r matches Some(i) ==> i < self.entries@.len() && self.entries@[i as int].handle@
                == handle@ && self@[handle@] == self.entries@[i as int].sub@,
    {
        let wanted = handle.to_owned();
        let mut i: usize = 0;
        while i < self.entries.len()
            invariant
                i <= self.entries.len(),
                self.wf(),
                wanted@ == handle@,
                forall|j: int| 0 <= j < i ==> (#[trigger] self.entries@[j]).handle@ != handle@,
            decreases self.entries.len() - i,
        {
            if self.entries[i].handle == wanted {
                proof {
                    self.lemma_at(i as int);
                }
                return Some(i);
            }
            i += 1;
        }
        None
    }

    /// The place of a subscription that the relay knows by `id`.
    fn find_by_id(&self, id: &str) -> (r: Option<usize>)
        requires
            self.wf(),
        ensures
            match r {
                Some(i) => i < self.entries@.len() && self.entries@[i as int].sub@.id == id@
                    && self@.dom().contains(self.entries@[i as int].handle@)
                    && self@[self.entries@[i as int].handle@] == self.entries@[i as int].sub@,
                None => forall|h: Seq<char>| self@.dom().contains(h) ==> (#[trigger] self@[h]).id != id@,
            },
    {
        let wanted = id.to_owned();
        let mut i: usize = 0;
        while i < self.entries.len()
            invariant
                i <= self.entries.len(),
                self.wf(),
                wanted@ == id@,
                forall|j: int| 0 <= j < i ==> (#[trigger] self.entries@[j]).sub@.id != id@,
            decreases self.entries.len() - i,
        {
            if self.entries[i].sub.get_id() == wanted {
                proof {
                    self.lemma_at(i as int);
                }
                return Some(i);
            }
            i += 1;
        }
        proof {
            assert forall|h: Seq<char>| self@.dom().contains(h) implies (#[trigger] self@[h]).id
                != id@ by {
                let p = self.place_of(h);
                assert(self.entries@[p].sub@.id != id@);
            }
        }
        None
    }

    /// No subscriptions.
    pub fn new() -> (r: Subscriptions)
        ensures
            r.wf(),
            r@ == Map::<Seq<char>, SubscriptionView>::empty(),
    {
        let r = Subscriptions { entries: Vec::new() };
        assert(r@ =~= Map::<Seq<char>, SubscriptionView>::empty());
        r
    }

    /// Holds `sub` under the name `handle`, in the place of the
    /// subscription that went by the name, if one did.
    pub fn put(&mut self, handle: &str, sub: Subscription)
        requires
            old(self).wf(),
        ensures
            final(self).wf(),
            final(self)@ == old(self)@.insert(handle@, sub@),
    {
        let ghost before = *self;
        match self.find(handle) {
            Some(i) => {
                self.entries.set(i, SubscriptionEntry { handle: handle.to_owned(), sub });
                proof {
                    assert(self.wf()) by {
                        assert forall|a: int, b: int|
                            0 <= a < self.entries@.len() && 0 <= b < self.entries@.len() && a
                                != b implies (#[trigger] self.entries@[a]).handle@ != (
                        #[trigger] self.entries@[b]).handle@ by {
                            assert(self.entries@[a].handle@ == before.entries@[a].handle@);
                            assert(self.entries@[b].handle@ == before.entries@[b].handle@);
                        }
                    }
                    assert forall|h: Seq<char>| self.has_handle(h) == (before.has_handle(h) || h
                        == handle@) by {
                        if self.has_handle(h) {
                            let a = self.place_of(h);
                            assert(before.entries@[a].handle@ == h);
                        }
                        if before.has_handle(h) {
                            let a = before.place_of(h);
                            assert(self.entries@[a].handle@ == h);
                        }
                        if h == handle@ {
                            assert(self.entries@[i as int].handle@ == h);
                        }
                    }
                    assert forall|h: Seq<char>| self.has_handle(h) implies self@[h]
                        == before@.insert(handle@, sub@)[h] by {
                        let a = self.place_of(h);
                        self.lemma_at(a);
                        if h != handle@ {
                            assert(before.entries@[a].handle@ == h);
                            before.lemma_at(a);
                        } else {
                            assert(a == i);
                        }
                    }
                    assert(self@ =~= before@.insert(handle@, sub@));
                }
            },
            None => {
                self.entries.push(SubscriptionEntry { handle: handle.to_owned(), sub });
                proof {
                    let n = before.entries@.len() as int;
                    assert(!before.has_handle(handle@));
                    assert(self.wf()) by {
                        assert forall|a: int, b: int|
                            0 <= a < self.entries@.len() && 0 <= b < self.entries@.len() && a
                                != b implies (#[trigger] self.entries@[a]).handle@ != (
                        #[trigger] self.entries@[b]).handle@ by {
                            if a < n {
                                assert(self.entries@[a] == before.entries@[a]);
                            }
                            if b < n {
                                assert(self.entries@[b] == before.entries@[b]);
                            }
                        }
                    }
                    assert forall|h: Seq<char>| self.has_handle(h) == (before.has_handle(h) || h
                        == handle@) by {
                        if self.has_handle(h) {
                            let a = self.place_of(h);
                            if a < n {
                                assert(before.entries@[a].handle@ == h);
                            }
                        }
                        if before.has_handle(h) {
                            let a = before.place_of(h);
                            assert(self.entries@[a] == before.entries@[a]);
                        }
                        if h == handle@ {
                            assert(self.entries@[n].handle@ == h);
                        }
                    }
                    assert forall|h: Seq<char>| self.has_handle(h) implies self@[h]
                        == before@.insert(handle@, sub@)[h] by {
                        let a = self.place_of(h);
                        self.lemma_at(a);
                        if h != handle@ {
                            assert(self.entries@[a] == before.entries@[a]);
                            before.lemma_at(a);
                        } else {
                            assert(self.entries@[n].handle@ == h);
                            assert(a == n);
                        }
                    }
                    assert(self@ =~= before@.insert(handle@, sub@));
                }
            },
        }
    }

    /// Holds a new subscription for `filters`, in the service of the job
    /// `job_id`, under the name `handle`, in the place of the subscription
    /// that went by the name, if one did. The relay will know it by a
    /// fresh id. Where no id can be made nothing changes.
    pub fn add(&mut self, handle: &str, job_id: u64, filters: Vec<Filter>) -> (r: Result<
        (),
        CoreError,
    >)
        requires
            old(self).wf(),
        ensures
            final(self).wf(),
            match r {
                Ok(_) => {
                    &&& final(self)@.dom() == old(self)@.dom().insert(handle@)
                    &&& forall|h: Seq<char>|
                        h != handle@ && old(self)@.dom().contains(h) ==> #[trigger] final(self)@[h]
                            == old(self)@[h]
                    &&& final(self)@[handle@].id.len() == 32
                    &&& final(self)@[handle@] == (SubscriptionView {
                        id: final(self)@[handle@].id,
                        job_id,
                        filters: filter_views(filters@),
                        eose: false,
                    })
                },
                Err(e) => e is NoNonce && final(self)@ == old(self)@,
            },
    {
        let mut sub = match Subscription::new() {
            Ok(sub) => sub,
            Err(e) => {
                return Err(e);
            },
        };
        let _ = sub.change_job_id(job_id);
        let slot = sub.get_mut();
        *slot = filters;
        self.put(handle, sub);
        Ok(())
    }

    /// Whether a subscription goes by the name `handle`.
    pub fn has(&self, handle: &str) -> (r: bool)
        requires
            self.wf(),
        ensures
            r == self@.dom().contains(handle@),
    {
        self.find(handle).is_some()
    }

    /// The subscription that goes by the name `handle`.
    pub fn get(&self, handle: &str) -> (r: Option<&Subscription>)
        requires
            self.wf(),
        ensures
            r is Some == self@.dom().contains(handle@),
            r matches Some(s) ==> s@ == self@[handle@],
    {
        match self.find(handle) {
            Some(i) => Some(&self.entries[i].sub),
            None => None,
        }
    }

    /// The name of a subscription that the relay knows by `id`.
    pub fn get_handle_by_id(&self, id: &str) -> (r: Option<String>)
        requires
            self.wf(),
        ensures
            match r {
                Some(h) => self@.dom().contains(h@) && self@[h@].id == id@,
                None => forall|h: Seq<char>| self@.dom().contains(h) ==> (#[trigger] self@[h]).id != id@,
            },
    {
        match self.find_by_id(id) {
            Some(i) => Some(self.entries[i].handle.clone()),
            None => None,
        }
    }

    /// The subscription that goes by the name `handle`, to be changed in
    /// place.
    pub fn get_mut(&mut self, handle: &str) -> (r: Option<&mut Subscription>)
        requires
            old(self).wf(),
        ensures
            final(self).wf(),
            r is Some == old(self)@.dom().contains(handle@),
            r is None ==> final(self)@ == old(self)@,
            r matches Some(s) ==> s@ == old(self)@[handle@] && final(self)@ == old(self)@.insert(
                handle@,
                final(s)@,
            ),
    {
        match self.find(handle) {
            Some(i) => {
                let ghost before = *self;
                proof {
                    assert forall|after: Subscriptions| #[trigger]
                        changed_at(before, after, i as int) implies after.wf() && after@
                        == before@.insert(
                        before.entries@[i as int].handle@,
                        after.entries@[i as int].sub@,
                    ) by {
                        lemma_changed_in_place(before, after, i as int);
                    }
                    assert(changed_at(before, *final(self), i as int) ==> final(self).wf());
                    assert(before.entries@[i as int].handle@ == handle@);
                    assert(changed_at(before, *final(self), i as int) ==> final(self)@
                        == before@.insert(handle@, final(self).entries@[i as int].sub@));
                }
                Some(&mut self.entries[i].sub)
            },
            None => None,
        }
    }

    /// A subscription that the relay knows by `id`, to be changed in place.
    pub fn get_mut_by_id(&mut self, id: &str) -> (r: Option<&mut Subscription>)
        requires
            old(self).wf(),
        ensures
            final(self).wf(),
            r is None ==> final(self)@ == old(self)@ && forall|h: Seq<char>|
                old(self)@.dom().contains(h) ==> (#[trigger] old(self)@[h]).id != id@,
            r matches Some(s) ==> s@.id == id@ && exists|h: Seq<char>|
                #![trigger old(self)@[h]]
                old(self)@.dom().contains(h) && old(self)@[h] == s@ && final(self)@ == old(self)@.insert(h, final(s)@),
    {
        match self.find_by_id(id) {
            Some(i) => {
                let ghost before = *self;
                proof {
                    assert forall|after: Subscriptions| #[trigger]
                        changed_at(before, after, i as int) implies after.wf() && after@
                        == before@.insert(
                        before.entries@[i as int].handle@,
                        after.entries@[i as int].sub@,
                    ) by {
                        lemma_changed_in_place(before, after, i as int);
                    }
                    assert(changed_at(before, *final(self), i as int) ==> final(self).wf());
                    let h = before.entries@[i as int].handle@;
                    assert(before@.dom().contains(h));
                    assert(before@[h] == before.entries@[i as int].sub@);
                    assert(changed_at(before, *final(self), i as int) ==> final(self)@
                        == before@.insert(h, final(self).entries@[i as int].sub@));
                }
                Some(&mut self.entries[i].sub)
            },
            None => None,
        }
    }

    /// Lets go of the subscription that goes by the name `handle`.
    pub fn remove(&mut self, handle: &str)
        requires
            old(self).wf(),
        ensures
            final(self).wf(),
            final(self)@ == old(self)@.remove(handle@),
    {
        let ghost before = *self;
        match self.find(handle) {
            Some(i) => {
                let _ = self.entries.remove(i);
                proof {
                    assert(self.wf()) by {
                        assert forall|a: int, b: int|
                            0 <= a < self.entries@.len() && 0 <= b < self.entries@.len() && a
                                != b implies (#[trigger] self.entries@[a]).handle@ != (
                        #[trigger] self.entries@[b]).handle@ by {
                            let a0 = if a < i {
                                a
                            } else {
                                a + 1
                            };
                            let b0 = if b < i {
                                b
                            } else {
                                b + 1
                            };
                            assert(self.entries@[a] == before.entries@[a0]);
                            assert(self.entries@[b] == before.entries@[b0]);
                        }
                    }
                    assert forall|h: Seq<char>| self.has_handle(h) == (before.has_handle(h) && h
                        != handle@) by {
                        if self.has_handle(h) {
                            let a = self.place_of(h);
                            let a0 = if a < i {
                                a
                            } else {
                                a + 1
                            };
                            assert(self.entries@[a] == before.entries@[a0]);
                            assert(before.entries@[a0].handle@ == h);
                            assert(before.entries@[a0].handle@ != before.entries@[i as int].handle@);
                        }
                        if before.has_handle(h) && h != handle@ {
                            let a = before.place_of(h);
                            let a1 = if a < i {
                                a
                            } else {
                                a - 1
                            };
                            assert(self.entries@[a1] == before.entries@[a]);
                        }
                    }
                    assert forall|h: Seq<char>| self.has_handle(h) implies self@[h]
                        == before@[h] by {
                        let a = self.place_of(h);
                        self.lemma_at(a);
                        let a0 = if a < i {
                            a
                        } else {
                            a + 1
                        };
                        assert(self.entries@[a] == before.entries@[a0]);
                        before.lemma_at(a0);
                    }
                    assert(self@ =~= before@.remove(handle@));
                }
            },
            None => {
                assert(self@ =~= before@.remove(handle@));
            },
        }
    }
}

/// Whether `after` is `before` but for the subscription in the `i`-th
/// place.
spec fn changed_at(before: Subscriptions, after: Subscriptions, i: int) -> bool {
    &&& after.entries@.len() == before.entries@.len()
    &&& after.entries@[i].handle == before.entries@[i].handle
    &&& forall|j: int|
        0 <= j < before.entries@.len() && j != i ==> (#[trigger] after.entries@[j])
            == before.entries@[j]
}

/// A table in which one subscription was changed in its place holds the
/// changed subscription under the same name, and the others as before.
proof fn lemma_changed_in_place(before: Subscriptions, after: Subscriptions, i: int)
    requires
        before.wf(),
        0 <= i < before.entries@.len(),
        changed_at(before, after, i),
    ensures
        after.wf(),
        after@ == before@.insert(before.entries@[i].handle@, after.entries@[i].sub@),
{
    let handle = before.entries@[i].handle@;
    assert(after.wf()) by {
        assert forall|a: int, b: int|
            0 <= a < after.entries@.len() && 0 <= b < after.entries@.len() && a != b implies (
        #[trigger] after.entries@[a]).handle@ != (#[trigger] after.entries@[b]).handle@ by {
            assert(after.entries@[a].handle@ == before.entries@[a].handle@);
            assert(after.entries@[b].handle@ == before.entries@[b].handle@);
        }
    }
    assert forall|h: Seq<char>| after.has_handle(h) == before.has_handle(h) by {
        if after.has_handle(h) {
            let a = after.place_of(h);
            assert(before.entries@[a].handle@ == h);
        }
        if before.has_handle(h) {
            let a = before.place_of(h);
            assert(after.entries@[a].handle@ == h);
        }
    }
    assert(before.has_handle(handle));
    assert forall|h: Seq<char>| after.has_handle(h) implies after@[h] == before@.insert(
        handle,
        after.entries@[i].sub@,
    )[h] by {
        let a = after.place_of(h);
        after.lemma_at(a);
        if h != handle {
            assert(after.entries@[a] == before.entries@[a]);
            before.lemma_at(a);
        } else {
            assert(after.entries@[i].handle@ == h);
            assert(a == i);
        }
    }
    assert(after@ =~= before@.insert(handle, after.entries@[i].sub@));
}

} // verus!
