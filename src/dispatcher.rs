use std::any::TypeId;
use vstd::prelude::*;

use crate::erased::{call_listener, same_type, type_id_of, Listener};

verus! {

/// The handle that `add_listener` returns; it names one registration for removal.
#[derive(Clone, Copy, PartialEq, Eq, Debug)]
pub struct ListenerKey {
    id: u64,
}

impl ListenerKey {
    /// The number of this registration, unique within its registry.
    pub fn id(&self) -> (r: u64)
        ensures
            r == self@,
    {
        self.id
    }
}

impl View for ListenerKey {
    type V = u64;

    closed spec fn view(&self) -> u64 {
        self.id
    }
}

/// The keys listed under `t` in a registry view; none where `t` has no list.
pub open spec fn listed(m: Map<TypeId, Seq<u64>>, t: TypeId) -> Seq<u64> {
    if m.contains_key(t) {
        m[t]
    } else {
        Seq::empty()
    }
}

/// The view after key `k` is appended to the list of `t`.
pub open spec fn added(m: Map<TypeId, Seq<u64>>, t: TypeId, k: u64) -> Map<TypeId, Seq<u64>> {
    m.insert(t, listed(m, t).push(k))
}

/// `after` is `m` with key `k` taken out of the list of `t`, or `m` itself
/// where `k` is not listed under `t`.
pub open spec fn removed(
    m: Map<TypeId, Seq<u64>>,
    t: TypeId,
    k: u64,
    after: Map<TypeId, Seq<u64>>,
) -> bool {
    &&& !listed(m, t).contains(k) ==> after == m
    &&& forall|i: int|
        0 <= i < listed(m, t).len() && #[trigger] listed(m, t)[i] == k ==> after == m.insert(
            t,
            listed(m, t).remove(i),
        )
}

/// `after` is the run counts `r` with the count of key `k` taken out of the
/// list of `t`, where `m` holds the keys; `r` itself where `k` is not listed.
pub open spec fn removed_runs(
    m: Map<TypeId, Seq<u64>>,
    r: Map<TypeId, Seq<nat>>,
    t: TypeId,
    k: u64,
    after: Map<TypeId, Seq<nat>>,
) -> bool {
    &&& !listed(m, t).contains(k) ==> after == r
    &&& forall|i: int|
        0 <= i < listed(m, t).len() && #[trigger] listed(m, t)[i] == k ==> after == r.insert(
            t,
            counted(r, t).remove(i),
        )
}

/// The run counts listed under `t`; none where `t` has no list.
pub open spec fn counted(r: Map<TypeId, Seq<nat>>, t: TypeId) -> Seq<nat> {
    if r.contains_key(t) {
        r[t]
    } else {
        Seq::empty()
    }
}

/// Every count of `s` raised by one.
pub open spec fn bumped(s: Seq<nat>) -> Seq<nat> {
    Seq::new(s.len(), |i: int| s[i] + 1)
}

/// The run counts after one run of every listener of `t`.
pub open spec fn bump_at(r: Map<TypeId, Seq<nat>>, t: TypeId) -> Map<TypeId, Seq<nat>> {
    if r.contains_key(t) {
        r.insert(t, bumped(r[t]))
    } else {
        r
    }
}

/// The listeners of one event type, in registration order, beside their keys.
struct Bucket<'a> {
    ty: TypeId,
    keys: Vec<u64>,
    listeners: Vec<Listener<'a>>,
}

impl<'a> Bucket<'a> {
    spec fn wf(&self, next_key: u64) -> bool {
        &&& self.keys@.len() == self.listeners@.len()
        &&& forall|i: int, j: int|
            0 <= i < j < self.keys@.len() ==> #[trigger] self.keys@[i] < #[trigger] self.keys@[j]
        &&& forall|i: int| 0 <= i < self.keys@.len() ==> #[trigger] self.keys@[i] < next_key
        &&& forall|i: int| 0 <= i < self.listeners@.len() ==> #[trigger] self.listeners@[i].ty() == self.ty
    }

    spec fn runs(&self) -> Seq<nat> {
        Seq::new(self.listeners@.len(), |i: int| self.listeners@[i].runs())
    }
}

/// The registry: one bucket of listeners for each event type that has had one.
pub struct EventDispatcher<'a> {
    buckets: Vec<Bucket<'a>>,
    next_key: u64,
}

impl<'a> View for EventDispatcher<'a> {
    type V = Map<TypeId, Seq<u64>>;

    /// For each event type with a bucket, the keys of its listeners in
    /// registration order.
    closed spec fn view(&self) -> Map<TypeId, Seq<u64>> {
        Map::new(|t: TypeId| self.has_type(t), |t: TypeId| self.buckets@[self.bucket_of(t)].keys@)
    }
}

impl<'a> EventDispatcher<'a> {
    /// For each event type with a bucket, how many times each of its
    /// listeners has run, in registration order.
    pub closed spec fn runs(&self) -> Map<TypeId, Seq<nat>> {
        Map::new(|t: TypeId| self.has_type(t), |t: TypeId| self.buckets@[self.bucket_of(t)].runs())
    }

    spec fn has_type(&self, t: TypeId) -> bool {
        exists|b: int| 0 <= b < self.buckets@.len() && #[trigger] self.buckets@[b].ty == t
    }

    spec fn bucket_of(&self, t: TypeId) -> int {
        choose|b: int| 0 <= b < self.buckets@.len() && #[trigger] self.buckets@[b].ty == t
    }

    /// The key that the next registration receives.
    pub closed spec fn next_key(&self) -> u64 {
        self.next_key
    }

    /// Buckets are of distinct types; in each, keys pair with listeners, rise
    /// strictly in registration order and lie below `next_key`.
    pub closed spec fn wf(&self) -> bool {
        &&& forall|a: int, b: int|
            0 <= a < b < self.buckets@.len() ==> #[trigger] self.buckets@[a].ty
                != #[trigger] self.buckets@[b].ty
        &&& forall|b: int| 0 <= b < self.buckets@.len() ==> #[trigger] self.buckets@[b].wf(self.next_key)
    }

    proof fn lemma_view_at(&self, b: int)
        requires
            self.wf(),
            0 <= b < self.buckets@.len(),
        ensures
            self@.contains_key(self.buckets@[b].ty),
            self@[self.buckets@[b].ty] == self.buckets@[b].keys@,
            self.runs().contains_key(self.buckets@[b].ty),
            self.runs()[self.buckets@[b].ty] == self.buckets@[b].runs(),
    {
        let t = self.buckets@[b].ty;
        assert(self.has_type(t));
        let c = self.bucket_of(t);
        if c != b {
            if c < b {
                assert(self.buckets@[c].ty != self.buckets@[b].ty);
            } else {
                assert(self.buckets@[b].ty != self.buckets@[c].ty);
            }
        }
    }

    /// Every list of a well-formed registry rises strictly and lies below `next_key`.
    pub proof fn lemma_lists_increasing(&self)
        requires
            self.wf(),
        ensures
            forall|t: TypeId, i: int, j: int|
                0 <= i < j < listed(self@, t).len() ==> #[trigger] listed(self@, t)[i]
                    < #[trigger] listed(self@, t)[j],
            forall|t: TypeId, i: int|
                0 <= i < listed(self@, t).len() ==> #[trigger] listed(self@, t)[i] < self.next_key(),
    {
        assert forall|t: TypeId, i: int, j: int|
            0 <= i < j < listed(self@, t).len() implies #[trigger] listed(self@, t)[i]
            < #[trigger] listed(self@, t)[j] by {
            let b = self.bucket_of(t);
            assert(self.buckets@[b].wf(self.next_key));
        }
        assert forall|t: TypeId, i: int|
            0 <= i < listed(self@, t).len() implies #[trigger] listed(self@, t)[i]
            < self.next_key() by {
            let b = self.bucket_of(t);
            assert(self.buckets@[b].wf(self.next_key));
        }
    }

    fn find(&self, t: &TypeId) -> (r: Option<usize>)
        requires
            self.wf(),
        ensures
            match r {
                Some(b) => b < self.buckets@.len() && self.buckets@[b as int].ty == *t,
                None => !self@.contains_key(*t),
            },
    {
        let mut b: usize = 0;
        while b < self.buckets.len()
            invariant
                b <= self.buckets@.len(),
                forall|c: int| 0 <= c < b ==> #[trigger] self.buckets@[c].ty != *t,
            decreases self.buckets@.len() - b,
        {
            if same_type(&self.buckets[b].ty, t) {
                return Some(b);
            }
            b = b + 1;
        }
        None
    }

    /// A new registry, with no listener for any event type.
    pub fn new() -> (d: Self)
        ensures
            d.wf(),
            d@ == Map::<TypeId, Seq<u64>>::empty(),
            d.runs() == Map::<TypeId, Seq<nat>>::empty(),
            d.next_key() == 0,
    {
        let d = EventDispatcher { buckets: Vec::new(), next_key: 0 };
        assert(d@ =~= Map::<TypeId, Seq<u64>>::empty());
        assert(d.runs() =~= Map::<TypeId, Seq<nat>>::empty());
        d
    }

    /// Appends `listener` to the list of its own event type, under a key that
    /// no listener of this registry has had, and returns that key. No listener
    /// runs, and the lists of all other types stay as they were.
    fn add_listener_for(&mut self, listener: Listener<'a>) -> (key: ListenerKey)
        requires
            old(self).wf(),
            old(self).next_key() < u64::MAX,
            listener.runs() == 0,
        ensures
            final(self).wf(),
            key@ == old(self).next_key(),
            final(self).next_key() == old(self).next_key() + 1,
            final(self)@ == added(old(self)@, listener.ty(), key@),
            final(self).runs() == old(self).runs().insert(
                listener.ty(),
                counted(old(self).runs(), listener.ty()).push(0),
            ),
    {
        let t = *listener.event_type();
        let ghost l = listener;
        let id = self.next_key;
        let ghost before = *self;
        match self.find(&t) {
            Some(b) => {
                proof {
                    before.lemma_view_at(b as int);
                    assert(before.buckets@[b as int].wf(before.next_key));
                }
                self.buckets[b].keys.push(id);
                self.buckets[b].listeners.push(listener);
                self.next_key = id + 1;
                proof {
                    self.lemma_added_view(&before, b as int, t, id);
                    assert(self.buckets@[b as int].runs() =~= counted(before.runs(), t).push(0));
                    self.lemma_added_runs(&before, b as int, t);
                }
            },
            None => {
                let mut keys: Vec<u64> = Vec::new();
                keys.push(id);
                let mut listeners: Vec<Listener<'a>> = Vec::new();
                listeners.push(listener);
                self.buckets.push(Bucket { ty: t, keys, listeners });
                self.next_key = id + 1;
                proof {
                    self.lemma_added_view(&before, before.buckets@.len() as int, t, id);
                    let nb = before.buckets@.len() as int;
                    assert(self.buckets@[nb].runs() =~= counted(before.runs(), t).push(0));
                    self.lemma_added_runs(&before, nb, t);
                }
            },
        }
        ListenerKey { id }
    }

    proof fn lemma_added_view(&self, before: &Self, b: int, t: TypeId, id: u64)
        requires
            before.wf(),
            id == before.next_key,
            self.next_key == id + 1,
            0 <= b <= before.buckets@.len(),
            b < self.buckets@.len(),
            self.buckets@[b].ty == t,
            self.buckets@[b].keys@ == listed(before@, t).push(id),
            self.buckets@[b].listeners@.len() == self.buckets@[b].keys@.len(),
            forall|i: int| 0 <= i < self.buckets@[b].listeners@.len() ==> #[trigger] self.buckets@[b].listeners@[i].ty() == t,
            b < before.buckets@.len() ==> before.buckets@[b].ty == t && self.buckets@.len()
                == before.buckets@.len(),
            b == before.buckets@.len() ==> !before@.contains_key(t) && self.buckets@.len()
                == before.buckets@.len() + 1,
            forall|c: int| 0 <= c < before.buckets@.len() && c != b ==> #[trigger] self.buckets@[c] == before.buckets@[c],
        ensures
            self.wf(),
            self@ == added(before@, t, id),
    {
        if b < before.buckets@.len() {
            before.lemma_view_at(b);
        }
        before.lemma_lists_increasing();
        assert forall|c: int| 0 <= c < self.buckets@.len() implies #[trigger] self.buckets@[c].wf(self.next_key) by {
            if c != b {
                assert(c < before.buckets@.len());
                assert(self.buckets@[c] == before.buckets@[c]);
                assert(before.buckets@[c].wf(before.next_key));
            } else {
                let k = self.buckets@[b].keys@;
                assert forall|i: int, j: int| 0 <= i < j < k.len() implies #[trigger] k[i] < #[trigger] k[j] by {
                    if j < k.len() - 1 {
                        assert(k[i] == listed(before@, t)[i]);
                        assert(k[j] == listed(before@, t)[j]);
                    } else {
                        assert(k[i] == listed(before@, t)[i]);
                    }
                }
                assert forall|i: int| 0 <= i < k.len() implies #[trigger] k[i] < self.next_key by {
                    if i < k.len() - 1 {
                        assert(k[i] == listed(before@, t)[i]);
                    }
                }
            }
        }
        assert forall|a: int, c: int| 0 <= a < c < self.buckets@.len() implies #[trigger] self.buckets@[a].ty
            != #[trigger] self.buckets@[c].ty by {
            assert(a < before.buckets@.len());
            assert(self.buckets@[a].ty == before.buckets@[a].ty);
            if c == b && b == before.buckets@.len() {
                before.lemma_view_at(a);
            } else {
                assert(self.buckets@[c].ty == before.buckets@[c].ty);
                assert(before.buckets@[a].ty != before.buckets@[c].ty);
            }
        }
        assert forall|u: TypeId| #[trigger] self@.contains_key(u) <==> added(before@, t, id).contains_key(u) by {
            if self.has_type(u) {
                let c = choose|c: int| 0 <= c < self.buckets@.len() && #[trigger] self.buckets@[c].ty == u;
                if c != b {
                    before.lemma_view_at(c);
                }
            }
            if u != t && before.has_type(u) {
                let c = choose|c: int| 0 <= c < before.buckets@.len() && #[trigger] before.buckets@[c].ty == u;
                assert(self.buckets@[c].ty == u);
            }
            if u == t {
                self.lemma_view_at(b);
            }
        }
        assert forall|u: TypeId| #[trigger] self@.contains_key(u) implies self@[u] == added(before@, t, id)[u] by {
            let c = choose|c: int| 0 <= c < self.buckets@.len() && #[trigger] self.buckets@[c].ty == u;
            self.lemma_view_at(c);
            if c != b {
                before.lemma_view_at(c);
            }
        }
        assert(self@ =~= added(before@, t, id));
    }

    proof fn lemma_added_runs(&self, before: &Self, b: int, t: TypeId)
        requires
            before.wf(),
            self.wf(),
            0 <= b <= before.buckets@.len(),
            b < self.buckets@.len(),
            self.buckets@[b].ty == t,
            self.buckets@[b].runs() == counted(before.runs(), t).push(0),
            b < before.buckets@.len() ==> before.buckets@[b].ty == t && self.buckets@.len()
                == before.buckets@.len(),
            b == before.buckets@.len() ==> !before@.contains_key(t) && self.buckets@.len()
                == before.buckets@.len() + 1,
            forall|c: int| 0 <= c < before.buckets@.len() && c != b ==> #[trigger] self.buckets@[c] == before.buckets@[c],
        ensures
            self.runs() == before.runs().insert(t, counted(before.runs(), t).push(0)),
    {
        let m = before.runs().insert(t, counted(before.runs(), t).push(0));
        self.lemma_view_at(b);
        if b < before.buckets@.len() {
            before.lemma_view_at(b);
        }
        assert forall|u: TypeId| #[trigger] self.runs().contains_key(u) <==> m.contains_key(u) by {
            if self.has_type(u) {
                let c = choose|c: int| 0 <= c < self.buckets@.len() && #[trigger] self.buckets@[c].ty == u;
                if c != b {
                    before.lemma_view_at(c);
                }
            }
            if u != t && before.has_type(u) {
                let c = choose|c: int| 0 <= c < before.buckets@.len() && #[trigger] before.buckets@[c].ty == u;
                assert(self.buckets@[c].ty == u);
            }
        }
        assert forall|u: TypeId| #[trigger] self.runs().contains_key(u) implies self.runs()[u] == m[u] by {
            let c = choose|c: int| 0 <= c < self.buckets@.len() && #[trigger] self.buckets@[c].ty == u;
            self.lemma_view_at(c);
            if c != b {
                before.lemma_view_at(c);
            }
        }
        assert(self.runs() =~= m);
    }

    /// Runs every listener of the event type `t` once on `event`, in
    /// registration order, and returns their keys in the order of the runs.
    /// Every listener of `t` has run once more, no other listener has run, and
    /// the lists stay as they were. A listener runs only where its own event
    /// type is `t`.
    pub fn dispatch_for<E: 'static>(&mut self, t: &TypeId, event: &E) -> (called: Vec<u64>)
        requires
            old(self).wf(),
        ensures
            final(self).wf(),
            final(self)@ == old(self)@,
            final(self).next_key() == old(self).next_key(),
            final(self).runs() == bump_at(old(self).runs(), *t),
            called@ == listed(old(self)@, *t),
    {
        let mut called: Vec<u64> = Vec::new();
        let b = match self.find(t) {
            None => {
                assert(called@ =~= listed(self@, *t));
                assert(!self.runs().contains_key(*t));
                return called;
            },
            Some(b) => b,
        };
        let ghost before = *self;
        proof {
            self.lemma_view_at(b as int);
            assert(self.buckets@[b as int].wf(self.next_key));
        }
        let n = self.buckets[b].keys.len();
        let mut i: usize = 0;
        while i < n
            invariant
                0 <= i <= n,
                b < self.buckets@.len(),
                before == *old(self),
                before.wf(),
                before.buckets@[b as int].ty == *t,
                before.buckets@[b as int].wf(before.next_key),
                self.next_key == before.next_key,
                self.buckets@.len() == before.buckets@.len(),
                forall|c: int| 0 <= c < before.buckets@.len() && c != b ==> #[trigger] self.buckets@[c] == before.buckets@[c],
                self.buckets@[b as int].ty == *t,
                self.buckets@[b as int].keys@ == before.buckets@[b as int].keys@,
                self.buckets@[b as int].listeners@.len() == n,
                n == before.buckets@[b as int].keys@.len(),
                forall|j: int| 0 <= j < n ==> #[trigger] self.buckets@[b as int].listeners@[j].ty() == *t,
                forall|j: int| 0 <= j < i ==> #[trigger] self.buckets@[b as int].listeners@[j].runs()
                    == before.buckets@[b as int].listeners@[j].runs() + 1,
                forall|j: int| i <= j < n ==> #[trigger] self.buckets@[b as int].listeners@[j].runs()
                    == before.buckets@[b as int].listeners@[j].runs(),
                called@ == self.buckets@[b as int].keys@.subrange(0, i as int),
            decreases n - i,
        {
            if same_type(self.buckets[b].listeners[i].event_type(), t) {
                call_listener(&mut self.buckets[b].listeners[i], event);
            }
            called.push(self.buckets[b].keys[i]);
            assert(called@ =~= self.buckets@[b as int].keys@.subrange(0, i + 1));
            i = i + 1;
        }
        proof {
            let nb = self.buckets@[b as int];
            assert(nb.wf(self.next_key));
            assert forall|c: int| 0 <= c < self.buckets@.len() implies #[trigger] self.buckets@[c].wf(self.next_key) by {
                if c != b {
                    assert(before.buckets@[c].wf(before.next_key));
                }
            }
            assert forall|x: int, y: int| 0 <= x < y < self.buckets@.len() implies #[trigger] self.buckets@[x].ty
                != #[trigger] self.buckets@[y].ty by {
                assert(before.buckets@[x].ty != before.buckets@[y].ty);
            }
            self.lemma_replaced_view(&before, b as int);
            before.lemma_view_at(b as int);
            assert(nb.keys@ =~= before.buckets@[b as int].keys@);
            assert(nb.runs() =~= bumped(before.buckets@[b as int].runs()));
            assert(self@ =~= before@);
            assert(called@ =~= nb.keys@);
        }
        called
    }

    /// Where only bucket `b` changed, and kept its type, the view changes only
    /// at that type, to the bucket's new keys.
    proof fn lemma_replaced_view(&self, before: &Self, b: int)
        requires
            before.wf(),
            self.wf(),
            0 <= b < before.buckets@.len(),
            self.buckets@.len() == before.buckets@.len(),
            self.buckets@[b].ty == before.buckets@[b].ty,
            forall|c: int| 0 <= c < before.buckets@.len() && c != b ==> #[trigger] self.buckets@[c] == before.buckets@[c],
        ensures
            self@ == before@.insert(before.buckets@[b].ty, self.buckets@[b].keys@),
            self.runs() == before.runs().insert(before.buckets@[b].ty, self.buckets@[b].runs()),
    {
        let t = before.buckets@[b].ty;
        let m = before@.insert(t, self.buckets@[b].keys@);
        self.lemma_view_at(b);
        before.lemma_view_at(b);
        assert forall|u: TypeId| #[trigger] self@.contains_key(u) <==> m.contains_key(u) by {
            if self.has_type(u) {
                let c = choose|c: int| 0 <= c < self.buckets@.len() && #[trigger] self.buckets@[c].ty == u;
                if c != b {
                    before.lemma_view_at(c);
                }
            }
            if before.has_type(u) {
                let c = choose|c: int| 0 <= c < before.buckets@.len() && #[trigger] before.buckets@[c].ty == u;
                if c != b {
                    self.lemma_view_at(c);
                }
            }
        }
        assert forall|u: TypeId| #[trigger] self@.contains_key(u) implies self@[u] == m[u] by {
            let c = choose|c: int| 0 <= c < self.buckets@.len() && #[trigger] self.buckets@[c].ty == u;
            self.lemma_view_at(c);
            if c != b {
                before.lemma_view_at(c);
            }
        }
        assert(self@ =~= m);
        let r = before.runs().insert(t, self.buckets@[b].runs());
        assert forall|u: TypeId| #[trigger] self.runs().contains_key(u) <==> r.contains_key(u) by {
            assert(self.runs().contains_key(u) == self@.contains_key(u));
            assert(before.runs().contains_key(u) == before@.contains_key(u));
        }
        assert forall|u: TypeId| #[trigger] self.runs().contains_key(u) implies self.runs()[u] == r[u] by {
            let c = choose|c: int| 0 <= c < self.buckets@.len() && #[trigger] self.buckets@[c].ty == u;
            self.lemma_view_at(c);
            if c != b {
                before.lemma_view_at(c);
            }
        }
        assert(self.runs() =~= r);
    }

    /// Removes the listener registered under `key` from the list of the event
    /// type `t`; it is dropped. Where `key` is not in that list, nothing
    /// changes. No listener runs.
    pub fn remove_listener_for(&mut self, t: &TypeId, key: ListenerKey)
        requires
            old(self).wf(),
        ensures
            final(self).wf(),
            final(self).next_key() == old(self).next_key(),
            removed(old(self)@, *t, key@, final(self)@),
            removed_runs(old(self)@, old(self).runs(), *t, key@, final(self).runs()),
    {
        let ghost before = *self;
        let b = match self.find(t) {
            None => {
                return;
            },
            Some(b) => b,
        };
        proof {
            before.lemma_view_at(b as int);
            assert(before.buckets@[b as int].wf(before.next_key));
        }
        let n = self.buckets[b].keys.len();
        let mut i: usize = 0;
        while i < n
            invariant
                0 <= i <= n,
                b < self.buckets@.len(),
                *self == before,
                before == *old(self),
                before.wf(),
                n == before.buckets@[b as int].keys@.len(),
                before@[*t] == before.buckets@[b as int].keys@,
                before@.contains_key(*t),
                before.buckets@[b as int].ty == *t,
                before.buckets@[b as int].wf(before.next_key),
                forall|j: int| 0 <= j < i ==> #[trigger] before.buckets@[b as int].keys@[j] != key.id,
            decreases n - i,
        {
            if self.buckets[b].keys[i] == key.id {
                self.buckets[b].keys.remove(i);
                self.buckets[b].listeners.remove(i);
                proof {
                    let old_keys = before.buckets@[b as int].keys@;
                    let k = self.buckets@[b as int].keys@;
                    assert(k == old_keys.remove(i as int));
                    assert forall|x: int, y: int| 0 <= x < y < k.len() implies #[trigger] k[x] < #[trigger] k[y] by {
                        if x >= i {
                            assert(k[x] == old_keys[x + 1]);
                        }
                        if y >= i {
                            assert(k[y] == old_keys[y + 1]);
                        }
                    }
                    assert forall|x: int| 0 <= x < k.len() implies #[trigger] k[x] < self.next_key by {
                        if x >= i {
                            assert(k[x] == old_keys[x + 1]);
                        }
                    }
                    assert forall|c: int| 0 <= c < self.buckets@.len() implies #[trigger] self.buckets@[c].wf(self.next_key) by {
                        if c != b {
                            assert(before.buckets@[c].wf(before.next_key));
                        }
                    }
                    self.lemma_replaced_view(&before, b as int);
                    assert(self.buckets@[b as int].runs() =~= before.buckets@[b as int].runs().remove(i as int));
                    assert forall|j: int|
                        0 <= j < old_keys.len() && #[trigger] old_keys[j] == key.id implies j == i by {
                        if j < i {
                        } else if j > i {
                            assert(old_keys[i as int] < old_keys[j]);
                        }
                    }
                }
                return;
            }
            i = i + 1;
        }
        assert(!before@[*t].contains(key.id));
    }

    /// Registers `listener` for the event type `E`: it goes at the end of the
    /// list of `E`'s type identity, under a fresh key, which is returned. No
    /// listener runs, and the lists of all other types stay as they were.
    pub fn add_listener<E: 'static, F: FnMut(&E) + 'a>(&mut self, listener: F) -> (key: ListenerKey)
        requires
            old(self).wf(),
            old(self).next_key() < u64::MAX,
        ensures
            final(self).wf(),
            key@ == old(self).next_key(),
            final(self).next_key() == old(self).next_key() + 1,
            exists|t: TypeId|
                final(self)@ == added(old(self)@, t, key@) && final(self).runs()
                    == old(self).runs().insert(t, counted(old(self).runs(), t).push(0)),
    {
        let l = Listener::of::<E, F>(listener);
        self.add_listener_for(l)
    }

    /// Runs every listener registered for the event type `E` once on `event`,
    /// in registration order; no other listener runs. The lists stay as they
    /// were.
    pub fn dispatch<E: 'static>(&mut self, event: &E)
        requires
            old(self).wf(),
        ensures
            final(self).wf(),
            final(self)@ == old(self)@,
            final(self).next_key() == old(self).next_key(),
            exists|t: TypeId| final(self).runs() == bump_at(old(self).runs(), t),
    {
        let t = type_id_of::<E>();
        let _called = self.dispatch_for(&t, event);
    }

    /// Removes the listener registered under `key` for the event type `E`; it
    /// is dropped. Where `key` names no listener of `E`, nothing changes. No
    /// listener runs.
    pub fn remove_listener<E: 'static>(&mut self, key: ListenerKey)
        requires
            old(self).wf(),
        ensures
            final(self).wf(),
            final(self).next_key() == old(self).next_key(),
            exists|t: TypeId|
                removed(old(self)@, t, key@, final(self)@) && removed_runs(
                    old(self)@,
                    old(self).runs(),
                    t,
                    key@,
                    final(self).runs(),
                ),
    {
        let t = type_id_of::<E>();
        self.remove_listener_for(&t, key);
    }
}

impl<'a> Default for EventDispatcher<'a> {
    /// The empty registry, as `new` makes it.
    fn default() -> (d: Self)
        ensures
            d.wf(),
            d@ == Map::<TypeId, Seq<u64>>::empty(),
            d.next_key() == 0,
    {
        Self::new()
    }
}

} // verus!
