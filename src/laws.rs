use std::any::TypeId;
use vstd::prelude::*;

use crate::dispatcher::{added, bump_at, bumped, counted, listed, removed, removed_runs, EventDispatcher};

verus! {

/// A new registry lists no listener under any event type, so a dispatch on it
/// calls nothing.
pub proof fn lemma_new_lists_nothing(t: TypeId)
    ensures
        listed(Map::<TypeId, Seq<u64>>::empty(), t) == Seq::<u64>::empty(),
{
}

/// Registering for one event type leaves the list of every other type as it was.
pub proof fn lemma_add_leaves_other_types(m: Map<TypeId, Seq<u64>>, t: TypeId, u: TypeId, k: u64)
    requires
        t != u,
    ensures
        listed(added(m, t, k), u) == listed(m, u),
{
}

/// Removing from one event type leaves the list of every other type as it was.
pub proof fn lemma_remove_leaves_other_types(
    m: Map<TypeId, Seq<u64>>,
    t: TypeId,
    u: TypeId,
    k: u64,
    after: Map<TypeId, Seq<u64>>,
)
    requires
        t != u,
        removed(m, t, k, after),
    ensures
        listed(after, u) == listed(m, u),
{
    if listed(m, t).contains(k) {
        let i = choose|i: int| 0 <= i < listed(m, t).len() && listed(m, t)[i] == k;
        assert(listed(m, t)[i] == k);
    }
}

/// Registrations for two different event types commute.
pub proof fn lemma_adds_commute_across_types(
    m: Map<TypeId, Seq<u64>>,
    t: TypeId,
    u: TypeId,
    k1: u64,
    k2: u64,
)
    requires
        t != u,
    ensures
        added(added(m, t, k1), u, k2) == added(added(m, u, k2), t, k1),
{
    assert(added(added(m, t, k1), u, k2) =~= added(added(m, u, k2), t, k1));
}

/// Removing a key that is not listed under the event type changes nothing.
pub proof fn lemma_remove_unlisted_is_no_op(
    m: Map<TypeId, Seq<u64>>,
    t: TypeId,
    k: u64,
    after: Map<TypeId, Seq<u64>>,
)
    requires
        !listed(m, t).contains(k),
        removed(m, t, k, after),
    ensures
        after == m,
{
}

/// After the key `k` is removed from the list of `t`, that list, which a
/// dispatch of `t` calls, no longer holds `k` and still holds every other key,
/// in the same order.
pub proof fn lemma_removed_key_not_dispatched<'a>(
    d: EventDispatcher<'a>,
    t: TypeId,
    k: u64,
    after: Map<TypeId, Seq<u64>>,
)
    requires
        d.wf(),
        removed(d@, t, k, after),
    ensures
        !listed(after, t).contains(k),
        forall|j: int|
            0 <= j < listed(d@, t).len() && #[trigger] listed(d@, t)[j] != k ==> listed(
                after,
                t,
            ).contains(listed(d@, t)[j]),
{
    d.lemma_lists_increasing();
    let s = listed(d@, t);
    if s.contains(k) {
        let i = choose|i: int| 0 <= i < s.len() && s[i] == k;
        assert(s[i] == k);
        let r = s.remove(i);
        assert(listed(after, t) == r);
        assert forall|x: int| 0 <= x < r.len() implies r[x] != k by {
            if x < i {
                assert(s[x] < s[i]);
            } else {
                assert(r[x] == s[x + 1]);
                assert(s[i] < s[x + 1]);
            }
        }
        assert forall|j: int| 0 <= j < s.len() && #[trigger] s[j] != k implies r.contains(s[j]) by {
            if j < i {
                assert(r[j] == s[j]);
            } else {
                assert(j != i);
                assert(r[j - 1] == s[j]);
            }
        }
    }
}

/// Two listeners registered in turn for one event type are both in its list,
/// the first before the second, so one dispatch calls both in that order.
pub proof fn lemma_two_listeners_both_dispatched(
    m: Map<TypeId, Seq<u64>>,
    t: TypeId,
    k1: u64,
    k2: u64,
)
    ensures
        listed(added(added(m, t, k1), t, k2), t) == listed(m, t).push(k1).push(k2),
{
}

/// A dispatch of one event type runs each of its listeners once more and
/// runs no listener of any other type.
pub proof fn lemma_dispatch_runs_only_its_type(r: Map<TypeId, Seq<nat>>, t: TypeId, u: TypeId)
    ensures
        counted(bump_at(r, t), t) == bumped(counted(r, t)),
        u != t ==> counted(bump_at(r, t), u) == counted(r, u),
{
    assert(bumped(Seq::<nat>::empty()) =~= Seq::<nat>::empty());
}

/// A dispatch of a type with no listeners runs nothing at all.
pub proof fn lemma_dispatch_without_listeners_runs_nothing(r: Map<TypeId, Seq<nat>>, t: TypeId)
    requires
        counted(r, t).len() == 0,
    ensures
        bump_at(r, t) == r,
{
    if r.contains_key(t) {
        assert(bumped(r[t]) =~= r[t]);
        assert(r.insert(t, r[t]) =~= r);
    }
}

/// The run counts after `n` dispatches of the event type `t`.
pub open spec fn dispatched_times(r: Map<TypeId, Seq<nat>>, t: TypeId, n: nat) -> Map<TypeId, Seq<nat>>
    decreases n,
{
    if n == 0 {
        r
    } else {
        bump_at(dispatched_times(r, t, (n - 1) as nat), t)
    }
}

/// A listener just registered for `t` has run exactly `n` times after `n`
/// dispatches of `t`, and every listener of another type not at all.
pub proof fn lemma_listener_runs_once_per_dispatch(r: Map<TypeId, Seq<nat>>, t: TypeId, u: TypeId, n: nat)
    ensures
        counted(dispatched_times(r.insert(t, counted(r, t).push(0)), t, n), t).len() == counted(r, t).len() + 1,
        counted(dispatched_times(r.insert(t, counted(r, t).push(0)), t, n), t).last() == n,
        u != t ==> counted(dispatched_times(r.insert(t, counted(r, t).push(0)), t, n), u) == counted(r, u),
    decreases n,
{
    let r0 = r.insert(t, counted(r, t).push(0));
    if n > 0 {
        lemma_listener_runs_once_per_dispatch(r, t, u, (n - 1) as nat);
        let prev = dispatched_times(r0, t, (n - 1) as nat);
        lemma_dispatch_runs_only_its_type(prev, t, u);
        assert(prev.contains_key(t));
    }
}

/// Two listeners registered in turn for one event type have both run once
/// after one dispatch of that type.
pub proof fn lemma_two_listeners_both_run(r: Map<TypeId, Seq<nat>>, t: TypeId)
    ensures
        ({
            let r1 = r.insert(t, counted(r, t).push(0));
            let r2 = r1.insert(t, counted(r1, t).push(0));
            counted(bump_at(r2, t), t) == bumped(counted(r, t)).push(1).push(1)
        }),
{
    let r1 = r.insert(t, counted(r, t).push(0));
    let r2 = r1.insert(t, counted(r1, t).push(0));
    assert(counted(bump_at(r2, t), t) =~= bumped(counted(r, t)).push(1).push(1));
}

/// After the key `k` is removed from the list of `t`, a dispatch of `t` runs
/// every remaining listener of `t` once more, and the count of `k` is gone.
pub proof fn lemma_removed_listener_does_not_run<'a>(
    d: EventDispatcher<'a>,
    t: TypeId,
    k: u64,
    after: Map<TypeId, Seq<u64>>,
    after_runs: Map<TypeId, Seq<nat>>,
    i: int,
)
    requires
        d.wf(),
        removed(d@, t, k, after),
        removed_runs(d@, d.runs(), t, k, after_runs),
        0 <= i < listed(d@, t).len(),
        listed(d@, t)[i] == k,
    ensures
        listed(after, t) == listed(d@, t).remove(i),
        counted(bump_at(after_runs, t), t) == bumped(counted(d.runs(), t).remove(i)),
{
    assert(after_runs == d.runs().insert(t, counted(d.runs(), t).remove(i)));
}

} // verus!
