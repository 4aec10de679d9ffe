//! Properties that span several operations of the stores, stated over
//! the abstract views the operations' contracts use.

use vstd::prelude::*;
use crate::store::{
    changed, delivery_of, tagged, untagged, fresh, last_delivered, ids_below, listener_matches_spec, matching_ids, push_if, queued,
    store_wf, unique_ids, without_id, without_listener, DeliveryView, HookKind, ListenerView,
    QueuedView, StoreView, listener_added, listener_removed, payloads, Listened, Unmounted,
    ChangeHooks, SetOutcome, set_outcome, set_chain, hook_run, hook_step, start_context, set_written,
    notify_settled,
};
use crate::context::ContextView;
use crate::lifecycle::{hook_added, hook_removed, mount_hook_added, mount_hook_removed};
use crate::collection::{
    cloned_seq, present, item_dropped, item_put, item_removed, item_set, order_put, order_set, order_without,
    row_changes, same_order, Collection, CollectionView, ORDER_KEY,
};
use crate::computed::{decided, recompute_begun, ComputedView, Recompute};
use crate::computed::NotificationsView;
use crate::scheduler::JobQueueView;
use vstd::std_specs::cmp::PartialEqSpec;
use vstd::std_specs::hash::obeys_key_model;
use vstd::string::to_string_from_display_ensures;
use std::fmt::Display;
use std::hash::Hash;

verus! {

proof fn lemma_without_id_absent(s: Seq<u64>, x: u64)
    requires
        ids_below(s, x),
    ensures
        without_id(s, x) == s,
    decreases s.len(),
{
    if s.len() > 0 {
        let d = s.drop_last();
        assert(ids_below(d, x)) by {
            assert forall|i: int| 0 <= i < d.len() implies #[trigger] d[i] < x by {
                assert(s[i] < x);
            }
        }
        lemma_without_id_absent(d, x);
        assert(s[s.len() - 1] < x);
        assert(d.push(s.last()) =~= s);
    }
}

proof fn lemma_without_id_push_if(s: Seq<u64>, c: bool, x: u64)
    requires
        ids_below(s, x),
    ensures
        without_id(push_if(s, c, x), x) == s,
{
    lemma_without_id_absent(s, x);
    if c {
        assert(s.push(x).drop_last() =~= s);
    }
}

proof fn lemma_listener_ids_below<T>(s: StoreView<T>)
    requires
        store_wf(s),
    ensures
        forall|i: int| 0 <= i < s.listeners.len() ==> #[trigger] s.listeners[i].id != s.next_id,
{
    assert forall|i: int| 0 <= i < s.listeners.len() implies #[trigger] s.listeners[i].id != s.next_id by {
        assert(s.listeners[i].id < s.next_id);
    }
}

proof fn lemma_without_listener_absent(ls: Seq<ListenerView>, id: u64)
    requires
        forall|i: int| 0 <= i < ls.len() ==> #[trigger] ls[i].id != id,
    ensures
        without_listener(ls, id) == ls,
    decreases ls.len(),
{
    if ls.len() > 0 {
        let d = ls.drop_last();
        assert forall|i: int| 0 <= i < d.len() implies #[trigger] d[i].id != id by {
            assert(ls[i].id != id);
        }
        lemma_without_listener_absent(d, id);
        assert(ls[ls.len() - 1].id != id);
        assert(d.push(ls.last()) =~= ls);
    }
}

/// Unsubscribing the listener that was just registered gives the store back
/// the listeners it had before; and when that was its only listener, the
/// store stops again (its stop hooks are handed out).
pub proof fn law_unsubscribe_undoes_listen<T>(s: StoreView<T>, keys: Option<Seq<Seq<char>>>)
    requires
        store_wf(s),
    ensures
        without_listener(s.listeners.push(ListenerView { id: s.next_id, keys }), s.next_id) == s.listeners,
        s.listeners.len() == 0 ==> without_listener(
            s.listeners.push(ListenerView { id: s.next_id, keys }),
            s.next_id,
        ).len() == 0,
{
    let ls = s.listeners.push(ListenerView { id: s.next_id, keys });
    lemma_listener_ids_below(s);
    lemma_without_listener_absent(s.listeners, s.next_id);
    assert(ls.drop_last() =~= s.listeners);
}

/// A mount cycle: when the first listener arrives, the start and mount
/// hooks are handed out; when it leaves again, every cleanup recorded for
/// the mount and the stop hooks are handed out, and the store is back to
/// no listeners, keeping no cleanups.
pub proof fn law_mount_cycle<T>(
    s: StoreView<T>,
    m1: StoreView<T>,
    m2: StoreView<T>,
    n: StoreView<T>,
    r: Listened,
    keys: Option<Seq<Seq<char>>>,
    immediate: bool,
    cleanups: Seq<(u64, u64)>,
    u: Unmounted,
)
    requires
        store_wf(s),
        s.listeners.len() == 0,
        listener_added(s, m1, r, keys, immediate),
        m2 == (StoreView { mount_cleanups: m1.mount_cleanups + cleanups, ..m1 }),
        listener_removed(m2, n, u, r.subscription@),
    ensures
        r.start_hooks@ == s.start_hooks,
        r.mount_hooks@ == s.mount_hooks,
        u.cleanups@ == payloads(s.mount_cleanups + cleanups),
        u.stop_hooks@ == s.stop_hooks,
        n == (StoreView { next_id: m1.next_id, mount_cleanups: Seq::empty(), ..s }),
{
    law_unsubscribe_undoes_listen(s, keys);
    assert(s.listeners =~= Seq::<ListenerView>::empty());
}

/// Removing a start, stop, set or notify hook right after registering it
/// gives the store back its hooks as they were (only the id counter has
/// moved on).
pub proof fn law_remove_hook_undoes_registration<T>(
    o: StoreView<T>,
    m: StoreView<T>,
    n: StoreView<T>,
    kind: HookKind,
    id: u64,
)
    requires
        store_wf(o),
        hook_added(o, m, kind, id),
        hook_removed(m, n, id),
    ensures
        n == (StoreView { next_id: m.next_id, ..o }),
{
    lemma_without_id_push_if(o.start_hooks, kind is Start, o.next_id);
    lemma_without_id_push_if(o.stop_hooks, kind is Stop, o.next_id);
    lemma_without_id_push_if(o.set_hooks, kind is SetValue, o.next_id);
    lemma_without_id_push_if(o.notify_hooks, kind is NotifyValue, o.next_id);
}

/// Removing a mount hook right after registering it gives the store back
/// its mount hooks as they were, and hands back the cleanups tagged with
/// its id.
pub proof fn law_remove_mount_hook_undoes_registration<T>(
    o: StoreView<T>,
    m: StoreView<T>,
    n: StoreView<T>,
    id: u64,
    cleanups: Seq<u64>,
)
    requires
        store_wf(o),
        mount_hook_added(o, m, id),
        mount_hook_removed(m, n, id, cleanups),
    ensures
        n.mount_hooks == o.mount_hooks,
        n.next_id == m.next_id,
        n.listeners == o.listeners,
        n.start_hooks == o.start_hooks,
        n.stop_hooks == o.stop_hooks,
        n.set_hooks == o.set_hooks,
        n.notify_hooks == o.notify_hooks,
        n.value == o.value,
{
    lemma_without_id_push_if(o.mount_hooks, true, o.next_id);
}

/// With no hooks in the way, a change that wrote nothing (the value equal
/// to the current one) reaches no listener when nothing else was queued,
/// and the value stays.
pub proof fn law_unchanged_value_notifies_nobody<T: Clone + PartialEq, H: ChangeHooks<T>>(
    o: StoreView<T>,
    n: StoreView<T>,
    ds: Seq<DeliveryView<T>>,
    value: T,
    key: Option<Seq<char>>,
    run_set_hooks: bool,
    hooks: H,
)
    requires
        changed(o, n, ds, value, key, run_set_hooks, None, hooks),
        !run_set_hooks || o.set_hooks.len() == 0,
        o.notify_hooks.len() == 0,
        o.queue.len() == 0,
        !o.draining,
        n.write_seq == o.write_seq,
    ensures
        ds.len() == 0,
        n.value == o.value,
{
    assert(fresh(o.queue, o.delivered_seq) =~= Seq::<QueuedView<T>>::empty());
}

/// With no hooks in the way and nothing else queued, a change that wrote
/// the value makes it the store's value and makes exactly one delivery:
/// of (a copy of) the value, under the changed key, to exactly the
/// listeners whose key filter matches that key, in registration order.
pub proof fn law_write_notifies_matching_listeners<T: Clone + PartialEq, H: ChangeHooks<T>>(
    o: StoreView<T>,
    n: StoreView<T>,
    ds: Seq<DeliveryView<T>>,
    value: T,
    key: Option<Seq<char>>,
    run_set_hooks: bool,
    known: Option<bool>,
    hooks: H,
)
    requires
        store_wf(o),
        changed(o, n, ds, value, key, run_set_hooks, known, hooks),
        !run_set_hooks || o.set_hooks.len() == 0,
        o.notify_hooks.len() == 0,
        o.queue.len() == 0,
        !o.draining,
        n.write_seq != o.write_seq,
    ensures
        n.value == value,
        ds.len() == 1,
        ds[0].key == key,
        ds[0].listeners == matching_ids(o.listeners, key),
        cloned(value, ds[0].value),
{
    let v = choose|v: T|
        cloned(value, v) && ds == crate::store::deliveries_of(
            o.listeners,
            #[trigger] fresh(o.queue.push(queued(n.write_seq, v, key)), o.delivered_seq),
        );
    let q = o.queue.push(queued(n.write_seq, v, key));
    assert(q.len() == 1);
    assert(q[0].seq > o.delivered_seq);
    assert(q.drop_first() =~= Seq::<QueuedView<T>>::empty());
    assert(fresh(q.drop_first(), q[0].seq) =~= Seq::<QueuedView<T>>::empty());
    assert(fresh(q, o.delivered_seq) =~= seq![q[0]]);
    assert(ds[0] == delivery_of(o.listeners, q[0]));
}

/// Some listener of `ls` has id `x` and a key filter matching `key`.
pub open spec fn matched_by(ls: Seq<ListenerView>, key: Option<Seq<char>>, x: u64) -> bool {
    exists|k: int| 0 <= k < ls.len() && #[trigger] ls[k].id == x && listener_matches_spec(ls[k].keys, key)
}

proof fn lemma_matching_contains(ls: Seq<ListenerView>, key: Option<Seq<char>>, x: u64)
    ensures
        matching_ids(ls, key).contains(x) == matched_by(ls, key, x),
    decreases ls.len(),
{
    if ls.len() > 0 {
        let d = ls.drop_last();
        lemma_matching_contains(d, key, x);
        let rest = matching_ids(d, key);
        let last = ls.last();
        assert(ls[ls.len() - 1] == last);
        if matched_by(d, key, x) {
            let k = choose|k: int| 0 <= k < d.len() && #[trigger] d[k].id == x && listener_matches_spec(d[k].keys, key);
            assert(ls[k] == d[k]);
        }
        if matched_by(ls, key, x) {
            let k = choose|k: int| 0 <= k < ls.len() && #[trigger] ls[k].id == x && listener_matches_spec(ls[k].keys, key);
            if k < ls.len() - 1 {
                assert(d[k] == ls[k]);
                assert(matched_by(d, key, x));
            }
        }
        if listener_matches_spec(last.keys, key) {
            let full = rest.push(last.id);
            assert(matching_ids(ls, key) == full);
            if rest.contains(x) {
                let j = choose|j: int| 0 <= j < rest.len() && rest[j] == x;
                assert(full[j] == x);
            }
            if x == last.id {
                assert(full[rest.len() as int] == x);
            }
            if full.contains(x) {
                let j = choose|j: int| 0 <= j < full.len() && full[j] == x;
                if j < rest.len() {
                    assert(rest[j] == x);
                }
            }
        }
    }
}

/// A listener hears about a change exactly when its key filter matches the
/// changed key: the deliveries' listener list holds its id iff it matches.
pub proof fn law_delivery_reaches_exactly_matching(ls: Seq<ListenerView>, key: Option<Seq<char>>, i: int)
    requires
        unique_ids(ls),
        0 <= i < ls.len(),
    ensures
        matching_ids(ls, key).contains(ls[i].id) == listener_matches_spec(ls[i].keys, key),
{
    lemma_matching_contains(ls, key, ls[i].id);
    if matched_by(ls, key, ls[i].id) {
        let k = choose|k: int| 0 <= k < ls.len() && #[trigger] ls[k].id == ls[i].id && listener_matches_spec(ls[k].keys, key);
        if k != i {
            assert(ls[k].id != ls[i].id);
        }
    }
}

proof fn lemma_without_listener_drops_id(ls: Seq<ListenerView>, id: u64)
    ensures
        forall|k: int| 0 <= k < without_listener(ls, id).len() ==> #[trigger] without_listener(ls, id)[k].id != id,
    decreases ls.len(),
{
    if ls.len() > 0 {
        lemma_without_listener_drops_id(ls.drop_last(), id);
        let rest = without_listener(ls.drop_last(), id);
        assert forall|k: int| 0 <= k < without_listener(ls, id).len() implies #[trigger] without_listener(ls, id)[k].id != id by {
            if k < rest.len() {
                assert(without_listener(ls, id)[k] == rest[k]);
            }
        }
    }
}

/// A listener that was removed hears about no later change: the listeners
/// a change reaches never include it.
pub proof fn law_removed_listener_hears_nothing(ls: Seq<ListenerView>, id: u64, key: Option<Seq<char>>)
    ensures
        !matching_ids(without_listener(ls, id), key).contains(id),
{
    let rest = without_listener(ls, id);
    lemma_matching_contains(rest, key, id);
    lemma_without_listener_drops_id(ls, id);
    if matched_by(rest, key, id) {
        let k = choose|k: int| 0 <= k < rest.len() && #[trigger] rest[k].id == id && listener_matches_spec(rest[k].keys, key);
        assert(rest[k].id != id);
    }
}

/// A listener of one key hears about changes of that key and of the whole
/// value, and about no other key: a row listener sleeps through other rows
/// and through re-sorting.
pub proof fn law_row_listener_hears_only_its_row(row: Seq<char>, changed_key: Seq<char>)
    ensures
        listener_matches_spec(Some(seq![row]), Some(changed_key)) == (changed_key == row),
        listener_matches_spec(Some(seq![row]), None),
        listener_matches_spec(None, Some(changed_key)),
{
    if seq![row].contains(changed_key) {
        assert(seq![row][0] == changed_key);
    }
    if changed_key == row {
        assert(seq![row][0] == changed_key);
    }
}


/// What a read gives back after a write: with no hooks in the way, and for
/// a value type whose `==` is equality itself, the store holds exactly the
/// value that was set, whether it was written or was already there.
pub proof fn law_read_gives_back_write<T: Clone + PartialEq, H: ChangeHooks<T>>(
    o: StoreView<T>,
    n: StoreView<T>,
    ds: Seq<DeliveryView<T>>,
    value: T,
    key: Option<Seq<char>>,
    run_set_hooks: bool,
    hooks: H,
)
    requires
        changed(o, n, ds, value, key, run_set_hooks, None, hooks),
        !run_set_hooks || o.set_hooks.len() == 0,
        o.notify_hooks.len() == 0,
        T::obeys_eq_spec(),
        forall|a: T, b: T| #[trigger] a.eq_spec(&b) <==> a == b,
    ensures
        n.value == value,
{
    assert(o.value.eq_spec(&value) <==> o.value == value);
}

/// Setting an item stores it under its key and leaves every other item as
/// it was; a new key grows the order by one.
pub proof fn law_set_item_then_get_item<K: Clone, V>(
    c: CollectionView<K, V>,
    d: CollectionView<K, V>,
    key: K,
    value: V,
)
    requires
        item_set(c, d, key, value),
    ensures
        d.items.contains_key(key),
        d.items[key] == value,
        forall|j: K| j != key ==> #[trigger] d.items.contains_key(j) == c.items.contains_key(j),
        forall|j: K| j != key && c.items.contains_key(j) ==> #[trigger] d.items[j] == c.items[j],
        d.order.len() == c.order.len() + if c.items.contains_key(key) { 0int } else { 1int },
{
}

/// What a read gives back after `set_item`: in a store with no hooks in the
/// way, and for an item type whose `==` is equality itself, the store's
/// collection holds exactly the item under its key, whether it was written
/// or was already there.
pub proof fn law_store_holds_set_item<K: Eq + Hash + Clone + Display, V: Clone + PartialEq, H: ChangeHooks<Collection<K, V>>>(
    o: StoreView<Collection<K, V>>,
    n: StoreView<Collection<K, V>>,
    ds: Seq<DeliveryView<Collection<K, V>>>,
    key: K,
    value: V,
    hooks: H,
)
    requires
        item_put(o, n, ds, key, value, hooks),
        obeys_key_model::<K>(),
        o.set_hooks.len() == 0,
        o.notify_hooks.len() == 0,
        V::obeys_eq_spec(),
        forall|a: V, b: V| #[trigger] a.eq_spec(&b) <==> a == b,
    ensures
        n.value@.items.contains_key(key),
        n.value@.items[key] == value,
{
    let (next, ks, known) = choose|next: Collection<K, V>, ks: String, known: Option<bool>|
        #![trigger changed(o, n, ds, next, Some(ks@), true, known, hooks)]
        to_string_from_display_ensures::<K>(&key, ks)
        && (obeys_key_model::<K>() ==> item_set(o.value@, next@, key, value))
        && changed(o, n, ds, next, Some(ks@), true, known, hooks);
    if !row_changes(o.value@, key, value) {
        assert(o.value@.items[key].eq_spec(&value));
    }
}

/// A changed row wakes the listeners of its key: with no hooks in the way
/// and nothing else queued, storing an item under a new key, or one that
/// compares unequal to the stored one, writes it and makes exactly one
/// delivery, under the key's text, to exactly the listeners whose key
/// filter matches that text.
pub proof fn law_changed_row_wakes_its_listeners<K: Eq + Hash + Clone + Display, V: Clone + PartialEq, H: ChangeHooks<Collection<K, V>>>(
    o: StoreView<Collection<K, V>>,
    n: StoreView<Collection<K, V>>,
    ds: Seq<DeliveryView<Collection<K, V>>>,
    key: K,
    value: V,
    hooks: H,
)
    requires
        store_wf(o),
        item_put(o, n, ds, key, value, hooks),
        obeys_key_model::<K>(),
        row_changes(o.value@, key, value),
        o.set_hooks.len() == 0,
        o.notify_hooks.len() == 0,
        o.queue.len() == 0,
        !o.draining,
    ensures
        n.write_seq == o.write_seq + 1,
        n.value@.items.contains_key(key),
        n.value@.items[key] == value,
        ds.len() == 1,
        exists|ks: String|
            #[trigger] to_string_from_display_ensures::<K>(&key, ks) && ds[0].key == Some(ks@)
                && ds[0].listeners == matching_ids(o.listeners, Some(ks@)),
{
    let (next, ks, known) = choose|next: Collection<K, V>, ks: String, known: Option<bool>|
        #![trigger changed(o, n, ds, next, Some(ks@), true, known, hooks)]
        to_string_from_display_ensures::<K>(&key, ks)
        && (obeys_key_model::<K>() ==> item_set(o.value@, next@, key, value))
        && changed(o, n, ds, next, Some(ks@), true, known, hooks);
    law_write_notifies_matching_listeners(o, n, ds, next, Some(ks@), true, known, hooks);
}

/// Removing a present item removes it: with no hooks in the way, the
/// store's collection afterwards holds every other item and not this one.
pub proof fn law_removing_an_item_writes_it<K: Eq + Hash + Clone + Display, V: Clone + PartialEq, H: ChangeHooks<Collection<K, V>>>(
    o: StoreView<Collection<K, V>>,
    n: StoreView<Collection<K, V>>,
    ds: Seq<DeliveryView<Collection<K, V>>>,
    key: K,
    hooks: H,
)
    requires
        item_dropped(o, n, ds, key, hooks),
        obeys_key_model::<K>(),
        o.value@.items.contains_key(key),
        o.set_hooks.len() == 0,
        o.notify_hooks.len() == 0,
    ensures
        n.write_seq == o.write_seq + 1,
        n.value@.items == o.value@.items.remove(key),
{
    let (next, ks) = choose|next: Collection<K, V>, ks: String|
        #![trigger changed(o, n, ds, next, Some(ks@), true, Some(true), hooks)]
        to_string_from_display_ensures::<K>(&key, ks) && item_removed(o.value@, next@, key)
            && changed(o, n, ds, next, Some(ks@), true, Some(true), hooks);
}

/// Re-sorting wakes the order's listeners only: with no hooks in the way
/// and nothing else queued, an order that compares unequal to the current
/// one is written, keeps the items, and makes exactly one delivery, under
/// [`ORDER_KEY`], to exactly the listeners whose key filter matches it (so
/// not a listener of one row, see `law_row_listener_hears_only_its_row`).
pub proof fn law_reorder_wakes_the_order_listeners<K: Eq + Hash + Clone + Display, V: Clone + PartialEq, H: ChangeHooks<Collection<K, V>>>(
    o: StoreView<Collection<K, V>>,
    n: StoreView<Collection<K, V>>,
    ds: Seq<DeliveryView<Collection<K, V>>>,
    order: Seq<K>,
    hooks: H,
)
    requires
        store_wf(o),
        order_put(o, n, ds, order, hooks),
        K::obeys_eq_spec(),
        !same_order(o.value@.order, order),
        o.set_hooks.len() == 0,
        o.notify_hooks.len() == 0,
        o.queue.len() == 0,
        !o.draining,
    ensures
        n.write_seq == o.write_seq + 1,
        n.value@.items == o.value@.items,
        n.value@.order == order,
        ds.len() == 1,
        ds[0].key == Some(ORDER_KEY@),
        ds[0].listeners == matching_ids(o.listeners, Some(ORDER_KEY@)),
{
    let (next, known) = choose|next: Collection<K, V>, known: Option<bool>|
        #![trigger changed(o, n, ds, next, Some(ORDER_KEY@), true, known, hooks)]
        order_set(o.value@, next@, order) && changed(o, n, ds, next, Some(ORDER_KEY@), true, known, hooks);
    law_write_notifies_matching_listeners(o, n, ds, next, Some(ORDER_KEY@), true, known, hooks);
}

proof fn lemma_order_without_excludes<K: PartialEq>(order: Seq<K>, key: K)
    ensures
        forall|i: int| 0 <= i < order_without(order, key).len() ==> !(#[trigger] order_without(order, key)[i]).eq_spec(&key),
    decreases order.len(),
{
    if order.len() > 0 {
        lemma_order_without_excludes(order.drop_last(), key);
        let rest = order_without(order.drop_last(), key);
        assert forall|i: int| 0 <= i < order_without(order, key).len() implies !(#[trigger] order_without(order, key)[i]).eq_spec(&key) by {
            if i < rest.len() {
                assert(order_without(order, key)[i] == rest[i]);
            }
        }
    }
}

/// Removing an item drops it and its key: neither the items nor the order
/// hold the key afterwards, and the other items stay.
pub proof fn law_remove_item_drops_key<K: Clone + PartialEq, V>(
    c: CollectionView<K, V>,
    d: CollectionView<K, V>,
    key: K,
)
    requires
        item_removed(c, d, key),
        K::obeys_eq_spec(),
    ensures
        !d.items.contains_key(key),
        d.items == c.items.remove(key),
        forall|i: int| 0 <= i < d.order.len() ==> !(#[trigger] d.order[i]).eq_spec(&key),
{
    let co = choose|co: Seq<K>| cloned_seq(c.order, co) && d.order == #[trigger] order_without(co, key);
    lemma_order_without_excludes(co, key);
}

/// Re-sorting changes the order and nothing else: every item stays.
pub proof fn law_reorder_keeps_items<K, V>(c: CollectionView<K, V>, d: CollectionView<K, V>, order: Seq<K>)
    requires
        order_set(c, d, order),
    ensures
        d.items == c.items,
        d.order == order,
{
}

/// Recompute requests coalesce: once a dependency change has made a
/// recompute pending, further changes ask for nothing until it comes due,
/// and the first change always asks for one.
pub proof fn law_recompute_requests_coalesce<T>(
    c0: ComputedView<T>,
    c1: ComputedView<T>,
    c2: ComputedView<T>,
    r1: Recompute,
    r2: Recompute,
    in_notification1: bool,
    in_notification2: bool,
)
    requires
        decided(c0, c1, r1, in_notification1),
        decided(c1, c2, r2, in_notification2),
    ensures
        c1.pending,
        r2 is Skip,
        c2 == c1,
        !c0.pending ==> !(r1 is Skip),
{
}

/// Once a pending recompute has come due, the next dependency change asks
/// for a recompute again.
pub proof fn law_due_recompute_rearms<T>(
    c0: ComputedView<T>,
    c1: ComputedView<T>,
    c2: ComputedView<T>,
    run: bool,
    r: Recompute,
    in_notification: bool,
)
    requires
        recompute_begun(c0, c1, run),
        decided(c1, c2, r, in_notification),
    ensures
        !(r is Skip),
        c2.pending,
{
}

/// Notifications nest: starting one and ending it leaves the tracker as it
/// was, and the ending one is the outermost exactly when none was in
/// progress before.
pub proof fn law_notifications_nest(
    o: NotificationsView,
    m: NotificationsView,
    n: NotificationsView,
    outermost: bool,
)
    requires
        o.depth < u64::MAX,
        m == (NotificationsView { depth: (o.depth + 1) as u64, ..o }),
        outermost == (m.depth == 1),
        n == (NotificationsView { depth: (m.depth - 1) as u64, ..m }),
    ensures
        n == o,
        outermost == (o.depth == 0),
{
}

/// Batched recomputes leave in the order they were queued: after queueing
/// `a` and then `b`, a flush hands out the earlier jobs, then `a`, then `b`,
/// and leaves the queue empty.
pub proof fn law_flush_is_first_in_first_out(
    q0: JobQueueView,
    q1: JobQueueView,
    q2: JobQueueView,
    q3: JobQueueView,
    a: u64,
    b: u64,
    jobs: Seq<u64>,
)
    requires
        q1 == (JobQueueView { jobs: q0.jobs.push(a), ..q0 }),
        q2 == (JobQueueView { jobs: q1.jobs.push(b), ..q1 }),
        jobs == q2.jobs,
        q3 == (JobQueueView { jobs: Seq::empty(), ..q2 }),
    ensures
        jobs == q0.jobs + seq![a, b],
        q3.jobs.len() == 0,
        q3.scheduler_set == q0.scheduler_set,
{
    assert(jobs =~= q0.jobs + seq![a, b]);
}

/// A set hook that aborts whatever it is handed blocks every change that
/// runs the set hooks: when a store's first set hook always aborts, such a
/// change is rejected and leaves the store as it was.
pub proof fn law_aborting_set_hook_blocks_the_write<T: Clone + PartialEq, H: ChangeHooks<T>>(
    o: StoreView<T>,
    n: StoreView<T>,
    r: SetOutcome,
    value: T,
    key: Option<Seq<char>>,
    known: Option<bool>,
    hooks: H,
)
    requires
        set_outcome(o, n, r, value, key, true, known, hooks),
        o.set_hooks.len() > 0,
        forall|b: ContextView<T>, a: ContextView<T>| #[trigger] hooks.set_step(o.set_hooks[0], b, a) ==> a.aborted,
    ensures
        r is Rejected,
        n == o,
{
    let cs = choose|cs: Seq<ContextView<T>>|
        #[trigger] hook_run(hooks, true, set_chain(o, true), cs) && cs[0] == start_context(value, key)
            && set_written(o, n, r, cs.last(), key, if cs.len() == 1 { known } else { None }, hooks);
    assert(cs.len() >= 2) by {
        if cs.len() < 2 {
            assert(cs.last() == cs[0]);
        }
    }
    assert(hook_step(hooks, true, set_chain(o, true)[1 - 1], cs[1 - 1], cs[1]));
    assert(cs[1].aborted);
    assert(cs.len() == 2) by {
        if cs.len() > 2 {
            assert(!cs[1].aborted);
        }
    }
}

/// What a set hook makes of the value is what is stored: when a store's
/// only set hook turns any value `v` into `f(v)` without aborting and no
/// notify hook is registered, a change that runs the set hooks and writes
/// stores `f(value)`.
pub proof fn law_set_hook_rewrites_the_written_value<T: Clone + PartialEq, H: ChangeHooks<T>>(
    o: StoreView<T>,
    n: StoreView<T>,
    r: SetOutcome,
    value: T,
    key: Option<Seq<char>>,
    known: Option<bool>,
    hooks: H,
    f: spec_fn(T) -> T,
)
    requires
        set_outcome(o, n, r, value, key, true, known, hooks),
        o.set_hooks.len() == 1,
        o.notify_hooks.len() == 0,
        forall|b: ContextView<T>, a: ContextView<T>|
            #[trigger] hooks.set_step(o.set_hooks[0], b, a) ==> !a.aborted && a.value == f(b.value),
    ensures
        r is Unchanged || r is Queued,
        r is Unchanged ==> n == o,
        r is Queued ==> n.value == f(value),
{
    let cs = choose|cs: Seq<ContextView<T>>|
        #[trigger] hook_run(hooks, true, set_chain(o, true), cs) && cs[0] == start_context(value, key)
            && set_written(o, n, r, cs.last(), key, if cs.len() == 1 { known } else { None }, hooks);
    assert(cs.len() == 2) by {
        if cs.len() < 2 {
            assert(cs.last() == cs[0]);
        }
    }
    assert(hook_step(hooks, true, set_chain(o, true)[1 - 1], cs[1 - 1], cs[1]));
    if !(r is Unchanged) {
        let ns = choose|ns: Seq<ContextView<T>>|
            #[trigger] hook_run(hooks, false, o.notify_hooks, ns) && notify_settled(o, n, r, cs.last().value, ns, key);
        assert(ns.len() == 1);
    }
}

/// A notify hook that aborts whatever it is handed silences every write:
/// when a store's first notify hook always aborts, a change that wrote
/// queues nothing, though the written value stays.
pub proof fn law_aborting_notify_hook_silences_the_write<T: Clone + PartialEq, H: ChangeHooks<T>>(
    o: StoreView<T>,
    n: StoreView<T>,
    r: SetOutcome,
    value: T,
    key: Option<Seq<char>>,
    run_set_hooks: bool,
    known: Option<bool>,
    hooks: H,
)
    requires
        set_outcome(o, n, r, value, key, run_set_hooks, known, hooks),
        o.notify_hooks.len() > 0,
        forall|b: ContextView<T>, a: ContextView<T>| #[trigger] hooks.notify_step(o.notify_hooks[0], b, a) ==> a.aborted,
    ensures
        !(r is Queued),
        n.queue == o.queue,
{
    let cs = choose|cs: Seq<ContextView<T>>|
        #[trigger] hook_run(hooks, true, set_chain(o, run_set_hooks), cs) && cs[0] == start_context(value, key)
            && set_written(o, n, r, cs.last(), key, if cs.len() == 1 { known } else { None }, hooks);
    if !cs.last().aborted && !(r is Unchanged) {
        let ns = choose|ns: Seq<ContextView<T>>|
            #[trigger] hook_run(hooks, false, o.notify_hooks, ns) && notify_settled(o, n, r, cs.last().value, ns, key);
        assert(ns.len() >= 2) by {
            if ns.len() < 2 {
                assert(ns.last() == ns[0]);
            }
        }
        assert(hook_step(hooks, false, o.notify_hooks[1 - 1], ns[1 - 1], ns[1]));
        assert(ns.len() == 2) by {
            if ns.len() > 2 {
                assert(!ns[1].aborted);
            }
        }
    }
}

proof fn lemma_filter_membership<A>(s: Seq<A>, p: spec_fn(A) -> bool, y: A)
    ensures
        s.filter(p).contains(y) == (s.contains(y) && p(y)),
    decreases s.len(),
{
    reveal(Seq::filter);
    if s.len() > 0 {
        let d = s.drop_last();
        lemma_filter_membership(d, p, y);
        let rest = d.filter(p);
        let out = s.filter(p);
        if d.contains(y) {
            let j = choose|j: int| 0 <= j < d.len() && d[j] == y;
            assert(s[j] == y);
        }
        if s.contains(y) {
            let j = choose|j: int| 0 <= j < s.len() && s[j] == y;
            if j < s.len() - 1 {
                assert(d[j] == y);
            }
        }
        if p(s.last()) {
            assert(out == rest.push(s.last()));
            if rest.contains(y) {
                let j = choose|j: int| 0 <= j < rest.len() && rest[j] == y;
                assert(out[j] == y);
            }
            if y == s.last() && p(y) {
                assert(out[rest.len() as int] == y);
            }
            if out.contains(y) {
                let j = choose|j: int| 0 <= j < out.len() && out[j] == y;
                if j < rest.len() {
                    assert(rest[j] == y);
                }
            }
        }
    }
}

proof fn lemma_without_id_filters(s: Seq<u64>, x: u64)
    ensures
        without_id(s, x) == s.filter(|y: u64| y != x),
    decreases s.len(),
{
    reveal(Seq::filter);
    if s.len() > 0 {
        lemma_without_id_filters(s.drop_last(), x);
    }
}

/// Removing an id from a list of registrations (hooks of any kind) keeps
/// every other id, in order: the list afterwards is the old one with
/// exactly the occurrences of that id taken out.
pub proof fn law_removing_an_id_keeps_the_others(s: Seq<u64>, x: u64)
    ensures
        without_id(s, x) == s.filter(|y: u64| y != x),
        forall|y: u64| #[trigger] without_id(s, x).contains(y) == (s.contains(y) && y != x),
        without_id(s, x).len() <= s.len(),
{
    lemma_without_id_filters(s, x);
    s.filter_lemma(|y: u64| y != x);
    assert forall|y: u64| #[trigger] without_id(s, x).contains(y) == (s.contains(y) && y != x) by {
        lemma_filter_membership(s, |y: u64| y != x, y);
    }
}

/// Removing one hook keeps every other hook registered: after removing the
/// start, stop, set or notify hook `id`, each list holds exactly the ids it
/// held before other than `id`, in the same order.
pub proof fn law_remove_hook_keeps_the_other_hooks<T>(m: StoreView<T>, n: StoreView<T>, id: u64)
    requires
        hook_removed(m, n, id),
    ensures
        n.start_hooks == m.start_hooks.filter(|y: u64| y != id),
        n.stop_hooks == m.stop_hooks.filter(|y: u64| y != id),
        n.set_hooks == m.set_hooks.filter(|y: u64| y != id),
        n.notify_hooks == m.notify_hooks.filter(|y: u64| y != id),
        forall|y: u64| y != id ==> #[trigger] n.set_hooks.contains(y) == m.set_hooks.contains(y),
        forall|y: u64| y != id ==> #[trigger] n.notify_hooks.contains(y) == m.notify_hooks.contains(y),
        forall|y: u64| y != id ==> #[trigger] n.start_hooks.contains(y) == m.start_hooks.contains(y),
        forall|y: u64| y != id ==> #[trigger] n.stop_hooks.contains(y) == m.stop_hooks.contains(y),
{
    law_removing_an_id_keeps_the_others(m.start_hooks, id);
    law_removing_an_id_keeps_the_others(m.stop_hooks, id);
    law_removing_an_id_keeps_the_others(m.set_hooks, id);
    law_removing_an_id_keeps_the_others(m.notify_hooks, id);
}

/// Removing a mount hook keeps every other mount hook registered, in order.
pub proof fn law_remove_mount_hook_keeps_the_others<T>(m: StoreView<T>, n: StoreView<T>, id: u64, cleanups: Seq<u64>)
    requires
        mount_hook_removed(m, n, id, cleanups),
    ensures
        n.mount_hooks == m.mount_hooks.filter(|y: u64| y != id),
        forall|y: u64| y != id ==> #[trigger] n.mount_hooks.contains(y) == m.mount_hooks.contains(y),
{
    law_removing_an_id_keeps_the_others(m.mount_hooks, id);
}

proof fn lemma_without_listener_filters(ls: Seq<ListenerView>, id: u64)
    ensures
        without_listener(ls, id) == ls.filter(|l: ListenerView| l.id != id),
    decreases ls.len(),
{
    reveal(Seq::filter);
    if ls.len() > 0 {
        lemma_without_listener_filters(ls.drop_last(), id);
    }
}

/// Removing a listener keeps every other listener, in order: the listeners
/// afterwards are the old ones with exactly those of that id taken out.
pub proof fn law_removing_a_listener_keeps_the_others(ls: Seq<ListenerView>, id: u64)
    ensures
        without_listener(ls, id) == ls.filter(|l: ListenerView| l.id != id),
        forall|l: ListenerView| #[trigger] without_listener(ls, id).contains(l) == (ls.contains(l) && l.id != id),
{
    lemma_without_listener_filters(ls, id);
    assert forall|l: ListenerView| #[trigger] without_listener(ls, id).contains(l) == (ls.contains(l) && l.id != id) by {
        lemma_filter_membership(ls, |l: ListenerView| l.id != id, l);
    }
}

/// A keyed listener hears about a change of any key it named, wherever that
/// key stands in its filter, and about no key it did not name; it hears
/// about every whole-value change.
pub proof fn law_keyed_listener_hears_every_key_it_named(
    ls: Seq<ListenerView>,
    i: int,
    ks: Seq<Seq<char>>,
    k: Seq<char>,
)
    requires
        unique_ids(ls),
        0 <= i < ls.len(),
        ls[i].keys == Some(ks),
    ensures
        matching_ids(ls, Some(k)).contains(ls[i].id) == ks.contains(k),
        forall|j: int| 0 <= j < ks.len() ==> #[trigger] matching_ids(ls, Some(ks[j])).contains(ls[i].id),
        matching_ids(ls, None).contains(ls[i].id),
{
    law_delivery_reaches_exactly_matching(ls, Some(k), i);
    law_delivery_reaches_exactly_matching(ls, None, i);
    assert forall|j: int| 0 <= j < ks.len() implies #[trigger] matching_ids(ls, Some(ks[j])).contains(ls[i].id) by {
        law_delivery_reaches_exactly_matching(ls, Some(ks[j]), i);
        assert(ks.contains(ks[j]));
    }
}

proof fn lemma_order_without_filters<K: PartialEq>(order: Seq<K>, key: K)
    ensures
        order_without(order, key) == order.filter(|y: K| !y.eq_spec(&key)),
    decreases order.len(),
{
    reveal(Seq::filter);
    if order.len() > 0 {
        lemma_order_without_filters(order.drop_last(), key);
    }
}

/// Removing an item keeps every other key of the order in place: the order
/// afterwards is (a copy of) the old one with exactly the keys equal to the
/// removed one taken out, the others kept in their relative order.
pub proof fn law_remove_item_keeps_the_other_keys<K: Clone + PartialEq, V>(
    c: CollectionView<K, V>,
    d: CollectionView<K, V>,
    key: K,
)
    requires
        item_removed(c, d, key),
        K::obeys_eq_spec(),
    ensures
        exists|co: Seq<K>| #[trigger] cloned_seq(c.order, co) && d.order == co.filter(|y: K| !y.eq_spec(&key)),
        forall|co: Seq<K>, y: K| cloned_seq(c.order, co) && d.order == #[trigger] order_without(co, key)
            ==> (#[trigger] d.order.contains(y) == (co.contains(y) && !y.eq_spec(&key))),
{
    let co = choose|co: Seq<K>| cloned_seq(c.order, co) && d.order == #[trigger] order_without(co, key);
    lemma_order_without_filters(co, key);
    assert forall|co: Seq<K>, y: K| cloned_seq(c.order, co) && d.order == #[trigger] order_without(co, key)
        implies (#[trigger] d.order.contains(y) == (co.contains(y) && !y.eq_spec(&key))) by {
        lemma_order_without_filters(co, key);
        lemma_filter_membership(co, |y: K| !y.eq_spec(&key), y);
    }
}

/// A batched derived store always waits for the scheduler's tick: a
/// dependency change that finds no recompute pending asks for the tick,
/// whether or not a notification is in progress; an unbatched one runs the
/// recompute now, or after the outermost notification in progress.
pub proof fn law_batched_store_waits_for_the_tick<T>(
    o: ComputedView<T>,
    n: ComputedView<T>,
    r: Recompute,
    in_notification: bool,
)
    requires
        decided(o, n, r, in_notification),
        !o.pending,
    ensures
        o.batched ==> r is Schedule,
        !o.batched && in_notification ==> r is Defer,
        !o.batched && !in_notification ==> r is Now,
        n.pending,
{
}

/// Re-sorting to the order already shown is no change: with no hooks in
/// the way and nothing queued, an order that compares equal, key by key, to
/// the current one writes nothing, wakes nobody and leaves the store as it
/// was.
pub proof fn law_reorder_to_the_same_order_changes_nothing<K: Eq + Hash + Clone + Display, V: Clone + PartialEq, H: ChangeHooks<Collection<K, V>>>(
    o: StoreView<Collection<K, V>>,
    n: StoreView<Collection<K, V>>,
    ds: Seq<DeliveryView<Collection<K, V>>>,
    order: Seq<K>,
    hooks: H,
)
    requires
        order_put(o, n, ds, order, hooks),
        K::obeys_eq_spec(),
        same_order(o.value@.order, order),
        o.set_hooks.len() == 0,
        o.queue.len() == 0,
        !o.draining,
    ensures
        n == o,
        ds.len() == 0,
{
    let (next, known) = choose|next: Collection<K, V>, known: Option<bool>|
        #![trigger changed(o, n, ds, next, Some(ORDER_KEY@), true, known, hooks)]
        order_set(o.value@, next@, order) && changed(o, n, ds, next, Some(ORDER_KEY@), true, known, hooks);
    assert(fresh(o.queue, o.delivered_seq) =~= Seq::<QueuedView<Collection<K, V>>>::empty());
    assert(last_delivered(o.queue, o.delivered_seq) == o.delivered_seq);
    assert(n.queue =~= o.queue);
}

/// Storing an item equal to the one stored is no change: with no hooks in
/// the way and nothing queued, it writes nothing, wakes nobody and leaves
/// the store as it was.
pub proof fn law_equal_item_changes_nothing<K: Eq + Hash + Clone + Display, V: Clone + PartialEq, H: ChangeHooks<Collection<K, V>>>(
    o: StoreView<Collection<K, V>>,
    n: StoreView<Collection<K, V>>,
    ds: Seq<DeliveryView<Collection<K, V>>>,
    key: K,
    value: V,
    hooks: H,
)
    requires
        item_put(o, n, ds, key, value, hooks),
        obeys_key_model::<K>(),
        V::obeys_eq_spec(),
        o.value@.items.contains_key(key),
        o.value@.items[key].eq_spec(&value),
        o.set_hooks.len() == 0,
        o.queue.len() == 0,
        !o.draining,
    ensures
        n == o,
        ds.len() == 0,
{
    let (next, ks, known) = choose|next: Collection<K, V>, ks: String, known: Option<bool>|
        #![trigger changed(o, n, ds, next, Some(ks@), true, known, hooks)]
        to_string_from_display_ensures::<K>(&key, ks)
        && (obeys_key_model::<K>() ==> item_set(o.value@, next@, key, value))
        && changed(o, n, ds, next, Some(ks@), true, known, hooks);
    assert(fresh(o.queue, o.delivered_seq) =~= Seq::<QueuedView<Collection<K, V>>>::empty());
    assert(last_delivered(o.queue, o.delivered_seq) == o.delivered_seq);
    assert(n.queue =~= o.queue);
}

proof fn lemma_map_push<A, B>(s: Seq<A>, x: A, f: spec_fn(A) -> B)
    ensures
        s.push(x).map_values(f) == s.map_values(f).push(f(x)),
{
    assert(s.push(x).map_values(f) =~= s.map_values(f).push(f(x)));
}

/// A change reaches exactly the listeners whose key filter matches, each
/// once, in registration order: the ids of `ls` kept by the filter.
pub proof fn law_matching_listeners_in_registration_order(ls: Seq<ListenerView>, key: Option<Seq<char>>)
    ensures
        matching_ids(ls, key) == ls.filter(|l: ListenerView| listener_matches_spec(l.keys, key)).map_values(
            |l: ListenerView| l.id,
        ),
    decreases ls.len(),
{
    reveal(Seq::filter);
    if ls.len() > 0 {
        law_matching_listeners_in_registration_order(ls.drop_last(), key);
        let p = |l: ListenerView| listener_matches_spec(l.keys, key);
        if p(ls.last()) {
            lemma_map_push(ls.drop_last().filter(p), ls.last(), |l: ListenerView| l.id);
        }
    }
}

/// Removing a mount hook hands back exactly the cleanups it left, in the
/// order they were recorded, and keeps every cleanup of the other mount
/// hooks, in order.
pub proof fn law_mount_cleanups_split_by_hook<C>(cs: Seq<(u64, C)>, id: u64)
    ensures
        tagged(cs, id) == cs.filter(|c: (u64, C)| c.0 == id).map_values(|c: (u64, C)| c.1),
        untagged(cs, id) == cs.filter(|c: (u64, C)| c.0 != id),
    decreases cs.len(),
{
    reveal(Seq::filter);
    if cs.len() > 0 {
        law_mount_cleanups_split_by_hook(cs.drop_last(), id);
        let p = |c: (u64, C)| c.0 == id;
        if p(cs.last()) {
            lemma_map_push(cs.drop_last().filter(p), cs.last(), |c: (u64, C)| c.1);
        }
    }
}

/// Reading a collection in order shows exactly the keys of its order that
/// have an item, in that order.
pub proof fn law_reading_in_order_skips_only_missing_items<K, V>(order: Seq<K>, items: Map<K, V>)
    ensures
        present(order, items) == order.filter(|k: K| items.contains_key(k)),
    decreases order.len(),
{
    reveal(Seq::filter);
    if order.len() > 0 {
        law_reading_in_order_skips_only_missing_items(order.drop_last(), items);
    }
}

} // verus!
