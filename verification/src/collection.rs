use vstd::prelude::*;
use vstd::std_specs::hash::obeys_key_model;
use vstd::std_specs::cmp::PartialEqSpec;
use vstd::string::to_string_from_display_ensures;
use vstd::string::StringExecFns;
use std::collections::HashMap;
use std::fmt::Display;
use std::hash::Hash;
use crate::any::{plain_view, AnyStore, AnyStoreView};
use crate::lifecycle::Lifecycle;
use crate::store::{
    call_with_mut, changed, deliveries_view, listener_added, listener_removed, ChangeHooks,
    Delivery, DeliveryView, Listened, ReadableStore, StoreCore, StoreLike, StoreView, Unmounted,
};
use crate::computed::ComputedListened;
use crate::subscription::Subscription;

verus! {

broadcast use vstd::std_specs::hash::group_hash_axioms;

/// The abstract content of a [`Collection`]: the items by key, and the order
/// the keys are shown in.
#[verifier::reject_recursive_types(K)]
pub struct CollectionView<K, V> {
    pub items: Map<K, V>,
    pub order: Seq<K>,
}

/// A keyed collection with an explicit order. Items are stored by key; the
/// order is kept beside them, so that re-sorting is a change of its own.
#[derive(Debug, PartialEq, Eq)]
pub struct Collection<K, V> where K: Eq + Hash + Clone {
    items: HashMap<K, V>,
    order: Vec<K>,
}

/// Key under which order changes are announced (items are announced under
/// their own key, so a row listener stays asleep while the list re-sorts).
pub const ORDER_KEY: &'static str = "@order";

impl<K: Eq + Hash + Clone, V> View for Collection<K, V> {
    type V = CollectionView<K, V>;

    closed spec fn view(&self) -> CollectionView<K, V> {
        CollectionView { items: self.items@, order: self.order@ }
    }
}

/// `b` is, element by element, a clone of `a`.
pub open spec fn cloned_seq<K: Clone>(a: Seq<K>, b: Seq<K>) -> bool {
    &&& a.len() == b.len()
    &&& forall|i: int| 0 <= i < a.len() ==> cloned(#[trigger] a[i], b[i])
}

/// The keys of `order` that have an item, in order.
pub open spec fn present<K, V>(order: Seq<K>, items: Map<K, V>) -> Seq<K>
    decreases order.len(),
{
    if order.len() == 0 {
        Seq::empty()
    } else {
        let rest = present(order.drop_last(), items);
        if items.contains_key(order.last()) {
            rest.push(order.last())
        } else {
            rest
        }
    }
}

impl<K: Eq + Hash + Clone, V: Clone> Clone for Collection<K, V> {
    fn clone(&self) -> (c: Self)
        ensures
            c@.items == self@.items,
            cloned_seq(self@.order, c@.order),
    {
        Collection { items: self.items.clone(), order: self.order.clone() }
    }
}

impl<K: Eq + Hash + Clone, V> Collection<K, V> {
    /// A collection of `items` shown in `order`.
    pub fn new(items: HashMap<K, V>, order: Vec<K>) -> (c: Self)
        ensures
            c@ == (CollectionView { items: items@, order: order@ }),
    {
        Collection { items, order }
    }

    /// An empty collection.
    pub fn empty() -> (c: Self)
        ensures
            c@ == (CollectionView::<K, V> { items: Map::empty(), order: Seq::empty() }),
    {
        Collection { items: HashMap::new(), order: Vec::new() }
    }

    /// The order the keys are shown in.
    pub fn order(&self) -> (o: &[K])
        ensures
            o@ == self@.order,
    {
        self.order.as_slice()
    }

    /// The number of keys in the order.
    pub fn len(&self) -> (n: usize)
        ensures
            n == self@.order.len(),
    {
        self.order.len()
    }

    /// Whether the order is empty.
    pub fn is_empty(&self) -> (b: bool)
        ensures
            b == (self@.order.len() == 0),
    {
        self.order.len() == 0
    }
}

impl<K: Eq + Hash + Clone, V> Default for Collection<K, V> {
    fn default() -> (c: Self)
        ensures
            c@ == (CollectionView::<K, V> { items: Map::empty(), order: Seq::empty() }),
    {
        Collection::empty()
    }
}

impl<K: Eq + Hash + Clone, V> Collection<K, V> {
    /// The item stored under `key`.
    pub fn get(&self, key: &K) -> (v: Option<&V>)
        ensures
            obeys_key_model::<K>() ==> match v {
                Some(v) => self@.items.contains_key(*key) && *v == self@.items[*key],
                None => !self@.items.contains_key(*key),
            },
    {
        self.items.get(key)
    }

    /// The items in order, each with its key. Keys of the order without an
    /// item are skipped (items and order are set separately, and a reader
    /// in the middle of an update should not fail).
    pub fn iter(&self) -> (r: Vec<(&K, &V)>)
        ensures
            obeys_key_model::<K>() ==> ({
                let ks = present(self@.order, self@.items);
                &&& r@.len() == ks.len()
                &&& forall|i: int| 0 <= i < ks.len() ==> *(#[trigger] r@[i]).0 == ks[i]
                    && *r@[i].1 == self@.items[ks[i]]
            }),
    {
        let mut r: Vec<(&K, &V)> = Vec::new();
        let mut i: usize = 0;
        while i < self.order.len()
            invariant
                i <= self.order.len(),
                obeys_key_model::<K>() ==> ({
                    let ks = present(self@.order.take(i as int), self@.items);
                    &&& r@.len() == ks.len()
                    &&& forall|j: int| 0 <= j < ks.len() ==> *(#[trigger] r@[j]).0 == ks[j]
                        && *r@[j].1 == self@.items[ks[j]]
                }),
            decreases self.order.len() - i,
        {
            let key = &self.order[i];
            match self.items.get(key) {
                Some(value) => {
                    r.push((key, value));
                },
                None => {},
            }
            proof {
                assert(self@.order.take(i as int + 1).drop_last() =~= self@.order.take(i as int));
            }
            i += 1;
        }
        proof {
            assert(self@.order.take(self.order.len() as int) =~= self@.order);
        }
        r
    }
}

/// `d` is `c` with `value` stored under `key`; a new key is appended to
/// the order (the order's keys are copies).
pub open spec fn item_set<K: Clone, V>(c: CollectionView<K, V>, d: CollectionView<K, V>, key: K, value: V) -> bool {
    &&& d.items == c.items.insert(key, value)
    &&& if c.items.contains_key(key) {
        cloned_seq(c.order, d.order)
    } else {
        &&& d.order.len() == c.order.len() + 1
        &&& cloned_seq(c.order, d.order.drop_last())
        &&& cloned(key, d.order.last())
    }
}

/// `order` without the keys equal to `key`, order kept.
pub open spec fn order_without<K: PartialEq>(order: Seq<K>, key: K) -> Seq<K>
    decreases order.len(),
{
    if order.len() == 0 {
        order
    } else {
        let rest = order_without(order.drop_last(), key);
        if !order.last().eq_spec(&key) {
            rest.push(order.last())
        } else {
            rest
        }
    }
}

/// `d` is `c` without the item under `key`, and without `key` in the order.
pub open spec fn item_removed<K: Clone + PartialEq, V>(c: CollectionView<K, V>, d: CollectionView<K, V>, key: K) -> bool {
    &&& d.items == c.items.remove(key)
    &&& K::obeys_eq_spec() ==> exists|co: Seq<K>| cloned_seq(c.order, co) && d.order == #[trigger] order_without(co, key)
}

/// `d` is `c` shown in `order`.
pub open spec fn order_set<K, V>(c: CollectionView<K, V>, d: CollectionView<K, V>, order: Seq<K>) -> bool {
    &&& d.items == c.items
    &&& d.order == order
}


/// The text under which changes of `key` are announced.
fn key_text<K: Display>(key: &K) -> (s: String)
    ensures
        to_string_from_display_ensures::<K>(key, s),
{
    key.to_string()
}

/// Storing `value` under `key` is a change of the collection `c`: the key
/// is new, or the item compares unequal to the one stored.
pub open spec fn row_changes<K, V: PartialEq>(c: CollectionView<K, V>, key: K, value: V) -> bool {
    ||| !c.items.contains_key(key)
    ||| V::obeys_eq_spec() && !c.items[key].eq_spec(&value)
}

/// Two orders compare equal, key by key.
pub open spec fn same_order<K: PartialEq>(a: Seq<K>, b: Seq<K>) -> bool {
    &&& a.len() == b.len()
    &&& forall|i: int| 0 <= i < a.len() ==> (#[trigger] a[i]).eq_spec(&b[i])
}

/// What storing `value` under `key` did, from state `o` to state `n` with
/// deliveries `ds`: the collection with the item set (see [`item_set`])
/// went through the change pipeline under the key's text; a change of the
/// collection (see [`row_changes`]) is written unless a set hook is in the
/// way.
pub open spec fn item_put<K: Eq + Hash + Clone + Display, V: Clone + PartialEq, H: ChangeHooks<Collection<K, V>>>(
    o: StoreView<Collection<K, V>>,
    n: StoreView<Collection<K, V>>,
    ds: Seq<DeliveryView<Collection<K, V>>>,
    key: K,
    value: V,
    hooks: H,
) -> bool {
    &&& exists|next: Collection<K, V>, ks: String, known: Option<bool>|
        #![trigger changed(o, n, ds, next, Some(ks@), true, known, hooks)]
        to_string_from_display_ensures::<K>(&key, ks)
        && (obeys_key_model::<K>() ==> item_set(o.value@, next@, key, value))
        && changed(o, n, ds, next, Some(ks@), true, known, hooks)
    &&& obeys_key_model::<K>() && o.set_hooks.len() == 0 && row_changes(o.value@, key, value)
        ==> n.write_seq == o.write_seq + 1
    &&& obeys_key_model::<K>() && o.set_hooks.len() == 0 && V::obeys_eq_spec() && o.value@.items.contains_key(key)
        && o.value@.items[key].eq_spec(&value) ==> n.write_seq == o.write_seq && n.value == o.value
}

/// What removing the item under `key` did, from state `o` to state `n`
/// with deliveries `ds`: nothing for a key without an item; otherwise the
/// collection without the item and its key (see [`item_removed`]) went
/// through the change pipeline under the key's text, and is written unless
/// a set hook is in the way.
pub open spec fn item_dropped<K: Eq + Hash + Clone + Display, V: Clone + PartialEq, H: ChangeHooks<Collection<K, V>>>(
    o: StoreView<Collection<K, V>>,
    n: StoreView<Collection<K, V>>,
    ds: Seq<DeliveryView<Collection<K, V>>>,
    key: K,
    hooks: H,
) -> bool {
    &&& obeys_key_model::<K>() && !o.value@.items.contains_key(key) ==> n == o && ds.len() == 0
    &&& obeys_key_model::<K>() && o.value@.items.contains_key(key) ==> exists|next: Collection<K, V>, ks: String|
        #![trigger changed(o, n, ds, next, Some(ks@), true, Some(true), hooks)]
        to_string_from_display_ensures::<K>(&key, ks) && item_removed(o.value@, next@, key)
            && changed(o, n, ds, next, Some(ks@), true, Some(true), hooks)
    &&& n == o && ds.len() == 0 || exists|next: Collection<K, V>, ks: String|
        #![trigger changed(o, n, ds, next, Some(ks@), true, Some(true), hooks)]
        to_string_from_display_ensures::<K>(&key, ks)
        && (obeys_key_model::<K>() ==> item_removed(o.value@, next@, key))
        && changed(o, n, ds, next, Some(ks@), true, Some(true), hooks)
}

/// What replacing the order with `order` did, from state `o` to state `n`
/// with deliveries `ds`: the collection shown in `order` (see
/// [`order_set`]) went through the change pipeline under [`ORDER_KEY`]; an
/// order that compares unequal to the current one is written unless a set
/// hook is in the way.
pub open spec fn order_put<K: Eq + Hash + Clone + Display, V: Clone + PartialEq, H: ChangeHooks<Collection<K, V>>>(
    o: StoreView<Collection<K, V>>,
    n: StoreView<Collection<K, V>>,
    ds: Seq<DeliveryView<Collection<K, V>>>,
    order: Seq<K>,
    hooks: H,
) -> bool {
    &&& exists|next: Collection<K, V>, known: Option<bool>|
        #![trigger changed(o, n, ds, next, Some(ORDER_KEY@), true, known, hooks)]
        order_set(o.value@, next@, order) && changed(o, n, ds, next, Some(ORDER_KEY@), true, known, hooks)
    &&& K::obeys_eq_spec() && o.set_hooks.len() == 0 && !same_order(o.value@.order, order)
        ==> n.write_seq == o.write_seq + 1
    &&& K::obeys_eq_spec() && o.set_hooks.len() == 0 && same_order(o.value@.order, order)
        ==> n.write_seq == o.write_seq && n.value == o.value
}

/// What storing the outcome of an edit did: the edited `item` was stored
/// under `key` (see [`item_put`]) when `updated`; otherwise nothing changed
/// and nobody was woken.
pub open spec fn item_committed<K: Eq + Hash + Clone + Display, V: Clone + PartialEq, H: ChangeHooks<Collection<K, V>>>(
    o: StoreView<Collection<K, V>>,
    n: StoreView<Collection<K, V>>,
    ds: Seq<DeliveryView<Collection<K, V>>>,
    key: K,
    item: V,
    updated: bool,
    hooks: H,
) -> bool {
    if updated {
        item_put(o, n, ds, key, item, hooks)
    } else {
        n == o && ds.len() == 0
    }
}

/// `order` without the keys equal to `key`.
fn remove_key<K: PartialEq>(order: Vec<K>, key: &K) -> (r: Vec<K>)
    ensures
        K::obeys_eq_spec() ==> r@ == order_without(order@, *key),
{
    let ghost orig = order@;
    let mut rest = order;
    let mut kept: Vec<K> = Vec::new();
    let ghost mut i: int = 0;
    while rest.len() > 0
        invariant
            0 <= i <= orig.len(),
            rest@ == orig.skip(i),
            K::obeys_eq_spec() ==> kept@ == order_without(orig.take(i), *key),
        decreases rest.len(),
    {
        let k = rest.remove(0);
        proof {
            assert(k == orig[i]);
            assert(rest@ =~= orig.skip(i + 1));
            assert(orig.take(i + 1).drop_last() =~= orig.take(i));
        }
        if k != *key {
            kept.push(k);
        }
        proof {
            i = i + 1;
        }
    }
    proof {
        assert(orig.take(i) =~= orig);
    }
    kept
}

/// A store holding a [`Collection`]. Each item change is announced under
/// the item's key, order changes under [`ORDER_KEY`], and a whole
/// replacement under no key: a listener of one row is woken only by its
/// row.
pub struct CollectionStore<K, V> where K: Eq + Hash + Clone {
    inner: StoreCore<Collection<K, V>>,
}

impl<K: Eq + Hash + Clone, V> View for CollectionStore<K, V> {
    type V = StoreView<Collection<K, V>>;

    closed spec fn view(&self) -> StoreView<Collection<K, V>> {
        self.inner@
    }
}

/// A store holding the collection `init`.
pub fn collection<K: Eq + Hash + Clone, V>(init: Collection<K, V>) -> (s: CollectionStore<K, V>)
    ensures
        s@ == StoreCore::<Collection<K, V>>::new_view(init),
{
    CollectionStore { inner: StoreCore::new(init) }
}

impl<K: Eq + Hash + Clone, V> ReadableStore<Collection<K, V>> for CollectionStore<K, V> {
    fn listen_store(&mut self) -> (r: ComputedListened)
        ensures
            !r.mount,
    {
        ComputedListened { listened: self.inner.add_listener(false, None), mount: false }
    }

    fn subscribe_store(&mut self) -> (r: ComputedListened)
        ensures
            !r.mount,
    {
        ComputedListened { listened: self.inner.add_listener(true, None), mount: false }
    }
}

impl<K: Eq + Hash + Clone, V> StoreLike for CollectionStore<K, V> {
    type Value = Collection<K, V>;

    open spec fn store_view(&self) -> StoreView<Collection<K, V>> {
        self@
    }

    open spec fn erased_view(&self) -> AnyStoreView<Collection<K, V>> {
        plain_view(self@)
    }

    fn store_core(&self) -> (c: &StoreCore<Collection<K, V>>) {
        &self.inner
    }

    fn store_core_mut(&mut self) -> (c: &mut StoreCore<Collection<K, V>>) {
        &mut self.inner
    }

    fn into_any(self) -> (a: AnyStore<Collection<K, V>>) {
        AnyStore::from_core(self.inner)
    }
}

impl<K: Eq + Hash + Clone, V> CollectionStore<K, V> {
    /// Register a listener for every future change.
    pub fn listen(&mut self) -> (r: Listened)
        requires
            old(self)@.next_id < u64::MAX,
        ensures
            listener_added(old(self)@, final(self)@, r, None, false),
    {
        self.inner.add_listener(false, None)
    }

    /// Register a listener for every change, also called at once with the
    /// current collection.
    pub fn subscribe(&mut self) -> (r: Listened)
        requires
            old(self)@.next_id < u64::MAX,
        ensures
            listener_added(old(self)@, final(self)@, r, None, true),
    {
        self.inner.add_listener(true, None)
    }

    /// Listen to the order only (not to the items' contents).
    pub fn listen_order(&mut self) -> (r: Listened)
        requires
            old(self)@.next_id < u64::MAX,
        ensures
            listener_added(old(self)@, final(self)@, r, Some(seq![ORDER_KEY@]), false),
    {
        let mut keys: Vec<String> = Vec::new();
        keys.push(String::from_str(ORDER_KEY));
        proof {
            assert(crate::store::strings_view(keys@) =~= seq![ORDER_KEY@]);
        }
        self.inner.add_listener(false, Some(keys))
    }

    /// Remove the listener `subscription` stands for.
    pub fn unsubscribe(&mut self, subscription: Subscription) -> (r: Unmounted)
        ensures
            listener_removed(old(self)@, final(self)@, r, subscription@),
    {
        self.inner.remove_listener(subscription.id())
    }
}

impl<K: Eq + Hash + Clone + Display, V> CollectionStore<K, V> {
    /// Listen to one item: woken by that item's changes (and by whole
    /// replacements) only, not by other items nor by re-sorting.
    pub fn listen_key(&mut self, key: &K) -> (r: Listened)
        requires
            old(self)@.next_id < u64::MAX,
        ensures
            exists|ks: String| #![trigger to_string_from_display_ensures::<K>(key, ks)]
                to_string_from_display_ensures::<K>(key, ks)
                && listener_added(old(self)@, final(self)@, r, Some(seq![ks@]), false),
    {
        let ks = key_text(key);
        let ghost g = ks;
        let mut keys: Vec<String> = Vec::new();
        keys.push(ks);
        proof {
            assert(crate::store::strings_view(keys@) =~= seq![g@]);
        }
        self.inner.add_listener(false, Some(keys))
    }
}

impl<K: Eq + Hash + Clone, V: Clone> CollectionStore<K, V> {
    /// A copy of the whole collection.
    pub fn get(&self) -> (c: Collection<K, V>)
        ensures
            cloned(self@.value, c),
    {
        self.inner.get()
    }

    /// A copy of the item stored under `key`.
    pub fn get_item(&self, key: &K) -> (v: Option<V>)
        ensures
            obeys_key_model::<K>() ==> match v {
                Some(v) => self@.value@.items.contains_key(*key) && cloned(self@.value@.items[*key], v),
                None => !self@.value@.items.contains_key(*key),
            },
    {
        self.inner.value().get(key).cloned()
    }
}

impl<K: Eq + Hash + Clone + Display, V: Clone + PartialEq> CollectionStore<K, V> {
    /// Insert or replace one item; a new key joins the end of the order.
    /// Announced under the item's key only, so listeners of other rows stay
    /// asleep. A new key, or an item that compares unequal to the one
    /// stored, is a change of the collection and is written without
    /// comparing the whole of it. Returns the deliveries to make.
    pub fn set_item<H: ChangeHooks<Collection<K, V>>>(&mut self, key: K, value: V, hooks: &H) -> (ds: Vec<
        Delivery<Collection<K, V>>,
    >)
        requires
            old(self)@.write_seq < u64::MAX,
        ensures
            item_put(old(self)@, final(self)@, deliveries_view(ds@), key, value, *hooks),
    {
        let known = match self.inner.value().items.get(&key) {
            None => Some(true),
            Some(current) => Some(!(*current == value)),
        };
        let ks = key_text(&key);
        let ghost g = ks;
        let mut next = self.inner.get();
        let ghost c = self@.value@;
        if !next.items.contains_key(&key) {
            next.order.push(key.clone());
        }
        let ghost before_insert = next@;
        next.items.insert(key, value);
        proof {
            if obeys_key_model::<K>() {
                if c.items.contains_key(key) {
                    assert(cloned_seq(c.order, next@.order));
                } else {
                    assert(next@.order.drop_last() =~= before_insert.order.drop_last());
                    assert(cloned_seq(c.order, next@.order.drop_last()));
                }
            }
        }
        let ghost nx = next;
        let ds = self.inner.change_knowing(next, Some(ks), true, known, hooks);
        proof {
            assert(changed(old(self)@, self@, deliveries_view(ds@), nx, Some(g@), true, known, *hooks));
        }
        ds
    }

    /// Store the outcome of an edit of the item under `key`: the edited
    /// `item` when the edit says it changed something (`updated`), as
    /// [`CollectionStore::set_item`] does; nothing (and nobody woken)
    /// otherwise.
    pub fn commit_item<H: ChangeHooks<Collection<K, V>>>(
        &mut self,
        key: K,
        item: V,
        updated: bool,
        hooks: &H,
    ) -> (ds: Vec<Delivery<Collection<K, V>>>)
        requires
            old(self)@.write_seq < u64::MAX,
        ensures
            item_committed(old(self)@, final(self)@, deliveries_view(ds@), key, item, updated, *hooks),
    {
        if updated {
            self.set_item(key, item, hooks)
        } else {
            Vec::new()
        }
    }

    /// Change one item in place: `update` edits a copy of it and says
    /// whether it changed anything, and the outcome is stored as
    /// [`CollectionStore::commit_item`] says. Nothing is written (and nobody
    /// woken) when the key has no item.
    pub fn update_item<F: FnOnce(&mut V) -> bool, H: ChangeHooks<Collection<K, V>>>(
        &mut self,
        key: K,
        update: F,
        hooks: &H,
    ) -> (ds: Vec<Delivery<Collection<K, V>>>)
        requires
            old(self)@.write_seq < u64::MAX,
        ensures
            obeys_key_model::<K>() && !old(self)@.value@.items.contains_key(key) ==> final(self)@
                == old(self)@ && ds@.len() == 0,
            final(self)@ == old(self)@ && ds@.len() == 0 || exists|item: V, updated: bool|
                #[trigger] item_committed(old(self)@, final(self)@, deliveries_view(ds@), key, item, updated, *hooks),
    {
        let mut item = match self.inner.value().items.get(&key) {
            None => {
                return Vec::new();
            },
            Some(current) => current.clone(),
        };
        let updated = call_with_mut(update, &mut item);
        let ghost it = item;
        let ds = self.commit_item(key, item, updated, hooks);
        proof {
            assert(item_committed(old(self)@, self@, deliveries_view(ds@), key, it, updated, *hooks));
        }
        ds
    }

    /// Drop one item and its key from the order, announced under the item's
    /// key. Removing an absent key changes nothing; removing a present one
    /// is a change of the collection and is written without comparing.
    pub fn remove_item<H: ChangeHooks<Collection<K, V>>>(&mut self, key: &K, hooks: &H) -> (ds: Vec<
        Delivery<Collection<K, V>>,
    >)
        requires
            old(self)@.write_seq < u64::MAX,
        ensures
            item_dropped(old(self)@, final(self)@, deliveries_view(ds@), *key, *hooks),
    {
        let mut next = self.inner.get();
        let ghost c = self@.value@;
        let ghost cloned_order = next@.order;
        if next.items.remove(key).is_none() {
            proof {
                assert(item_dropped(old(self)@, self@, Seq::<DeliveryView<Collection<K, V>>>::empty(), *key, *hooks));
            }
            return Vec::new();
        }
        let mut order = Vec::new();
        std::mem::swap(&mut order, &mut next.order);
        next.order = remove_key(order, key);
        proof {
            if obeys_key_model::<K>() && K::obeys_eq_spec() {
                assert(cloned_seq(c.order, cloned_order));
                assert(next@.order == order_without(cloned_order, *key));
            }
        }
        let ks = key_text(key);
        let ghost g = ks;
        let ghost nx = next;
        let ds = self.inner.change_knowing(next, Some(ks), true, Some(true), hooks);
        proof {
            assert(changed(old(self)@, self@, deliveries_view(ds@), nx, Some(g@), true, Some(true), *hooks));
            assert(item_dropped(old(self)@, self@, deliveries_view(ds@), *key, *hooks));
        }
        ds
    }

    /// Replace the order (sorting, filtering), announced under
    /// [`ORDER_KEY`]: a listener of one row is not woken by a re-sort. An
    /// order that compares unequal to the current one is a change of the
    /// collection and is written without comparing the whole of it.
    pub fn set_order<H: ChangeHooks<Collection<K, V>>>(&mut self, order: Vec<K>, hooks: &H) -> (ds: Vec<
        Delivery<Collection<K, V>>,
    >)
        requires
            old(self)@.write_seq < u64::MAX,
        ensures
            order_put(old(self)@, final(self)@, deliveries_view(ds@), order@, *hooks),
    {
        let known = Some(!(self.inner.value().order == order));
        let mut next = self.inner.get();
        let ghost o = order@;
        next.order = order;
        let ghost nx = next;
        let ds = self.inner.change_knowing(next, Some(String::from_str(ORDER_KEY)), true, known, hooks);
        proof {
            assert(changed(old(self)@, self@, deliveries_view(ds@), nx, Some(ORDER_KEY@), true, known, *hooks));
            assert(order_put(old(self)@, self@, deliveries_view(ds@), o, *hooks));
        }
        ds
    }

    /// Replace everything (initial load, reset), announced under no key:
    /// every listener sees it.
    pub fn set<H: ChangeHooks<Collection<K, V>>>(&mut self, value: Collection<K, V>, hooks: &H) -> (ds: Vec<
        Delivery<Collection<K, V>>,
    >)
        requires
            old(self)@.write_seq < u64::MAX,
        ensures
            changed(old(self)@, final(self)@, deliveries_view(ds@), value, None, true, None, *hooks),
    {
        self.inner.change(value, None, true, hooks)
    }
}

impl<K: Eq + Hash + Clone, V> Lifecycle for CollectionStore<K, V> {
}

} // verus!
