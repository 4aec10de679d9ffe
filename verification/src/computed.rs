use vstd::prelude::*;
use crate::any::{derived_view, AnyStore, AnyStoreView};
use crate::lifecycle::Lifecycle;
use crate::store::{
    changed, deliveries_view, listener_added, listener_removed, remove_all, without_id,
    without_listener, ChangeHooks, Delivery, DeliveryView, Listened, ReadableStore, StoreCore,
    StoreLike, StoreView, Unmounted,
};
use crate::subscription::Subscription;

verus! {

/// How a derived store's value is computed from its dependencies. The
/// dependency tuple of a derived store implements it. What the caller's
/// function gives is its own: `computes` says which values computing from
/// the dependencies' current values may give.
pub trait ComputeDeps<T> {
    /// Whether `value` may be what computing from the dependencies' current
    /// values gives; unless the dependencies say more, any value may.
    open spec fn computes(&self, value: T) -> bool {
        true
    }

    /// The value computed from the dependencies' current values.
    fn compute(&self) -> (v: T)
        ensures
            self.computes(v),
    ;
}

/// The abstract state of a derived store.
pub struct ComputedView<T> {
    /// The store holding the derived value.
    pub store: StoreView<T>,
    /// The ids of its subscriptions to its dependencies (empty while
    /// unmounted).
    pub deps: Seq<u64>,
    /// Whether recomputes wait for the scheduler's tick.
    pub batched: bool,
    /// Whether a recompute is already on its way.
    pub pending: bool,
}

/// What a dependency change asks the caller to do.
pub enum Recompute {
    /// Nothing: a recompute is already on its way.
    Skip,
    /// Recompute now.
    Now,
    /// Recompute once the outermost notification in progress has ended.
    Defer,
    /// Recompute at the scheduler's tick.
    Schedule,
}

/// What registering a listener on a derived store asks the caller to do.
pub struct ComputedListened {
    /// As for any store.
    pub listened: Listened,
    /// Whether the store must mount first: subscribe to its dependencies
    /// and recompute (see [`Computed::mount`]).
    pub mount: bool,
}

/// What removing a listener from a derived store asks the caller to do.
pub struct ComputedUnmounted {
    /// As for any store.
    pub unmounted: Unmounted,
    /// The subscriptions to the dependencies to drop (when it was the last
    /// listener).
    pub dep_subscriptions: Vec<Subscription>,
}

/// A store whose value is derived from other stores. While it has
/// listeners it is mounted: subscribed to its dependencies and recomputed
/// when they change. While unmounted, reading it recomputes on demand.
pub struct Computed<T> {
    inner: StoreCore<T>,
    dep_subscriptions: Vec<Subscription>,
    batched: bool,
    pending: bool,
}

/// The ids of a list of subscriptions.
pub open spec fn subscription_ids(subs: Seq<Subscription>) -> Seq<u64> {
    subs.map_values(|s: Subscription| s@)
}

impl<T> View for Computed<T> {
    type V = ComputedView<T>;

    closed spec fn view(&self) -> ComputedView<T> {
        ComputedView {
            store: self.inner@,
            deps: subscription_ids(self.dep_subscriptions@),
            batched: self.batched,
            pending: self.pending,
        }
    }
}

/// A derived store holding `value`, recomputed at once (`batched` false) or
/// at the scheduler's tick (`batched` true) when mounted.
pub open spec fn fresh_computed<T>(value: T, batched: bool) -> ComputedView<T> {
    ComputedView { store: StoreCore::<T>::new_view(value), deps: Seq::empty(), batched, pending: false }
}

/// What a dependency change decided, from state `o` to state `n`: nothing
/// when a recompute is already pending; otherwise the recompute becomes
/// pending and is scheduled (batched), deferred (`in_notification`) or run
/// now.
pub open spec fn decided<T>(o: ComputedView<T>, n: ComputedView<T>, r: Recompute, in_notification: bool) -> bool {
    if o.pending {
        r is Skip && n == o
    } else {
        &&& n == ComputedView { pending: true, ..o }
        &&& if o.batched {
            r is Schedule
        } else if in_notification {
            r is Defer
        } else {
            r is Now
        }
    }
}

/// A pending recompute came due, from state `o` to state `n`: it is no
/// longer pending, and it runs (`run`) only while the store is mounted.
pub open spec fn recompute_begun<T>(o: ComputedView<T>, n: ComputedView<T>, run: bool) -> bool {
    &&& run == (o.store.listeners.len() > 0)
    &&& n == ComputedView { pending: false, ..o }
}

/// A derived store recomputed as soon as a dependency changes.
pub fn computed<T, D: ComputeDeps<T>>(deps: &D) -> (c: Computed<T>)
    ensures
        c@ == fresh_computed(c@.store.value, false),
        deps.computes(c@.store.value),
{
    Computed::from_value(deps.compute(), false)
}

/// A derived store whose recomputes wait for the scheduler's tick, so that
/// several dependency changes in one tick make one recompute.
pub fn batched<T, D: ComputeDeps<T>>(deps: &D) -> (c: Computed<T>)
    ensures
        c@ == fresh_computed(c@.store.value, true),
        deps.computes(c@.store.value),
{
    Computed::from_value(deps.compute(), true)
}

/// A derived store whose recomputes wait for the scheduler's tick.
pub type Batched<T> = Computed<T>;

impl<T> Computed<T> {
    /// A derived store whose first value, computed by the caller, is `value`.
    pub fn from_value(value: T, batched: bool) -> (c: Self)
        ensures
            c@ == fresh_computed(value, batched),
    {
        let c = Computed { inner: StoreCore::new(value), dep_subscriptions: Vec::new(), batched, pending: false };
        proof {
            assert(c@.deps =~= Seq::<u64>::empty());
        }
        c
    }

    /// Whether the store is mounted (has listeners).
    pub fn is_mounted(&self) -> (b: bool)
        ensures
            b == (self@.store.listeners.len() > 0),
    {
        self.inner.is_mounted()
    }

    fn add(&mut self, immediate: bool) -> (r: ComputedListened)
        requires
            old(self)@.store.next_id < u64::MAX,
        ensures
            listener_added(old(self)@.store, final(self)@.store, r.listened, None, immediate),
            final(self)@ == (ComputedView { store: final(self)@.store, ..old(self)@ }),
            r.mount == (old(self)@.store.listeners.len() == 0 && old(self)@.deps.len() == 0),
    {
        let first = !self.inner.is_mounted();
        let listened = self.inner.add_listener(immediate, None);
        let mount = first && self.dep_subscriptions.len() == 0;
        ComputedListened { listened, mount }
    }

    /// Register a listener for future changes. When it is the first, the
    /// store must mount (`mount`) before the start hooks run.
    pub fn listen(&mut self) -> (r: ComputedListened)
        requires
            old(self)@.store.next_id < u64::MAX,
        ensures
            listener_added(old(self)@.store, final(self)@.store, r.listened, None, false),
            final(self)@ == (ComputedView { store: final(self)@.store, ..old(self)@ }),
            r.mount == (old(self)@.store.listeners.len() == 0 && old(self)@.deps.len() == 0),
    {
        self.add(false)
    }

    /// Register a listener that is also called at once with the current
    /// value (after mounting).
    pub fn subscribe(&mut self) -> (r: ComputedListened)
        requires
            old(self)@.store.next_id < u64::MAX,
        ensures
            listener_added(old(self)@.store, final(self)@.store, r.listened, None, true),
            final(self)@ == (ComputedView { store: final(self)@.store, ..old(self)@ }),
            r.mount == (old(self)@.store.listeners.len() == 0 && old(self)@.deps.len() == 0),
    {
        self.add(true)
    }

    /// Remove a listener. When it was the last one the store unmounts: its
    /// subscriptions to the dependencies are handed back to be dropped and
    /// a pending recompute is forgotten.
    pub fn unsubscribe(&mut self, subscription: Subscription) -> (r: ComputedUnmounted)
        ensures
            ({
                let o = old(self)@;
                let stopped = o.store.listeners.len() > 0 && without_listener(o.store.listeners, subscription@).len() == 0;
                &&& listener_removed(o.store, final(self)@.store, r.unmounted, subscription@)
                &&& stopped ==> subscription_ids(r.dep_subscriptions@) == o.deps
                    && final(self)@ == (ComputedView { store: final(self)@.store, deps: Seq::empty(), pending: false, ..o })
                &&& !stopped ==> r.dep_subscriptions@.len() == 0
                    && final(self)@ == (ComputedView { store: final(self)@.store, ..o })
            }),
    {
        let was_mounted = self.inner.is_mounted();
        let unmounted = self.inner.remove_listener(subscription.id());
        if was_mounted && !self.inner.is_mounted() {
            let dep_subscriptions = self.unmount();
            ComputedUnmounted { unmounted, dep_subscriptions }
        } else {
            let r = ComputedUnmounted { unmounted, dep_subscriptions: Vec::new() };
            proof {
                assert(subscription_ids(r.dep_subscriptions@) =~= Seq::<u64>::empty());
            }
            r
        }
    }

    fn unmount(&mut self) -> (subs: Vec<Subscription>)
        ensures
            subscription_ids(subs@) == old(self)@.deps,
            final(self)@ == (ComputedView { deps: Seq::empty(), pending: false, ..old(self)@ }),
    {
        let mut subs = Vec::new();
        std::mem::swap(&mut subs, &mut self.dep_subscriptions);
        self.pending = false;
        proof {
            assert(self@.deps =~= Seq::<u64>::empty());
        }
        subs
    }

    /// A dependency changed. Decide what happens: nothing when a recompute
    /// is already on its way; otherwise the recompute becomes pending and
    /// runs at the scheduler's tick (batched), after the outermost
    /// notification in progress (`in_notification`), or now.
    pub fn dependency_changed(&mut self, in_notification: bool) -> (r: Recompute)
        ensures
            decided(old(self)@, final(self)@, r, in_notification),
    {
        if self.pending {
            return Recompute::Skip;
        }
        self.pending = true;
        if self.batched {
            Recompute::Schedule
        } else if in_notification {
            Recompute::Defer
        } else {
            Recompute::Now
        }
    }

    /// A pending recompute comes due: it is no longer pending, and it runs
    /// only if the store is still mounted (the result).
    pub fn begin_recompute(&mut self) -> (run: bool)
        ensures
            recompute_begun(old(self)@, final(self)@, run),
    {
        self.pending = false;
        self.inner.is_mounted()
    }
}

impl<T: Clone> Computed<T> {
    /// The current value: the stored one while mounted (it is kept up to
    /// date), otherwise computed afresh from `deps` and remembered.
    pub fn get<D: ComputeDeps<T>>(&mut self, deps: &D) -> (v: T)
        ensures
            old(self)@.store.listeners.len() > 0 ==> final(self)@ == old(self)@,
            old(self)@.store.listeners.len() == 0 ==> final(self)@ == (ComputedView {
                store: StoreView { value: final(self)@.store.value, ..old(self)@.store },
                ..old(self)@
            }) && deps.computes(final(self)@.store.value),
            cloned(final(self)@.store.value, v),
    {
        if !self.inner.is_mounted() {
            let value = deps.compute();
            self.inner.replace_silently(value);
        }
        self.inner.get()
    }
}

/// The deliveries `ds` with the listener `id` left out of each.
pub open spec fn sparing<T>(ds: Seq<DeliveryView<T>>, id: u64) -> Seq<DeliveryView<T>> {
    ds.map_values(|d: DeliveryView<T>| DeliveryView { listeners: without_id(d.listeners, id), ..d })
}

/// Leave the listener `id` out of every delivery of `ds`, order kept.
fn spare_listener<T>(ds: Vec<Delivery<T>>, id: u64) -> (r: Vec<Delivery<T>>)
    ensures
        deliveries_view(r@) == sparing(deliveries_view(ds@), id),
{
    let ghost all = deliveries_view(ds@);
    let mut rest = ds;
    let mut r: Vec<Delivery<T>> = Vec::new();
    while rest.len() > 0
        invariant
            r@.len() + rest@.len() == all.len(),
            deliveries_view(rest@) == all.skip(r@.len() as int),
            forall|j: int| 0 <= j < r@.len() ==> #[trigger] r@[j]@ == (DeliveryView {
                listeners: without_id(all[j].listeners, id),
                ..all[j]
            }),
        decreases rest@.len(),
    {
        let ghost before = rest@;
        let d = rest.remove(0);
        let mut listeners = d.listeners;
        remove_all(&mut listeners, id);
        let spared = Delivery { value: d.value, changed_key: d.changed_key, listeners };
        proof {
            assert(d@ == deliveries_view(before)[0]);
            assert(deliveries_view(before)[0] == all[r@.len() as int]);
            let k = r@.len() as int;
            assert(rest@ == before.remove(0));
            assert forall|j: int| 0 <= j < rest@.len() implies #[trigger] deliveries_view(rest@)[j] == all.skip(k + 1)[j] by {
                assert(rest@[j] == before[j + 1]);
                assert(deliveries_view(before)[j + 1] == all.skip(k)[j + 1]);
            }
            assert(deliveries_view(rest@) =~= all.skip(k + 1));
        }
        r.push(spared);
    }
    proof {
        assert(deliveries_view(r@) =~= sparing(all, id));
    }
    r
}

impl<T: Clone + PartialEq> Computed<T> {
    /// Store a recomputed value (no set hooks run for derived values) and
    /// return the deliveries to make.
    pub fn recompute<H: ChangeHooks<T>>(&mut self, value: T, hooks: &H) -> (ds: Vec<Delivery<T>>)
        requires
            old(self)@.store.write_seq < u64::MAX,
        ensures
            final(self)@ == (ComputedView { store: final(self)@.store, ..old(self)@ }),
            changed(old(self)@.store, final(self)@.store, deliveries_view(ds@), value, None, false, None, *hooks),
    {
        self.inner.change(value, None, false, hooks)
    }

    /// Mount: remember the subscriptions to the dependencies the caller
    /// made and store the value recomputed from them. The listener whose
    /// arrival mounts the store (`newcomer`) is left out of what that
    /// recompute delivers: a subscribing listener is handed the value at
    /// once anyway, and a listening one hears of later changes only. A
    /// store that is already mounted (has dependency subscriptions) is
    /// left as it is and the new subscriptions are handed back.
    pub fn mount<H: ChangeHooks<T>>(
        &mut self,
        dep_subscriptions: Vec<Subscription>,
        value: T,
        hooks: &H,
        newcomer: u64,
    ) -> (r: (Vec<Subscription>, Vec<Delivery<T>>))
        requires
            old(self)@.store.write_seq < u64::MAX,
        ensures
            old(self)@.deps.len() > 0 ==> final(self)@ == old(self)@ && r.0@ == dep_subscriptions@
                && r.1@.len() == 0,
            old(self)@.deps.len() == 0 ==> r.0@.len() == 0 && final(self)@ == (ComputedView {
                store: final(self)@.store,
                deps: subscription_ids(dep_subscriptions@),
                ..old(self)@
            }) && exists|ds: Seq<DeliveryView<T>>|
                #[trigger] changed(old(self)@.store, final(self)@.store, ds, value, None, false, None, *hooks)
                    && deliveries_view(r.1@) == sparing(ds, newcomer),
    {
        if self.dep_subscriptions.len() > 0 {
            return (dep_subscriptions, Vec::new());
        }
        self.dep_subscriptions = dep_subscriptions;
        let all = self.recompute(value, hooks);
        let ghost dv = deliveries_view(all@);
        let ds = spare_listener(all, newcomer);
        proof {
            assert(changed(old(self)@.store, self@.store, dv, value, None, false, None, *hooks));
        }
        (Vec::new(), ds)
    }
}

impl<T> ReadableStore<T> for Computed<T> {
    fn listen_store(&mut self) -> (r: ComputedListened)
        ensures
            final(self)@ == (ComputedView { store: final(self)@.store, ..old(self)@ }),
            r.mount == (old(self)@.store.listeners.len() == 0 && old(self)@.deps.len() == 0),
    {
        self.add(false)
    }

    fn subscribe_store(&mut self) -> (r: ComputedListened)
        ensures
            final(self)@ == (ComputedView { store: final(self)@.store, ..old(self)@ }),
            r.mount == (old(self)@.store.listeners.len() == 0 && old(self)@.deps.len() == 0),
    {
        self.add(true)
    }
}

impl<T> StoreLike for Computed<T> {
    type Value = T;

    open spec fn store_view(&self) -> StoreView<T> {
        self@.store
    }

    open spec fn erased_view(&self) -> AnyStoreView<T> {
        derived_view(self@)
    }

    fn store_core(&self) -> (c: &StoreCore<T>) {
        &self.inner
    }

    fn store_core_mut(&mut self) -> (c: &mut StoreCore<T>)
        ensures
            final(self)@ == (ComputedView { store: final(c)@, ..old(self)@ }),
    {
        &mut self.inner
    }

    fn into_any(self) -> (a: AnyStore<T>) {
        AnyStore::from_computed(self)
    }
}

impl<T> Lifecycle for Computed<T> {
}

/// The abstract state of a [`Notifications`] tracker.
pub struct NotificationsView {
    /// How many notifications are in progress (nested).
    pub depth: u64,
    /// Recomputes put off until the outermost notification ends.
    pub deferred: Seq<u64>,
}

/// Tracks notifications in progress on one thread and the recomputes put
/// off until the outermost one ends, so that a store depending on several
/// changed stores recomputes once, from consistent values.
pub struct Notifications {
    depth: u64,
    deferred: Vec<u64>,
}

impl View for Notifications {
    type V = NotificationsView;

    closed spec fn view(&self) -> NotificationsView {
        NotificationsView { depth: self.depth, deferred: self.deferred@ }
    }
}

impl Notifications {
    /// No notification in progress, nothing put off.
    pub fn new() -> (n: Self)
        ensures
            n@ == (NotificationsView { depth: 0, deferred: Seq::empty() }),
    {
        Notifications { depth: 0, deferred: Vec::new() }
    }

    /// How many notifications are in progress.
    pub fn depth(&self) -> (d: u64)
        ensures
            d == self@.depth,
    {
        self.depth
    }

    /// A notification starts.
    pub fn notification_guard(&mut self)
        requires
            old(self)@.depth < u64::MAX,
        ensures
            final(self)@ == (NotificationsView { depth: (old(self)@.depth + 1) as u64, ..old(self)@ }),
    {
        self.depth = self.depth + 1;
    }

    /// A notification ends. Returns whether it was the outermost one: then
    /// the put-off recomputes are due.
    pub fn release(&mut self) -> (outermost: bool)
        requires
            old(self)@.depth > 0,
        ensures
            outermost == (old(self)@.depth == 1),
            final(self)@ == (NotificationsView { depth: (old(self)@.depth - 1) as u64, ..old(self)@ }),
    {
        self.depth = self.depth - 1;
        self.depth == 0
    }

    /// Put `job` off while a notification is in progress (returns `true`);
    /// otherwise it is to run now (returns `false`).
    pub fn defer_or_run(&mut self, job: u64) -> (deferred: bool)
        ensures
            deferred == (old(self)@.depth > 0),
            deferred ==> final(self)@ == (NotificationsView { deferred: old(self)@.deferred.push(job), ..old(self)@ }),
            !deferred ==> final(self)@ == old(self)@,
    {
        if self.depth > 0 {
            self.deferred.push(job);
            true
        } else {
            false
        }
    }

    /// The next put-off recompute, oldest first.
    pub fn flush_deferred_recomputes(&mut self) -> (job: Option<u64>)
        ensures
            old(self)@.deferred.len() == 0 ==> job is None && final(self)@ == old(self)@,
            old(self)@.deferred.len() > 0 ==> job == Some(old(self)@.deferred[0])
                && final(self)@ == (NotificationsView { deferred: old(self)@.deferred.drop_first(), ..old(self)@ }),
    {
        if self.deferred.len() == 0 {
            return None;
        }
        let job = self.deferred.remove(0);
        proof {
            assert(self@.deferred =~= old(self)@.deferred.drop_first());
        }
        Some(job)
    }
}

} // verus!
