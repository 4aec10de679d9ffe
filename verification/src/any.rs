use vstd::prelude::*;
use crate::computed::{
    subscription_ids, ComputeDeps, Computed, ComputedListened, ComputedUnmounted, ComputedView,
};
use crate::store::{
    listener_added, listener_removed, without_listener, ReadableStore, StoreCore, StoreLike, StoreView,
};
use crate::subscription::Subscription;

verus! {

/// The abstract state of an [`AnyStore`]: whether it is a derived store,
/// and its state as a derived store (a plain store is one with no
/// dependencies that is never recomputed).
pub struct AnyStoreView<T> {
    pub derived: bool,
    pub computed: ComputedView<T>,
}

/// The erased state of a plain store whose core is in state `s`.
pub open spec fn plain_view<T>(s: StoreView<T>) -> AnyStoreView<T> {
    AnyStoreView {
        derived: false,
        computed: ComputedView { store: s, deps: Seq::empty(), batched: false, pending: false },
    }
}

/// The erased state of the derived store in state `c`.
pub open spec fn derived_view<T>(c: ComputedView<T>) -> AnyStoreView<T> {
    AnyStoreView { derived: true, computed: c }
}

enum Erased<T> {
    Plain(StoreCore<T>),
    Derived(Computed<T>),
}

/// A read-only handle on a store of any kind, typed by its value alone: a
/// derived store, whose concrete type would carry its dependencies, fits in
/// the same field as a plain one.
pub struct AnyStore<T> {
    inner: Erased<T>,
}

impl<T> View for AnyStore<T> {
    type V = AnyStoreView<T>;

    closed spec fn view(&self) -> AnyStoreView<T> {
        match self.inner {
            Erased::Plain(c) => plain_view(c@),
            Erased::Derived(d) => derived_view(d@),
        }
    }
}

impl<T> AnyStore<T> {
    /// Erase the type of `store`.
    pub fn new<S: StoreLike<Value = T>>(store: S) -> (a: Self)
        ensures
            a@ == store.erased_view(),
            a@.computed.store == store.store_view(),
    {
        store.into_any()
    }

    /// The handle of a plain store whose core is `core`.
    pub(crate) fn from_core(core: StoreCore<T>) -> (a: Self)
        ensures
            a@ == plain_view(core@),
    {
        AnyStore { inner: Erased::Plain(core) }
    }

    /// The handle of the derived store `c`.
    pub(crate) fn from_computed(c: Computed<T>) -> (a: Self)
        ensures
            a@ == derived_view(c@),
    {
        AnyStore { inner: Erased::Derived(c) }
    }

    fn add(&mut self, immediate: bool) -> (r: ComputedListened)
        requires
            old(self)@.computed.store.next_id < u64::MAX,
        ensures
            listener_added(old(self)@.computed.store, final(self)@.computed.store, r.listened, None, immediate),
            final(self)@ == (AnyStoreView {
                computed: ComputedView { store: final(self)@.computed.store, ..old(self)@.computed },
                ..old(self)@
            }),
            r.mount == (old(self)@.derived && old(self)@.computed.store.listeners.len() == 0
                && old(self)@.computed.deps.len() == 0),
    {
        match &mut self.inner {
            Erased::Plain(core) => {
                let listened = core.add_listener(immediate, None);
                ComputedListened { listened, mount: false }
            },
            Erased::Derived(c) => {
                if immediate {
                    c.subscribe()
                } else {
                    c.listen()
                }
            },
        }
    }

    /// Register a listener for future changes. For a derived store that
    /// gains its first listener, `mount` says it must mount first.
    pub fn listen(&mut self) -> (r: ComputedListened)
        requires
            old(self)@.computed.store.next_id < u64::MAX,
        ensures
            listener_added(old(self)@.computed.store, final(self)@.computed.store, r.listened, None, false),
            final(self)@ == (AnyStoreView {
                computed: ComputedView { store: final(self)@.computed.store, ..old(self)@.computed },
                ..old(self)@
            }),
            r.mount == (old(self)@.derived && old(self)@.computed.store.listeners.len() == 0
                && old(self)@.computed.deps.len() == 0),
    {
        self.add(false)
    }

    /// Register a listener that is also called at once with the current
    /// value (after mounting).
    pub fn subscribe(&mut self) -> (r: ComputedListened)
        requires
            old(self)@.computed.store.next_id < u64::MAX,
        ensures
            listener_added(old(self)@.computed.store, final(self)@.computed.store, r.listened, None, true),
            final(self)@ == (AnyStoreView {
                computed: ComputedView { store: final(self)@.computed.store, ..old(self)@.computed },
                ..old(self)@
            }),
            r.mount == (old(self)@.derived && old(self)@.computed.store.listeners.len() == 0
                && old(self)@.computed.deps.len() == 0),
    {
        self.add(true)
    }

    /// Remove a listener. A derived store that loses its last listener
    /// unmounts and hands back its subscriptions to its dependencies.
    pub fn unsubscribe(&mut self, subscription: Subscription) -> (r: ComputedUnmounted)
        ensures
            ({
                let o = old(self)@.computed;
                let stopped = o.store.listeners.len() > 0 && without_listener(o.store.listeners, subscription@).len() == 0;
                let n = final(self)@.computed;
                &&& final(self)@.derived == old(self)@.derived
                &&& listener_removed(o.store, n.store, r.unmounted, subscription@)
                &&& stopped ==> subscription_ids(r.dep_subscriptions@) == o.deps
                    && n == (ComputedView { store: n.store, deps: Seq::empty(), pending: false, ..o })
                &&& !stopped ==> r.dep_subscriptions@.len() == 0 && n == (ComputedView { store: n.store, ..o })
            }),
    {
        match &mut self.inner {
            Erased::Plain(core) => {
                let unmounted = core.remove_listener(subscription.id());
                let r = ComputedUnmounted { unmounted, dep_subscriptions: Vec::new() };
                proof {
                    assert(subscription_ids(r.dep_subscriptions@) =~= Seq::<u64>::empty());
                }
                r
            },
            Erased::Derived(c) => c.unsubscribe(subscription),
        }
    }

    /// The derived store behind the handle, to drive its mounting and
    /// recomputes.
    pub fn computed_mut(&mut self) -> (c: &mut Computed<T>)
        requires
            old(self)@.derived,
        ensures
            c@ == old(self)@.computed,
            final(self)@ == derived_view(final(c)@),
    {
        match &mut self.inner {
            Erased::Derived(c) => c,
            Erased::Plain(_) => {
                proof {
                    assert(false);
                }
                vstd::pervasive::unreached()
            },
        }
    }
}

impl<T: Clone> AnyStore<T> {
    /// The current value: a plain store's, or a derived store's (computed
    /// afresh from `deps` while it is unmounted, see [`Computed::get`]).
    pub fn get<D: ComputeDeps<T>>(&mut self, deps: &D) -> (v: T)
        ensures
            ({
                let o = old(self)@;
                let n = final(self)@;
                if o.derived && o.computed.store.listeners.len() == 0 {
                    &&& n == AnyStoreView {
                        computed: ComputedView {
                            store: StoreView { value: n.computed.store.value, ..o.computed.store },
                            ..o.computed
                        },
                        ..o
                    }
                    &&& deps.computes(n.computed.store.value)
                } else {
                    n == o
                }
            }),
            cloned(final(self)@.computed.store.value, v),
    {
        match &mut self.inner {
            Erased::Plain(core) => core.get(),
            Erased::Derived(c) => c.get(deps),
        }
    }
}

impl<T> ReadableStore<T> for AnyStore<T> {
    fn listen_store(&mut self) -> (r: ComputedListened)
        ensures
            final(self)@ == (AnyStoreView {
                computed: ComputedView { store: final(self)@.computed.store, ..old(self)@.computed },
                ..old(self)@
            }),
            r.mount == (old(self)@.derived && old(self)@.computed.store.listeners.len() == 0
                && old(self)@.computed.deps.len() == 0),
    {
        self.add(false)
    }

    fn subscribe_store(&mut self) -> (r: ComputedListened)
        ensures
            final(self)@ == (AnyStoreView {
                computed: ComputedView { store: final(self)@.computed.store, ..old(self)@.computed },
                ..old(self)@
            }),
            r.mount == (old(self)@.derived && old(self)@.computed.store.listeners.len() == 0
                && old(self)@.computed.deps.len() == 0),
    {
        self.add(true)
    }
}

impl<T> StoreLike for AnyStore<T> {
    type Value = T;

    open spec fn store_view(&self) -> StoreView<T> {
        self@.computed.store
    }

    open spec fn erased_view(&self) -> AnyStoreView<T> {
        self@
    }

    fn store_core(&self) -> (c: &StoreCore<T>) {
        match &self.inner {
            Erased::Plain(core) => core,
            Erased::Derived(d) => d.store_core(),
        }
    }

    fn store_core_mut(&mut self) -> (c: &mut StoreCore<T>)
        ensures
            final(self)@ == (AnyStoreView {
                computed: ComputedView { store: final(c)@, ..old(self)@.computed },
                ..old(self)@
            }),
    {
        match &mut self.inner {
            Erased::Plain(core) => core,
            Erased::Derived(d) => d.store_core_mut(),
        }
    }

    fn into_any(self) -> (a: AnyStore<T>) {
        self
    }
}

} // verus!
