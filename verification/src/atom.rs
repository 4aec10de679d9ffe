use vstd::prelude::*;
use crate::any::{plain_view, AnyStore, AnyStoreView};
use crate::store::{
    changed, deliveries_view, listener_added, listener_removed, ChangeHooks, Delivery, Listened,
    ReadableStore, StoreCore, StoreLike, StoreView, Unmounted,
};
use crate::computed::ComputedListened;
use crate::subscription::Subscription;

verus! {

/// A store holding one value.
pub struct Atom<T> {
    inner: StoreCore<T>,
}

impl<T> View for Atom<T> {
    type V = StoreView<T>;

    closed spec fn view(&self) -> StoreView<T> {
        self.inner@
    }
}

/// A fresh store holding `init`.
pub fn atom<T>(init: T) -> (a: Atom<T>)
    ensures
        a@ == StoreCore::<T>::new_view(init),
{
    Atom { inner: StoreCore::new(init) }
}

impl<T> ReadableStore<T> for Atom<T> {
    fn listen_store(&mut self) -> (r: ComputedListened)
        ensures
            !r.mount,
    {
        ComputedListened { listened: self.inner.add_listener(false, None), mount: false }
    }

    fn subscribe_store(&mut self) -> (r: ComputedListened)
        ensures
            !r.mount,
    {
        ComputedListened { listened: self.inner.add_listener(true, None), mount: false }
    }
}

impl<T> StoreLike for Atom<T> {
    type Value = T;

    open spec fn store_view(&self) -> StoreView<T> {
        self@
    }

    open spec fn erased_view(&self) -> AnyStoreView<T> {
        plain_view(self@)
    }

    fn store_core(&self) -> (c: &StoreCore<T>) {
        &self.inner
    }

    fn store_core_mut(&mut self) -> (c: &mut StoreCore<T>) {
        &mut self.inner
    }

    fn into_any(self) -> (a: AnyStore<T>) {
        AnyStore::from_core(self.inner)
    }
}

impl<T> Atom<T> {
    /// Register a listener for future changes.
    pub fn listen(&mut self) -> (r: Listened)
        requires
            old(self)@.next_id < u64::MAX,
        ensures
            listener_added(old(self)@, final(self)@, r, None, false),
    {
        self.inner.add_listener(false, None)
    }

    /// Register a listener that is also called at once with the current
    /// value.
    pub fn subscribe(&mut self) -> (r: Listened)
        requires
            old(self)@.next_id < u64::MAX,
        ensures
            listener_added(old(self)@, final(self)@, r, None, true),
    {
        self.inner.add_listener(true, None)
    }

    /// Remove the listener `subscription` stands for.
    pub fn unsubscribe(&mut self, subscription: Subscription) -> (r: Unmounted)
        ensures
            listener_removed(old(self)@, final(self)@, r, subscription@),
    {
        self.inner.remove_listener(subscription.id())
    }
}

impl<T: Clone> Atom<T> {
    /// A copy of the current value.
    pub fn get(&self) -> (v: T)
        ensures
            cloned(self@.value, v),
    {
        self.inner.get()
    }
}

impl<T: Clone + PartialEq> Atom<T> {
    /// Replace the value (through the set hooks; an equal value changes
    /// nothing) and return the deliveries to make, in order.
    pub fn set<H: ChangeHooks<T>>(&mut self, value: T, hooks: &H) -> (ds: Vec<Delivery<T>>)
        requires
            old(self)@.write_seq < u64::MAX,
        ensures
            changed(old(self)@, final(self)@, deliveries_view(ds@), value, None, true, None, *hooks),
    {
        self.inner.change(value, None, true, hooks)
    }
}

} // verus!
