use vstd::prelude::*;
use crate::atom::Atom;
use crate::store::{push_if, tagged, untagged, without_id, HookKind, StoreLike, StoreView};
use crate::subscription::Subscription;

verus! {

/// `n` is `o` with the hook `id` of kind `kind` registered.
pub open spec fn hook_added<T>(o: StoreView<T>, n: StoreView<T>, kind: HookKind, id: u64) -> bool {
    &&& id == o.next_id
    &&& n == (StoreView {
        next_id: (o.next_id + 1) as u64,
        start_hooks: push_if(o.start_hooks, kind is Start, o.next_id),
        stop_hooks: push_if(o.stop_hooks, kind is Stop, o.next_id),
        set_hooks: push_if(o.set_hooks, kind is SetValue, o.next_id),
        notify_hooks: push_if(o.notify_hooks, kind is NotifyValue, o.next_id),
        ..o
    })
}

/// `n` is `o` with the mount hook `id` registered.
pub open spec fn mount_hook_added<T>(o: StoreView<T>, n: StoreView<T>, id: u64) -> bool {
    &&& id == o.next_id
    &&& n == (StoreView {
        next_id: (o.next_id + 1) as u64,
        mount_hooks: o.mount_hooks.push(o.next_id),
        ..o
    })
}

/// `n` is `o` without the start, stop, set or notify hook `id`.
pub open spec fn hook_removed<T>(o: StoreView<T>, n: StoreView<T>, id: u64) -> bool {
    n == (StoreView {
        start_hooks: without_id(o.start_hooks, id),
        stop_hooks: without_id(o.stop_hooks, id),
        set_hooks: without_id(o.set_hooks, id),
        notify_hooks: without_id(o.notify_hooks, id),
        ..o
    })
}

/// `n` is `o` without the mount hook `id` and the cleanups it left, which
/// are `cleanups`.
pub open spec fn mount_hook_removed<T>(o: StoreView<T>, n: StoreView<T>, id: u64, cleanups: Seq<u64>) -> bool {
    &&& cleanups == tagged(o.mount_cleanups, id)
    &&& n == (StoreView {
        mount_hooks: without_id(o.mount_hooks, id),
        mount_cleanups: untagged(o.mount_cleanups, id),
        ..o
    })
}

/// Stores that run hooks around their life: when the first listener
/// arrives (start, mount), when the last one leaves (stop, the mount's
/// cleanups), before a write (set) and before listeners are told (notify).
pub trait Lifecycle: StoreLike {
    /// Register a hook run when the first listener arrives.
    fn on_start(&mut self) -> (r: Subscription)
        requires
            old(self).store_view().next_id < u64::MAX,
        ensures
            hook_added(old(self).store_view(), final(self).store_view(), HookKind::Start, r@),
    {
        self.store_core_mut().add_hook(HookKind::Start)
    }

    /// Register a hook run when the last listener leaves.
    fn on_stop(&mut self) -> (r: Subscription)
        requires
            old(self).store_view().next_id < u64::MAX,
        ensures
            hook_added(old(self).store_view(), final(self).store_view(), HookKind::Stop, r@),
    {
        self.store_core_mut().add_hook(HookKind::Stop)
    }

    /// Register a hook run on mount whose cleanup runs on unmount.
    fn on_mount(&mut self) -> (r: Subscription)
        requires
            old(self).store_view().next_id < u64::MAX,
        ensures
            mount_hook_added(old(self).store_view(), final(self).store_view(), r@),
    {
        self.store_core_mut().add_mount_hook()
    }

    /// Register a hook run before each write; it may rewrite or cancel it.
    fn on_set(&mut self) -> (r: Subscription)
        requires
            old(self).store_view().next_id < u64::MAX,
        ensures
            hook_added(old(self).store_view(), final(self).store_view(), HookKind::SetValue, r@),
    {
        self.store_core_mut().add_hook(HookKind::SetValue)
    }

    /// Register a hook run before listeners are notified; it may rewrite
    /// the value or cancel the notification.
    fn on_notify(&mut self) -> (r: Subscription)
        requires
            old(self).store_view().next_id < u64::MAX,
        ensures
            hook_added(old(self).store_view(), final(self).store_view(), HookKind::NotifyValue, r@),
    {
        self.store_core_mut().add_hook(HookKind::NotifyValue)
    }

    /// Unregister a start, stop, set or notify hook.
    fn remove_hook(&mut self, hook: Subscription)
        ensures
            hook_removed(old(self).store_view(), final(self).store_view(), hook@),
    {
        self.store_core_mut().remove_hook(hook.id())
    }

    /// Unregister a mount hook; the cleanups its current mount left are
    /// handed back to be run.
    fn remove_mount_hook(&mut self, hook: Subscription) -> (cleanups: Vec<u64>)
        ensures
            mount_hook_removed(old(self).store_view(), final(self).store_view(), hook@, cleanups@),
    {
        self.store_core_mut().remove_mount_hook(hook.id())
    }
}

/// Register on `store` a hook run when the first listener arrives.
pub fn on_start<S: Lifecycle>(store: &mut S) -> (r: Subscription)
    requires
        old(store).store_view().next_id < u64::MAX,
    ensures
        hook_added(old(store).store_view(), final(store).store_view(), HookKind::Start, r@),
{
    store.on_start()
}

/// Register on `store` a hook run when the last listener leaves.
pub fn on_stop<S: Lifecycle>(store: &mut S) -> (r: Subscription)
    requires
        old(store).store_view().next_id < u64::MAX,
    ensures
        hook_added(old(store).store_view(), final(store).store_view(), HookKind::Stop, r@),
{
    store.on_stop()
}

/// Register on `store` a hook run on mount whose cleanup runs on unmount.
pub fn on_mount<S: Lifecycle>(store: &mut S) -> (r: Subscription)
    requires
        old(store).store_view().next_id < u64::MAX,
    ensures
        mount_hook_added(old(store).store_view(), final(store).store_view(), r@),
{
    store.on_mount()
}

/// Register on `store` a hook run before each write.
pub fn on_set<S: Lifecycle>(store: &mut S) -> (r: Subscription)
    requires
        old(store).store_view().next_id < u64::MAX,
    ensures
        hook_added(old(store).store_view(), final(store).store_view(), HookKind::SetValue, r@),
{
    store.on_set()
}

/// Register on `store` a hook run before listeners are notified.
pub fn on_notify<S: Lifecycle>(store: &mut S) -> (r: Subscription)
    requires
        old(store).store_view().next_id < u64::MAX,
    ensures
        hook_added(old(store).store_view(), final(store).store_view(), HookKind::NotifyValue, r@),
{
    store.on_notify()
}

impl<T> Lifecycle for Atom<T> {
}

} // verus!
