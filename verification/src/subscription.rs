use vstd::prelude::*;

verus! {

/// A handle on something registered with a store: a listener or a hook.
/// Handing it back to the store (`unsubscribe`, `remove_hook`,
/// `remove_mount_hook`) removes the registration; [`Subscription::detach`]
/// gives the handle up and keeps the registration forever.
pub struct Subscription {
    id: u64,
}

impl View for Subscription {
    type V = u64;

    closed spec fn view(&self) -> u64 {
        self.id
    }
}

impl Subscription {
    pub(crate) fn new(id: u64) -> (s: Self)
        ensures
            s@ == id,
    {
        Subscription { id }
    }

    /// The store-local id of the registration this handle stands for.
    pub fn id(&self) -> (id: u64)
        ensures
            id == self@,
    {
        self.id
    }

    /// Keep the registration active forever: the handle is consumed and the
    /// store is left as it is.
    pub fn detach(self) {
    }
}

} // verus!
