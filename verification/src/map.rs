use vstd::prelude::*;
use vstd::string::StringExecFns;
use crate::error::KeyError;
use crate::lifecycle::Lifecycle;
use crate::any::{plain_view, AnyStore, AnyStoreView};
use crate::store::{
    call_with_mut, changed, deliveries_view, listener_added, listener_removed, strings_view,
    ChangeHooks, Delivery, DeliveryView, Listened, ReadableStore, StoreCore, StoreLike, StoreView,
    Unmounted,
};
use crate::computed::ComputedListened;
use crate::subscription::Subscription;

verus! {

/// A store holding a struct whose fields are addressed by key: a change of
/// one field is announced under that field's key, so a listener of other
/// fields stays asleep.
pub struct MapStore<T> {
    inner: StoreCore<T>,
}

impl<T> View for MapStore<T> {
    type V = StoreView<T>;

    closed spec fn view(&self) -> StoreView<T> {
        self.inner@
    }
}

/// A store holding the map `init`.
pub fn map<T>(init: T) -> (m: MapStore<T>)
    ensures
        m@ == StoreCore::<T>::new_view(init),
{
    MapStore { inner: StoreCore::new(init) }
}

/// The views of a list of keys.
pub open spec fn strs_view(keys: Seq<&str>) -> Seq<Seq<char>> {
    keys.map_values(|k: &str| k@)
}

impl<T> ReadableStore<T> for MapStore<T> {
    fn listen_store(&mut self) -> (r: ComputedListened)
        ensures
            !r.mount,
    {
        ComputedListened { listened: self.inner.add_listener(false, None), mount: false }
    }

    fn subscribe_store(&mut self) -> (r: ComputedListened)
        ensures
            !r.mount,
    {
        ComputedListened { listened: self.inner.add_listener(true, None), mount: false }
    }
}

impl<T> StoreLike for MapStore<T> {
    type Value = T;

    open spec fn store_view(&self) -> StoreView<T> {
        self@
    }

    open spec fn erased_view(&self) -> AnyStoreView<T> {
        plain_view(self@)
    }

    fn store_core(&self) -> (c: &StoreCore<T>) {
        &self.inner
    }

    fn store_core_mut(&mut self) -> (c: &mut StoreCore<T>) {
        &mut self.inner
    }

    fn into_any(self) -> (a: AnyStore<T>) {
        AnyStore::from_core(self.inner)
    }
}

impl<T> MapStore<T> {
    /// Register a listener for every future change.
    pub fn listen(&mut self) -> (r: Listened)
        requires
            old(self)@.next_id < u64::MAX,
        ensures
            listener_added(old(self)@, final(self)@, r, None, false),
    {
        self.inner.add_listener(false, None)
    }

    /// Register a listener for every change, also called at once with the
    /// current value.
    pub fn subscribe(&mut self) -> (r: Listened)
        requires
            old(self)@.next_id < u64::MAX,
        ensures
            listener_added(old(self)@, final(self)@, r, None, true),
    {
        self.inner.add_listener(true, None)
    }

    /// Register a listener woken by changes of the fields `keys` and by
    /// whole-value changes only.
    pub fn listen_keys(&mut self, keys: &[&str]) -> (r: Listened)
        requires
            old(self)@.next_id < u64::MAX,
        ensures
            listener_added(old(self)@, final(self)@, r, Some(strs_view(keys@)), false),
    {
        let mut owned: Vec<String> = Vec::new();
        let mut i: usize = 0;
        while i < keys.len()
            invariant
                i <= keys.len(),
                owned@.len() == i,
                strings_view(owned@) == strs_view(keys@.take(i as int)),
            decreases keys.len() - i,
        {
            let k: &str = keys[i];
            let o = String::from_str(k);
            proof {
                assert(o@ == keys@[i as int]@);
            }
            owned.push(o);
            i += 1;
            proof {
                let a = strings_view(owned@);
                let b = strs_view(keys@.take(i as int));
                assert(a.len() == b.len());
                assert forall|j: int| 0 <= j < a.len() implies a[j] == b[j] by {
                    assert(b[j] == keys@.take(i as int)[j]@);
                    if j < i - 1 {
                        assert(a[j] == strs_view(keys@.take(i - 1))[j]);
                        assert(strs_view(keys@.take(i - 1))[j] == keys@.take(i - 1)[j]@);
                    } else {
                        assert(a[j] == owned@[j]@);
                    }
                }
                assert(a =~= b);
            }
        }
        proof {
            assert(keys@.take(keys.len() as int) =~= keys@);
        }
        self.inner.add_listener(false, Some(owned))
    }

    /// Remove the listener `subscription` stands for.
    pub fn unsubscribe(&mut self, subscription: Subscription) -> (r: Unmounted)
        ensures
            listener_removed(old(self)@, final(self)@, r, subscription@),
    {
        self.inner.remove_listener(subscription.id())
    }
}

impl<T: Clone> MapStore<T> {
    /// A copy of the current value.
    pub fn get(&self) -> (v: T)
        ensures
            cloned(self@.value, v),
    {
        self.inner.get()
    }
}

impl<T: Clone + PartialEq> MapStore<T> {
    /// Replace the whole value, announced under no key.
    pub fn set<H: ChangeHooks<T>>(&mut self, value: T, hooks: &H) -> (ds: Vec<Delivery<T>>)
        requires
            old(self)@.write_seq < u64::MAX,
        ensures
            changed(old(self)@, final(self)@, deliveries_view(ds@), value, None, true, None, *hooks),
    {
        self.inner.change(value, None, true, hooks)
    }

    /// Store the outcome of writing the field `key` into a copy of the
    /// value: the error, with nothing changed, when the write failed;
    /// otherwise the written copy, announced under `key`.
    pub fn commit_key<H: ChangeHooks<T>>(
        &mut self,
        key: &str,
        written: Result<T, KeyError>,
        hooks: &H,
    ) -> (r: Result<Vec<Delivery<T>>, KeyError>)
        requires
            old(self)@.write_seq < u64::MAX,
        ensures
            key_committed(old(self)@, final(self)@, r, key@, written, *hooks),
    {
        match written {
            Err(e) => Err(e),
            Ok(next) => {
                let ghost nx = next;
                let ds = self.inner.change(next, Some(String::from_str(key)), true, hooks);
                let r: Result<Vec<Delivery<T>>, KeyError> = Ok(ds);
                proof {
                    assert(changed(old(self)@, self@, deliveries_view(r.unwrap()@), nx, Some(key@), true, None, *hooks));
                }
                r
            },
        }
    }

    /// Write one field: `write` stores the field `key` into a copy of the
    /// value (and fails for an unknown key or a value that does not fit),
    /// and the outcome is stored as [`MapStore::commit_key`] says.
    pub fn set_key<F: FnOnce(&mut T) -> Result<(), KeyError>, H: ChangeHooks<T>>(
        &mut self,
        key: &str,
        write: F,
        hooks: &H,
    ) -> (r: Result<Vec<Delivery<T>>, KeyError>)
        requires
            old(self)@.write_seq < u64::MAX,
        ensures
            exists|written: Result<T, KeyError>| #[trigger] key_committed(old(self)@, final(self)@, r, key@, written, *hooks),
    {
        let mut next = self.inner.get();
        let written = match call_with_mut(write, &mut next) {
            Err(e) => Err(e),
            Ok(()) => Ok(next),
        };
        let ghost w = written;
        let r = self.commit_key(key, written, hooks);
        proof {
            assert(key_committed(old(self)@, self@, r, key@, w, *hooks));
        }
        r
    }

    /// Store the outcome of a typed setter's edit of a copy of the value:
    /// the `edited` copy, announced under `key`, when the setter says it
    /// changed something (`updated`); nothing (and nobody woken) otherwise.
    pub fn commit_field<H: ChangeHooks<T>>(&mut self, key: &str, edited: T, updated: bool, hooks: &H) -> (ds: Vec<
        Delivery<T>,
    >)
        requires
            old(self)@.write_seq < u64::MAX,
        ensures
            field_committed(old(self)@, final(self)@, deliveries_view(ds@), key@, edited, updated, *hooks),
    {
        if updated {
            self.inner.change(edited, Some(String::from_str(key)), true, hooks)
        } else {
            Vec::new()
        }
    }

    /// Write one field through a typed setter: `set_field` edits a copy of
    /// the value and says whether it changed anything, and the outcome is
    /// stored as [`MapStore::commit_field`] says.
    pub fn set_field_by<F: FnOnce(&mut T) -> bool, H: ChangeHooks<T>>(
        &mut self,
        key: &str,
        set_field: F,
        hooks: &H,
    ) -> (ds: Vec<Delivery<T>>)
        requires
            old(self)@.write_seq < u64::MAX,
        ensures
            exists|edited: T, updated: bool|
                #[trigger] field_committed(old(self)@, final(self)@, deliveries_view(ds@), key@, edited, updated, *hooks),
    {
        let mut next = self.inner.get();
        let updated = call_with_mut(set_field, &mut next);
        let ghost nx = next;
        let ds = self.commit_field(key, next, updated, hooks);
        proof {
            assert(field_committed(old(self)@, self@, deliveries_view(ds@), key@, nx, updated, *hooks));
        }
        ds
    }

    /// Edit the whole value in place: `update` edits a copy, which is then
    /// stored as [`MapStore::set`] stores a value, announced under no key,
    /// so every listener (keyed or not) is woken.
    pub fn update<F: FnOnce(&mut T), H: ChangeHooks<T>>(&mut self, update: F, hooks: &H) -> (ds: Vec<
        Delivery<T>,
    >)
        requires
            old(self)@.write_seq < u64::MAX,
        ensures
            exists|next: T|
                #![trigger changed(old(self)@, final(self)@, deliveries_view(ds@), next, None, true, None, *hooks)]
                changed(old(self)@, final(self)@, deliveries_view(ds@), next, None, true, None, *hooks),
    {
        let mut next = self.inner.get();
        call_with_mut(update, &mut next);
        let ghost nx = next;
        let ds = self.set(next, hooks);
        proof {
            assert(changed(old(self)@, self@, deliveries_view(ds@), nx, None, true, None, *hooks));
        }
        ds
    }
}

/// What storing the outcome of a field write did, from state `o` to state
/// `n` with result `r`: a failed write's error, with nothing changed; or
/// the written copy went through the change pipeline under `key`.
pub open spec fn key_committed<T: Clone + PartialEq, H: ChangeHooks<T>>(
    o: StoreView<T>,
    n: StoreView<T>,
    r: Result<Vec<Delivery<T>>, KeyError>,
    key: Seq<char>,
    written: Result<T, KeyError>,
    hooks: H,
) -> bool {
    match written {
        Err(e) => r == Err::<Vec<Delivery<T>>, KeyError>(e) && n == o,
        Ok(next) => r matches Ok(ds) && changed(o, n, deliveries_view(ds@), next, Some(key), true, None, hooks),
    }
}

/// What storing the outcome of a typed setter's edit did, from state `o` to
/// state `n` with deliveries `ds`: the `edited` copy went through the change
/// pipeline under `key` when `updated`; otherwise nothing changed and nobody
/// was woken.
pub open spec fn field_committed<T: Clone + PartialEq, H: ChangeHooks<T>>(
    o: StoreView<T>,
    n: StoreView<T>,
    ds: Seq<DeliveryView<T>>,
    key: Seq<char>,
    edited: T,
    updated: bool,
    hooks: H,
) -> bool {
    if updated {
        changed(o, n, ds, edited, Some(key), true, None, hooks)
    } else {
        n == o && ds.len() == 0
    }
}

impl<T> Lifecycle for MapStore<T> {
}

} // verus!
