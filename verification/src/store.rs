use vstd::prelude::*;
use vstd::std_specs::cmp::PartialEqSpec;
use crate::any::{AnyStore, AnyStoreView};
use crate::computed::ComputedListened;
use crate::context::{opt_string_view, ContextView, NotifyContext, SetContext};
use crate::subscription::Subscription;

verus! {

/// The abstract form of a registered listener: its id and, for a keyed
/// listener, the keys it wants to hear about.
pub struct ListenerView {
    pub id: u64,
    pub keys: Option<Seq<Seq<char>>>,
}

/// The abstract form of a notification waiting for delivery.
pub struct QueuedView<T> {
    pub seq: u64,
    pub value: T,
    pub key: Option<Seq<char>>,
}

/// The abstract state of a store.
pub struct StoreView<T> {
    /// The current value.
    pub value: T,
    /// The id the next registration (listener or hook) receives.
    pub next_id: u64,
    /// Registered listeners, oldest first.
    pub listeners: Seq<ListenerView>,
    /// Hooks run when the first listener arrives.
    pub start_hooks: Seq<u64>,
    /// Hooks run when the last listener leaves.
    pub stop_hooks: Seq<u64>,
    /// Hooks run on mount whose returned cleanup runs on unmount.
    pub mount_hooks: Seq<u64>,
    /// Cleanups of the current mount, each with the mount hook that made it.
    pub mount_cleanups: Seq<(u64, u64)>,
    /// Hooks run before a write; they may rewrite or cancel it.
    pub set_hooks: Seq<u64>,
    /// Hooks run before listeners are notified; they may rewrite or cancel.
    pub notify_hooks: Seq<u64>,
    /// Number of writes so far; the sequence number of the latest write.
    pub write_seq: u64,
    /// Sequence number of the latest delivered notification.
    pub delivered_seq: u64,
    /// Notifications waiting for delivery, in the order they were queued.
    pub queue: Seq<QueuedView<T>>,
    /// Whether a delivery loop is running.
    pub draining: bool,
}

/// Which list a plain hook joins.
pub enum HookKind {
    Start,
    Stop,
    SetValue,
    NotifyValue,
}

/// The views of a list of strings.
pub open spec fn strings_view(v: Seq<String>) -> Seq<Seq<char>> {
    v.map_values(|k: String| k@)
}

/// The view of a listener's key filter.
pub open spec fn keys_view(keys: Option<Vec<String>>) -> Option<Seq<Seq<char>>> {
    match keys {
        Some(ks) => Some(strings_view(ks@)),
        None => None,
    }
}

/// Whether a listener with key filter `keys` hears about a change of
/// `changed_key`: unkeyed listeners hear everything, a whole-value change
/// reaches every listener, and a keyed change reaches keyed listeners that
/// named that key.
pub open spec fn listener_matches_spec(keys: Option<Seq<Seq<char>>>, changed_key: Option<Seq<char>>) -> bool {
    match keys {
        None => true,
        Some(ks) => match changed_key {
            None => true,
            Some(k) => ks.contains(k),
        },
    }
}

/// The ids of the listeners in `ls` that hear about a change of `key`,
/// in registration order.
pub open spec fn matching_ids(ls: Seq<ListenerView>, key: Option<Seq<char>>) -> Seq<u64>
    decreases ls.len(),
{
    if ls.len() == 0 {
        Seq::empty()
    } else {
        let rest = matching_ids(ls.drop_last(), key);
        if listener_matches_spec(ls.last().keys, key) {
            rest.push(ls.last().id)
        } else {
            rest
        }
    }
}

/// `ls` without the listener whose id is `id`, order kept.
pub open spec fn without_listener(ls: Seq<ListenerView>, id: u64) -> Seq<ListenerView>
    decreases ls.len(),
{
    if ls.len() == 0 {
        ls
    } else {
        let rest = without_listener(ls.drop_last(), id);
        if ls.last().id != id {
            rest.push(ls.last())
        } else {
            rest
        }
    }
}

/// `s` without the occurrences of `x`, order kept.
pub open spec fn without_id(s: Seq<u64>, x: u64) -> Seq<u64>
    decreases s.len(),
{
    if s.len() == 0 {
        s
    } else {
        let rest = without_id(s.drop_last(), x);
        if s.last() != x {
            rest.push(s.last())
        } else {
            rest
        }
    }
}

/// The payloads of the entries of `cs` tagged `id`, order kept.
pub open spec fn tagged<C>(cs: Seq<(u64, C)>, id: u64) -> Seq<C>
    decreases cs.len(),
{
    if cs.len() == 0 {
        Seq::empty()
    } else {
        let rest = tagged(cs.drop_last(), id);
        if cs.last().0 == id {
            rest.push(cs.last().1)
        } else {
            rest
        }
    }
}

/// The entries of `cs` not tagged `id`, order kept.
pub open spec fn untagged<C>(cs: Seq<(u64, C)>, id: u64) -> Seq<(u64, C)>
    decreases cs.len(),
{
    if cs.len() == 0 {
        cs
    } else {
        let rest = untagged(cs.drop_last(), id);
        if cs.last().0 != id {
            rest.push(cs.last())
        } else {
            rest
        }
    }
}

/// The payloads of all entries of `cs`, order kept.
pub open spec fn payloads<C>(cs: Seq<(u64, C)>) -> Seq<C> {
    cs.map_values(|c: (u64, C)| c.1)
}

/// Whether some listener of `ls` has id `id`.
pub open spec fn has_listener(ls: Seq<ListenerView>, id: u64) -> bool {
    exists|i: int| 0 <= i < ls.len() && #[trigger] ls[i].id == id
}

/// A registered listener.
pub struct ListenerEntry {
    id: u64,
    keys: Option<Vec<String>>,
}

impl View for ListenerEntry {
    type V = ListenerView;

    closed spec fn view(&self) -> ListenerView {
        ListenerView { id: self.id, keys: keys_view(self.keys) }
    }
}

struct Queued<T> {
    seq: u64,
    value: T,
    changed_key: Option<String>,
}

impl<T> View for Queued<T> {
    type V = QueuedView<T>;

    closed spec fn view(&self) -> QueuedView<T> {
        QueuedView { seq: self.seq, value: self.value, key: opt_string_view(self.changed_key) }
    }
}

/// The views of listener entries.
pub open spec fn entries_view(v: Seq<ListenerEntry>) -> Seq<ListenerView> {
    v.map_values(|l: ListenerEntry| l@)
}

spec fn queue_view<T>(v: Seq<Queued<T>>) -> Seq<QueuedView<T>> {
    v.map_values(|q: Queued<T>| q@)
}

/// The decision core of a store: its value, who listens, which hooks are
/// registered, and the queue of notifications still to be delivered.
///
/// Callbacks themselves are not held here; every listener and hook is named
/// by the id it was registered under, and the operations say which ids must
/// be called next.
pub struct StoreCore<T> {
    value: T,
    next_id: u64,
    listeners: Vec<ListenerEntry>,
    start_hooks: Vec<u64>,
    stop_hooks: Vec<u64>,
    mount_hooks: Vec<u64>,
    mount_cleanups: Vec<(u64, u64)>,
    set_hooks: Vec<u64>,
    notify_hooks: Vec<u64>,
    write_seq: u64,
    delivered_seq: u64,
    queue: Vec<Queued<T>>,
    draining: bool,
}

impl<T> View for StoreCore<T> {
    type V = StoreView<T>;

    closed spec fn view(&self) -> StoreView<T> {
        StoreView {
            value: self.value,
            next_id: self.next_id,
            listeners: entries_view(self.listeners@),
            start_hooks: self.start_hooks@,
            stop_hooks: self.stop_hooks@,
            mount_hooks: self.mount_hooks@,
            mount_cleanups: self.mount_cleanups@,
            set_hooks: self.set_hooks@,
            notify_hooks: self.notify_hooks@,
            write_seq: self.write_seq,
            delivered_seq: self.delivered_seq,
            queue: queue_view(self.queue@),
            draining: self.draining,
        }
    }
}

/// The well-formedness of a store's abstract state: every registration id
/// was handed out before `next_id`, listener ids are distinct, and no
/// notification is newer than the latest write.
pub open spec fn store_wf<T>(s: StoreView<T>) -> bool {
    &&& forall|i: int| 0 <= i < s.listeners.len() ==> #[trigger] s.listeners[i].id < s.next_id
    &&& forall|i: int, j: int|
        0 <= i < s.listeners.len() && 0 <= j < s.listeners.len() && i != j
            ==> #[trigger] s.listeners[i].id != #[trigger] s.listeners[j].id
    &&& s.delivered_seq <= s.write_seq
    &&& forall|i: int| 0 <= i < s.queue.len() ==> #[trigger] s.queue[i].seq <= s.write_seq
    &&& ids_below(s.start_hooks, s.next_id)
    &&& ids_below(s.stop_hooks, s.next_id)
    &&& ids_below(s.mount_hooks, s.next_id)
    &&& ids_below(s.set_hooks, s.next_id)
    &&& ids_below(s.notify_hooks, s.next_id)
}

/// Every id of `s` was handed out before `next_id`.
pub open spec fn ids_below(s: Seq<u64>, next_id: u64) -> bool {
    forall|i: int| 0 <= i < s.len() ==> #[trigger] s[i] < next_id
}

impl<T> StoreCore<T> {
    #[verifier::type_invariant]
    closed spec fn inv(self) -> bool {
        store_wf(self@)
    }

    /// Every store's state is well formed (see [`store_wf`]), so the laws
    /// that ask for it apply to any store a caller holds.
    pub fn well_formed(&self)
        ensures
            store_wf(self@),
    {
        proof {
            use_type_invariant(self);
        }
    }

    /// The state of a fresh store holding `value`.
    pub open spec fn new_view(value: T) -> StoreView<T> {
        StoreView::<T> {
            value,
            next_id: 0,
            listeners: Seq::empty(),
            start_hooks: Seq::empty(),
            stop_hooks: Seq::empty(),
            mount_hooks: Seq::empty(),
            mount_cleanups: Seq::empty(),
            set_hooks: Seq::empty(),
            notify_hooks: Seq::empty(),
            write_seq: 0,
            delivered_seq: 0,
            queue: Seq::empty(),
            draining: false,
        }
    }

    /// A store holding `value`, with nothing registered and nothing written.
    pub fn new(value: T) -> (s: Self)
        ensures
            s@ == Self::new_view(value),
    {
        let s = StoreCore {
            value,
            next_id: 0,
            listeners: Vec::new(),
            start_hooks: Vec::new(),
            stop_hooks: Vec::new(),
            mount_hooks: Vec::new(),
            mount_cleanups: Vec::new(),
            set_hooks: Vec::new(),
            notify_hooks: Vec::new(),
            write_seq: 0,
            delivered_seq: 0,
            queue: Vec::new(),
            draining: false,
        };
        assert(s@.listeners =~= Seq::empty());
        assert(s@.queue =~= Seq::empty());
        s
    }

    /// The current value, by reference.
    pub fn value(&self) -> (v: &T)
        ensures
            *v == self@.value,
    {
        &self.value
    }

    /// Overwrite the value without notifying anyone.
    pub fn replace_silently(&mut self, value: T)
        ensures
            final(self)@ == (StoreView { value, ..old(self)@ }),
    {
        proof {
            use_type_invariant(&*self);
        }
        self.value = value;
        proof {
            assert(self@.listeners =~= old(self)@.listeners);
            assert(self@.queue =~= old(self)@.queue);
        }
    }

    /// The id the next registration will receive.
    pub fn next_id(&self) -> (n: u64)
        ensures
            n == self@.next_id,
    {
        self.next_id
    }

    /// The sequence number of the latest write.
    pub fn write_seq(&self) -> (n: u64)
        ensures
            n == self@.write_seq,
    {
        self.write_seq
    }

    /// How many listeners are registered.
    pub fn listener_count(&self) -> (n: usize)
        ensures
            n == self@.listeners.len(),
    {
        self.listeners.len()
    }

    /// Whether the store has at least one listener.
    pub fn is_mounted(&self) -> (b: bool)
        ensures
            b == (self@.listeners.len() > 0),
    {
        self.listeners.len() > 0
    }
}

/// What registering a listener asks the caller to do: the new
/// registration and, when it is the first listener, the start hooks and
/// mount hooks to run (in registration order).
pub struct Listened {
    pub subscription: Subscription,
    /// Whether the listener must also be called at once with the current
    /// value (after the hooks, if it is still registered then).
    pub immediate: bool,
    pub start_hooks: Vec<u64>,
    pub mount_hooks: Vec<u64>,
}

/// What removing a listener asks the caller to do: when it was the last
/// listener, the cleanups of the mount to run and the stop hooks to run.
pub struct Unmounted {
    pub cleanups: Vec<u64>,
    pub stop_hooks: Vec<u64>,
}

/// `n` is `o` with a listener registered under the id `r` hands out, with
/// key filter `keys`; when it is the first listener, `r` hands out the start
/// hooks and the mount hooks to run, in registration order.
pub open spec fn listener_added<T>(
    o: StoreView<T>,
    n: StoreView<T>,
    r: Listened,
    keys: Option<Seq<Seq<char>>>,
    immediate: bool,
) -> bool {
    &&& r.subscription@ == o.next_id
    &&& r.immediate == immediate
    &&& n == StoreView {
        next_id: (o.next_id + 1) as u64,
        listeners: o.listeners.push(ListenerView { id: o.next_id, keys }),
        ..o
    }
    &&& r.start_hooks@ == (if o.listeners.len() == 0 { o.start_hooks } else { Seq::empty() })
    &&& r.mount_hooks@ == (if o.listeners.len() == 0 { o.mount_hooks } else { Seq::empty() })
}

/// `n` is `o` without the listener `id`; when that leaves the store without
/// listeners, `r` hands out the mount's cleanups and the stop hooks to run,
/// and the cleanups are forgotten.
pub open spec fn listener_removed<T>(o: StoreView<T>, n: StoreView<T>, r: Unmounted, id: u64) -> bool {
    let ls = without_listener(o.listeners, id);
    let stopped = o.listeners.len() > 0 && ls.len() == 0;
    &&& n == StoreView {
        listeners: ls,
        mount_cleanups: if stopped { Seq::empty() } else { o.mount_cleanups },
        ..o
    }
    &&& r.cleanups@ == (if stopped { payloads(o.mount_cleanups) } else { Seq::empty() })
    &&& r.stop_hooks@ == (if stopped { o.stop_hooks } else { Seq::empty() })
}

/// The registrations of two store states (listeners, hooks, the mount's
/// cleanups and the id counter) are the same.
pub open spec fn same_registrations<T>(a: StoreView<T>, b: StoreView<T>) -> bool {
    &&& a.next_id == b.next_id
    &&& a.listeners == b.listeners
    &&& a.start_hooks == b.start_hooks
    &&& a.stop_hooks == b.stop_hooks
    &&& a.mount_hooks == b.mount_hooks
    &&& a.mount_cleanups == b.mount_cleanups
    &&& a.set_hooks == b.set_hooks
    &&& a.notify_hooks == b.notify_hooks
}

/// The notification of write `seq` carrying `value` for a change of `key`.
pub open spec fn queued<T>(seq: u64, value: T, key: Option<Seq<char>>) -> QueuedView<T> {
    QueuedView { seq, value, key }
}

/// Listener ids are distinct.
pub open spec fn unique_ids(ls: Seq<ListenerView>) -> bool {
    forall|i: int, j: int|
        0 <= i < ls.len() && 0 <= j < ls.len() && i != j ==> #[trigger] ls[i].id != #[trigger] ls[j].id
}

proof fn lemma_without_listener_absent(ls: Seq<ListenerView>, id: u64)
    requires
        !has_listener(ls, id),
    ensures
        without_listener(ls, id) == ls,
    decreases ls.len(),
{
    if ls.len() > 0 {
        let d = ls.drop_last();
        assert(!has_listener(d, id)) by {
            if has_listener(d, id) {
                let i = choose|i: int| 0 <= i < d.len() && #[trigger] d[i].id == id;
                assert(ls[i].id == id);
            }
        }
        lemma_without_listener_absent(d, id);
        assert(ls[ls.len() - 1].id != id);
        assert(d.push(ls.last()) =~= ls);
    }
}

proof fn lemma_without_listener_at(ls: Seq<ListenerView>, id: u64, i: int)
    requires
        0 <= i < ls.len(),
        ls[i].id == id,
        unique_ids(ls),
    ensures
        without_listener(ls, id) == ls.remove(i),
    decreases ls.len(),
{
    let d = ls.drop_last();
    if i == ls.len() - 1 {
        assert(!has_listener(d, id)) by {
            if has_listener(d, id) {
                let j = choose|j: int| 0 <= j < d.len() && #[trigger] d[j].id == id;
                assert(ls[j].id == ls[i].id);
            }
        }
        lemma_without_listener_absent(d, id);
        assert(ls.remove(i) =~= d);
    } else {
        assert(unique_ids(d)) by {
            assert forall|a: int, b: int| 0 <= a < d.len() && 0 <= b < d.len() && a != b implies
                #[trigger] d[a].id != #[trigger] d[b].id by {
                assert(ls[a].id != ls[b].id);
            }
        }
        lemma_without_listener_at(d, id, i);
        assert(ls[ls.len() - 1].id != ls[i].id);
        assert(d.remove(i).push(ls.last()) =~= ls.remove(i));
    }
}

proof fn lemma_without_id_below(s: Seq<u64>, x: u64, b: u64)
    requires
        ids_below(s, b),
    ensures
        ids_below(without_id(s, x), b),
    decreases s.len(),
{
    if s.len() > 0 {
        let d = s.drop_last();
        assert(ids_below(d, b)) by {
            assert forall|i: int| 0 <= i < d.len() implies #[trigger] d[i] < b by {
                assert(s[i] < b);
            }
        }
        lemma_without_id_below(d, x, b);
        assert(s[s.len() - 1] < b);
        let r = without_id(d, x);
        if s.last() != x {
            assert forall|i: int| 0 <= i < r.len() + 1 implies #[trigger] r.push(s.last())[i] < b by {
                if i < r.len() {
                    assert(r.push(s.last())[i] == r[i]);
                }
            }
        }
    }
}

/// A copy of a list of ids.
fn copy_ids(v: &Vec<u64>) -> (r: Vec<u64>)
    ensures
        r@ == v@,
{
    let mut r: Vec<u64> = Vec::new();
    let mut i: usize = 0;
    while i < v.len()
        invariant
            i <= v.len(),
            r@ == v@.take(i as int),
        decreases v.len() - i,
    {
        r.push(v[i]);
        i += 1;
        proof {
            assert(r@ =~= v@.take(i as int));
        }
    }
    proof {
        assert(v@.take(v.len() as int) =~= v@);
    }
    r
}

/// Remove every occurrence of `x` from `v`, keeping the order of the rest.
pub(crate) fn remove_all(v: &mut Vec<u64>, x: u64)
    ensures
        final(v)@ == without_id(old(v)@, x),
{
    let mut r: Vec<u64> = Vec::new();
    let mut i: usize = 0;
    while i < v.len()
        invariant
            i <= v.len(),
            r@ == without_id(v@.take(i as int), x),
        decreases v.len() - i,
    {
        let y = v[i];
        if y != x {
            r.push(y);
        }
        proof {
            assert(v@.take(i as int + 1).drop_last() =~= v@.take(i as int));
        }
        i += 1;
    }
    proof {
        assert(v@.take(v.len() as int) =~= v@);
    }
    *v = r;
}

/// Split off the entries of `items` tagged `id`: they are returned (their
/// payloads, in order) and the rest stay, in order.
pub fn drain_matching<C: Copy>(items: &mut Vec<(u64, C)>, id: u64) -> (drained: Vec<C>)
    ensures
        drained@ == tagged(old(items)@, id),
        final(items)@ == untagged(old(items)@, id),
{
    let mut drained: Vec<C> = Vec::new();
    let mut kept: Vec<(u64, C)> = Vec::new();
    let mut i: usize = 0;
    while i < items.len()
        invariant
            i <= items.len(),
            drained@ == tagged(items@.take(i as int), id),
            kept@ == untagged(items@.take(i as int), id),
        decreases items.len() - i,
    {
        let entry = items[i];
        if entry.0 == id {
            drained.push(entry.1);
        } else {
            kept.push(entry);
        }
        proof {
            assert(items@.take(i as int + 1).drop_last() =~= items@.take(i as int));
        }
        i += 1;
    }
    proof {
        assert(items@.take(items.len() as int) =~= items@);
    }
    *items = kept;
    drained
}

/// The payloads of all entries, in order.
fn take_payloads(items: &Vec<(u64, u64)>) -> (r: Vec<u64>)
    ensures
        r@ == payloads(items@),
{
    let mut r: Vec<u64> = Vec::new();
    let mut i: usize = 0;
    while i < items.len()
        invariant
            i <= items.len(),
            r@ == payloads(items@.take(i as int)),
        decreases items.len() - i,
    {
        r.push(items[i].1);
        i += 1;
        proof {
            assert(r@ =~= payloads(items@.take(i as int)));
        }
    }
    proof {
        assert(items@.take(items.len() as int) =~= items@);
    }
    r
}

impl<T> StoreCore<T> {
    /// The position of the listener registered as `id`, if any.
    fn position_of(&self, id: u64) -> (r: Option<usize>)
        ensures
            match r {
                Some(i) => i < self@.listeners.len() && self@.listeners[i as int].id == id,
                None => !has_listener(self@.listeners, id),
            },
    {
        let mut i: usize = 0;
        while i < self.listeners.len()
            invariant
                i <= self.listeners.len(),
                forall|j: int| 0 <= j < i ==> #[trigger] self@.listeners[j].id != id,
            decreases self.listeners.len() - i,
        {
            if self.listeners[i].id == id {
                return Some(i);
            }
            i += 1;
        }
        None
    }

    /// Whether a listener is registered as `id`.
    pub fn contains_listener(&self, id: u64) -> (b: bool)
        ensures
            b == has_listener(self@.listeners, id),
    {
        self.position_of(id).is_some()
    }

    /// Register a listener; `keys` is its key filter (`None`: every change)
    /// and `immediate` says whether it is called at once with the current
    /// value.
    pub fn add_listener(&mut self, immediate: bool, keys: Option<Vec<String>>) -> (r: Listened)
        requires
            old(self)@.next_id < u64::MAX,
        ensures
            listener_added(old(self)@, final(self)@, r, keys_view(keys), immediate),
    {
        proof {
            use_type_invariant(&*self);
        }
        let id = self.next_id;
        let should_start = self.listeners.len() == 0;
        let ghost old_entries = self.listeners@;
        let entry = ListenerEntry { id, keys };
        let ghost e = entry@;
        self.next_id = id + 1;
        let mut listeners = Vec::new();
        std::mem::swap(&mut listeners, &mut self.listeners);
        listeners.push(entry);
        proof {
            assert(entries_view(listeners@) =~= entries_view(old_entries).push(e));
        }
        self.listeners = listeners;
        proof {
            assert(self@.listeners =~= old(self)@.listeners.push(e));
            assert(self@.queue =~= old(self)@.queue);
        }
        let (start_hooks, mount_hooks) = if should_start {
            (copy_ids(&self.start_hooks), copy_ids(&self.mount_hooks))
        } else {
            (Vec::new(), Vec::new())
        };
        proof {
            assert(start_hooks@ =~= (if should_start { old(self)@.start_hooks } else { Seq::empty() }));
            assert(mount_hooks@ =~= (if should_start { old(self)@.mount_hooks } else { Seq::empty() }));
        }
        Listened { subscription: Subscription::new(id), immediate, start_hooks, mount_hooks }
    }

    /// Remove the listener registered as `id` (if any). When the last
    /// listener leaves, the mount's cleanups and the stop hooks are handed
    /// back to be run, and the mount's cleanups are forgotten.
    pub fn remove_listener(&mut self, id: u64) -> (r: Unmounted)
        ensures
            listener_removed(old(self)@, final(self)@, r, id),
    {
        proof {
            use_type_invariant(&*self);
        }
        let was_mounted = self.listeners.len() > 0;
        match self.position_of(id) {
            Some(i) => {
                proof {
                    lemma_without_listener_at(self@.listeners, id, i as int);
                }
                let mut listeners = Vec::new();
                std::mem::swap(&mut listeners, &mut self.listeners);
                let ghost before = listeners@;
                let _removed = listeners.remove(i);
                proof {
                    assert(entries_view(listeners@) =~= entries_view(before).remove(i as int));
                }
                self.listeners = listeners;
                proof {
                    assert(self@.listeners =~= old(self)@.listeners.remove(i as int));
                }
            },
            None => {
                proof {
                    lemma_without_listener_absent(self@.listeners, id);
                }
            },
        }
        proof {
            assert(self@.queue =~= old(self)@.queue);
        }
        if was_mounted && self.listeners.len() == 0 {
            let cleanups = take_payloads(&self.mount_cleanups);
            let stop_hooks = copy_ids(&self.stop_hooks);
            self.mount_cleanups = Vec::new();
            proof {
                assert(self@.mount_cleanups =~= Seq::<(u64, u64)>::empty());
                assert(self@.queue =~= old(self)@.queue);
            }
            Unmounted { cleanups, stop_hooks }
        } else {
            let r = Unmounted { cleanups: Vec::new(), stop_hooks: Vec::new() };
            proof {
                assert(r.cleanups@ =~= Seq::<u64>::empty());
                assert(r.stop_hooks@ =~= Seq::<u64>::empty());
            }
            r
        }
    }
}

/// `s` with `x` appended when `cond` holds.
pub open spec fn push_if(s: Seq<u64>, cond: bool, x: u64) -> Seq<u64> {
    if cond {
        s.push(x)
    } else {
        s
    }
}

impl<T> StoreCore<T> {
    /// Register a start, stop, set or notify hook.
    pub fn add_hook(&mut self, kind: HookKind) -> (r: Subscription)
        requires
            old(self)@.next_id < u64::MAX,
        ensures
            ({
                let o = old(self)@;
                &&& r@ == o.next_id
                &&& final(self)@ == (StoreView {
                    next_id: (o.next_id + 1) as u64,
                    start_hooks: push_if(o.start_hooks, kind is Start, o.next_id),
                    stop_hooks: push_if(o.stop_hooks, kind is Stop, o.next_id),
                    set_hooks: push_if(o.set_hooks, kind is SetValue, o.next_id),
                    notify_hooks: push_if(o.notify_hooks, kind is NotifyValue, o.next_id),
                    ..o
                })
            }),
    {
        proof {
            use_type_invariant(&*self);
        }
        let id = self.next_id;
        self.next_id = id + 1;
        let mut hooks = Vec::new();
        match kind {
            HookKind::Start => {
                std::mem::swap(&mut hooks, &mut self.start_hooks);
                hooks.push(id);
                self.start_hooks = hooks;
            },
            HookKind::Stop => {
                std::mem::swap(&mut hooks, &mut self.stop_hooks);
                hooks.push(id);
                self.stop_hooks = hooks;
            },
            HookKind::SetValue => {
                std::mem::swap(&mut hooks, &mut self.set_hooks);
                hooks.push(id);
                self.set_hooks = hooks;
            },
            HookKind::NotifyValue => {
                std::mem::swap(&mut hooks, &mut self.notify_hooks);
                hooks.push(id);
                self.notify_hooks = hooks;
            },
        }
        proof {
            assert(self@.listeners =~= old(self)@.listeners);
            assert(self@.queue =~= old(self)@.queue);
        }
        Subscription::new(id)
    }

    /// Unregister the start, stop, set or notify hook registered as `id`.
    pub fn remove_hook(&mut self, id: u64)
        ensures
            ({
                let o = old(self)@;
                final(self)@ == (StoreView {
                    start_hooks: without_id(o.start_hooks, id),
                    stop_hooks: without_id(o.stop_hooks, id),
                    set_hooks: without_id(o.set_hooks, id),
                    notify_hooks: without_id(o.notify_hooks, id),
                    ..o
                })
            }),
    {
        proof {
            use_type_invariant(&*self);
        }
        let mut hooks = Vec::new();
        std::mem::swap(&mut hooks, &mut self.start_hooks);
        remove_all(&mut hooks, id);
        proof {
            lemma_without_id_below(old(self)@.start_hooks, id, self.next_id);
        }
        self.start_hooks = hooks;
        let mut hooks = Vec::new();
        std::mem::swap(&mut hooks, &mut self.stop_hooks);
        remove_all(&mut hooks, id);
        proof {
            lemma_without_id_below(old(self)@.stop_hooks, id, self.next_id);
        }
        self.stop_hooks = hooks;
        let mut hooks = Vec::new();
        std::mem::swap(&mut hooks, &mut self.set_hooks);
        remove_all(&mut hooks, id);
        proof {
            lemma_without_id_below(old(self)@.set_hooks, id, self.next_id);
        }
        self.set_hooks = hooks;
        let mut hooks = Vec::new();
        std::mem::swap(&mut hooks, &mut self.notify_hooks);
        remove_all(&mut hooks, id);
        proof {
            lemma_without_id_below(old(self)@.notify_hooks, id, self.next_id);
        }
        self.notify_hooks = hooks;
        proof {
            assert(self@.listeners =~= old(self)@.listeners);
            assert(self@.queue =~= old(self)@.queue);
        }
    }

    /// Register a mount hook: run on mount, its cleanup run on unmount.
    pub fn add_mount_hook(&mut self) -> (r: Subscription)
        requires
            old(self)@.next_id < u64::MAX,
        ensures
            r@ == old(self)@.next_id,
            final(self)@ == (StoreView {
                next_id: (old(self)@.next_id + 1) as u64,
                mount_hooks: old(self)@.mount_hooks.push(old(self)@.next_id),
                ..old(self)@
            }),
    {
        proof {
            use_type_invariant(&*self);
        }
        let id = self.next_id;
        self.next_id = id + 1;
        let mut hooks = Vec::new();
        std::mem::swap(&mut hooks, &mut self.mount_hooks);
        hooks.push(id);
        self.mount_hooks = hooks;
        proof {
            assert(self@.listeners =~= old(self)@.listeners);
            assert(self@.queue =~= old(self)@.queue);
        }
        Subscription::new(id)
    }

    /// Unregister the mount hook registered as `id`; the cleanups its
    /// current mount left are handed back to be run.
    pub fn remove_mount_hook(&mut self, id: u64) -> (cleanups: Vec<u64>)
        ensures
            cleanups@ == tagged(old(self)@.mount_cleanups, id),
            final(self)@ == (StoreView {
                mount_hooks: without_id(old(self)@.mount_hooks, id),
                mount_cleanups: untagged(old(self)@.mount_cleanups, id),
                ..old(self)@
            }),
    {
        proof {
            use_type_invariant(&*self);
        }
        let mut hooks = Vec::new();
        std::mem::swap(&mut hooks, &mut self.mount_hooks);
        remove_all(&mut hooks, id);
        proof {
            lemma_without_id_below(old(self)@.mount_hooks, id, self.next_id);
        }
        self.mount_hooks = hooks;
        let mut cleanups = Vec::new();
        std::mem::swap(&mut cleanups, &mut self.mount_cleanups);
        let drained = drain_matching(&mut cleanups, id);
        self.mount_cleanups = cleanups;
        proof {
            assert(self@.listeners =~= old(self)@.listeners);
            assert(self@.queue =~= old(self)@.queue);
        }
        drained
    }

    /// Remember the cleanups the mount hooks returned; each is tagged with
    /// the mount hook that made it.
    pub fn record_mount_cleanups(&mut self, cleanups: Vec<(u64, u64)>)
        ensures
            final(self)@ == (StoreView {
                mount_cleanups: old(self)@.mount_cleanups + cleanups@,
                ..old(self)@
            }),
    {
        proof {
            use_type_invariant(&*self);
        }
        let mut all = Vec::new();
        std::mem::swap(&mut all, &mut self.mount_cleanups);
        let mut more = cleanups;
        all.append(&mut more);
        self.mount_cleanups = all;
        proof {
            assert(self@.listeners =~= old(self)@.listeners);
            assert(self@.queue =~= old(self)@.queue);
        }
    }

    /// The set hooks, in registration order.
    pub fn set_hook_ids(&self) -> (r: Vec<u64>)
        ensures
            r@ == self@.set_hooks,
    {
        copy_ids(&self.set_hooks)
    }

    /// The notify hooks, in registration order.
    pub fn notify_hook_ids(&self) -> (r: Vec<u64>)
        ensures
            r@ == self@.notify_hooks,
    {
        copy_ids(&self.notify_hooks)
    }
}

/// The abstract form of a delivery.
pub struct DeliveryView<T> {
    pub value: T,
    pub key: Option<Seq<char>>,
    pub listeners: Seq<u64>,
}

/// One notification to hand out: the value, the key that changed, and the
/// listeners (ids, in registration order) that must be called with it.
#[derive(Debug)]
pub struct Delivery<T> {
    pub value: T,
    pub changed_key: Option<String>,
    pub listeners: Vec<u64>,
}

impl<T> View for Delivery<T> {
    type V = DeliveryView<T>;

    open spec fn view(&self) -> DeliveryView<T> {
        DeliveryView {
            value: self.value,
            key: opt_string_view(self.changed_key),
            listeners: self.listeners@,
        }
    }
}

/// The notifications of `q` that are delivered when the latest delivered
/// write is `d`: walking the queue in order, a notification is delivered
/// exactly when it is newer than everything delivered before it; an older
/// one is superseded and dropped.
pub open spec fn fresh<T>(q: Seq<QueuedView<T>>, d: u64) -> Seq<QueuedView<T>>
    decreases q.len(),
{
    if q.len() == 0 {
        Seq::empty()
    } else if q[0].seq > d {
        seq![q[0]] + fresh(q.drop_first(), q[0].seq)
    } else {
        fresh(q.drop_first(), d)
    }
}

/// The latest delivered write after walking `q` from `d`.
pub open spec fn last_delivered<T>(q: Seq<QueuedView<T>>, d: u64) -> u64
    decreases q.len(),
{
    if q.len() == 0 {
        d
    } else if q[0].seq > d {
        last_delivered(q.drop_first(), q[0].seq)
    } else {
        last_delivered(q.drop_first(), d)
    }
}

/// The index of the first notification of `q` newer than `d`
/// (`q.len()` when there is none).
pub open spec fn first_fresh<T>(q: Seq<QueuedView<T>>, d: u64) -> int
    decreases q.len(),
{
    if q.len() == 0 {
        0
    } else if q[0].seq > d {
        0
    } else {
        1 + first_fresh(q.drop_first(), d)
    }
}

/// What delivering the queued notification `x` to the listeners `ls` means.
pub open spec fn delivery_of<T>(ls: Seq<ListenerView>, x: QueuedView<T>) -> DeliveryView<T> {
    DeliveryView { value: x.value, key: x.key, listeners: matching_ids(ls, x.key) }
}

proof fn lemma_first_fresh<T>(q: Seq<QueuedView<T>>, d: u64)
    ensures
        0 <= first_fresh(q, d) <= q.len(),
        forall|j: int| 0 <= j < first_fresh(q, d) ==> #[trigger] q[j].seq <= d,
        first_fresh(q, d) < q.len() ==> ({
            let k = first_fresh(q, d);
            &&& q[k].seq > d
            &&& fresh(q, d) == seq![q[k]] + fresh(q.skip(k + 1), q[k].seq)
            &&& last_delivered(q, d) == last_delivered(q.skip(k + 1), q[k].seq)
        }),
        first_fresh(q, d) == q.len() ==> fresh(q, d) == Seq::<QueuedView<T>>::empty()
            && last_delivered(q, d) == d,
    decreases q.len(),
{
    if q.len() > 0 {
        if q[0].seq > d {
            assert(q.skip(1) =~= q.drop_first());
        } else {
            lemma_first_fresh(q.drop_first(), d);
            let k = first_fresh(q.drop_first(), d);
            assert forall|j: int| 0 <= j < first_fresh(q, d) implies #[trigger] q[j].seq <= d by {
                if j > 0 {
                    assert(q[j] == q.drop_first()[j - 1]);
                }
            }
            if k < q.drop_first().len() {
                assert(q.skip(k + 2) =~= q.drop_first().skip(k + 1));
            }
        }
    }
}

/// Delivered notifications come in strictly increasing write order, each
/// newer than what was delivered before: a notification never overtakes a
/// newer one.
pub proof fn law_deliveries_in_write_order<T>(q: Seq<QueuedView<T>>, d: u64)
    ensures
        forall|i: int| 0 <= i < fresh(q, d).len() ==> #[trigger] fresh(q, d)[i].seq > d,
        forall|i: int, j: int|
            0 <= i < j < fresh(q, d).len() ==> #[trigger] fresh(q, d)[i].seq < #[trigger] fresh(q, d)[j].seq,
        d <= last_delivered(q, d),
        fresh(q, d).len() == 0 ==> last_delivered(q, d) == d,
        fresh(q, d).len() > 0 ==> last_delivered(q, d) == fresh(q, d).last().seq,
    decreases q.len(),
{
    if q.len() > 0 {
        if q[0].seq > d {
            let rest = fresh(q.drop_first(), q[0].seq);
            law_deliveries_in_write_order(q.drop_first(), q[0].seq);
            let f = fresh(q, d);
            assert(f == seq![q[0]] + rest);
            assert forall|i: int| 0 <= i < f.len() implies #[trigger] f[i].seq > d by {
                if i > 0 {
                    assert(f[i] == rest[i - 1]);
                }
            }
            assert forall|i: int, j: int| 0 <= i < j < f.len() implies #[trigger] f[i].seq < #[trigger] f[j].seq by {
                assert(f[j] == rest[j - 1]);
                if i > 0 {
                    assert(f[i] == rest[i - 1]);
                }
            }
            if rest.len() > 0 {
                assert(f.last() == rest.last());
            }
        } else {
            law_deliveries_in_write_order(q.drop_first(), d);
        }
    }
}

/// Whether `k` is one of `ks`.
fn contains_key(ks: &Vec<String>, k: &String) -> (b: bool)
    ensures
        b == strings_view(ks@).contains(k@),
{
    let mut i: usize = 0;
    while i < ks.len()
        invariant
            i <= ks.len(),
            forall|j: int| 0 <= j < i ==> #[trigger] ks@[j]@ != k@,
        decreases ks.len() - i,
    {
        if ks[i] == *k {
            proof {
                assert(strings_view(ks@)[i as int] == k@);
            }
            return true;
        }
        i += 1;
    }
    proof {
        let v = strings_view(ks@);
        if v.contains(k@) {
            let j = choose|j: int| 0 <= j < v.len() && v[j] == k@;
            assert(ks@[j]@ == k@);
        }
    }
    false
}

/// Whether a listener with key filter `keys` hears about a change of
/// `changed_key`.
pub fn listener_matches(keys: &Option<Vec<String>>, changed_key: &Option<String>) -> (b: bool)
    ensures
        b == listener_matches_spec(keys_view(*keys), opt_string_view(*changed_key)),
{
    match keys {
        None => true,
        Some(ks) => match changed_key {
            None => true,
            Some(k) => contains_key(ks, k),
        },
    }
}

impl<T> StoreCore<T> {
    /// The listeners (ids, in registration order) that hear about a change
    /// of `changed_key`.
    pub fn listeners_for(&self, changed_key: &Option<String>) -> (r: Vec<u64>)
        ensures
            r@ == matching_ids(self@.listeners, opt_string_view(*changed_key)),
    {
        let ghost ls = self@.listeners;
        let ghost key = opt_string_view(*changed_key);
        let mut r: Vec<u64> = Vec::new();
        let mut i: usize = 0;
        while i < self.listeners.len()
            invariant
                i <= self.listeners.len(),
                ls == self@.listeners,
                ls.len() == self.listeners@.len(),
                key == opt_string_view(*changed_key),
                r@ == matching_ids(ls.take(i as int), key),
            decreases self.listeners.len() - i,
        {
            let entry = &self.listeners[i];
            assert(ls[i as int] == entry@);
            if listener_matches(&entry.keys, changed_key) {
                r.push(entry.id);
            }
            proof {
                assert(ls.take(i as int + 1).drop_last() =~= ls.take(i as int));
            }
            i += 1;
        }
        proof {
            assert(ls.take(ls.len() as int) =~= ls);
        }
        r
    }

    /// Start a delivery loop. Returns `false` (and changes nothing) when a
    /// loop is already running: that loop delivers what gets queued.
    pub fn begin_drain(&mut self) -> (owner: bool)
        ensures
            owner == !old(self)@.draining,
            final(self)@ == (StoreView { draining: true, ..old(self)@ }),
    {
        proof {
            use_type_invariant(&*self);
        }
        let owner = !self.draining;
        self.draining = true;
        proof {
            assert(self@.listeners =~= old(self)@.listeners);
            assert(self@.queue =~= old(self)@.queue);
        }
        owner
    }

    /// End a delivery loop. If notifications were queued meanwhile the loop
    /// keeps going (returns `true`); otherwise it stops.
    pub fn end_drain(&mut self) -> (again: bool)
        ensures
            again == (old(self)@.queue.len() > 0),
            final(self)@ == (StoreView { draining: again, ..old(self)@ }),
    {
        proof {
            use_type_invariant(&*self);
        }
        let again = self.queue.len() > 0;
        self.draining = again;
        proof {
            assert(self@.listeners =~= old(self)@.listeners);
            assert(self@.queue =~= old(self)@.queue);
        }
        again
    }

    /// Queue the notification of write `seq`.
    pub fn enqueue(&mut self, seq: u64, value: T, changed_key: Option<String>)
        requires
            seq <= old(self)@.write_seq,
        ensures
            final(self)@ == (StoreView {
                queue: old(self)@.queue.push(
                    QueuedView { seq, value, key: opt_string_view(changed_key) },
                ),
                ..old(self)@
            }),
    {
        proof {
            use_type_invariant(&*self);
        }
        let item = Queued { seq, value, changed_key };
        let ghost iv = item@;
        let mut queue = Vec::new();
        std::mem::swap(&mut queue, &mut self.queue);
        let ghost before = queue@;
        queue.push(item);
        proof {
            assert(queue_view(queue@) =~= queue_view(before).push(iv));
        }
        self.queue = queue;
        proof {
            assert(self@.listeners =~= old(self)@.listeners);
        }
    }

    /// Take the next notification to deliver. Queued notifications not
    /// newer than the latest delivered one are superseded and dropped.
    pub fn next_delivery(&mut self) -> (r: Option<Delivery<T>>)
        ensures
            ({
                let o = old(self)@;
                let k = first_fresh(o.queue, o.delivered_seq);
                if k == o.queue.len() {
                    &&& r is None
                    &&& final(self)@ == (StoreView { queue: Seq::empty(), ..o })
                } else {
                    &&& r is Some
                    &&& r->0@ == delivery_of(o.listeners, o.queue[k])
                    &&& final(self)@ == (StoreView {
                        queue: o.queue.skip(k + 1),
                        delivered_seq: o.queue[k].seq,
                        ..o
                    })
                }
            }),
    {
        proof {
            use_type_invariant(&*self);
            lemma_first_fresh(self@.queue, self@.delivered_seq);
        }
        let ghost o = self@;
        assert(o == old(self)@);
        let mut queue = Vec::new();
        std::mem::swap(&mut queue, &mut self.queue);
        let ghost q0 = queue@;
        assert(queue_view(q0) == o.queue);
        assert(self@.listeners == o.listeners);
        assert(self@.mount_cleanups == o.mount_cleanups);
        let ghost mut dropped: int = 0;
        while queue.len() > 0
            invariant
                o == old(self)@,
                0 <= dropped <= o.queue.len(),
                dropped <= first_fresh(o.queue, o.delivered_seq),
                queue_view(queue@) == o.queue.skip(dropped),
                self.delivered_seq == o.delivered_seq,
                self.queue@.len() == 0,
                self.value == o.value,
                self@.listeners == o.listeners,
                self.next_id == o.next_id,
                self.write_seq == o.write_seq,
                self.draining == o.draining,
                self@.start_hooks == o.start_hooks,
                self@.stop_hooks == o.stop_hooks,
                self@.mount_hooks == o.mount_hooks,
                self@.mount_cleanups == o.mount_cleanups,
                self@.set_hooks == o.set_hooks,
                self@.notify_hooks == o.notify_hooks,
                store_wf(o),
                0 <= first_fresh(o.queue, o.delivered_seq) <= o.queue.len(),
                forall|j: int| 0 <= j < first_fresh(o.queue, o.delivered_seq) ==> #[trigger] o.queue[j].seq <= o.delivered_seq,
                first_fresh(o.queue, o.delivered_seq) < o.queue.len() ==> o.queue[first_fresh(o.queue, o.delivered_seq)].seq > o.delivered_seq,
            decreases queue.len(),
        {
            let ghost before = queue@;
            proof {
                assert(queue_view(before).len() == before.len());
                assert(o.queue.skip(dropped).len() == o.queue.len() - dropped);
                assert(queue_view(before)[0] == before[0]@);
                assert(o.queue.skip(dropped)[0] == o.queue[dropped]);
            }
            let item = queue.remove(0);
            proof {
                assert(item == before[0]);
                assert(item@ == o.queue[dropped]);
                assert forall|j: int| 0 <= j < queue@.len() implies #[trigger] queue_view(queue@)[j] == o.queue.skip(dropped + 1)[j] by {
                    assert(queue@[j] == before[j + 1]);
                    assert(queue_view(before)[j + 1] == before[j + 1]@);
                    assert(o.queue.skip(dropped)[j + 1] == o.queue[dropped + j + 1]);
                }
                assert(queue_view(queue@) =~= o.queue.skip(dropped + 1));
            }
            if item.seq > self.delivered_seq {
                proof {
                    assert(o.queue[dropped].seq == item.seq);
                    assert(o.queue[dropped].seq <= o.write_seq);
                    assert(dropped == first_fresh(o.queue, o.delivered_seq));
                }
                self.delivered_seq = item.seq;
                self.queue = queue;
                let listeners = self.listeners_for(&item.changed_key);
                proof {
                    assert(self@.listeners == o.listeners);
                    assert(self@.queue == o.queue.skip(dropped + 1));
                    assert(self@ == (StoreView { queue: o.queue.skip(dropped + 1), delivered_seq: o.queue[dropped].seq, ..o }));
                }
                let d = Delivery { value: item.value, changed_key: item.changed_key, listeners };
                proof {
                    assert(item@.key == opt_string_view(item.changed_key));
                    assert(d@ == delivery_of(o.listeners, o.queue[dropped]));
                }
                return Some(d);
            }
            proof {
                dropped = dropped + 1;
            }
        }
        proof {
            assert(dropped == o.queue.len());
            assert(self@.listeners == o.listeners);
            assert(self@.queue =~= Seq::<QueuedView<T>>::empty());
            assert(self@ == (StoreView { queue: Seq::empty(), ..o }));
        }
        None
    }
}

/// The views of a list of deliveries.
pub open spec fn deliveries_view<T>(ds: Seq<Delivery<T>>) -> Seq<DeliveryView<T>> {
    ds.map_values(|d: Delivery<T>| d@)
}

/// What delivering the notifications `q` to the listeners `ls` means.
pub open spec fn deliveries_of<T>(ls: Seq<ListenerView>, q: Seq<QueuedView<T>>) -> Seq<DeliveryView<T>> {
    q.map_values(|x: QueuedView<T>| delivery_of(ls, x))
}

/// A copy of an optional key.
pub fn copy_key(key: &Option<String>) -> (r: Option<String>)
    ensures
        opt_string_view(r) == opt_string_view(*key),
{
    match key {
        Some(k) => Some(k.clone()),
        None => None,
    }
}

/// Run the caller's edit `f` on `value` and hand back what it returns.
/// Nothing is known of what the edit does.
#[verifier::external_body]
pub(crate) fn call_with_mut<V, R, F: FnOnce(&mut V) -> R>(f: F, value: &mut V) -> R {
    f(value)
}

/// The code that runs registered set and notify hooks, each named by the
/// id it was registered under. The store decides which hooks run and in
/// what order, and what a hook's verdict means; the hooks themselves are
/// the caller's, so of a hook's run only the step it took is known:
/// `set_step` and `notify_step` say which contexts a hook may leave behind
/// from a given one (a hook of the caller's may take any step).
pub trait ChangeHooks<T> {
    /// Whether running the set hook `hook` on `before` may leave `after`;
    /// unless a runner says more, any context may.
    open spec fn set_step(&self, hook: u64, before: ContextView<T>, after: ContextView<T>) -> bool {
        true
    }

    /// Whether running the notify hook `hook` on `before` may leave `after`;
    /// unless a runner says more, any context may.
    open spec fn notify_step(&self, hook: u64, before: ContextView<T>, after: ContextView<T>) -> bool {
        true
    }

    /// Run the set hook registered as `hook` on `ctx`.
    fn run_set_hook(&self, hook: u64, ctx: &mut SetContext<T>)
        ensures
            self.set_step(hook, old(ctx)@, final(ctx)@),
    ;

    /// Run the notify hook registered as `hook` on `ctx`.
    fn run_notify_hook(&self, hook: u64, ctx: &mut NotifyContext<T>)
        ensures
            self.notify_step(hook, old(ctx)@, final(ctx)@),
    ;
}

/// The hook runner of a caller that registered no set or notify hooks.
pub struct NoHooks;

impl<T> ChangeHooks<T> for NoHooks {
    /// No hook touches the context.
    open spec fn set_step(&self, hook: u64, before: ContextView<T>, after: ContextView<T>) -> bool {
        after == before
    }

    /// No hook touches the context.
    open spec fn notify_step(&self, hook: u64, before: ContextView<T>, after: ContextView<T>) -> bool {
        after == before
    }

    fn run_set_hook(&self, hook: u64, ctx: &mut SetContext<T>) {
    }

    fn run_notify_hook(&self, hook: u64, ctx: &mut NotifyContext<T>) {
    }
}

/// One step of a hook chain: the set hook (`set`) or notify hook `hook`
/// took `before` to `after`.
pub open spec fn hook_step<T, H: ChangeHooks<T>>(
    hooks: H,
    set: bool,
    hook: u64,
    before: ContextView<T>,
    after: ContextView<T>,
) -> bool {
    if set {
        hooks.set_step(hook, before, after)
    } else {
        hooks.notify_step(hook, before, after)
    }
}

/// `cs` is a run of the hook chain `ids` (set hooks when `set`, else notify
/// hooks) on a context starting as `cs[0]`: the hooks ran in order, each on
/// the context the one before left, and the run stopped right after the
/// first hook that aborted (or after the last hook).
pub open spec fn hook_run<T, H: ChangeHooks<T>>(
    hooks: H,
    set: bool,
    ids: Seq<u64>,
    cs: Seq<ContextView<T>>,
) -> bool {
    &&& 1 <= cs.len() <= ids.len() + 1
    &&& forall|i: int| 0 <= i < cs.len() - 1 ==> !(#[trigger] cs[i]).aborted
    &&& forall|i: int| 1 <= i < cs.len() ==> hook_step(hooks, set, ids[i - 1], cs[i - 1], #[trigger] cs[i])
    &&& cs.len() < ids.len() + 1 ==> cs.last().aborted
}

/// The context a change starts with.
pub open spec fn start_context<T>(value: T, key: Option<Seq<char>>) -> ContextView<T> {
    ContextView { value, changed_key: key, aborted: false }
}

/// How a change went.
pub enum SetOutcome {
    /// A set hook aborted it: nothing was written.
    Rejected,
    /// The value equals the current one: nothing was written.
    Unchanged,
    /// Written, but a notify hook aborted the notification.
    Silenced,
    /// Written and its notification queued.
    Queued,
}

/// Delivering what is queued, from state `o` to state `n` with deliveries
/// `ds`: nothing when a delivery loop is already running (it delivers them);
/// otherwise the fresh notifications, in order, to the listeners they
/// match, and the queue is emptied.
pub open spec fn drained<T>(o: StoreView<T>, n: StoreView<T>, ds: Seq<DeliveryView<T>>) -> bool {
    if o.draining {
        &&& ds.len() == 0
        &&& n == o
    } else {
        &&& ds == deliveries_of(o.listeners, fresh(o.queue, o.delivered_seq))
        &&& n == (StoreView {
            queue: Seq::empty(),
            delivered_seq: last_delivered(o.queue, o.delivered_seq),
            draining: false,
            ..o
        })
    }
}

impl<T> StoreCore<T> {
    /// Deliver everything queued: returns the deliveries in order (and
    /// empties the queue), unless a delivery loop is already running, in
    /// which case that loop delivers them and nothing changes here.
    pub fn drain(&mut self) -> (ds: Vec<Delivery<T>>)
        ensures
            drained(old(self)@, final(self)@, deliveries_view(ds@)),
    {
        let ghost o = self@;
        if !self.begin_drain() {
            return Vec::new();
        }
        let mut ds: Vec<Delivery<T>> = Vec::new();
        let mut done = false;
        while !done
            invariant
                o == old(self)@,
                !o.draining,
                ds@.len() <= fresh(o.queue, o.delivered_seq).len(),
                fresh(o.queue, o.delivered_seq) == fresh(o.queue, o.delivered_seq).take(ds@.len() as int)
                    + fresh(self@.queue, self@.delivered_seq),
                deliveries_view(ds@) == deliveries_of(o.listeners, fresh(o.queue, o.delivered_seq).take(ds@.len() as int)),
                last_delivered(o.queue, o.delivered_seq) == last_delivered(self@.queue, self@.delivered_seq),
                self@ == (StoreView {
                    queue: self@.queue,
                    delivered_seq: self@.delivered_seq,
                    draining: true,
                    ..o
                }),
                done ==> self@.queue.len() == 0,
            decreases self@.queue.len() + (if done { 0int } else { 1int }),
        {
            proof {
                lemma_first_fresh(self@.queue, self@.delivered_seq);
            }
            let ghost before = self@;
            let ghost whole = fresh(o.queue, o.delivered_seq);
            let ghost n = ds@.len() as int;
            match self.next_delivery() {
                Some(d) => {
                    proof {
                        let k = first_fresh(before.queue, before.delivered_seq);
                        assert(whole.take(n + 1) =~= whole.take(n).push(before.queue[k])) by {
                            assert(whole =~= whole.take(n) + (seq![before.queue[k]] + fresh(before.queue.skip(k + 1), before.queue[k].seq)));
                        }
                        assert(whole =~= whole.take(n + 1) + fresh(self@.queue, self@.delivered_seq));
                    }
                    let ghost old_ds = ds@;
                    let ghost dv = d@;
                    ds.push(d);
                    proof {
                        let k = first_fresh(before.queue, before.delivered_seq);
                        assert(before.listeners == o.listeners);
                        assert(dv == delivery_of(o.listeners, before.queue[k]));
                        assert(ds@ == old_ds.push(d));
                        assert forall|j: int| 0 <= j < n + 1 implies #[trigger] deliveries_view(ds@)[j] == deliveries_of(o.listeners, whole.take(n + 1))[j] by {
                            if j < n {
                                assert(deliveries_view(old_ds)[j] == deliveries_of(o.listeners, whole.take(n))[j]);
                                assert(ds@[j] == old_ds[j]);
                            } else {
                                assert(ds@[j]@ == dv);
                            }
                        }
                        assert(deliveries_view(ds@) =~= deliveries_of(o.listeners, whole.take(n + 1)));
                    }
                },
                None => {
                    done = true;
                    proof {
                        assert(fresh(self@.queue, self@.delivered_seq) =~= Seq::<QueuedView<T>>::empty());
                    }
                },
            }
        }
        proof {
            let whole = fresh(o.queue, o.delivered_seq);
            assert(fresh(self@.queue, self@.delivered_seq) =~= Seq::<QueuedView<T>>::empty());
            assert(whole.take(ds@.len() as int) =~= whole);
            assert(self@.queue =~= Seq::<QueuedView<T>>::empty());
        }
        let _again = self.end_drain();
        ds
    }
}

impl<T: Clone> StoreCore<T> {
    /// A copy of the current value.
    pub fn get(&self) -> (v: T)
        ensures
            cloned(self@.value, v),
    {
        self.value.clone()
    }
}

impl<T: PartialEq> StoreCore<T> {
    /// Store `next` unless it equals the current value. Returns the
    /// sequence number of the write, or `None` when nothing was written.
    pub fn write(&mut self, next: T) -> (r: Option<u64>)
        requires
            old(self)@.write_seq < u64::MAX,
        ensures
            match r {
                None => final(self)@ == old(self)@,
                Some(seq) => {
                    &&& seq == old(self)@.write_seq + 1
                    &&& final(self)@ == (StoreView { value: next, write_seq: seq, ..old(self)@ })
                },
            },
            T::obeys_eq_spec() ==> (r is None <==> old(self)@.value.eq_spec(&next)),
    {
        proof {
            use_type_invariant(&*self);
        }
        if self.value == next {
            return None;
        }
        self.value = next;
        self.write_seq = self.write_seq + 1;
        proof {
            assert(self@.listeners =~= old(self)@.listeners);
            assert(self@.queue =~= old(self)@.queue);
        }
        Some(self.write_seq)
    }

    /// Store `next`, known to differ from the current value, without
    /// comparing. Returns the sequence number of the write.
    fn write_new(&mut self, next: T) -> (seq: u64)
        requires
            old(self)@.write_seq < u64::MAX,
        ensures
            seq == old(self)@.write_seq + 1,
            final(self)@ == (StoreView { value: next, write_seq: seq, ..old(self)@ }),
    {
        proof {
            use_type_invariant(&*self);
        }
        self.value = next;
        self.write_seq = self.write_seq + 1;
        proof {
            assert(self@.listeners =~= old(self)@.listeners);
            assert(self@.queue =~= old(self)@.queue);
        }
        self.write_seq
    }

    /// Adopt the value a notify hook settled on, unless it equals the
    /// current one.
    pub fn settle(&mut self, value: T)
        ensures
            final(self)@ == old(self)@ || final(self)@ == (StoreView { value, ..old(self)@ }),
            T::obeys_eq_spec() ==> (old(self)@.value.eq_spec(&value) ==> final(self)@ == old(self)@),
            T::obeys_eq_spec() ==> (!old(self)@.value.eq_spec(&value) ==> final(self)@ == (
            StoreView { value, ..old(self)@ })),
    {
        if self.value != value {
            self.replace_silently(value);
        }
    }
}

/// What a change to `value` under `key` did, from state `o` to state `n`
/// with outcome `r`, the hooks run through `hooks`: the set hooks (when
/// `run_set_hooks`) ran in registration order on a context holding `value`
/// and `key`, stopping at the first that aborted; see [`set_written`] for
/// the rest.
pub open spec fn set_outcome<T: Clone + PartialEq, H: ChangeHooks<T>>(
    o: StoreView<T>,
    n: StoreView<T>,
    r: SetOutcome,
    value: T,
    key: Option<Seq<char>>,
    run_set_hooks: bool,
    known: Option<bool>,
    hooks: H,
) -> bool {
    exists|cs: Seq<ContextView<T>>|
        #[trigger] hook_run(hooks, true, set_chain(o, run_set_hooks), cs) && cs[0] == start_context(value, key)
            && set_written(o, n, r, cs.last(), key, if cs.len() == 1 { known } else { None }, hooks)
}

/// The shape of what a change did, from state `o` to state `n` with
/// outcome `r`: which outcomes the registered hooks allow, what each leaves
/// of the store, and, with no hooks in the way, that the value is written
/// exactly when it differs from the current one (as the caller knows it, `known`, or
/// where `==` is specified) and is then the stored value.
pub open spec fn set_steps<T: Clone + PartialEq>(
    o: StoreView<T>,
    n: StoreView<T>,
    r: SetOutcome,
    value: T,
    key: Option<Seq<char>>,
    run_set_hooks: bool,
    known: Option<bool>,
) -> bool {
    let seq = (o.write_seq + 1) as u64;
    let no_set_hooks = !run_set_hooks || o.set_hooks.len() == 0;
    &&& r is Rejected ==> run_set_hooks && o.set_hooks.len() > 0 && n == o
    &&& r is Unchanged ==> n == o
    &&& r is Silenced ==> o.notify_hooks.len() > 0 && n == (StoreView { value: n.value, write_seq: seq, ..o })
    &&& r is Queued ==> n.queue.len() == o.queue.len() + 1
        && n == (StoreView { value: n.value, write_seq: seq, queue: n.queue, ..o })
        && n.queue == o.queue.push(n.queue.last())
        && n.queue.last().seq == seq
        && n.queue.last().key == key
        && (o.notify_hooks.len() == 0 ==> cloned(n.value, n.queue.last().value))
    &&& no_set_hooks ==> !(r is Rejected)
    &&& no_set_hooks && o.notify_hooks.len() == 0 ==> (r is Unchanged || r is Queued)
    &&& no_set_hooks && r is Queued && o.notify_hooks.len() == 0 ==> n.value == value
    &&& no_set_hooks && known == Some(true) ==> !(r is Unchanged)
    &&& no_set_hooks && known == Some(false) ==> r is Unchanged
    &&& no_set_hooks && known is None && T::obeys_eq_spec() ==> (r is Unchanged <==> o.value.eq_spec(&value))
}

/// The set hooks a change runs: all of them, in registration order, when
/// `run_set_hooks`; none otherwise.
pub open spec fn set_chain<T>(o: StoreView<T>, run_set_hooks: bool) -> Seq<u64> {
    if run_set_hooks {
        o.set_hooks
    } else {
        Seq::empty()
    }
}

proof fn lemma_set_outcome<T: Clone + PartialEq, H: ChangeHooks<T>>(
    o: StoreView<T>,
    n: StoreView<T>,
    r: SetOutcome,
    value: T,
    key: Option<Seq<char>>,
    run_set_hooks: bool,
    known: Option<bool>,
    hooks: H,
    cs: Seq<ContextView<T>>,
)
    requires
        hook_run(hooks, true, set_chain(o, run_set_hooks), cs),
        cs[0] == start_context(value, key),
        set_written(o, n, r, cs.last(), key, if cs.len() == 1 { known } else { None }, hooks),
    ensures
        set_outcome(o, n, r, value, key, run_set_hooks, known, hooks),
{
}

/// The rest of a change once the set hooks left context `c`: when one
/// aborted nothing was written (`Rejected`); otherwise `c.value` is written
/// unless it equals the current value (`Unchanged`) -- where the caller
/// knows (`known`) whether it differs, that decides without comparing --
/// and after a write the
/// notify hooks ran in registration order on a context holding a copy of
/// the written value, stopping at the first that aborted (see
/// [`notify_settled`]).
pub open spec fn set_written<T: Clone + PartialEq, H: ChangeHooks<T>>(
    o: StoreView<T>,
    n: StoreView<T>,
    r: SetOutcome,
    c: ContextView<T>,
    key: Option<Seq<char>>,
    known: Option<bool>,
    hooks: H,
) -> bool {
    if c.aborted {
        r is Rejected && n == o
    } else if r is Unchanged {
        known != Some(true) && n == o && (known is None && T::obeys_eq_spec() ==> o.value.eq_spec(&c.value))
    } else {
        &&& known != Some(false)
        &&& known is None && T::obeys_eq_spec() ==> !o.value.eq_spec(&c.value)
        &&& exists|ns: Seq<ContextView<T>>|
            #[trigger] hook_run(hooks, false, o.notify_hooks, ns) && notify_settled(o, n, r, c.value, ns, key)
    }
}

/// After `written` was written, the notify hooks ran as `ns` from a context
/// holding a copy of it: when one aborted the write stands and nothing is
/// queued (`Silenced`); otherwise the value they settled on is queued under
/// `key` with the write's sequence number, and the store keeps a copy of it
/// unless that equals the written value (`Queued`). With no notify hook, a
/// copy of the written value is queued.
pub open spec fn notify_settled<T: Clone + PartialEq>(
    o: StoreView<T>,
    n: StoreView<T>,
    r: SetOutcome,
    written: T,
    ns: Seq<ContextView<T>>,
    key: Option<Seq<char>>,
) -> bool {
    let seq = (o.write_seq + 1) as u64;
    let last = ns.last();
    &&& ns[0] == start_context(ns[0].value, key)
    &&& cloned(written, ns[0].value)
    &&& if last.aborted {
        r is Silenced && n == (StoreView { value: written, write_seq: seq, ..o })
    } else {
        &&& r is Queued
        &&& n == (StoreView {
            value: n.value,
            write_seq: seq,
            queue: o.queue.push(queued(seq, n.queue.last().value, key)),
            ..o
        })
        &&& o.notify_hooks.len() == 0 ==> n.value == written && cloned(written, n.queue.last().value)
        &&& o.notify_hooks.len() > 0 ==> n.queue.last().value == last.value && exists|copy: T|
            #[trigger] cloned(last.value, copy) && (n.value == written || n.value == copy) && (T::obeys_eq_spec()
                ==> n.value == (if written.eq_spec(&copy) {
                written
            } else {
                copy
            }))
    }
}

impl<T: Clone + PartialEq> StoreCore<T> {
    /// The change pipeline: the set hooks (when `run_set_hooks`) may
    /// rewrite or cancel the value; an equal value is not written; after a
    /// write the notify hooks may rewrite or cancel the notification; then
    /// the notification is queued for delivery.
    pub fn set_value<H: ChangeHooks<T>>(
        &mut self,
        value: T,
        changed_key: Option<String>,
        run_set_hooks: bool,
        hooks: &H,
    ) -> (r: SetOutcome)
        requires
            old(self)@.write_seq < u64::MAX,
        ensures
            set_steps(old(self)@, final(self)@, r, value, opt_string_view(changed_key), run_set_hooks, None),
            set_outcome(old(self)@, final(self)@, r, value, opt_string_view(changed_key), run_set_hooks, None, *hooks),
    {
        self.apply_change(value, changed_key, run_set_hooks, None, hooks)
    }

    /// [`StoreCore::set_value`], for a caller that may know (`known`)
    /// whether `value` differs from the current value: then, unless a set
    /// hook ran, that decides whether it is written, without comparing.
    fn apply_change<H: ChangeHooks<T>>(
        &mut self,
        value: T,
        changed_key: Option<String>,
        run_set_hooks: bool,
        known: Option<bool>,
        hooks: &H,
    ) -> (r: SetOutcome)
        requires
            old(self)@.write_seq < u64::MAX,
        ensures
            set_steps(old(self)@, final(self)@, r, value, opt_string_view(changed_key), run_set_hooks, known),
            set_outcome(old(self)@, final(self)@, r, value, opt_string_view(changed_key), run_set_hooks, known, *hooks),
    {
        let ghost key = opt_string_view(changed_key);
        let ghost set_ids: Seq<u64> = set_chain(old(self)@, run_set_hooks);
        let ghost mut cs: Seq<ContextView<T>> = seq![start_context(value, key)];
        let mut next = value;
        let mut ran_hooks = false;
        if run_set_hooks {
            let ids = self.set_hook_ids();
            ran_hooks = ids.len() > 0;
            let mut ctx = SetContext::new(next, copy_key(&changed_key));
            let mut i: usize = 0;
            while i < ids.len()
                invariant
                    i <= ids.len(),
                    ids@ == old(self)@.set_hooks,
                    ids@ == set_ids,
                    run_set_hooks,
                    self@ == old(self)@,
                    ids@.len() == 0 ==> ctx@.value == value && !ctx@.aborted,
                    !ctx@.aborted,
                    ran_hooks == (ids@.len() > 0),
                    key == opt_string_view(changed_key),
                    cs.len() == i + 1,
                    cs[0] == start_context(value, key),
                    cs.last() == ctx@,
                    forall|j: int| 0 <= j < cs.len() - 1 ==> !(#[trigger] cs[j]).aborted,
                    forall|j: int| 1 <= j < cs.len() ==> hook_step(*hooks, true, set_ids[j - 1], cs[j - 1], #[trigger] cs[j]),
                decreases ids.len() - i,
            {
                let ghost before = ctx@;
                hooks.run_set_hook(ids[i], &mut ctx);
                proof {
                    let prev = cs;
                    cs = cs.push(ctx@);
                    assert(hook_step(*hooks, true, set_ids[i as int], before, ctx@));
                    assert forall|j: int| 0 <= j < cs.len() - 1 implies !(#[trigger] cs[j]).aborted by {
                        if j < prev.len() - 1 {
                            assert(cs[j] == prev[j]);
                        } else {
                            assert(cs[j] == before);
                        }
                    }
                    assert forall|j: int| 1 <= j < cs.len() implies hook_step(*hooks, true, set_ids[j - 1], cs[j - 1], #[trigger] cs[j]) by {
                        if j < prev.len() {
                            assert(cs[j] == prev[j]);
                            assert(cs[j - 1] == prev[j - 1]);
                        }
                    }
                }
                if ctx.is_aborted() {
                    proof {
                        assert(hook_run(*hooks, true, set_ids, cs));
                        lemma_set_outcome(old(self)@, self@, SetOutcome::Rejected, value, key, run_set_hooks, known, *hooks, cs);
                    }
                    return SetOutcome::Rejected;
                }
                i += 1;
            }
            let (v, _aborted) = ctx.into_parts();
            next = v;
        }
        proof {
            assert(hook_run(*hooks, true, set_ids, cs));
        }
        let ghost written = next;
        let ghost forced: Option<bool> = if cs.len() == 1 { known } else { None };
        let decided: Option<bool> = if ran_hooks { None } else { known };
        proof {
            assert(forced == decided);
        }
        let seq = match decided {
            Some(true) => self.write_new(next),
            Some(false) => {
                proof {
                    assert(set_written(old(self)@, self@, SetOutcome::Unchanged, cs.last(), key, forced, *hooks));
                    lemma_set_outcome(old(self)@, self@, SetOutcome::Unchanged, value, key, run_set_hooks, known, *hooks, cs);
                }
                return SetOutcome::Unchanged;
            },
            None => match self.write(next) {
                None => {
                    proof {
                        assert(set_written(old(self)@, self@, SetOutcome::Unchanged, cs.last(), key, forced, *hooks));
                        lemma_set_outcome(old(self)@, self@, SetOutcome::Unchanged, value, key, run_set_hooks, known, *hooks, cs);
                    }
                    return SetOutcome::Unchanged;
                },
                Some(seq) => seq,
            },
        };
        let notify_ids = self.notify_hook_ids();
        if notify_ids.len() == 0 {
            let v = self.get();
            proof {
                let ns = seq![start_context(v, key)];
                assert(hook_run(*hooks, false, old(self)@.notify_hooks, ns));
            }
            let ghost before = self@;
            self.enqueue(seq, v, changed_key);
            proof {
                let ns = seq![start_context(v, key)];
                assert(before.value == written);
                assert(self@.queue.last() == queued(seq, v, key));
                assert(self@.queue == old(self)@.queue.push(queued(seq, v, key)));
                assert(notify_settled(old(self)@, self@, SetOutcome::Queued, written, ns, key));
                assert(set_written(old(self)@, self@, SetOutcome::Queued, cs.last(), key, forced, *hooks));
                lemma_set_outcome(old(self)@, self@, SetOutcome::Queued, value, key, run_set_hooks, known, *hooks, cs);
            }
            return SetOutcome::Queued;
        }
        let first = self.get();
        let ghost start = start_context(first, key);
        let mut ctx = NotifyContext::new(first, copy_key(&changed_key));
        let ghost mid = self@;
        let ghost mut ns: Seq<ContextView<T>> = seq![start];
        let mut i: usize = 0;
        while i < notify_ids.len()
            invariant
                i <= notify_ids.len(),
                self@ == mid,
                notify_ids@ == old(self)@.notify_hooks,
                notify_ids@.len() > 0,
                mid == (StoreView { value: written, write_seq: (old(self)@.write_seq + 1) as u64, ..old(self)@ }),
                !ctx@.aborted,
                seq == old(self)@.write_seq + 1,
                cloned(written, start.value),
                key == opt_string_view(changed_key),
                start == start_context(start.value, key),
                hook_run(*hooks, true, set_chain(old(self)@, run_set_hooks), cs),
                cs[0] == start_context(value, key),
                cs.last().value == written,
                !cs.last().aborted,
                forced == (if cs.len() == 1 { known } else { None }),
                forced != Some(false),
                forced is None && T::obeys_eq_spec() ==> !old(self)@.value.eq_spec(&written),
                ns.len() == i + 1,
                ns[0] == start,
                ns.last() == ctx@,
                forall|j: int| 0 <= j < ns.len() - 1 ==> !(#[trigger] ns[j]).aborted,
                forall|j: int| 1 <= j < ns.len() ==> hook_step(*hooks, false, notify_ids@[j - 1], ns[j - 1], #[trigger] ns[j]),
            decreases notify_ids.len() - i,
        {
            let ghost before = ctx@;
            hooks.run_notify_hook(notify_ids[i], &mut ctx);
            proof {
                let prev = ns;
                ns = ns.push(ctx@);
                assert(hook_step(*hooks, false, notify_ids@[i as int], before, ctx@));
                assert forall|j: int| 0 <= j < ns.len() - 1 implies !(#[trigger] ns[j]).aborted by {
                    if j < prev.len() - 1 {
                        assert(ns[j] == prev[j]);
                    } else {
                        assert(ns[j] == before);
                    }
                }
                assert forall|j: int| 1 <= j < ns.len() implies hook_step(*hooks, false, notify_ids@[j - 1], ns[j - 1], #[trigger] ns[j]) by {
                    if j < prev.len() {
                        assert(ns[j] == prev[j]);
                        assert(ns[j - 1] == prev[j - 1]);
                    }
                }
            }
            if ctx.is_aborted() {
                proof {
                    assert(hook_run(*hooks, false, old(self)@.notify_hooks, ns));
                    assert(ns[0] == start);
                    assert(cloned(written, ns[0].value));
                    assert(ns.last().aborted);
                    assert(self@ == (StoreView { value: written, write_seq: seq, ..old(self)@ }));
                    assert(notify_settled(old(self)@, self@, SetOutcome::Silenced, written, ns, key));
                    assert(set_written(old(self)@, self@, SetOutcome::Silenced, cs.last(), key, forced, *hooks));
                    lemma_set_outcome(old(self)@, self@, SetOutcome::Silenced, value, key, run_set_hooks, known, *hooks, cs);
                }
                return SetOutcome::Silenced;
            }
            i += 1;
        }
        proof {
            assert(hook_run(*hooks, false, old(self)@.notify_hooks, ns));
        }
        let (settled, _aborted) = ctx.into_parts();
        let copy = settled.clone();
        self.settle(copy);
        let ghost before = self@;
        let ghost last = settled;
        self.enqueue(seq, settled, changed_key);
        proof {
            assert(self@.queue.last() == queued(seq, last, key));
            assert(self@.queue == old(self)@.queue.push(queued(seq, last, key)));
            assert(cloned(last, copy));
            assert(notify_settled(old(self)@, self@, SetOutcome::Queued, written, ns, key));
            assert(set_written(old(self)@, self@, SetOutcome::Queued, cs.last(), key, forced, *hooks));
            lemma_set_outcome(old(self)@, self@, SetOutcome::Queued, value, key, run_set_hooks, known, *hooks, cs);
        }
        SetOutcome::Queued
    }
}

/// What a whole change (see [`StoreCore::change`]) did, from state `o` to
/// state `n` with deliveries `ds`, for a change to `value` under `key`:
/// registrations are kept and at most one write happens. A written value
/// is notified (a copy of it, under `key`) unless a notify hook cancelled
/// that. When a delivery loop is already running the notification is left
/// queued for it; otherwise everything queued is delivered, in order,
/// superseded notifications dropped. With no hooks in the way, a write
/// happens exactly when `value` differs from the current value (where `==`
/// is specified), the value written is `value`, and it is notified. In
/// full: the change went as [`set_outcome`] says, through `hooks`, and
/// what it queued was then delivered as [`drained`] says.
pub open spec fn changed<T: Clone + PartialEq, H: ChangeHooks<T>>(
    o: StoreView<T>,
    n: StoreView<T>,
    ds: Seq<DeliveryView<T>>,
    value: T,
    key: Option<Seq<char>>,
    run_set_hooks: bool,
    known: Option<bool>,
    hooks: H,
) -> bool {
    let written = n.write_seq != o.write_seq;
    let notified = exists|v: T|
        (o.notify_hooks.len() == 0 ==> cloned(n.value, v)) && #[trigger] notified_with(o, n, ds, v, key);
    &&& same_registrations(n, o)
    &&& n.write_seq == o.write_seq || n.write_seq == o.write_seq + 1
    &&& !written ==> n.value == o.value
    &&& o.draining ==> ds.len() == 0 && n.draining
    &&& !o.draining ==> n.queue.len() == 0 && !n.draining
    &&& !written ==> unnotified(o, n, ds)
    &&& written ==> unnotified(o, n, ds) && o.notify_hooks.len() > 0 || notified
    &&& (!run_set_hooks || o.set_hooks.len() == 0) && o.notify_hooks.len() == 0 ==> {
        &&& written ==> n.value == value
        &&& known is None && T::obeys_eq_spec() ==> (written <==> !o.value.eq_spec(&value))
    }
    &&& known == Some(true) && (!run_set_hooks || o.set_hooks.len() == 0) ==> written
    &&& known == Some(false) && (!run_set_hooks || o.set_hooks.len() == 0) ==> !written
    &&& exists|mid: StoreView<T>, r: SetOutcome|
        #[trigger] set_outcome(o, mid, r, value, key, run_set_hooks, known, hooks) && drained(mid, n, ds)
}

/// Nothing new was notified: a running delivery loop keeps the queue as it
/// was; otherwise the deliveries are those of what was already queued (and
/// the latest delivered write moves on accordingly).
pub open spec fn unnotified<T>(o: StoreView<T>, n: StoreView<T>, ds: Seq<DeliveryView<T>>) -> bool {
    &&& o.draining ==> n.queue == o.queue && n.delivered_seq == o.delivered_seq
    &&& !o.draining ==> ds == deliveries_of(o.listeners, fresh(o.queue, o.delivered_seq))
        && n.delivered_seq == last_delivered(o.queue, o.delivered_seq)
}

/// The write `n.write_seq` was notified with value `v` under `key`: a
/// running delivery loop finds it queued after what was there; otherwise
/// the deliveries are those of the queue with it added.
pub open spec fn notified_with<T>(
    o: StoreView<T>,
    n: StoreView<T>,
    ds: Seq<DeliveryView<T>>,
    v: T,
    key: Option<Seq<char>>,
) -> bool {
    let q = o.queue.push(queued(n.write_seq, v, key));
    &&& o.draining ==> n.queue == q && n.delivered_seq == o.delivered_seq
    &&& !o.draining ==> ds == deliveries_of(o.listeners, fresh(q, o.delivered_seq))
        && n.delivered_seq == last_delivered(q, o.delivered_seq)
}

impl<T: Clone + PartialEq> StoreCore<T> {
    /// A whole change: [`StoreCore::set_value`] followed by
    /// [`StoreCore::drain`]. Returns the deliveries to make, in order.
    pub fn change<H: ChangeHooks<T>>(
        &mut self,
        value: T,
        changed_key: Option<String>,
        run_set_hooks: bool,
        hooks: &H,
    ) -> (ds: Vec<Delivery<T>>)
        requires
            old(self)@.write_seq < u64::MAX,
        ensures
            changed(
                old(self)@,
                final(self)@,
                deliveries_view(ds@),
                value,
                opt_string_view(changed_key),
                run_set_hooks,
                None,
                *hooks,
            ),
    {
        self.change_knowing(value, changed_key, run_set_hooks, None, hooks)
    }

    /// A whole change where the caller may know (`known`) whether the value
    /// differs from the current one: as [`StoreCore::change`], but unless a
    /// set hook ran, that decides whether it is written, without comparing.
    pub(crate) fn change_knowing<H: ChangeHooks<T>>(
        &mut self,
        value: T,
        changed_key: Option<String>,
        run_set_hooks: bool,
        known: Option<bool>,
        hooks: &H,
    ) -> (ds: Vec<Delivery<T>>)
        requires
            old(self)@.write_seq < u64::MAX,
        ensures
            changed(
                old(self)@,
                final(self)@,
                deliveries_view(ds@),
                value,
                opt_string_view(changed_key),
                run_set_hooks,
                known,
                *hooks,
            ),
    {
        let ghost key = opt_string_view(changed_key);
        let outcome = self.apply_change(value, changed_key, run_set_hooks, known, hooks);
        let ghost mid = self@;
        let ds = self.drain();
        proof {
            let o = old(self)@;
            assert(set_outcome(o, mid, outcome, value, key, run_set_hooks, known, *hooks) && drained(mid, self@, deliveries_view(ds@)));
            match outcome {
                SetOutcome::Queued => {
                    let v = mid.queue.last().value;
                    assert(mid.queue == o.queue.push(queued(mid.write_seq, v, key)));
                    assert(notified_with(o, self@, deliveries_view(ds@), v, key));
                },
                _ => {},
            }
        }
        ds
    }
}


/// A store of any kind: it keeps its value, listeners and hooks in a
/// [`StoreCore`], and it can give up its concrete type to become an
/// [`AnyStore`].
pub trait StoreLike: Sized {
    /// The type of the value the store holds.
    type Value;

    /// The abstract state of the store's core.
    spec fn store_view(&self) -> StoreView<Self::Value>;

    /// The abstract state of the store once its type is erased.
    spec fn erased_view(&self) -> AnyStoreView<Self::Value>;

    /// The store's core, for step-by-step driving.
    fn store_core(&self) -> (c: &StoreCore<Self::Value>)
        ensures
            c@ == self.store_view(),
    ;

    /// Mutable access to the store's core.
    fn store_core_mut(&mut self) -> (c: &mut StoreCore<Self::Value>)
        ensures
            c@ == old(self).store_view(),
            final(self).store_view() == final(c)@,
    ;

    /// The same store behind a handle that names only its value's type.
    fn into_any(self) -> (a: AnyStore<Self::Value>)
        ensures
            a@ == self.erased_view(),
            a@.computed.store == self.store_view(),
    ;
}


/// Listening to a store of any kind. A derived store that gains its first
/// listener must mount first (`mount`); a plain store never needs to.
pub trait ReadableStore<T>: StoreLike<Value = T> {
    /// Register a listener for future changes.
    fn listen_store(&mut self) -> (r: ComputedListened)
        requires
            old(self).store_view().next_id < u64::MAX,
        ensures
            listener_added(old(self).store_view(), final(self).store_view(), r.listened, None, false),
            r.mount ==> old(self).store_view().listeners.len() == 0,
    ;

    /// Register a listener that is also called at once with the current
    /// value (after mounting).
    fn subscribe_store(&mut self) -> (r: ComputedListened)
        requires
            old(self).store_view().next_id < u64::MAX,
        ensures
            listener_added(old(self).store_view(), final(self).store_view(), r.listened, None, true),
            r.mount ==> old(self).store_view().listeners.len() == 0,
    ;
}

} // verus!
