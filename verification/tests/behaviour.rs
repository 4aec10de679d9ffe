use nanostores::collection::{collection, Collection};
use nanostores::{
    atom, batched, computed, on_mount, on_set, on_start, on_stop, AnyStore, ChangeContext,
    ChangeHooks, ComputeDeps, Delivery, KeyError, Lifecycle, NoHooks, NotifyContext, Recompute,
    ReadableStore, SetContext, SetOutcome, StoreLike,
};

fn woken<T>(ds: &[Delivery<T>], id: u64) -> usize {
    ds.iter().filter(|d| d.listeners.contains(&id)).count()
}

struct Constant(i64);

impl ComputeDeps<i64> for Constant {
    fn compute(&self) -> i64 {
        self.0
    }
}

struct RejectAll;

impl ChangeHooks<i64> for RejectAll {
    fn run_set_hook(&self, _hook: u64, ctx: &mut SetContext<i64>) {
        ctx.abort();
    }

    fn run_notify_hook(&self, _hook: u64, _ctx: &mut NotifyContext<i64>) {}
}

#[derive(Clone, Debug, PartialEq)]
struct User {
    name: String,
    age: u32,
}

#[test]
fn a_read_gives_back_the_last_write() {
    let mut count = atom(1i64);
    let id = count.listen().subscription.id();

    let ds = count.set(5, &NoHooks);
    assert_eq!(count.get(), 5);
    assert_eq!(woken(&ds, id), 1);
    assert_eq!(ds[0].value, 5);
    assert_eq!(ds[0].changed_key, None);

    // An equal value is not written and wakes nobody.
    let ds = count.set(5, &NoHooks);
    assert!(ds.is_empty());
    assert_eq!(count.get(), 5);
}

#[test]
fn unsubscribing_gives_the_store_its_listeners_back() {
    let mut count = atom(0i64);
    let first = count.listen().subscription;
    let second = count.subscribe();
    assert_eq!(count.store_core().listener_count(), 2);
    assert!(second.start_hooks.is_empty(), "only the first listener starts the store");

    let gone = count.unsubscribe(second.subscription);
    assert!(gone.stop_hooks.is_empty(), "a listener is left");
    assert_eq!(count.store_core().listener_count(), 1);

    count.unsubscribe(first);
    assert!(!count.store_core().is_mounted());
}

#[test]
fn a_mount_cycle_hands_out_every_cleanup_and_the_stop_hooks() {
    let mut count = atom(0i64);
    let start = on_start(&mut count).id();
    let stop = on_stop(&mut count).id();
    let mount = on_mount(&mut count).id();

    let listened = count.listen();
    assert_eq!(listened.start_hooks, vec![start]);
    assert_eq!(listened.mount_hooks, vec![mount]);
    count.store_core_mut().record_mount_cleanups(vec![(mount, 41), (mount, 42)]);

    let unmounted = count.unsubscribe(listened.subscription);
    assert_eq!(unmounted.cleanups, vec![41, 42]);
    assert_eq!(unmounted.stop_hooks, vec![stop]);

    // The next mount starts afresh: the old cleanups are gone.
    let again = count.listen();
    let unmounted = count.unsubscribe(again.subscription);
    assert!(unmounted.cleanups.is_empty());
}

#[test]
fn removing_a_mount_hook_hands_back_its_cleanups() {
    let mut count = atom(0i64);
    let mount = count.on_mount();
    let mount_id = mount.id();
    let _listener = count.listen();
    count.store_core_mut().record_mount_cleanups(vec![(mount_id, 7)]);

    assert_eq!(count.remove_mount_hook(mount), vec![7]);
    let again = count.listen();
    assert!(again.mount_hooks.is_empty());
}

#[test]
fn a_removed_set_hook_no_longer_runs() {
    let mut count = atom(1i64);
    let hook = on_set(&mut count);

    let outcome = count.store_core_mut().set_value(2, None, true, &RejectAll);
    assert!(matches!(outcome, SetOutcome::Rejected));
    assert_eq!(count.get(), 1);

    count.remove_hook(hook);
    count.set(2, &RejectAll);
    assert_eq!(count.get(), 2);
}

#[test]
fn set_value_reports_how_the_change_went() {
    let mut count = atom(1i64);
    let core = count.store_core_mut();
    assert!(matches!(core.set_value(1, None, true, &NoHooks), SetOutcome::Unchanged));
    assert!(matches!(core.set_value(2, None, true, &NoHooks), SetOutcome::Queued));
    assert_eq!(core.drain().len(), 1);
}

#[test]
fn deliveries_follow_write_order_and_drop_superseded_ones() {
    let mut count = atom(0i64);
    let id = count.listen().subscription.id();
    let core = count.store_core_mut();

    // A delivery loop is running: new changes only queue.
    assert!(core.begin_drain());
    assert!(core.change(1, None, true, &NoHooks).is_empty());
    assert!(core.change(2, None, true, &NoHooks).is_empty());

    let first = core.next_delivery().unwrap();
    let second = core.next_delivery().unwrap();
    assert_eq!((first.value, second.value), (1, 2));
    assert_eq!(first.listeners, vec![id]);

    // A late notification of an older write is superseded.
    core.enqueue(1, 1, None);
    assert!(core.next_delivery().is_none());
    assert!(!core.end_drain());
    assert_eq!(core.value(), &2);
}

#[test]
fn keyed_listeners_hear_their_keys_and_whole_changes_only() {
    let mut user = nanostores::map::map(User { name: "Ada".to_owned(), age: 36 });
    let name_id = user.listen_keys(&["name"]).subscription.id();
    let all_id = user.listen().subscription.id();

    let ds = user.set_field_by(
        "age",
        |u| {
            u.age = 37;
            true
        },
        &NoHooks,
    );
    assert_eq!(woken(&ds, name_id), 0);
    assert_eq!(woken(&ds, all_id), 1);
    assert_eq!(ds[0].changed_key.as_deref(), Some("age"));

    let ds = user.set_field_by(
        "name",
        |u| {
            u.name = "Grace".to_owned();
            true
        },
        &NoHooks,
    );
    assert_eq!(woken(&ds, name_id), 1);

    let ds = user.set(User { name: "Grace".to_owned(), age: 40 }, &NoHooks);
    assert_eq!(woken(&ds, name_id), 1);
    assert_eq!(user.get().age, 40);
}

#[test]
fn a_setter_that_changes_nothing_writes_nothing() {
    let mut user = nanostores::map::map(User { name: "Ada".to_owned(), age: 36 });
    let id = user.listen().subscription.id();
    let ds = user.set_field_by("age", |u| u.age != 36, &NoHooks);
    assert_eq!(woken(&ds, id), 0);
    assert_eq!(user.get().age, 36);
}

#[test]
fn set_key_writes_one_field_or_fails_without_a_change() {
    let mut user = nanostores::map::map(User { name: "Ada".to_owned(), age: 36 });
    let id = user.listen().subscription.id();

    let ds = user
        .set_key(
            "name",
            |u| {
                u.name = "Grace".to_owned();
                Ok(())
            },
            &NoHooks,
        )
        .unwrap();
    assert_eq!(woken(&ds, id), 1);
    assert_eq!(ds[0].changed_key.as_deref(), Some("name"));
    assert_eq!(user.get().name, "Grace");

    let err = user
        .set_key("missing", |_| Err(KeyError::unknown("missing".to_owned())), &NoHooks)
        .unwrap_err();
    assert_eq!(err, KeyError::UnknownKey("missing".to_owned()));
    assert_eq!(user.get().name, "Grace");
}

#[test]
fn key_errors_describe_themselves() {
    assert_eq!(KeyError::unknown("age".to_owned()).message(), "unknown map key `age`");
    let e = KeyError::deserialize("age".to_owned(), "expected a number");
    assert_eq!(e.message(), "failed to deserialize map key `age`: expected a number");
    assert_eq!(
        e,
        KeyError::Deserialize { key: "age".to_owned(), message: "expected a number".to_owned() }
    );
    let e = KeyError::serialize("name".to_owned(), 42);
    assert_eq!(e.message(), "failed to serialize map key `name`: 42");
}

#[test]
fn a_set_item_is_read_back_and_leaves_other_items() {
    let mut store = collection(Collection::<u32, String>::default());
    store.set_item(1, "one".into(), &NoHooks);
    store.set_item(2, "two".into(), &NoHooks);
    store.set_item(1, "ONE".into(), &NoHooks);

    assert_eq!(store.get_item(&1), Some("ONE".to_owned()));
    assert_eq!(store.get_item(&2), Some("two".to_owned()));
    assert_eq!(store.get_item(&3), None);
    assert_eq!(store.get().order(), &[1, 2], "a replaced item keeps its place");
}

#[test]
fn reordering_keeps_every_item() {
    let mut store = collection(Collection::<u32, String>::default());
    store.set_item(1, "one".into(), &NoHooks);
    store.set_item(2, "two".into(), &NoHooks);
    store.set_order(vec![2], &NoHooks);

    assert_eq!(store.get().order(), &[2]);
    assert_eq!(store.get_item(&1), Some("one".to_owned()));
    assert!(!store.get().is_empty());
    assert_eq!(store.get().len(), 1);
}

#[test]
fn update_item_edits_the_stored_item() {
    let mut store = collection(Collection::<u32, String>::default());
    store.set_item(1, "one".into(), &NoHooks);
    store.update_item(
        1,
        |value| {
            value.push('!');
            true
        },
        &NoHooks,
    );
    assert_eq!(store.get_item(&1), Some("one!".to_owned()));

    // No item under the key: the edit is not run.
    let ds = store.update_item(9, |_| panic!("no item to edit"), &NoHooks);
    assert!(ds.is_empty());
}

#[test]
fn iteration_skips_keys_without_an_item() {
    let mut items = std::collections::HashMap::new();
    items.insert(1u32, "one".to_owned());
    let shown = Collection::new(items, vec![2, 1, 3]);
    let seen: Vec<(u32, String)> = shown.iter().into_iter().map(|(k, v)| (*k, v.clone())).collect();
    assert_eq!(seen, vec![(1, "one".to_owned())]);
    assert_eq!(shown.get(&1).map(String::as_str), Some("one"));
    assert_eq!(shown.len(), 3);
}

#[test]
fn recompute_requests_coalesce_until_due() {
    let mut live = computed(&Constant(1));
    let _listener = live.listen();
    assert!(matches!(live.dependency_changed(false), Recompute::Now));
    assert!(matches!(live.dependency_changed(false), Recompute::Skip));
    assert!(live.begin_recompute());
    assert!(matches!(live.dependency_changed(true), Recompute::Defer));

    let mut ticked = batched(&Constant(1));
    assert!(matches!(ticked.dependency_changed(false), Recompute::Schedule));
    assert!(matches!(ticked.dependency_changed(true), Recompute::Skip));
    assert!(!ticked.begin_recompute(), "an unmounted store does not recompute");
}

#[test]
fn an_unmounted_derived_store_computes_on_read() {
    let mut derived = computed(&Constant(1));
    assert_eq!(derived.get(&Constant(2)), 2);

    let listened = derived.subscribe();
    assert!(listened.mount);
    let (_, ds) = derived.mount(Vec::new(), 3, &NoHooks, listened.listened.subscription.id());
    // The listener whose arrival mounted the store is not woken by the
    // mount: it is handed the value at once instead.
    assert_eq!(woken(&ds, listened.listened.subscription.id()), 0);
    // Mounted: the stored value is kept up to date and read as it is.
    assert_eq!(derived.get(&Constant(9)), 3);
}

#[test]
fn a_plain_store_behind_any_store_never_mounts() {
    let mut any: AnyStore<i64> = AnyStore::new(atom(4i64));
    assert_eq!(any.get(&Constant(0)), 4);
    let listened = any.listen();
    assert!(!listened.mount);
    let ds = any.store_core_mut().change(6, None, true, &NoHooks);
    assert_eq!(woken(&ds, listened.listened.subscription.id()), 1);
    assert_eq!(any.get(&Constant(0)), 6);
    let gone = any.unsubscribe(listened.listened.subscription);
    assert!(gone.dep_subscriptions.is_empty());
}

#[test]
fn a_change_context_carries_the_pending_change() {
    let mut ctx = ChangeContext::new(3i64, Some("count".to_owned()));
    assert_eq!(ctx.changed_key(), Some("count"));
    *ctx.value_mut() += 1;
    assert_eq!(*ctx.value(), 4);
    assert!(!ctx.is_aborted());
    ctx.abort();
    assert_eq!(ctx.into_parts(), (4, true));
}

#[test]
fn drain_matching_splits_by_tag_keeping_order() {
    let mut items = vec![(1u64, 10u64), (2, 20), (1, 11), (3, 30)];
    let drained = nanostores::store::drain_matching(&mut items, 1);
    assert_eq!(drained, vec![10, 11]);
    assert_eq!(items, vec![(2, 20), (3, 30)]);
}

#[test]
fn key_filters_match_their_keys_and_whole_changes() {
    let name = Some(vec!["name".to_owned()]);
    assert!(nanostores::store::listener_matches(&name, &Some("name".to_owned())));
    assert!(!nanostores::store::listener_matches(&name, &Some("age".to_owned())));
    assert!(nanostores::store::listener_matches(&name, &None));
    assert!(nanostores::store::listener_matches(&None, &Some("age".to_owned())));
    assert!(nanostores::ORDER_KEY.starts_with('@'));
}

fn first_listener_mounts<T, S: ReadableStore<T>>(store: &mut S) -> bool {
    store.listen_store().mount
}

#[test]
fn only_a_derived_store_asks_to_mount() {
    let mut plain = atom(1i64);
    assert!(!first_listener_mounts(&mut plain));

    let mut derived = computed(&Constant(1));
    assert!(first_listener_mounts(&mut derived));
    assert!(!first_listener_mounts(&mut derived), "it has a listener already");

    let mut erased: AnyStore<i64> = AnyStore::new(computed(&Constant(2)));
    let subscribed = erased.subscribe_store();
    assert!(subscribed.mount);
    assert!(subscribed.listened.immediate);
}

#[test]
fn subscribing_to_a_stale_derived_store_calls_the_listener_once() {
    // Cached 1; the dependency then moves on to 2 while nobody listens.
    let mut derived = computed(&Constant(1));
    let subscribed = derived.subscribe();
    let id = subscribed.listened.subscription.id();
    assert!(subscribed.mount);
    let (_, ds) = derived.mount(Vec::new(), 2, &NoHooks, id);
    let mut calls: Vec<i64> = ds.iter().filter(|d| d.listeners.contains(&id)).map(|d| d.value).collect();
    if subscribed.listened.immediate {
        calls.push(derived.get(&Constant(2)));
    }
    assert_eq!(calls, vec![2]);
}

#[test]
fn listening_to_a_stale_derived_store_reports_later_changes_only() {
    // Cached 10; the dependency then moves on to 20 while nobody listens.
    let mut derived = computed(&Constant(10));
    let listened = derived.listen();
    let id = listened.listened.subscription.id();
    assert!(!listened.listened.immediate);
    let (_, ds) = derived.mount(Vec::new(), 20, &NoHooks, id);
    assert_eq!(woken(&ds, id), 0);
    // A later recompute reaches it.
    assert!(matches!(derived.dependency_changed(false), Recompute::Now));
    assert!(derived.begin_recompute());
    let ds = derived.recompute(30, &NoHooks);
    assert_eq!(woken(&ds, id), 1);
    assert_eq!(ds[0].value, 30);
}

#[test]
fn a_committed_field_write_is_stored_or_its_error_returned() {
    let mut user = nanostores::map::map(User { name: "Ada".to_owned(), age: 36 });
    let id = user.listen().subscription.id();

    let failed = user.commit_key("age", Err(KeyError::unknown("age".to_owned())), &NoHooks);
    assert_eq!(failed.unwrap_err(), KeyError::unknown("age".to_owned()));
    assert_eq!(user.get().age, 36);

    let ds = user.commit_key("age", Ok(User { name: "Ada".to_owned(), age: 37 }), &NoHooks).unwrap();
    assert_eq!(woken(&ds, id), 1);
    assert_eq!(ds[0].changed_key.as_deref(), Some("age"));
    assert_eq!(user.get().age, 37);

    let ds = user.commit_field("age", User { name: "Ada".to_owned(), age: 50 }, false, &NoHooks);
    assert!(ds.is_empty());
    assert_eq!(user.get().age, 37);
    let ds = user.commit_field("age", User { name: "Ada".to_owned(), age: 50 }, true, &NoHooks);
    assert_eq!(woken(&ds, id), 1);
    assert_eq!(user.get().age, 50);
}

#[test]
fn update_writes_the_edited_value() {
    let mut user = nanostores::map::map(User { name: "Ada".to_owned(), age: 36 });
    let id = user.listen().subscription.id();
    let ds = user.update(|u| u.age += 1, &NoHooks);
    assert_eq!(woken(&ds, id), 1);
    assert_eq!(ds[0].changed_key, None);
    assert_eq!(user.get().age, 37);
}
