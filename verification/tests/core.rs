use nanostores::scheduler::{flush_due, ImmediateScheduler, Scheduler};
use nanostores::{
    atom, batched, computed, flush, on_mount, on_notify, on_set, on_start, on_stop, set_scheduler,
    AnyStore, Atom, ChangeHooks, ComputeDeps, Computed, Delivery, JobQueue, NoHooks,
    Notifications, NotifyContext, Recompute, SetContext, StoreLike,
};
use std::cell::Cell;
use std::collections::VecDeque;

/// The values of the deliveries that reach listener `id`, in order.
fn values_for<T: Clone>(ds: &[Delivery<T>], id: u64) -> Vec<T> {
    ds.iter()
        .filter(|d| d.listeners.contains(&id))
        .map(|d| d.value.clone())
        .collect()
}

struct Sum<'a>(&'a Atom<i64>, &'a Atom<i64>);

impl ComputeDeps<i64> for Sum<'_> {
    fn compute(&self) -> i64 {
        self.0.get() + self.1.get()
    }
}

struct Scaled<'a> {
    source: &'a Atom<i64>,
    factor: i64,
    runs: &'a Cell<usize>,
}

impl ComputeDeps<i64> for Scaled<'_> {
    fn compute(&self) -> i64 {
        self.runs.set(self.runs.get() + 1);
        self.source.get() * self.factor
    }
}

#[test]
fn atom_listener_can_reenter_set() {
    let mut count = atom(0i64);
    let mut seen = Vec::new();
    let id = count.listen().subscription.id();

    // The listener records the value and, on 1, sets 2.
    let mut pending: VecDeque<Delivery<i64>> = count.set(1, &NoHooks).into();
    while let Some(d) = pending.pop_front() {
        if d.listeners.contains(&id) {
            seen.push(d.value);
            if d.value == 1 {
                pending.extend(count.set(2, &NoHooks));
            }
        }
    }

    assert_eq!(count.get(), 2);
    assert_eq!(seen, vec![1, 2]);
}

#[test]
fn computed_is_lazy_unmounted_and_live_while_mounted() {
    let mut a = atom(1i64);
    let mut b = atom(2i64);
    let mut sum = computed(&Sum(&a, &b));

    assert_eq!(sum.get(&Sum(&a, &b)), 3);
    a.set(2, &NoHooks);
    assert_eq!(sum.get(&Sum(&a, &b)), 4);

    let mut events = Vec::new();
    let subscribed = sum.subscribe();
    let id = subscribed.listened.subscription.id();
    assert!(subscribed.mount);
    let on_a = a.listen().subscription;
    let on_b = b.listen().subscription;
    let (on_a_id, on_b_id) = (on_a.id(), on_b.id());
    let value = Sum(&a, &b).compute();
    let (_, ds) = sum.mount(vec![on_a, on_b], value, &NoHooks, id);
    events.extend(values_for(&ds, id));
    events.push(sum.get(&Sum(&a, &b)));

    for _ in 0..2 {
        let ds = b.set(5, &NoHooks);
        for d in &ds {
            if d.listeners.contains(&on_b_id) {
                assert!(matches!(sum.dependency_changed(false), Recompute::Now));
                if sum.begin_recompute() {
                    let value = Sum(&a, &b).compute();
                    events.extend(values_for(&sum.recompute(value, &NoHooks), id));
                }
            }
        }
    }

    assert_eq!(events, vec![4, 7]);
    let unmounted = sum.unsubscribe(subscribed.listened.subscription);
    let mut deps = unmounted.dep_subscriptions.into_iter();
    let dep_a = deps.next().unwrap();
    let dep_b = deps.next().unwrap();
    assert_eq!((dep_a.id(), dep_b.id()), (on_a_id, on_b_id));
    a.unsubscribe(dep_a);
    b.unsubscribe(dep_b);

    let ds = a.set(10, &NoHooks);
    assert!(ds.iter().all(|d| d.listeners.is_empty()));
    assert_eq!(events, vec![4, 7]);
    assert_eq!(sum.get(&Sum(&a, &b)), 15);
}

#[test]
fn batched_collapses_changes_until_flush() {
    const RECOMPUTE: u64 = 1;
    let mut jobs = JobQueue::new();
    set_scheduler(&mut jobs);

    let mut count = atom(1i64);
    let recomputes = Cell::new(0);
    let deps = |count: &Atom<i64>| -> i64 {
        Scaled { source: count, factor: 2, runs: &recomputes }.compute()
    };
    let mut doubled: Computed<i64> =
        batched(&Scaled { source: &count, factor: 2, runs: &recomputes });

    let mut events = Vec::new();
    let subscribed = doubled.subscribe();
    let id = subscribed.listened.subscription.id();
    let on_count = count.listen().subscription;
    let on_count_id = on_count.id();
    let value = deps(&count);
    let (_, ds) = doubled.mount(vec![on_count], value, &NoHooks, id);
    events.extend(values_for(&ds, id));
    events.push(doubled.get(&Scaled { source: &count, factor: 2, runs: &recomputes }));

    for value in [2, 3] {
        for d in count.set(value, &NoHooks) {
            if d.listeners.contains(&on_count_id) {
                match doubled.dependency_changed(false) {
                    Recompute::Schedule => jobs.schedule(RECOMPUTE),
                    Recompute::Skip => {}
                    _ => panic!("a batched store waits for the tick"),
                }
            }
        }
    }
    assert_eq!(events, vec![2]);

    for job in flush(&mut jobs) {
        assert_eq!(job, RECOMPUTE);
        if doubled.begin_recompute() {
            let value = deps(&count);
            events.extend(values_for(&doubled.recompute(value, &NoHooks), id));
        }
    }
    assert_eq!(events, vec![2, 6]);
    assert_eq!(recomputes.get(), 3);
}

#[test]
fn computed_unmount_drops_dependency_subscriptions() {
    let mut source = atom(1i64);
    let mut starts = 0;
    let mut stops = 0;
    let source_start = on_start(&mut source).id();
    let source_stop = on_stop(&mut source).id();
    let runs = Cell::new(0);
    let mut doubled = computed(&Scaled { source: &source, factor: 2, runs: &runs });

    let listened = doubled.listen();
    assert!(listened.mount);
    let on_source = source.listen();
    starts += on_source.start_hooks.iter().filter(|h| **h == source_start).count();
    let value = Scaled { source: &source, factor: 2, runs: &runs }.compute();
    doubled.mount(vec![on_source.subscription], value, &NoHooks, listened.listened.subscription.id());
    assert_eq!(starts, 1);
    assert_eq!(stops, 0);

    let unmounted = doubled.unsubscribe(listened.listened.subscription);
    for dep in unmounted.dep_subscriptions {
        let gone = source.unsubscribe(dep);
        stops += gone.stop_hooks.iter().filter(|h| **h == source_stop).count();
    }

    assert_eq!(stops, 1);
}

#[test]
fn computed_diamond_dependency_notifies_only_consistent_value() {
    const LEFT: u64 = 0;
    const RIGHT: u64 = 1;
    const TOTAL: u64 = 2;
    let mut source = atom(1i64);
    let runs = Cell::new(0);
    let left_of = |s: &Atom<i64>| Scaled { source: s, factor: 2, runs: &runs }.compute();
    let right_of = |s: &Atom<i64>| Scaled { source: s, factor: 3, runs: &runs }.compute();
    let mut left = computed(&Scaled { source: &source, factor: 2, runs: &runs });
    let mut right = computed(&Scaled { source: &source, factor: 3, runs: &runs });
    let mut total: Computed<i64> = Computed::from_value(
        left.get(&Scaled { source: &source, factor: 2, runs: &runs })
            + right.get(&Scaled { source: &source, factor: 3, runs: &runs }),
        false,
    );

    let mut events = Vec::new();
    let subscribed = total.subscribe();
    let id = subscribed.listened.subscription.id();
    assert!(subscribed.mount);
    // Mounting `total` subscribes to `left` and `right`, which mount in turn.
    let total_on_left = left.listen();
    let left_on_source = source.listen().subscription;
    let left_source_id = left_on_source.id();
    left.mount(vec![left_on_source], left_of(&source), &NoHooks, total_on_left.listened.subscription.id());
    let total_on_right = right.listen();
    let right_on_source = source.listen().subscription;
    let right_source_id = right_on_source.id();
    right.mount(vec![right_on_source], right_of(&source), &NoHooks, total_on_right.listened.subscription.id());
    let (l_id, r_id) = (total_on_left.listened.subscription.id(), total_on_right.listened.subscription.id());
    let value = left.get(&Scaled { source: &source, factor: 2, runs: &runs })
        + right.get(&Scaled { source: &source, factor: 3, runs: &runs });
    let (_, ds) = total.mount(
        vec![total_on_left.listened.subscription, total_on_right.listened.subscription],
        value,
        &NoHooks,
        id,
    );
    events.extend(values_for(&ds, id));
    events.push(total.get(&Sum(&source, &source)));

    // One notification of `source` reaches both `left` and `right`; their
    // recomputes wait until it ends, and `total` recomputes once.
    let mut notifications = Notifications::new();
    const SOURCE: u64 = 3;
    let mut pending: VecDeque<(u64, Delivery<i64>)> =
        source.set(2, &NoHooks).into_iter().map(|d| (SOURCE, d)).collect();
    loop {
        while let Some((from, d)) = pending.pop_front() {
            notifications.notification_guard();
            for listener in &d.listeners {
                let (store, job) = match from {
                    SOURCE if *listener == left_source_id => (&mut left, LEFT),
                    SOURCE if *listener == right_source_id => (&mut right, RIGHT),
                    LEFT if *listener == l_id => (&mut total, TOTAL),
                    RIGHT if *listener == r_id => (&mut total, TOTAL),
                    TOTAL if *listener == id => {
                        events.push(d.value);
                        continue;
                    }
                    _ => continue,
                };
                if let Recompute::Defer = store.dependency_changed(true) {
                    notifications.defer_or_run(job);
                }
            }
            notifications.release();
        }
        let Some(job) = notifications.flush_deferred_recomputes() else { break };
        let ds = match job {
            LEFT if left.begin_recompute() => left.recompute(left_of(&source), &NoHooks),
            RIGHT if right.begin_recompute() => right.recompute(right_of(&source), &NoHooks),
            TOTAL if total.begin_recompute() => {
                let value = left.get(&Scaled { source: &source, factor: 2, runs: &runs })
                    + right.get(&Scaled { source: &source, factor: 3, runs: &runs });
                total.recompute(value, &NoHooks)
            }
            _ => Vec::new(),
        };
        pending.extend(ds.into_iter().map(|d| (job, d)));
    }

    assert_eq!(events, vec![5, 10]);
}

#[test]
fn batched_under_an_immediate_scheduler_notifies_only_consistent_value() {
    const LEFT: u64 = 0;
    const RIGHT: u64 = 1;
    const TOTAL: u64 = 2;
    let mut source = atom(1i64);
    let runs = Cell::new(0);
    let left_of = |s: &Atom<i64>| Scaled { source: s, factor: 2, runs: &runs }.compute();
    let right_of = |s: &Atom<i64>| Scaled { source: s, factor: 3, runs: &runs }.compute();
    let mut left = computed(&Scaled { source: &source, factor: 2, runs: &runs });
    let mut right = computed(&Scaled { source: &source, factor: 3, runs: &runs });
    let mut total: Computed<i64> = Computed::from_value(
        left.get(&Scaled { source: &source, factor: 2, runs: &runs })
            + right.get(&Scaled { source: &source, factor: 3, runs: &runs }),
        true,
    );
    let mut jobs = JobQueue::new();

    let mut events = Vec::new();
    let subscribed = total.subscribe();
    let id = subscribed.listened.subscription.id();
    assert!(subscribed.mount);
    // Mounting `total` subscribes to `left` and `right`, which mount in turn.
    let total_on_left = left.listen();
    let left_on_source = source.listen().subscription;
    let left_source_id = left_on_source.id();
    left.mount(vec![left_on_source], left_of(&source), &NoHooks, total_on_left.listened.subscription.id());
    let total_on_right = right.listen();
    let right_on_source = source.listen().subscription;
    let right_source_id = right_on_source.id();
    right.mount(vec![right_on_source], right_of(&source), &NoHooks, total_on_right.listened.subscription.id());
    let (l_id, r_id) = (total_on_left.listened.subscription.id(), total_on_right.listened.subscription.id());
    let value = left.get(&Scaled { source: &source, factor: 2, runs: &runs })
        + right.get(&Scaled { source: &source, factor: 3, runs: &runs });
    let (_, ds) = total.mount(
        vec![total_on_left.listened.subscription, total_on_right.listened.subscription],
        value,
        &NoHooks,
        id,
    );
    events.extend(values_for(&ds, id));
    events.push(total.get(&Sum(&source, &source)));

    // One notification of `source` reaches both `left` and `right`; their
    // recomputes wait until it ends, and `total` recomputes once.
    let mut notifications = Notifications::new();
    const SOURCE: u64 = 3;
    let mut pending: VecDeque<(u64, Delivery<i64>)> =
        source.set(2, &NoHooks).into_iter().map(|d| (SOURCE, d)).collect();
    loop {
        while let Some((from, d)) = pending.pop_front() {
            notifications.notification_guard();
            for listener in &d.listeners {
                let (store, job) = match from {
                    SOURCE if *listener == left_source_id => (&mut left, LEFT),
                    SOURCE if *listener == right_source_id => (&mut right, RIGHT),
                    LEFT if *listener == l_id => (&mut total, TOTAL),
                    RIGHT if *listener == r_id => (&mut total, TOTAL),
                    TOTAL if *listener == id => {
                        events.push(d.value);
                        continue;
                    }
                    _ => continue,
                };
                match store.dependency_changed(true) {
                    Recompute::Defer => {
                        notifications.defer_or_run(job);
                    }
                    Recompute::Schedule => {
                        // The immediate scheduler wants the tick at once;
                        // inside a notification the due job waits like any
                        // recompute.
                        jobs.schedule(job);
                        assert!(ImmediateScheduler.schedule());
                        let (now, put_off) = flush_due(&mut jobs, &mut notifications);
                        assert!(now.is_empty());
                        assert_eq!(put_off, vec![job]);
                    }
                    _ => {}
                }
            }
            notifications.release();
        }
        let Some(job) = notifications.flush_deferred_recomputes() else { break };
        let ds = match job {
            LEFT if left.begin_recompute() => left.recompute(left_of(&source), &NoHooks),
            RIGHT if right.begin_recompute() => right.recompute(right_of(&source), &NoHooks),
            TOTAL if total.begin_recompute() => {
                let value = left.get(&Scaled { source: &source, factor: 2, runs: &runs })
                    + right.get(&Scaled { source: &source, factor: 3, runs: &runs });
                total.recompute(value, &NoHooks)
            }
            _ => Vec::new(),
        };
        pending.extend(ds.into_iter().map(|d| (job, d)));
    }

    assert_eq!(events, vec![5, 10]);
}

struct CountHooks;

impl ChangeHooks<i64> for CountHooks {
    fn run_set_hook(&self, _hook: u64, ctx: &mut SetContext<i64>) {
        if *ctx.value() == 2 {
            ctx.abort();
        } else {
            *ctx.value_mut() *= 10;
        }
    }

    fn run_notify_hook(&self, _hook: u64, ctx: &mut NotifyContext<i64>) {
        if *ctx.value() == 40 {
            ctx.abort();
        }
    }
}

#[test]
fn lifecycle_hooks_start_stop_set_and_notify() {
    let mut count = atom(1i64);
    let mut lifecycle = Vec::new();
    let start = on_start(&mut count).id();
    let stop = on_stop(&mut count).id();
    let mount = on_mount(&mut count).id();

    let subscription = count.subscribe();
    for hook in &subscription.start_hooks {
        if *hook == start {
            lifecycle.push("start");
        }
    }
    let mut cleanups = Vec::new();
    for hook in &subscription.mount_hooks {
        if *hook == mount {
            lifecycle.push("mount");
            cleanups.push((mount, 0));
        }
    }
    count.store_core_mut().record_mount_cleanups(cleanups);
    let unmounted = count.unsubscribe(subscription.subscription);
    for cleanup in &unmounted.cleanups {
        assert_eq!(*cleanup, 0);
        lifecycle.push("cleanup");
    }
    for hook in &unmounted.stop_hooks {
        if *hook == stop {
            lifecycle.push("stop");
        }
    }
    assert_eq!(lifecycle, vec!["start", "mount", "cleanup", "stop"]);

    let _set = on_set(&mut count);
    count.set(2, &CountHooks);
    assert_eq!(count.get(), 1);
    count.set(3, &CountHooks);
    assert_eq!(count.get(), 30);

    let mut notifications = Vec::new();
    let _notify = on_notify(&mut count);
    let listener = count.listen().subscription.id();

    notifications.extend(values_for(&count.set(4, &CountHooks), listener));
    notifications.extend(values_for(&count.set(5, &CountHooks), listener));

    assert_eq!(count.get(), 50);
    assert_eq!(notifications, vec![50]);
}

#[test]
fn atom_subscribe_listen_skip_and_drop() {
    let mut count = atom(1i64);
    let mut events: Vec<(i64, Option<String>)> = Vec::new();

    let subscribed = count.subscribe();
    let id = subscribed.subscription.id();
    assert!(subscribed.immediate);
    events.push((count.get(), None));

    for value in [2, 2] {
        for d in count.set(value, &NoHooks) {
            if d.listeners.contains(&id) {
                events.push((d.value, d.changed_key.clone()));
            }
        }
    }
    assert_eq!(events, vec![(1, None), (2, None)]);

    count.unsubscribe(subscribed.subscription);
    for d in count.set(3, &NoHooks) {
        if d.listeners.contains(&id) {
            events.push((d.value, d.changed_key.clone()));
        }
    }
    assert_eq!(events, vec![(1, None), (2, None)]);

    let listened = count.listen();
    assert!(!listened.immediate);
    let future_id = listened.subscription.id();
    let mut future_events = Vec::new();
    assert!(future_events.is_empty());
    future_events.extend(values_for(&count.set(4, &NoHooks), future_id));
    assert_eq!(future_events, vec![4]);
}

#[derive(Clone, Debug, PartialEq)]
struct User {
    name: String,
    age: u32,
    display_name: Option<String>,
}

#[test]
fn map_update_notifies_all_key_listeners() {
    let mut user = nanostores::map::map(User { name: "Ada".to_owned(), age: 36, display_name: None });
    let id = user.listen_keys(&["name"]).subscription.id();

    let mut called = 0;
    for d in user.update(|user| user.age += 1, &NoHooks) {
        if d.listeners.contains(&id) {
            assert_eq!(d.changed_key, None);
            called += 1;
        }
    }

    assert_eq!(called, 1);
}

#[test]
fn any_store_erases_computed_type_and_stays_reactive() {
    let mut count = atom(2i64);
    let runs = Cell::new(0);
    let mut doubled: AnyStore<i64> =
        AnyStore::new(computed(&Scaled { source: &count, factor: 2, runs: &runs }));

    assert_eq!(doubled.get(&Scaled { source: &count, factor: 2, runs: &runs }), 4);

    let mut events = Vec::new();
    let subscribed = doubled.subscribe();
    let id = subscribed.listened.subscription.id();
    assert!(subscribed.mount);
    let on_count = count.listen().subscription;
    let on_count_id = on_count.id();
    let value = Scaled { source: &count, factor: 2, runs: &runs }.compute();
    let (_, ds) = doubled.computed_mut().mount(vec![on_count], value, &NoHooks, id);
    events.extend(values_for(&ds, id));
    events.push(doubled.get(&Scaled { source: &count, factor: 2, runs: &runs }));

    for d in count.set(5, &NoHooks) {
        if d.listeners.contains(&on_count_id) {
            assert!(matches!(doubled.computed_mut().dependency_changed(false), Recompute::Now));
            if doubled.computed_mut().begin_recompute() {
                let value = Scaled { source: &count, factor: 2, runs: &runs }.compute();
                events.extend(values_for(&doubled.computed_mut().recompute(value, &NoHooks), id));
            }
        }
    }

    assert_eq!(events, vec![4, 10]);
}
