use nanostores::collection::{collection, Collection, CollectionStore};
use nanostores::{flush, Delivery, JobQueue, NoHooks};

fn store() -> CollectionStore<u32, String> {
    collection(Collection::default())
}

/// How many of `ds` reach listener `id`.
fn woken<T>(ds: &[Delivery<T>], id: u64) -> usize {
    ds.iter().filter(|d| d.listeners.contains(&id)).count()
}

/// A row listener wakes for its own row and sleeps through the others.
#[test]
fn item_listener_is_woken_only_by_its_own_item() {
    let mut jobs = JobQueue::new();
    let mut store = store();
    store.set_item(1, "one".into(), &NoHooks);
    store.set_item(2, "two".into(), &NoHooks);

    let mut woken_count = 0;
    let sub = store.listen_key(&1);
    let id = sub.subscription.id();

    let ds = store.set_item(2, "TWO".into(), &NoHooks);
    woken_count += woken(&ds, id);
    assert!(flush(&mut jobs).is_empty());
    assert_eq!(woken_count, 0, "чужая строка не будит");

    let ds = store.set_item(1, "ONE".into(), &NoHooks);
    woken_count += woken(&ds, id);
    assert!(flush(&mut jobs).is_empty());
    assert_eq!(woken_count, 1, "своя — будит");
}

/// Re-sorting is announced under the order key, so row listeners stay asleep.
#[test]
fn reorder_does_not_wake_item_listeners() {
    let mut jobs = JobQueue::new();
    let mut store = store();
    store.set_item(1, "one".into(), &NoHooks);
    store.set_item(2, "two".into(), &NoHooks);

    let row = store.listen_key(&1).subscription.id();
    let order = store.listen_order().subscription.id();

    let ds = store.set_order(vec![2, 1], &NoHooks);
    assert!(flush(&mut jobs).is_empty());
    assert_eq!(woken(&ds, row), 0, "строка не тронута");
    assert_eq!(woken(&ds, order), 1, "порядок сменился");
    assert_eq!(store.get().order(), &[2, 1]);
}

/// An update that changes nothing writes nothing and wakes nobody.
#[test]
fn no_op_update_notifies_nobody() {
    let mut jobs = JobQueue::new();
    let mut store = store();
    store.set_item(1, "one".into(), &NoHooks);

    let id = store.listen_key(&1).subscription.id();
    let mut woken_count = 0;

    let ds = store.update_item(1, |_| false, &NoHooks);
    woken_count += woken(&ds, id);
    assert!(flush(&mut jobs).is_empty());
    assert_eq!(woken_count, 0);

    let ds = store.update_item(
        1,
        |value| {
            *value = "ONE".into();
            true
        },
        &NoHooks,
    );
    woken_count += woken(&ds, id);
    assert!(flush(&mut jobs).is_empty());
    assert_eq!(woken_count, 1);
}

/// Removal drops the item from both the map and the order.
#[test]
fn remove_drops_item_and_order_entry() {
    let mut store = store();
    store.set_item(1, "one".into(), &NoHooks);
    store.set_item(2, "two".into(), &NoHooks);

    store.remove_item(&1, &NoHooks);
    let snapshot = store.get();
    assert_eq!(snapshot.get(&1), None);
    assert_eq!(snapshot.order(), &[2]);
    assert_eq!(snapshot.len(), 1);

    // Removing what is not there is a no-op, not a panic.
    store.remove_item(&1, &NoHooks);
    assert_eq!(store.get().len(), 1);
}

/// iter() walks in order and skips keys whose item is missing.
#[test]
fn iter_follows_order() {
    let mut store = store();
    store.set_item(1, "one".into(), &NoHooks);
    store.set_item(2, "two".into(), &NoHooks);
    store.set_order(vec![2, 1], &NoHooks);

    let seen: Vec<String> = store.get().iter().into_iter().map(|(_, value)| value.clone()).collect();
    assert_eq!(seen, vec!["two".to_string(), "one".to_string()]);
}

#[test]
fn a_committed_item_edit_is_stored_only_when_it_changed_something() {
    let mut store = store();
    store.set_item(1, "one".into(), &NoHooks);
    let id = store.listen_key(&1).subscription.id();

    let ds = store.commit_item(1, "ONE".into(), false, &NoHooks);
    assert!(ds.is_empty());
    assert_eq!(store.get_item(&1), Some("one".to_owned()));

    let ds = store.commit_item(1, "ONE".into(), true, &NoHooks);
    assert_eq!(woken(&ds, id), 1);
    assert_eq!(store.get_item(&1), Some("ONE".to_owned()));
}

#[test]
fn an_equal_item_wakes_nobody_and_a_changed_one_wakes_its_key() {
    let mut store = store();
    store.set_item(1, "one".into(), &NoHooks);
    store.set_item(2, "two".into(), &NoHooks);
    let id = store.listen_key(&1).subscription.id();

    assert_eq!(woken(&store.set_item(1, "one".into(), &NoHooks), id), 0);
    assert_eq!(woken(&store.set_item(2, "TWO".into(), &NoHooks), id), 0);
    assert_eq!(woken(&store.set_item(1, "ONE".into(), &NoHooks), id), 1);
    assert_eq!(store.get().order(), &[1, 2]);
}
