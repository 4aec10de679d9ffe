use nanostores::{
    flush, flush_due, schedule, set_scheduler, set_scheduler_if_unset, ImmediateScheduler, JobQueue,
    Notifications, Scheduler,
};

struct ManualScheduler;

impl Scheduler for ManualScheduler {
    fn schedule(&self) -> bool {
        false
    }
}

#[test]
fn immediate_scheduler_hands_jobs_out_at_once() {
    let mut queue = JobQueue::new();
    assert_eq!(schedule(&mut queue, &ImmediateScheduler, 7), vec![7]);
    assert!(flush(&mut queue).is_empty());
}

#[test]
fn manual_scheduler_keeps_jobs_until_flush() {
    let mut queue = JobQueue::new();
    assert!(schedule(&mut queue, &ManualScheduler, 1).is_empty());
    assert!(schedule(&mut queue, &ManualScheduler, 2).is_empty());
    assert_eq!(flush(&mut queue), vec![1, 2]);
    assert!(flush(&mut queue).is_empty());
}

#[test]
fn an_explicit_scheduler_choice_is_not_overridden() {
    let mut queue = JobQueue::new();
    assert!(set_scheduler_if_unset(&mut queue));
    assert!(!set_scheduler_if_unset(&mut queue));

    let mut chosen = JobQueue::new();
    set_scheduler(&mut chosen);
    assert!(!set_scheduler_if_unset(&mut chosen));
}

#[test]
fn deferred_recomputes_wait_for_the_outermost_notification() {
    let mut notifications = Notifications::new();
    assert!(!notifications.defer_or_run(1));
    notifications.notification_guard();
    notifications.notification_guard();
    assert!(notifications.defer_or_run(2));
    assert!(notifications.defer_or_run(3));
    assert!(!notifications.release());
    assert!(notifications.release());
    assert_eq!(notifications.flush_deferred_recomputes(), Some(2));
    assert_eq!(notifications.flush_deferred_recomputes(), Some(3));
    assert_eq!(notifications.flush_deferred_recomputes(), None);
}

#[test]
fn due_jobs_wait_while_a_notification_runs() {
    let mut queue = JobQueue::new();
    let mut notifications = Notifications::new();
    queue.schedule(1);
    queue.schedule(2);
    notifications.notification_guard();
    let (now, put_off) = flush_due(&mut queue, &mut notifications);
    assert!(now.is_empty());
    assert_eq!(put_off, vec![1, 2]);
    assert!(notifications.release());
    assert_eq!(notifications.flush_deferred_recomputes(), Some(1));
    assert_eq!(notifications.flush_deferred_recomputes(), Some(2));

    queue.schedule(3);
    let (now, put_off) = flush_due(&mut queue, &mut notifications);
    assert_eq!(now, vec![3]);
    assert!(put_off.is_empty());
}
