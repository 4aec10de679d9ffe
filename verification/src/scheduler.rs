use vstd::prelude::*;
use crate::computed::{Notifications, NotificationsView};

verus! {

/// The abstract state of the batched-recompute queue.
pub struct JobQueueView {
    /// Queued jobs, oldest first.
    pub jobs: Seq<u64>,
    /// Whether an application chose a scheduler explicitly.
    pub scheduler_set: bool,
}

/// The jobs (batched recomputes, named by id) waiting for the scheduler's
/// tick, and whether a scheduler was chosen explicitly.
pub struct JobQueue {
    jobs: Vec<u64>,
    scheduler_set: bool,
}

impl View for JobQueue {
    type V = JobQueueView;

    closed spec fn view(&self) -> JobQueueView {
        JobQueueView { jobs: self.jobs@, scheduler_set: self.scheduler_set }
    }
}

impl JobQueue {
    /// An empty queue; no scheduler chosen yet.
    pub fn new() -> (q: Self)
        ensures
            q@ == (JobQueueView { jobs: Seq::empty(), scheduler_set: false }),
    {
        JobQueue { jobs: Vec::new(), scheduler_set: false }
    }

    /// Queue `job`; the caller then asks the scheduler for a tick, at which
    /// [`flush`] hands the queued jobs out.
    pub fn schedule(&mut self, job: u64)
        ensures
            final(self)@ == (JobQueueView { jobs: old(self)@.jobs.push(job), ..old(self)@ }),
    {
        self.jobs.push(job);
    }
}

/// Decides when the queued batched recomputes run. An application may
/// flush at once or wait for a tick of its own (a microtask, a frame).
pub trait Scheduler {
    /// Whether the scheduler may answer `now` when a tick is wanted; unless
    /// it says more, it may answer either way.
    open spec fn may_answer(&self, now: bool) -> bool {
        true
    }

    /// A tick is wanted for the queued jobs. Returns `true` to have them
    /// handed out at once; `false` when the application calls [`flush`]
    /// itself at its tick.
    fn schedule(&self) -> (now: bool)
        ensures
            self.may_answer(now),
    ;
}

/// The scheduler used until an application chooses one: every tick runs
/// at once.
pub struct ImmediateScheduler;

impl Scheduler for ImmediateScheduler {
    /// It always answers at once.
    open spec fn may_answer(&self, now: bool) -> bool {
        now
    }

    fn schedule(&self) -> (now: bool) {
        true
    }
}

/// Queue `job` and ask `scheduler` for a tick. Returns the jobs to run now:
/// every queued job, oldest first, when the scheduler flushes at once;
/// none when it waits for its own tick. Jobs handed out are run as
/// [`flush_due`] says.
pub fn schedule<S: Scheduler>(queue: &mut JobQueue, scheduler: &S, job: u64) -> (jobs: Vec<u64>)
    ensures
        exists|now: bool| #[trigger] scheduler.may_answer(now) && ticked(old(queue)@, final(queue)@, job, now, jobs@),
{
    queue.schedule(job);
    let now = scheduler.schedule();
    let jobs = if now {
        flush(queue)
    } else {
        Vec::new()
    };
    proof {
        assert(ticked(old(queue)@, queue@, job, now, jobs@));
    }
    jobs
}

/// Queueing `job` from state `o` to state `n`, handing out `jobs`, when
/// the scheduler answered `now`: at once every queued job, oldest first,
/// and the queue is emptied; otherwise nothing, and the job waits.
pub open spec fn ticked(o: JobQueueView, n: JobQueueView, job: u64, now: bool, jobs: Seq<u64>) -> bool {
    let queued = o.jobs.push(job);
    if now {
        jobs == queued && n == (JobQueueView { jobs: Seq::empty(), ..o })
    } else {
        jobs.len() == 0 && n == (JobQueueView { jobs: queued, ..o })
    }
}

/// Record that the application chose a scheduler.
pub fn set_scheduler(queue: &mut JobQueue)
    ensures
        final(queue)@ == (JobQueueView { scheduler_set: true, ..old(queue)@ }),
{
    queue.scheduler_set = true;
}

/// Record a scheduler choice only if none was made yet. Returns whether it
/// was recorded: an environment may offer a default without overriding the
/// application's choice.
pub fn set_scheduler_if_unset(queue: &mut JobQueue) -> (installed: bool)
    ensures
        installed == !old(queue)@.scheduler_set,
        final(queue)@ == (JobQueueView { scheduler_set: true, ..old(queue)@ }),
{
    if queue.scheduler_set {
        return false;
    }
    queue.scheduler_set = true;
    true
}

/// Hand out every queued job, oldest first, and empty the queue. Jobs that
/// running them queues are handed out by the next `flush`, after these.
pub fn flush(queue: &mut JobQueue) -> (jobs: Vec<u64>)
    ensures
        jobs@ == old(queue)@.jobs,
        final(queue)@ == (JobQueueView { jobs: Seq::empty(), ..old(queue)@ }),
{
    let mut jobs = Vec::new();
    std::mem::swap(&mut jobs, &mut queue.jobs);
    proof {
        assert(queue@.jobs =~= Seq::<u64>::empty());
    }
    jobs
}

/// Hand out the queued jobs at a tick, oldest first, and empty the queue:
/// to run now (`.0`) when no notification is in progress; while one is,
/// they are put off (`.1`) like any recompute until the outermost
/// notification ends, so that a batched store under a scheduler that
/// flushes at once behaves as an unbatched one and recomputes from
/// consistent values.
pub fn flush_due(queue: &mut JobQueue, notifications: &mut Notifications) -> (r: (Vec<u64>, Vec<u64>))
    ensures
        final(queue)@ == (JobQueueView { jobs: Seq::empty(), ..old(queue)@ }),
        old(notifications)@.depth == 0 ==> r.0@ == old(queue)@.jobs && r.1@.len() == 0
            && final(notifications)@ == old(notifications)@,
        old(notifications)@.depth > 0 ==> r.0@.len() == 0 && r.1@ == old(queue)@.jobs
            && final(notifications)@ == (NotificationsView {
                deferred: old(notifications)@.deferred + old(queue)@.jobs,
                ..old(notifications)@
            }),
{
    let jobs = flush(queue);
    if notifications.depth() == 0 {
        return (jobs, Vec::new());
    }
    let mut i: usize = 0;
    while i < jobs.len()
        invariant
            i <= jobs.len(),
            old(notifications)@.depth > 0,
            notifications@ == (NotificationsView {
                deferred: old(notifications)@.deferred + jobs@.take(i as int),
                ..old(notifications)@
            }),
        decreases jobs.len() - i,
    {
        let _put_off = notifications.defer_or_run(jobs[i]);
        proof {
            assert(old(notifications)@.deferred + jobs@.take(i as int + 1) =~= (old(notifications)@.deferred
                + jobs@.take(i as int)).push(jobs@[i as int]));
        }
        i += 1;
    }
    proof {
        assert(jobs@.take(jobs.len() as int) =~= jobs@);
    }
    (Vec::new(), jobs)
}

} // verus!
