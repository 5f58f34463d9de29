use vstd::prelude::*;
use std::collections::VecDeque;

verus! {

/// Room reserved for runnable tasks when a queue is made without a size.
pub const DEFAULT_TASK_QUEUE_SIZE: usize = 4096;

/// The runnable tasks, first in first out.
pub struct TaskQueue<T> {
    queue: VecDeque<T>,
}

impl<T> View for TaskQueue<T> {
    type V = Seq<T>;

    closed spec fn view(&self) -> Seq<T> {
        self.queue@
    }
}

impl<T> TaskQueue<T> {
    /// An empty queue with room for the default number of tasks.
    pub fn new() -> (q: Self)
        ensures
            q@ == Seq::<T>::empty(),
    {
        Self::new_with_capacity(DEFAULT_TASK_QUEUE_SIZE)
    }

    /// An empty queue with room for `capacity` tasks before it grows.
    pub fn new_with_capacity(capacity: usize) -> (q: Self)
        ensures
            q@ == Seq::<T>::empty(),
    {
        TaskQueue { queue: VecDeque::with_capacity(capacity) }
    }

    /// Puts `runnable` at the back.
    pub fn push(&mut self, runnable: T)
        ensures
            final(self)@ == old(self)@.push(runnable),
    {
        self.queue.push_back(runnable);
    }

    /// Takes the task at the front, if any.
    pub fn pop(&mut self) -> (r: Option<T>)
        ensures
            old(self)@.len() == 0 ==> r is None && final(self)@ == old(self)@,
            old(self)@.len() > 0 ==> r == Some(old(self)@[0]) && final(self)@ == old(self)@.drop_first(),
    {
        self.queue.pop_front()
    }

    /// The number of runnable tasks.
    pub fn len(&self) -> (n: usize)
        ensures
            n == self@.len(),
    {
        self.queue.len()
    }
}

/// Where the main loop of `block_on` stands.
#[derive(Clone, Copy, Debug, PartialEq, Eq, Structural)]
pub enum Phase {
    /// Draining runnable tasks (also the state before the first report).
    Running,
    /// The root is being polled once more after a drain found the queue empty.
    Checking,
    /// Blocked in the reactor until readiness arrives.
    Blocked,
    /// The root future completed.
    Finished,
}

/// What the driver of the loop reports after carrying out the last step.
#[derive(Clone, Copy, Debug, PartialEq, Eq, Structural)]
pub enum Progress {
    /// The root future was polled and is not done.
    RootPending,
    /// The root future was polled and produced its value.
    RootReady,
    /// A runnable task was polled.
    TaskPolled,
    /// The reactor wait returned and its wakers were invoked.
    Woken,
}

/// What the driver of the loop is to do next.
pub enum Step<T> {
    /// Poll the root future with the inert waker.
    PollRoot,
    /// Poll the given task; its waker puts it back in the runnable queue.
    PollTask(T),
    /// Block in the reactor, then invoke the wakers it hands out.
    Wait,
    /// Return the root future's value.
    Return,
}

/// The phase after reporting `ev` with `queued` tasks runnable.
pub open spec fn next_phase(phase: Phase, ev: Progress, queued: nat) -> Phase {
    if ev == Progress::RootReady {
        Phase::Finished
    } else if queued > 0 {
        Phase::Running
    } else if ev == Progress::RootPending && phase == Phase::Checking {
        Phase::Blocked
    } else {
        Phase::Checking
    }
}

/// The step that follows reporting `ev` in `phase` with runnable queue `q`:
/// finish once the root is ready; otherwise run the oldest runnable task;
/// with none, poll the root once more, and block only if the root was just
/// polled after a drain and is still pending.
pub open spec fn step_of<T>(phase: Phase, ev: Progress, q: Seq<T>) -> Step<T> {
    if ev == Progress::RootReady {
        Step::Return
    } else if q.len() > 0 {
        Step::PollTask(q[0])
    } else if ev == Progress::RootPending && phase == Phase::Checking {
        Step::Wait
    } else {
        Step::PollRoot
    }
}

/// The runnable queue after reporting `ev`.
pub open spec fn next_queue<T>(q: Seq<T>, ev: Progress) -> Seq<T> {
    if ev != Progress::RootReady && q.len() > 0 {
        q.drop_first()
    } else {
        q
    }
}

/// The state reached and the steps asked for over a run of reports during
/// which nothing is spawned or woken.
pub open spec fn run<T>(phase: Phase, q: Seq<T>, evs: Seq<Progress>) -> (Phase, Seq<T>, Seq<Step<T>>)
    decreases evs.len(),
{
    if evs.len() == 0 {
        (phase, q, Seq::empty())
    } else {
        let p = run(phase, q, evs.drop_last());
        (
            next_phase(p.0, evs.last(), p.1.len()),
            next_queue(p.1, evs.last()),
            p.2.push(step_of(p.0, evs.last(), p.1)),
        )
    }
}

/// The scheduling state of the runtime: the runnable queue and where the
/// main loop stands. Tasks are opaque to it; it only decides which to poll.
pub struct Executor<T> {
    local_queue: TaskQueue<T>,
    phase: Phase,
}

impl<T> Executor<T> {
    /// The runnable tasks, oldest first.
    pub closed spec fn runnable(&self) -> Seq<T> {
        self.local_queue@
    }

    /// Where the main loop stands.
    pub closed spec fn phase_of(&self) -> Phase {
        self.phase
    }

    /// An executor with nothing runnable, before the root is first polled.
    pub fn new() -> (ex: Self)
        ensures
            ex.runnable() == Seq::<T>::empty(),
            ex.phase_of() == Phase::Running,
    {
        Executor { local_queue: TaskQueue::new(), phase: Phase::Running }
    }

    /// Makes `task` runnable behind every task already queued. Invoking a
    /// task's waker does the same, so a woken task runs again.
    pub fn spawn(&mut self, task: T)
        ensures
            final(self).runnable() == old(self).runnable().push(task),
            final(self).phase_of() == old(self).phase_of(),
    {
        self.local_queue.push(task);
    }

    /// The number of runnable tasks.
    pub fn runnable_len(&self) -> (n: usize)
        ensures
            n == self.runnable().len(),
    {
        self.local_queue.len()
    }

    /// Where the main loop stands.
    pub fn phase(&self) -> (p: Phase)
        ensures
            p == self.phase_of(),
    {
        self.phase
    }

    /// Takes the report of the last step and decides the next one. The
    /// reactor is waited on only when nothing is runnable.
    pub fn advance(&mut self, ev: Progress) -> (step: Step<T>)
        ensures
            step == step_of(old(self).phase_of(), ev, old(self).runnable()),
            final(self).runnable() == next_queue(old(self).runnable(), ev),
            final(self).phase_of() == next_phase(old(self).phase_of(), ev, old(self).runnable().len()),
            step is Wait ==> old(self).runnable().len() == 0 && final(self).runnable().len() == 0,
    {
        if ev == Progress::RootReady {
            self.phase = Phase::Finished;
            return Step::Return;
        }
        match self.local_queue.pop() {
            Some(t) => {
                self.phase = Phase::Running;
                Step::PollTask(t)
            },
            None => {
                if ev == Progress::RootPending && self.phase == Phase::Checking {
                    self.phase = Phase::Blocked;
                    Step::Wait
                } else {
                    self.phase = Phase::Checking;
                    Step::PollRoot
                }
            },
        }
    }
}

/// The reports of one drain over `n` tasks that spawn nothing: the root was
/// polled and is pending, then each task was polled in turn.
pub open spec fn drain_reports(n: nat) -> Seq<Progress> {
    seq![Progress::RootPending] + Seq::new(n, |i: int| Progress::TaskPolled)
}

/// The steps of polling each task of `q` in order.
pub open spec fn poll_each<T>(q: Seq<T>, k: nat) -> Seq<Step<T>> {
    Seq::new(k, |i: int| Step::PollTask(q[i]))
}

proof fn lemma_drain_prefix<T>(phase: Phase, q: Seq<T>, k: nat)
    requires
        1 <= k <= q.len(),
    ensures
        run(phase, q, drain_reports(q.len()).take(k as int)) == (Phase::Running, q.skip(k as int), poll_each(q, k)),
    decreases k,
{
    let evs = drain_reports(q.len());
    if k == 1 {
        assert(evs[0] == Progress::RootPending);
        assert(evs.take(1).drop_last() =~= Seq::<Progress>::empty());
        assert(evs.take(1).last() == Progress::RootPending);
        assert(run(phase, q, evs.take(1).drop_last()) == (phase, q, Seq::<Step<T>>::empty()));
        assert(q.drop_first() =~= q.skip(1));
        assert(Seq::<Step<T>>::empty().push(Step::PollTask(q[0])) =~= poll_each(q, 1));
    } else {
        lemma_drain_prefix(phase, q, (k - 1) as nat);
        assert(evs.take(k as int).drop_last() =~= evs.take(k - 1));
        assert(evs[k - 1] == Progress::TaskPolled);
        assert(evs.take(k as int).last() == Progress::TaskPolled);
        assert(q.skip(k - 1)[0] == q[k - 1]);
        assert(q.skip(k - 1).drop_first() =~= q.skip(k as int));
        assert(poll_each(q, (k - 1) as nat).push(Step::PollTask(q[k - 1])) =~= poll_each(q, k));
    }
}

/// Spawned tasks that finish at once all run before the root is looked at
/// again: after the root reports pending, the tasks runnable at that point
/// are polled one by one in the order they were queued, none is left
/// behind, and only then is the root polled.
pub proof fn lemma_drain_runs_all<T>(phase: Phase, q: Seq<T>)
    requires
        q.len() > 0,
    ensures
        run(phase, q, drain_reports(q.len())) == (
            Phase::Checking,
            Seq::<T>::empty(),
            poll_each(q, q.len()).push(Step::PollRoot),
        ),
{
    let n = q.len();
    let evs = drain_reports(n);
    lemma_drain_prefix(phase, q, n);
    assert(evs.drop_last() =~= evs.take(n as int));
    assert(evs[n as int] == Progress::TaskPolled);
    assert(evs.last() == Progress::TaskPolled);
    assert(q.skip(n as int) =~= Seq::<T>::empty());
}

} // verus!
