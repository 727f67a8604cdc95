//! The executor's scheduling rules: where a worker looks for its next task,
//! how a woken or spawned task is queued and which parked worker is
//! notified, and the one-shot cooperative yield.

use crossbeam_deque::{Injector, Steal, Stealer, Worker};
use crossbeam_utils::sync::{Parker, Unparker};
use std::sync::Arc;
use vstd::prelude::*;

verus! {

/// `crossbeam_deque::Worker`: a worker thread's own task queue.
#[verifier::external_type_specification]
#[verifier::external_body]
#[verifier::reject_recursive_types(T)]
pub struct ExWorker<T>(Worker<T>);

/// `crossbeam_deque::Injector`: the global queue shared by all workers.
#[verifier::external_type_specification]
#[verifier::external_body]
#[verifier::reject_recursive_types(T)]
pub struct ExInjector<T>(Injector<T>);

/// `crossbeam_deque::Stealer`: a handle to steal from a sibling's queue.
#[verifier::external_type_specification]
#[verifier::external_body]
#[verifier::reject_recursive_types(T)]
pub struct ExStealer<T>(Stealer<T>);

/// `crossbeam_utils::sync::Unparker`: wakes a parked worker thread.
#[verifier::external_type_specification]
#[verifier::external_body]
pub struct ExUnparker(Unparker);

/// `crossbeam_utils::sync::Parker`: lets a worker thread sleep until
/// notified.
#[verifier::external_type_specification]
#[verifier::external_body]
pub struct ExParker(Parker);

/// `Worker::new_fifo`: an empty first-in first-out worker queue.
#[verifier::external_body]
fn worker_new_fifo<T>() -> Worker<T> {
    Worker::new_fifo()
}

/// `Worker::stealer`: a handle through which other threads steal from `w`.
#[verifier::external_body]
fn worker_stealer<T>(w: &Worker<T>) -> Stealer<T> {
    w.stealer()
}

/// `Injector::new`: an empty global queue.
#[verifier::external_body]
fn injector_new<T>() -> Injector<T> {
    Injector::new()
}

/// `Parker::new`: a parker with no pending notification.
#[verifier::external_body]
fn parker_new() -> Parker {
    Parker::new()
}

/// `Parker::unparker`: the handle that notifies `p`.
#[verifier::external_body]
fn parker_unparker(p: &Parker) -> &Unparker {
    p.unparker()
}

/// `<Unparker as Clone>::clone`: another handle notifying the same parker.
#[verifier::external_body]
fn unparker_clone(u: &Unparker) -> Unparker {
    u.clone()
}

/// `<Arc<T> as Clone>::clone`: another pointer to the same value.
#[verifier::external_body]
fn arc_clone<T>(a: &Arc<T>) -> (r: Arc<T>)
    ensures
        *r == **a,
{
    Arc::clone(a)
}

/// The answer of a steal attempt on a queue shared between threads.
pub enum StealOutcome<T> {
    /// The queue was empty.
    Empty,
    /// A task was taken.
    Success(T),
    /// A concurrent operation interfered; the attempt may be repeated.
    Retry,
}

/// `Worker::pop`: takes a task from this worker's own queue. The queue is
/// shared with stealers on other threads, so nothing is stated of which
/// task, if any, comes back.
#[verifier::external_body]
fn worker_pop<T>(w: &Worker<T>) -> Option<T> {
    w.pop()
}

/// `Injector::steal_batch_and_pop`: moves a batch of tasks from the global
/// queue into `dest` and pops one of them. The outcome depends on other
/// threads, so nothing is stated of it.
#[verifier::external_body]
fn injector_steal_batch_and_pop<T>(i: &Injector<T>, dest: &Worker<T>) -> StealOutcome<T> {
    match i.steal_batch_and_pop(dest) {
        Steal::Empty => StealOutcome::Empty,
        Steal::Success(t) => StealOutcome::Success(t),
        Steal::Retry => StealOutcome::Retry,
    }
}

/// `Stealer::steal`: takes a task from a sibling worker's queue. The outcome
/// depends on other threads, so nothing is stated of it.
#[verifier::external_body]
fn stealer_steal<T>(s: &Stealer<T>) -> StealOutcome<T> {
    match s.steal() {
        Steal::Empty => StealOutcome::Empty,
        Steal::Success(t) => StealOutcome::Success(t),
        Steal::Retry => StealOutcome::Retry,
    }
}

/// `Injector::push`: appends a task to the global queue.
#[verifier::external_body]
fn injector_push<T>(i: &Injector<T>, task: T) {
    i.push(task)
}

/// `Unparker::unpark`: wakes the thread parked on the matching parker, if
/// it is parked.
#[verifier::external_body]
fn unparker_unpark(u: &Unparker) {
    u.unpark()
}

/// Where a worker's search for its next task stands.
#[derive(PartialEq, Eq, Structural, Debug, Clone, Copy)]
pub enum LookupStage {
    /// About to pop from the worker's own queue.
    Local,
    /// About to steal a batch from the global queue; `retries` attempts have
    /// already answered `Retry`.
    Global { retries: usize },
    /// About to steal from sibling `index`.
    Sibling { index: usize },
}

/// What a worker does after one attempt of its search.
pub enum Step<T> {
    /// The worker runs the given task next.
    Take(T),
    /// Go on with the next attempt.
    Next(LookupStage),
    /// Every source gave nothing: park the thread.
    Park,
}

/// The stage that follows the global queue: the first of `n` siblings, or
/// parking when there is none.
pub open spec fn after_global<T>(n: usize) -> Step<T> {
    if n == 0 {
        Step::Park
    } else {
        Step::Next(LookupStage::Sibling { index: 0 })
    }
}

/// The search's rule: a task found at any stage is taken; an empty own
/// queue leads to the global queue; the global queue is retried while it
/// answers `Retry` (at most `usize::MAX` attempts in all) and leads to the
/// siblings once empty; the siblings are tried in order, and after the last
/// one the worker parks.
pub open spec fn spec_next_step<T>(stage: LookupStage, outcome: StealOutcome<T>, n: usize) -> Step<T> {
    match outcome {
        StealOutcome::Success(t) => Step::Take(t),
        _ => match stage {
            LookupStage::Local => Step::Next(LookupStage::Global { retries: 0 }),
            LookupStage::Global { retries } => match outcome {
                StealOutcome::Retry => if retries + 1 < usize::MAX {
                    Step::Next(LookupStage::Global { retries: (retries + 1) as usize })
                } else {
                    after_global(n)
                },
                _ => after_global(n),
            },
            LookupStage::Sibling { index } => if index + 1 < n {
                Step::Next(LookupStage::Sibling { index: (index + 1) as usize })
            } else {
                Step::Park
            },
        },
    }
}

/// Applies the search's rule to the outcome of one attempt.
pub fn next_step<T>(stage: LookupStage, outcome: StealOutcome<T>, n: usize) -> (s: Step<T>)
    ensures
        s == spec_next_step(stage, outcome, n),
{
    match outcome {
        StealOutcome::Success(t) => Step::Take(t),
        StealOutcome::Empty => match stage {
            LookupStage::Local => Step::Next(LookupStage::Global { retries: 0 }),
            LookupStage::Global { .. } => if n == 0 {
                Step::Park
            } else {
                Step::Next(LookupStage::Sibling { index: 0 })
            },
            LookupStage::Sibling { index } => if index < n && index + 1 < n {
                Step::Next(LookupStage::Sibling { index: index + 1 })
            } else {
                Step::Park
            },
        },
        StealOutcome::Retry => match stage {
            LookupStage::Local => Step::Next(LookupStage::Global { retries: 0 }),
            LookupStage::Global { retries } => if retries < usize::MAX - 1 {
                Step::Next(LookupStage::Global { retries: retries + 1 })
            } else if n == 0 {
                Step::Park
            } else {
                Step::Next(LookupStage::Sibling { index: 0 })
            },
            LookupStage::Sibling { index } => if index < n && index + 1 < n {
                Step::Next(LookupStage::Sibling { index: index + 1 })
            } else {
                Step::Park
            },
        },
    }
}

/// Where the search stands after the outcomes `outs`, starting from the
/// worker's own queue with `n` siblings; `None` if the search had already
/// ended before the last of them.
pub open spec fn lookup<T>(outs: Seq<StealOutcome<T>>, n: usize) -> Option<Step<T>>
    decreases outs.len(),
{
    if outs.len() == 0 {
        Some(Step::Next(LookupStage::Local))
    } else {
        match lookup(outs.drop_last(), n) {
            Some(Step::Next(stage)) => Some(spec_next_step(stage, outs.last(), n)),
            _ => None,
        }
    }
}

/// How far a stage is from the end of the search.
spec fn remaining_attempts(stage: LookupStage, n: usize) -> int {
    match stage {
        LookupStage::Local => usize::MAX + n + 1,
        LookupStage::Global { retries } => usize::MAX - retries + n,
        LookupStage::Sibling { index } => n - index,
    }
}

/// Finds the next task for a worker thread by asking, in turn, its own
/// queue, the global queue (retried while it reports contention, at most
/// `usize::MAX` times) and the siblings in order, until one yields a task.
/// `None` means the worker should park. Besides the result, it gives (as
/// ghost) a trace of attempt outcomes; the contract states that the search
/// rule (`next_step`) applied to that trace ends with the result. The
/// contract does not tie the trace to the queues actually asked, whose
/// answers depend on other threads.
pub fn find_task<T>(local: &Worker<T>, global: &Injector<T>, stealers: &Vec<Stealer<T>>) -> (r: (
    Option<T>,
    Ghost<Seq<StealOutcome<T>>>,
))
    ensures
        lookup(r.1@, stealers@.len() as usize) == Some(
            match r.0 {
                Some(t) => Step::Take(t),
                None => Step::Park,
            },
        ),
{
    let n = stealers.len();
    let ghost mut outs: Seq<StealOutcome<T>> = Seq::empty();
    let mut stage = LookupStage::Local;
    loop
        invariant
            n == stealers@.len(),
            lookup(outs, n) == Some(Step::<T>::Next(stage)),
            stage matches LookupStage::Sibling { index } ==> index < n,
        decreases remaining_attempts(stage, n),
    {
        let outcome = match stage {
            LookupStage::Local => match worker_pop(local) {
                Some(t) => StealOutcome::Success(t),
                None => StealOutcome::Empty,
            },
            LookupStage::Global { .. } => injector_steal_batch_and_pop(global, local),
            LookupStage::Sibling { index } => stealer_steal(&stealers[index]),
        };
        let ghost o = outcome;
        let ghost prev = outs;
        proof {
            outs = outs.push(o);
            assert(outs.drop_last() =~= prev);
        }
        match next_step(stage, outcome, n) {
            Step::Take(t) => {
                return (Some(t), Ghost(outs));
            },
            Step::Park => {
                return (None, Ghost(outs));
            },
            Step::Next(next) => {
                stage = next;
            },
        }
    }
}

/// Round-robin choice of the worker to notify: the `ticket`-th
/// notification goes to worker `ticket % count`.
pub fn unparker_index(ticket: usize, count: usize) -> (i: usize)
    requires
        count > 0,
    ensures
        i == ticket % count,
        i < count,
{
    ticket % count
}

/// Wakes the worker that the round-robin `ticket` designates and returns
/// its index.
pub fn notify_worker(unparkers: &Vec<Unparker>, ticket: usize) -> (woken: usize)
    requires
        unparkers.len() > 0,
    ensures
        woken == ticket % unparkers@.len() as usize,
        woken < unparkers@.len(),
{
    let i = unparker_index(ticket, unparkers.len());
    unparker_unpark(&unparkers[i]);
    i
}

/// Queues `task` on the global queue and wakes the worker that the
/// round-robin `ticket` designates, so that a parked worker picks it up;
/// returns the index of the worker woken.
pub fn schedule<T>(injector: &Injector<T>, task: T, unparkers: &Vec<Unparker>, ticket: usize) -> (woken: usize)
    requires
        unparkers.len() > 0,
    ensures
        woken == ticket % unparkers@.len() as usize,
        woken < unparkers@.len(),
{
    injector_push(injector, task);
    notify_worker(unparkers, ticket)
}

/// The work-stealing thread pool: a global queue, one stealer per worker
/// queue and one notifier per worker thread. Tasks are of type `T`.
#[verifier::reject_recursive_types(T)]
pub struct Executor<T> {
    injector: Arc<Injector<T>>,
    stealers: Arc<Vec<Stealer<T>>>,
    pub unparkers: Arc<Vec<Unparker>>,
    num_threads: usize,
}

/// A cheap handle for spawning tasks from anywhere.
#[verifier::reject_recursive_types(T)]
pub struct Spawner<T> {
    injector: Arc<Injector<T>>,
    unparkers: Arc<Vec<Unparker>>,
}

impl<T> Executor<T> {
    /// Builds a pool of `num_threads` workers. Returns the executor, each
    /// worker's own queue and parker (in the same order as the executor's
    /// stealers and notifiers), and a spawner sharing the global queue.
    pub fn new(num_threads: usize) -> (r: (Executor<T>, Vec<Worker<T>>, Vec<Parker>, Spawner<T>))
        requires
            num_threads > 0,
        ensures
            r.0.spec_num_threads() == num_threads,
            r.0.spec_stealers_len() == num_threads,
            r.0.spec_unparkers_len() == num_threads,
            r.1@.len() == num_threads,
            r.2@.len() == num_threads,
            r.3.spec_unparkers_len() == num_threads,
            r.0.spec_injector() == r.3.spec_injector(),
    {
        let mut workers: Vec<Worker<T>> = Vec::new();
        let mut i: usize = 0;
        while i < num_threads
            invariant
                i <= num_threads,
                workers@.len() == i,
            decreases num_threads - i,
        {
            workers.push(worker_new_fifo());
            i = i + 1;
        }
        let mut stealers: Vec<Stealer<T>> = Vec::new();
        let mut i: usize = 0;
        while i < num_threads
            invariant
                i <= num_threads,
                workers@.len() == num_threads,
                stealers@.len() == i,
            decreases num_threads - i,
        {
            stealers.push(worker_stealer(&workers[i]));
            i = i + 1;
        }
        let mut parkers: Vec<Parker> = Vec::new();
        let mut i: usize = 0;
        while i < num_threads
            invariant
                i <= num_threads,
                parkers@.len() == i,
            decreases num_threads - i,
        {
            parkers.push(parker_new());
            i = i + 1;
        }
        let mut for_executor: Vec<Unparker> = Vec::new();
        let mut for_spawner: Vec<Unparker> = Vec::new();
        let mut i: usize = 0;
        while i < num_threads
            invariant
                i <= num_threads,
                parkers@.len() == num_threads,
                for_executor@.len() == i,
                for_spawner@.len() == i,
            decreases num_threads - i,
        {
            let u = parker_unparker(&parkers[i]);
            for_executor.push(unparker_clone(u));
            for_spawner.push(unparker_clone(u));
            i = i + 1;
        }
        let injector: Arc<Injector<T>> = Arc::new(injector_new());
        let executor = Executor {
            injector: arc_clone(&injector),
            stealers: Arc::new(stealers),
            unparkers: Arc::new(for_executor),
            num_threads,
        };
        let spawner = Spawner { injector, unparkers: Arc::new(for_spawner) };
        (executor, workers, parkers, spawner)
    }

    /// The number of worker queues that can be stolen from.
    pub closed spec fn spec_stealers_len(&self) -> nat {
        self.stealers@.len()
    }

    /// The number of worker threads that can be notified.
    pub closed spec fn spec_unparkers_len(&self) -> nat {
        self.unparkers@.len()
    }

    /// The number of worker threads.
    pub closed spec fn spec_num_threads(&self) -> usize {
        self.num_threads
    }

    /// The number of worker threads.
    pub fn num_threads(&self) -> (n: usize)
        ensures
            n == self.spec_num_threads(),
    {
        self.num_threads
    }

    /// The global queue.
    pub closed spec fn spec_injector(&self) -> Injector<T> {
        *self.injector
    }

    /// The global queue, shared with the spawner.
    pub fn injector(&self) -> (q: Arc<Injector<T>>)
        ensures
            *q == self.spec_injector(),
    {
        arc_clone(&self.injector)
    }

    /// The stealers, one per worker queue.
    pub closed spec fn spec_stealers(&self) -> Seq<Stealer<T>> {
        self.stealers@
    }

    /// One stealer per worker queue, in worker order.
    pub fn stealers(&self) -> (s: Arc<Vec<Stealer<T>>>)
        ensures
            s@ == self.spec_stealers(),
            s@.len() == self.spec_stealers_len(),
    {
        arc_clone(&self.stealers)
    }
}

impl<T> Spawner<T> {
    /// The number of worker threads this spawner can notify.
    pub closed spec fn spec_unparkers_len(&self) -> nat {
        self.unparkers@.len()
    }

    /// The number of worker threads this spawner can notify.
    pub fn worker_count(&self) -> (n: usize)
        ensures
            n == self.spec_unparkers_len(),
    {
        self.unparkers.len()
    }

    /// The global queue that spawned tasks go to.
    pub closed spec fn spec_injector(&self) -> Injector<T> {
        *self.injector
    }

    /// The global queue that spawned tasks go to.
    pub fn injector(&self) -> (q: Arc<Injector<T>>)
        ensures
            *q == self.spec_injector(),
    {
        arc_clone(&self.injector)
    }

    /// Queues `task` on the global queue. Given `wake = Some((ticket,
    /// count))`, with `count` the number of workers known runtime-wide, it
    /// also wakes this spawner's worker `ticket % count` and returns that
    /// index; given `None`, it wakes no worker and returns `None`.
    pub fn spawn(&self, task: T, wake: Option<(usize, usize)>) -> (woken: Option<usize>)
        requires
            wake matches Some((t, c)) ==> c > 0 && t % c < self.spec_unparkers_len(),
        ensures
            woken == (match wake {
                Some((t, c)) => Some((t % c) as usize),
                None => None,
            }),
    {
        injector_push(&self.injector, task);
        match wake {
            Some((t, c)) => {
                let i = unparker_index(t, c);
                unparker_unpark(&self.unparkers[i]);
                Some(i)
            },
            None => None,
        }
    }
}

/// What polling a `YieldOnce` asks of its caller.
#[derive(PartialEq, Eq, Structural, Debug, Clone, Copy)]
pub enum YieldPoll {
    /// The future completes.
    Ready,
    /// Wake the current task right away (so it is queued again) and report
    /// pending.
    WakeAndPend,
}

/// A future that yields control to the executor once, then completes on
/// the next poll.
pub struct YieldOnce {
    pending: bool,
}

impl YieldOnce {
    /// Whether the future has yet to yield.
    pub closed spec fn spec_pending(&self) -> bool {
        self.pending
    }

    /// A future that has not yielded yet.
    pub fn new() -> (y: Self)
        ensures
            y.spec_pending(),
    {
        YieldOnce { pending: true }
    }

    /// The first poll yields (wake and pend); every later poll completes.
    pub fn poll_once(&mut self) -> (p: YieldPoll)
        ensures
            p == (if old(self).spec_pending() {
                YieldPoll::WakeAndPend
            } else {
                YieldPoll::Ready
            }),
            !final(self).spec_pending(),
    {
        if !self.pending {
            YieldPoll::Ready
        } else {
            self.pending = false;
            YieldPoll::WakeAndPend
        }
    }
}

/// Where a search can stand after the outcomes `outs`: each outcome so far
/// found nothing; at the global queue after `r` contended answers at least
/// `r + 1` attempts were made; at sibling `k` (always one of the `n`) at
/// least `k + 2` attempts were made, one on the own queue, at least one on
/// the global queue and one on each of siblings `0..k`.
proof fn lemma_lookup_progress<T>(outs: Seq<StealOutcome<T>>, n: usize)
    ensures
        lookup(outs, n) matches Some(Step::Next(stage)) ==> {
            &&& forall|i: int| 0 <= i < outs.len() ==> !(#[trigger] outs[i] is Success)
            &&& stage == LookupStage::Local ==> outs.len() == 0
            &&& stage matches LookupStage::Global { retries } ==> outs.len() >= retries + 1
            &&& stage matches LookupStage::Sibling { index } ==> index < n && outs.len() >= index
                + 2
        },
        lookup(outs, n) matches Some(Step::Park) ==> {
            &&& forall|i: int| 0 <= i < outs.len() ==> !(#[trigger] outs[i] is Success)
            &&& outs.len() >= n + 2
        },
        lookup(outs, n) matches Some(Step::Take(t)) ==> outs.len() > 0 && outs.last()
            == StealOutcome::Success(t),
    decreases outs.len(),
{
    if outs.len() > 0 {
        let front = outs.drop_last();
        lemma_lookup_progress(front, n);
        assert forall|i: int| 0 <= i < front.len() implies front[i] == outs[i] by {}
    }
}

/// A search that parks has found nothing anywhere and has asked its own
/// queue, the global queue and every one of the `n` siblings: its trace
/// holds at least `n + 2` attempts, none of which found a task. A search
/// that takes a task takes the one its last attempt found.
pub proof fn law_park_only_after_every_source<T>(outs: Seq<StealOutcome<T>>, n: usize)
    ensures
        lookup(outs, n) == Some(Step::<T>::Park) ==> outs.len() >= n + 2 && forall|i: int|
            0 <= i < outs.len() ==> !(#[trigger] outs[i] is Success),
        lookup(outs, n) matches Some(Step::Take(t)) ==> outs.len() > 0 && outs.last()
            == StealOutcome::Success(t),
{
    lemma_lookup_progress(outs, n);
}

/// From sibling `index`, an attempt that finds nothing moves on to sibling
/// `index + 1` whenever there is one, and parks only after the last
/// sibling; a task found at any stage is taken.
pub proof fn law_siblings_in_order<T>(index: usize, n: usize, outcome: StealOutcome<T>)
    ensures
        !(outcome is Success) && index + 1 < n ==> spec_next_step(
            LookupStage::Sibling { index },
            outcome,
            n,
        ) == Step::<T>::Next(LookupStage::Sibling { index: (index + 1) as usize }),
        !(outcome is Success) && index + 1 == n ==> spec_next_step(
            LookupStage::Sibling { index },
            outcome,
            n,
        ) == Step::<T>::Park,
        outcome matches StealOutcome::Success(t) ==> spec_next_step(
            LookupStage::Sibling { index },
            outcome,
            n,
        ) == Step::Take(t),
{
}

/// Round-robin notification: the worker after the one that ticket `t`
/// designates is the one that ticket `t + 1` designates, so `count`
/// consecutive tickets notify every worker once.
pub proof fn law_round_robin(t: int, count: int)
    requires
        0 <= t,
        count > 0,
    ensures
        (t + 1) % count == ((t % count) + 1) % count,
{
    vstd::arithmetic::div_mod::lemma_add_mod_noop(t, 1, count);
    if count > 1 {
        vstd::arithmetic::div_mod::lemma_small_mod(1, count as nat);
    } else {
        assert((t + 1) % 1 == 0);
        assert(((t % 1) + 1) % 1 == 0);
    }
}

} // verus!
