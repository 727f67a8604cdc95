use std::sync::atomic::{AtomicUsize, Ordering};
use std::sync::Arc;
use std::task::{Wake, Waker};

use crossbeam_deque::{Injector, Worker};
use crossbeam_utils::sync::Parker;

use nesty::executor::{
    find_task, next_step, notify_worker, schedule, unparker_index, Executor, LookupStage, Step,
    StealOutcome, YieldOnce, YieldPoll,
};
use nesty::net::{IoAction, IoAttempt, Registration};
use nesty::pool::BufferPool;
use nesty::reactor::{Reactor, TimerEntry, TimerHeap};
use nesty::timer::{sleep, Sleep, SleepPoll};

/// A waker that counts how often it was woken.
struct Counter(AtomicUsize);

impl Wake for Counter {
    fn wake(self: Arc<Self>) {
        self.0.fetch_add(1, Ordering::SeqCst);
    }
}

fn counting_waker() -> (Arc<Counter>, Waker) {
    let c = Arc::new(Counter(AtomicUsize::new(0)));
    let w = Waker::from(c.clone());
    (c, w)
}

fn wakes(c: &Arc<Counter>) -> usize {
    c.0.load(Ordering::SeqCst)
}

// ---- buffer pool ----

#[test]
fn pool_new_holds_zeroed_buffers() {
    let mut pool = BufferPool::new(8, 2);
    assert_eq!(pool.get(), vec![0u8; 8]);
    assert_eq!(pool.get(), vec![0u8; 8]);
    // Pool is now empty: falls back to a fresh zeroed buffer.
    assert_eq!(pool.get(), vec![0u8; 8]);
}

#[test]
fn pool_empty_falls_back_to_fresh_buffer() {
    let mut pool = BufferPool::new(1024, 0);
    let buf = pool.get();
    assert_eq!(buf.len(), 1024);
    assert!(buf.iter().all(|b| *b == 0));
}

#[test]
fn pool_returned_buffer_is_handed_out_next() {
    let mut pool = BufferPool::new(4, 1);
    pool.return_buf(vec![1, 2, 3]);
    assert_eq!(pool.get(), vec![1, 2, 3]);
    assert_eq!(pool.get(), vec![0, 0, 0, 0]);
}

#[test]
fn pool_is_last_in_first_out() {
    let mut pool = BufferPool::new(2, 0);
    pool.return_buf(vec![1]);
    pool.return_buf(vec![2]);
    assert_eq!(pool.get(), vec![2]);
    assert_eq!(pool.get(), vec![1]);
    assert_eq!(pool.get(), vec![0, 0]);
}

#[test]
fn pool_get_then_return_restores() {
    let mut pool = BufferPool::new(3, 1);
    let mut b = pool.get();
    b[0] = 9;
    pool.return_buf(b);
    assert_eq!(pool.get(), vec![9, 0, 0]);
    assert_eq!(pool.get(), vec![0, 0, 0]);
}

// ---- timer heap ----

#[test]
fn heap_pops_in_deadline_order() {
    let mut h = TimerHeap::new();
    for d in [50u64, 10, 40, 20, 30, 10, 60, 0] {
        let (_, w) = counting_waker();
        h.push(TimerEntry { deadline: d, waker: w });
    }
    assert_eq!(h.len(), 8);
    assert_eq!(h.peek_deadline(), Some(0));
    let mut out = Vec::new();
    while let Some(e) = h.pop() {
        out.push(e.deadline);
    }
    assert_eq!(out, vec![0, 10, 10, 20, 30, 40, 50, 60]);
    assert_eq!(h.len(), 0);
    assert_eq!(h.peek_deadline(), None);
    assert!(h.pop().is_none());
}

#[test]
fn heap_peek_matches_pop() {
    let mut h = TimerHeap::new();
    for d in [7u64, 3, 9, 3, 1, 12] {
        let (_, w) = counting_waker();
        h.push(TimerEntry { deadline: d, waker: w });
    }
    while let Some(p) = h.peek_deadline() {
        let e = h.pop().unwrap();
        assert_eq!(e.deadline, p);
    }
}

#[test]
fn heap_keeps_wakers_with_their_deadlines() {
    let mut h = TimerHeap::new();
    let (c5, w5) = counting_waker();
    let (c2, w2) = counting_waker();
    h.push(TimerEntry { deadline: 5, waker: w5 });
    h.push(TimerEntry { deadline: 2, waker: w2 });
    let first = h.pop().unwrap();
    assert_eq!(first.deadline, 2);
    first.waker.wake();
    assert_eq!(wakes(&c2), 1);
    assert_eq!(wakes(&c5), 0);
}

// ---- reactor bookkeeping ----

#[test]
fn reactor_new_is_empty() {
    let mut r = Reactor::new();
    assert_eq!(r.next_timeout(0), None);
    assert!(r.take_waker(3).is_none());
    assert!(r.expire_timers(u64::MAX).is_empty());
}

#[test]
fn reactor_timeout_is_time_to_earliest_deadline() {
    let mut r = Reactor::new();
    let (_, a) = counting_waker();
    let (_, b) = counting_waker();
    r.register_timer(500, a);
    r.register_timer(200, b);
    assert_eq!(r.next_timeout(50), Some(150));
    assert_eq!(r.next_timeout(200), Some(0));
    assert_eq!(r.next_timeout(900), Some(0));
}

#[test]
fn reactor_expires_due_timers_in_order() {
    let mut r = Reactor::new();
    let (c1, w1) = counting_waker();
    let (c2, w2) = counting_waker();
    let (c3, w3) = counting_waker();
    r.register_timer(300, w3);
    r.register_timer(100, w1);
    r.register_timer(200, w2);
    let fired = r.expire_timers(200);
    let deadlines: Vec<u64> = fired.iter().map(|e| e.deadline).collect();
    assert_eq!(deadlines, vec![100, 200]);
    for e in fired {
        e.waker.wake();
    }
    assert_eq!((wakes(&c1), wakes(&c2), wakes(&c3)), (1, 1, 0));
    // The remaining timer is not late: positive timeout.
    assert_eq!(r.next_timeout(200), Some(100));
    assert!(r.expire_timers(299).is_empty());
    let rest = r.expire_timers(300);
    assert_eq!(rest.len(), 1);
    assert_eq!(rest[0].deadline, 300);
    assert_eq!(r.next_timeout(300), None);
}

#[test]
fn reactor_expiry_in_steps_matches_single_expiry() {
    let mut a = Reactor::new();
    let mut b = Reactor::new();
    for d in [5u64, 15, 25, 35] {
        let (_, w) = counting_waker();
        a.register_timer(d, w);
        let (_, w) = counting_waker();
        b.register_timer(d, w);
    }
    let mut stepped: Vec<u64> = a.expire_timers(10).iter().map(|e| e.deadline).collect();
    stepped.extend(a.expire_timers(30).iter().map(|e| e.deadline));
    let once: Vec<u64> = b.expire_timers(30).iter().map(|e| e.deadline).collect();
    assert_eq!(stepped, once);
    assert_eq!(a.next_timeout(30), b.next_timeout(30));
}

#[test]
fn reactor_take_returns_stored_waker_once() {
    let mut r = Reactor::new();
    let (c, w) = counting_waker();
    r.set_waker(4, w);
    let got = r.take_waker(4).expect("stored waker");
    got.wake();
    assert_eq!(wakes(&c), 1);
    assert!(r.take_waker(4).is_none());
}

#[test]
fn reactor_set_waker_replaces_previous() {
    let mut r = Reactor::new();
    let (c_old, w_old) = counting_waker();
    let (c_new, w_new) = counting_waker();
    r.set_waker(1, w_old);
    r.set_waker(1, w_new);
    r.take_waker(1).unwrap().wake();
    assert_eq!(wakes(&c_old), 0);
    assert_eq!(wakes(&c_new), 1);
}

#[test]
fn reactor_tokens_are_independent() {
    let mut r = Reactor::new();
    let (c1, w1) = counting_waker();
    let (c2, w2) = counting_waker();
    r.set_waker(1, w1);
    r.set_waker(2, w2);
    r.take_waker(2).unwrap().wake();
    assert!(r.take_waker(3).is_none());
    r.take_waker(1).unwrap().wake();
    assert_eq!((wakes(&c1), wakes(&c2)), (1, 1));
}

// ---- sleep ----

#[test]
fn sleep_registers_once_then_completes() {
    let mut s = Sleep::new(1_000, 500);
    assert_eq!(s.deadline(), 1_500);
    assert!(!s.is_registered());
    assert_eq!(s.poll_at(1_200), SleepPoll::Register { deadline: 1_500 });
    assert!(s.is_registered());
    assert_eq!(s.poll_at(1_499), SleepPoll::Pending);
    assert_eq!(s.poll_at(1_500), SleepPoll::Ready);
    assert_eq!(s.poll_at(9_999), SleepPoll::Ready);
}

#[test]
fn sleep_already_due_is_ready_without_registering() {
    let mut s = sleep(40, 0);
    assert_eq!(s.poll_at(40), SleepPoll::Ready);
    assert!(!s.is_registered());
}

#[test]
fn sleep_function_matches_new() {
    let s = sleep(7, 3);
    assert_eq!(s.deadline(), 10);
    assert!(!s.is_registered());
}

// ---- socket registration ----

#[test]
fn registration_registers_once() {
    let mut reg = Registration::new(7);
    assert_eq!(reg.token(), 7);
    assert!(!reg.is_registered());
    assert_eq!(reg.after_attempt(IoAttempt::WouldBlock), IoAction::Register { token: 7 });
    assert!(reg.is_registered());
    assert_eq!(reg.after_attempt(IoAttempt::WouldBlock), IoAction::Reregister { token: 7 });
    assert_eq!(reg.after_attempt(IoAttempt::Done), IoAction::Complete);
    assert!(reg.is_registered());
}

#[test]
fn registration_done_first_completes_without_registering() {
    let mut reg = Registration::new(0);
    assert_eq!(reg.after_attempt(IoAttempt::Done), IoAction::Complete);
    assert!(!reg.is_registered());
}

// ---- executor ----

#[test]
fn round_robin_index() {
    assert_eq!(unparker_index(7, 3), 1);
    assert_eq!(unparker_index(0, 4), 0);
    assert_eq!(unparker_index(usize::MAX, 1), 0);
    let seen: Vec<usize> = (10..14).map(|t| unparker_index(t, 4)).collect();
    assert_eq!(seen, vec![2, 3, 0, 1]);
}

#[test]
fn find_task_prefers_local_then_global_then_siblings() {
    let local: Worker<u32> = Worker::new_fifo();
    let sibling: Worker<u32> = Worker::new_fifo();
    let global: Injector<u32> = Injector::new();
    let stealers = vec![sibling.stealer()];

    assert_eq!(find_task(&local, &global, &stealers).0, None);

    sibling.push(3);
    global.push(2);
    local.push(1);
    assert_eq!(find_task(&local, &global, &stealers).0, Some(1));
    assert_eq!(find_task(&local, &global, &stealers).0, Some(2));
    assert_eq!(find_task(&local, &global, &stealers).0, Some(3));
    assert_eq!(find_task(&local, &global, &stealers).0, None);
}

#[test]
fn schedule_queues_task_and_notifies() {
    let global: Injector<u32> = Injector::new();
    let parker = Parker::new();
    let unparkers = vec![parker.unparker().clone()];
    assert_eq!(schedule(&global, 42, &unparkers, 5), 0);
    let local: Worker<u32> = Worker::new_fifo();
    assert_eq!(find_task(&local, &global, &Vec::new()).0, Some(42));
    // The unpark left a token behind: parking returns at once.
    parker.park();
    assert_eq!(notify_worker(&unparkers, 6), 0);
    parker.park();
}

#[test]
fn yield_once_pends_once_then_completes() {
    let mut y = YieldOnce::new();
    assert_eq!(y.poll_once(), YieldPoll::WakeAndPend);
    assert_eq!(y.poll_once(), YieldPoll::Ready);
    assert_eq!(y.poll_once(), YieldPoll::Ready);
}

#[test]
fn executor_new_builds_one_of_each_per_thread() {
    let (exec, workers, parkers, spawner) = Executor::<u32>::new(3);
    assert_eq!(exec.num_threads(), 3);
    assert_eq!(workers.len(), 3);
    assert_eq!(parkers.len(), 3);
    assert_eq!(exec.unparkers.len(), 3);
    assert_eq!(exec.stealers().len(), 3);
    assert_eq!(spawner.worker_count(), 3);
}

#[test]
fn spawned_task_reaches_a_worker_through_the_shared_queue() {
    let (exec, workers, parkers, spawner) = Executor::<u32>::new(2);
    assert_eq!(spawner.spawn(7, Some((5, 2))), Some(1));
    // Worker 1 was notified: its parker returns at once.
    parkers[1].park();
    let injector = exec.injector();
    let stealers = exec.stealers();
    assert_eq!(find_task(&workers[0], &injector, &stealers).0, Some(7));
    assert_eq!(spawner.spawn(8, None), None);
    assert_eq!(find_task(&workers[1], &injector, &stealers).0, Some(8));
    assert_eq!(find_task(&workers[1], &injector, &stealers).0, None);
}

#[test]
fn worker_steals_from_sibling_queue() {
    let (exec, workers, _parkers, _spawner) = Executor::<u32>::new(2);
    workers[1].push(11);
    let injector = exec.injector();
    let stealers = exec.stealers();
    assert_eq!(find_task(&workers[0], &injector, &stealers).0, Some(11));
}

#[test]
fn reactor_batch_takes_each_stored_waker_once() {
    let mut r = Reactor::new();
    let (c1, w1) = counting_waker();
    let (c2, w2) = counting_waker();
    let (c3, w3) = counting_waker();
    r.set_waker(1, w1);
    r.set_waker(2, w2);
    r.set_waker(3, w3);
    let woken = r.take_wakers(&vec![2, usize::MAX, 1, 2, 9]);
    assert_eq!(woken.len(), 2);
    for w in woken {
        w.wake();
    }
    assert_eq!((wakes(&c1), wakes(&c2), wakes(&c3)), (1, 1, 0));
    // Token 3 was not in the batch: its waker stays.
    assert!(r.take_waker(1).is_none());
    r.take_waker(3).unwrap().wake();
    assert_eq!(wakes(&c3), 1);
}

fn is_take(s: &Step<u32>, v: u32) -> bool {
    matches!(s, Step::Take(t) if *t == v)
}

fn is_next(s: &Step<u32>, stage: LookupStage) -> bool {
    matches!(s, Step::Next(g) if *g == stage)
}

#[test]
fn lookup_steps_follow_the_search_order() {
    let global0 = LookupStage::Global { retries: 0 };
    assert!(is_take(&next_step(LookupStage::Local, StealOutcome::Success(5u32), 2), 5));
    assert!(is_next(&next_step(LookupStage::Local, StealOutcome::<u32>::Empty, 2), global0));
    assert!(is_next(
        &next_step(global0, StealOutcome::<u32>::Retry, 2),
        LookupStage::Global { retries: 1 }
    ));
    assert!(is_next(
        &next_step(global0, StealOutcome::<u32>::Empty, 2),
        LookupStage::Sibling { index: 0 }
    ));
    assert!(matches!(next_step(global0, StealOutcome::<u32>::Empty, 0), Step::Park));
    assert!(is_take(&next_step(global0, StealOutcome::Success(8u32), 2), 8));
    assert!(is_next(
        &next_step(LookupStage::Sibling { index: 0 }, StealOutcome::<u32>::Retry, 2),
        LookupStage::Sibling { index: 1 }
    ));
    assert!(matches!(
        next_step(LookupStage::Sibling { index: 1 }, StealOutcome::<u32>::Empty, 2),
        Step::Park
    ));
    assert!(is_take(&next_step(LookupStage::Sibling { index: 1 }, StealOutcome::Success(9u32), 2), 9));
    assert!(is_next(
        &next_step(LookupStage::Global { retries: usize::MAX - 2 }, StealOutcome::<u32>::Retry, 1),
        LookupStage::Global { retries: usize::MAX - 1 }
    ));
    assert!(is_next(
        &next_step(LookupStage::Global { retries: usize::MAX - 1 }, StealOutcome::<u32>::Retry, 1),
        LookupStage::Sibling { index: 0 }
    ));
}

#[test]
fn notify_and_schedule_wake_round_robin_worker() {
    let parkers: Vec<Parker> = (0..3).map(|_| Parker::new()).collect();
    let unparkers: Vec<_> = parkers.iter().map(|p| p.unparker().clone()).collect();
    assert_eq!(notify_worker(&unparkers, 7), 1);
    parkers[1].park();
    let global: Injector<u32> = Injector::new();
    assert_eq!(schedule(&global, 3, &unparkers, 11), 2);
    parkers[2].park();
    assert_eq!(global.steal().success(), Some(3));
}
