//! The `sleep` timer: a future that completes once its deadline has passed
//! and registers itself with the reactor's timer queue the first time it is
//! polled too early.

use vstd::prelude::*;

verus! {

/// What polling a `Sleep` at some instant asks of its caller.
#[derive(PartialEq, Eq, Structural, Debug, Clone, Copy)]
pub enum SleepPoll {
    /// The deadline has passed: the future completes.
    Ready,
    /// Not yet due and not yet known to the reactor: register a timer for
    /// `deadline` with the current task's waker, then report pending.
    Register { deadline: u64 },
    /// Not yet due and already registered: report pending.
    Pending,
}

/// A timer future. Times are nanoseconds on the runtime's monotonic clock.
pub struct Sleep {
    deadline: u64,
    registered: bool,
}

/// The answer of a poll at `now` of a sleep due at `deadline` that has
/// (`registered`) or has not yet registered its timer.
pub open spec fn poll_answer(deadline: u64, registered: bool, now: u64) -> SleepPoll {
    if now >= deadline {
        SleepPoll::Ready
    } else if !registered {
        SleepPoll::Register { deadline }
    } else {
        SleepPoll::Pending
    }
}

/// The sleep that starts at `now` and lasts `duration` nanoseconds, before
/// its first poll. Both `Sleep::new` and `sleep` return exactly this.
pub closed spec fn started(now: u64, duration: u64) -> Sleep {
    Sleep { deadline: (now + duration) as u64, registered: false }
}

impl Sleep {
    /// When the sleep completes.
    pub closed spec fn spec_deadline(&self) -> u64 {
        self.deadline
    }

    /// Whether the sleep has registered its timer with the reactor.
    pub closed spec fn spec_registered(&self) -> bool {
        self.registered
    }

    /// A sleep of `duration` nanoseconds starting at `now`.
    pub fn new(now: u64, duration: u64) -> (s: Self)
        requires
            now + duration <= u64::MAX,
        ensures
            s == started(now, duration),
            s.spec_deadline() == now + duration,
            !s.spec_registered(),
    {
        Sleep { deadline: now + duration, registered: false }
    }

    /// When the sleep completes.
    pub fn deadline(&self) -> (d: u64)
        ensures
            d == self.spec_deadline(),
    {
        self.deadline
    }

    /// Whether the sleep has registered its timer with the reactor.
    pub fn is_registered(&self) -> (b: bool)
        ensures
            b == self.spec_registered(),
    {
        self.registered
    }

    /// Polls the sleep at `now`: ready once the deadline has passed;
    /// otherwise pending, asking for a timer to be registered the first time.
    pub fn poll_at(&mut self, now: u64) -> (p: SleepPoll)
        ensures
            p == poll_answer(old(self).spec_deadline(), old(self).spec_registered(), now),
            final(self).spec_deadline() == old(self).spec_deadline(),
            final(self).spec_registered() == (old(self).spec_registered() || p
                is Register),
    {
        if now >= self.deadline {
            SleepPoll::Ready
        } else {
            if !self.registered {
                self.registered = true;
                SleepPoll::Register { deadline: self.deadline }
            } else {
                SleepPoll::Pending
            }
        }
    }
}

/// A future that completes `duration` nanoseconds after `now`.
pub fn sleep(now: u64, duration: u64) -> (s: Sleep)
    requires
        now + duration <= u64::MAX,
    ensures
        s == started(now, duration),
        s.spec_deadline() == now + duration,
        !s.spec_registered(),
{
    Sleep::new(now, duration)
}

/// A sleep is ready exactly when its deadline has passed, and a poll
/// before the deadline never completes it.
pub proof fn law_ready_iff_due(deadline: u64, registered: bool, now: u64)
    ensures
        (poll_answer(deadline, registered, now) == SleepPoll::Ready) <==> now >= deadline,
{
}

/// A sleep registers its timer at most once: once registered, polls before
/// the deadline answer pending without registering again.
pub proof fn law_registers_once(deadline: u64, now: u64)
    ensures
        !(poll_answer(deadline, true, now) is Register),
        now < deadline ==> poll_answer(deadline, true, now) == SleepPoll::Pending,
        now < deadline ==> poll_answer(deadline, false, now) == (SleepPoll::Register { deadline }),
{
}

/// Once ready, a sleep stays ready at every later instant.
pub proof fn law_ready_stays_ready(deadline: u64, registered: bool, now: u64, later: u64)
    requires
        poll_answer(deadline, registered, now) == SleepPoll::Ready,
        now <= later,
    ensures
        poll_answer(deadline, registered, later) == SleepPoll::Ready,
{
}

/// What `started(now, duration)` is: due at `now + duration` and not yet
/// registered.
pub proof fn law_started(now: u64, duration: u64)
    ensures
        started(now, duration).spec_deadline() == (now + duration) as u64,
        !started(now, duration).spec_registered(),
{
}

} // verus!
