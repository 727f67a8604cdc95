//! Readiness registration of non-blocking sockets: what a listener's
//! `accept` or a stream's `read`/`write` does after each attempt.

use vstd::prelude::*;

verus! {

/// What an attempt on a non-blocking socket returned.
#[derive(PartialEq, Eq, Structural, Debug, Clone, Copy)]
pub enum IoAttempt {
    /// The operation finished, successfully or with an error other than
    /// "would block".
    Done,
    /// The operation would block: the task must wait for readiness.
    WouldBlock,
}

/// What the future must do after an attempt.
#[derive(PartialEq, Eq, Structural, Debug, Clone, Copy)]
pub enum IoAction {
    /// Complete with the attempt's result.
    Complete,
    /// First wait on this source: register it with the reactor under
    /// `token`, store the waker, and report pending.
    Register { token: usize },
    /// The source is already registered: re-register it under `token` to
    /// store the current waker, and report pending.
    Reregister { token: usize },
}

/// The reactor registration state of one socket: its token, and whether it
/// has been registered yet.
pub struct Registration {
    token: usize,
    registered: bool,
}

/// The action that follows `attempt` for a source with `token` that has or
/// has not (`registered`) been registered yet.
pub open spec fn action_for(token: usize, registered: bool, attempt: IoAttempt) -> IoAction {
    match attempt {
        IoAttempt::Done => IoAction::Complete,
        IoAttempt::WouldBlock => if registered {
            IoAction::Reregister { token }
        } else {
            IoAction::Register { token }
        },
    }
}

impl Registration {
    /// The socket's token.
    pub closed spec fn spec_token(&self) -> usize {
        self.token
    }

    /// Whether the socket has been registered with the reactor.
    pub closed spec fn spec_registered(&self) -> bool {
        self.registered
    }

    /// A socket with `token` that has not been registered yet.
    pub fn new(token: usize) -> (r: Self)
        ensures
            r.spec_token() == token,
            !r.spec_registered(),
    {
        Registration { token, registered: false }
    }

    /// The socket's token.
    pub fn token(&self) -> (t: usize)
        ensures
            t == self.spec_token(),
    {
        self.token
    }

    /// Whether the socket has been registered with the reactor.
    pub fn is_registered(&self) -> (b: bool)
        ensures
            b == self.spec_registered(),
    {
        self.registered
    }

    /// Decides what follows an attempt: a finished attempt completes the
    /// future; one that would block registers the socket the first time and
    /// re-registers it afterwards.
    pub fn after_attempt(&mut self, attempt: IoAttempt) -> (a: IoAction)
        ensures
            a == action_for(old(self).spec_token(), old(self).spec_registered(), attempt),
            final(self).spec_token() == old(self).spec_token(),
            final(self).spec_registered() == (old(self).spec_registered() || attempt
                == IoAttempt::WouldBlock),
    {
        match attempt {
            IoAttempt::Done => IoAction::Complete,
            IoAttempt::WouldBlock => {
                if self.registered {
                    IoAction::Reregister { token: self.token }
                } else {
                    self.registered = true;
                    IoAction::Register { token: self.token }
                }
            },
        }
    }
}

/// A socket is registered with the reactor at most once: the first attempt
/// that would block registers it, every later one re-registers it under the
/// same token, and a finished attempt completes whatever came before.
pub proof fn law_register_once(token: usize, registered: bool)
    ensures
        action_for(token, false, IoAttempt::WouldBlock) == (IoAction::Register { token }),
        action_for(token, true, IoAttempt::WouldBlock) == (IoAction::Reregister { token }),
        !(action_for(token, true, IoAttempt::WouldBlock) is Register),
        action_for(token, registered, IoAttempt::Done) == IoAction::Complete,
{
}

} // verus!
