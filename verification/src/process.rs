//! Killing a child process when its handle is dropped, unless the child has
//! already been reaped or killed, or the guard was told to forget it.

use vstd::prelude::*;

verus! {

/// Holds a child process and remembers whether it still has to be killed when the
/// guard is dropped.
#[derive(Debug)]
pub struct ChildDropGuard<T> {
    inner: T,
    kill_on_drop: bool,
}

impl<T> ChildDropGuard<T> {
    /// The child.
    pub closed spec fn child(&self) -> T {
        self.inner
    }

    /// Whether dropping the guard kills the child.
    pub closed spec fn armed(&self) -> bool {
        self.kill_on_drop
    }

    /// Guards `inner`; dropping the guard kills it.
    pub fn new(inner: T) -> (g: ChildDropGuard<T>)
        ensures
            g.child() == inner,
            g.armed(),
    {
        ChildDropGuard { inner, kill_on_drop: true }
    }

    /// Dropping the guard no longer kills the child.
    pub fn forget(&mut self)
        ensures
            final(self).child() == old(self).child(),
            !final(self).armed(),
    {
        self.kill_on_drop = false;
    }

    /// The child.
    pub fn get_ref(&self) -> (r: &T)
        ensures
            *r == self.child(),
    {
        &self.inner
    }

    /// The child, to be killed or polled in place.
    pub fn get_mut(&mut self) -> (r: &mut T)
        ensures
            *r == old(self).child(),
            final(self).child() == *final(r),
            final(self).armed() == old(self).armed(),
    {
        &mut self.inner
    }

    /// Takes in whether killing the child succeeded: once it did, dropping the
    /// guard no longer kills it.
    pub fn record_kill(&mut self, succeeded: bool)
        ensures
            final(self).child() == old(self).child(),
            final(self).armed() == (old(self).armed() && !succeeded),
    {
        if succeeded {
            self.kill_on_drop = false;
        }
    }

    /// Takes in whether polling the child finished, with its exit status or with an
    /// error: a child that was waited for is not killed on drop.
    pub fn record_poll(&mut self, ready: bool)
        ensures
            final(self).child() == old(self).child(),
            final(self).armed() == (old(self).armed() && !ready),
    {
        if ready {
            self.kill_on_drop = false;
        }
    }

    /// Whether dropping the guard now kills the child.
    pub fn kills_on_drop(&self) -> (r: bool)
        ensures
            r == self.armed(),
    {
        self.kill_on_drop
    }
}


/// What polling a child for its exit does next.
#[derive(Debug, Clone, Copy, PartialEq, Eq, Structural)]
pub enum WaitAction {
    /// Ask whether the child has exited, without blocking.
    TryWait,
    /// Poll the signal that the registered wait sends when the child exits.
    PollSignal,
    /// Register a wait that signals when the child exits.
    RegisterWait,
}

/// What polling a child for its exit comes to, for now.
#[derive(Debug, PartialEq, Eq)]
pub enum WaitOutcome<S, E> {
    /// The poll is over with this result.
    Ready(Result<S, E>),
    /// Take the next action.
    Next(WaitAction),
    /// The child was signalled as exited but has not exited; the poll cannot go on.
    NotExited,
}

/// The state of polling a child process for its exit where that takes a
/// registered wait: whether such a wait is registered.
#[derive(Debug)]
pub struct ChildWait {
    waiting: bool,
}

impl ChildWait {
    /// Whether a wait for the child is registered.
    pub closed spec fn is_waiting(&self) -> bool {
        self.waiting
    }

    /// No wait registered yet.
    pub fn new() -> (w: ChildWait)
        ensures
            !w.is_waiting(),
    {
        ChildWait { waiting: false }
    }

    /// The first action of a poll: with a wait registered, poll its signal; else ask
    /// whether the child has exited.
    pub fn start(&self) -> (a: WaitAction)
        ensures
            a == if self.is_waiting() {
                WaitAction::PollSignal
            } else {
                WaitAction::TryWait
            },
    {
        if self.waiting {
            WaitAction::PollSignal
        } else {
            WaitAction::TryWait
        }
    }

    /// Takes in whether the signal has come: if it has, ask whether the child has
    /// exited; if not, the poll is pending (`None`).
    pub fn record_signal(&self, signalled: bool) -> (a: Option<WaitAction>)
        requires
            self.is_waiting(),
        ensures
            signalled ==> a == Some(WaitAction::TryWait),
            !signalled ==> a.is_none(),
    {
        if signalled {
            Some(WaitAction::TryWait)
        } else {
            None
        }
    }

    /// Takes in what asking whether the child has exited returned: an exit status
    /// or an error ends the poll; no status registers a wait, unless one is
    /// registered already, in which case the child was signalled without having
    /// exited.
    pub fn record_try_wait<S, E>(&self, r: Result<Option<S>, E>) -> (o: WaitOutcome<S, E>)
        ensures
            match r {
                Ok(Some(s)) => o == WaitOutcome::<S, E>::Ready(Ok(s)),
                Err(e) => o == WaitOutcome::<S, E>::Ready(Err(e)),
                Ok(None) => if self.is_waiting() {
                    o == WaitOutcome::<S, E>::NotExited
                } else {
                    o == WaitOutcome::<S, E>::Next(WaitAction::RegisterWait)
                },
            },
    {
        match r {
            Ok(Some(s)) => WaitOutcome::Ready(Ok(s)),
            Err(e) => WaitOutcome::Ready(Err(e)),
            Ok(None) => {
                if self.waiting {
                    WaitOutcome::NotExited
                } else {
                    WaitOutcome::Next(WaitAction::RegisterWait)
                }
            },
        }
    }

    /// Takes in whether registering the wait succeeded: if it did, the wait is
    /// registered and its signal is polled next; if not, the poll fails with the
    /// registration's error.
    pub fn record_register<E>(&mut self, r: Result<(), E>) -> (o: WaitOutcome<(), E>)
        requires
            !old(self).is_waiting(),
        ensures
            match r {
                Ok(()) => final(self).is_waiting() && o == WaitOutcome::<(), E>::Next(
                    WaitAction::PollSignal,
                ),
                Err(e) => !final(self).is_waiting() && o == WaitOutcome::<(), E>::Ready(Err(e)),
            },
    {
        match r {
            Ok(()) => {
                self.waiting = true;
                WaitOutcome::Next(WaitAction::PollSignal)
            },
            Err(e) => WaitOutcome::Ready(Err(e)),
        }
    }
}

} // verus!
