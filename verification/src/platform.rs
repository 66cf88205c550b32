//! What the handler asks of the operating system, and a record of it.
//!
//! The handler never touches a process itself. It asks a `Platform` to clear
//! the screen, to start the command, and to signal, kill, poll or await a
//! child, and it decides what to do next from the answers. The `Journal` that
//! stands between the two notes every call together with its answer, so that
//! the contracts of the handler can say what was asked, and in what order.

use crate::error::Error;
use crate::pathop::{views, PathOp, PathOpView};
use crate::signal::Signal;
use vstd::prelude::*;

verus! {

/// A child of the watcher: its process id, and whether it leads a process
/// group of its own that is to be addressed as a whole.
#[derive(Clone, Copy, Debug, PartialEq, Eq, Hash, Structural)]
pub struct Target {
    pub id: u32,
    pub group: bool,
}

/// The operating system, as far as running the command goes. Nothing is
/// taken for granted of an implementation: the handler is correct whatever
/// the calls answer.
pub trait Platform {
    /// Clears the terminal.
    fn clear_screen(&mut self) -> Result<(), Error>;

    /// Starts the command, in a process group of its own if `group` is set,
    /// and returns its process id. `changes` are the path operations to tell
    /// the command about through its environment, if it is to be told.
    fn launch(&mut self, group: bool, changes: Option<&[PathOp]>) -> Result<u32, Error>;

    /// Terminates the child.
    fn kill(&mut self, target: Target) -> Result<(), Error>;

    /// Delivers a signal to the child.
    fn signal(&mut self, target: Target, signal: Signal) -> Result<(), Error>;

    /// Whether the child has not exited yet; does not block.
    fn is_running(&mut self, target: Target) -> Result<bool, Error>;

    /// Blocks until the child has exited.
    fn wait(&mut self, target: Target) -> Result<(), Error>;
}

/// A call to the platform.
pub enum Call {
    ClearScreen,
    Launch { group: bool, changes: Option<Seq<PathOpView>> },
    Kill(Target),
    Signal(Target, Signal),
    Poll(Target),
    Wait(Target),
}

/// What the platform answered.
pub enum Answer {
    Done,
    Running(bool),
    Launched(u32),
    Failed(Error),
}

/// A call together with its answer.
pub struct Entry {
    pub call: Call,
    pub answer: Answer,
}

/// The answer that a call without a result of its own came back with.
pub open spec fn plain_answer(r: Result<(), Error>) -> Answer {
    match r {
        Ok(_) => Answer::Done,
        Err(e) => Answer::Failed(e),
    }
}

/// The answer that an attempt to start the command came back with.
pub open spec fn launch_answer(r: Result<u32, Error>) -> Answer {
    match r {
        Ok(id) => Answer::Launched(id),
        Err(e) => Answer::Failed(e),
    }
}

/// The answer that a look at a child came back with.
pub open spec fn poll_answer(r: Result<bool, Error>) -> Answer {
    match r {
        Ok(running) => Answer::Running(running),
        Err(e) => Answer::Failed(e),
    }
}

/// The path operations that a call carries, as the contracts see them.
pub open spec fn changes_view(changes: Option<&[PathOp]>) -> Option<Seq<PathOpView>> {
    match changes {
        Some(ops) => Some(views(ops@)),
        None => None,
    }
}

/// A platform together with the record of what was asked of it.
pub struct Journal<P: Platform> {
    platform: P,
    log: Ghost<Seq<Entry>>,
}

impl<P: Platform> Journal<P> {
    /// Every call made so far with its answer, oldest first.
    pub closed spec fn log(&self) -> Seq<Entry> {
        self.log@
    }

    pub fn new(platform: P) -> (r: Self)
        ensures
            r.log() == Seq::<Entry>::empty(),
            r.inner() == platform,
    {
        Journal { platform, log: Ghost(Seq::empty()) }
    }

    /// The platform itself.
    pub closed spec fn inner(&self) -> P {
        self.platform
    }

    /// The platform itself, to look at.
    pub fn platform(&self) -> (r: &P)
        ensures
            *r == self.inner(),
    {
        &self.platform
    }

    pub fn clear_screen(&mut self) -> (r: Result<(), Error>)
        ensures
            final(self).log() == old(self).log().push(
                Entry { call: Call::ClearScreen, answer: plain_answer(r) },
            ),
    {
        let r = self.platform.clear_screen();
        proof {
            self.log@ = self.log@.push(Entry { call: Call::ClearScreen, answer: plain_answer(r) });
        }
        r
    }

    pub fn launch(&mut self, group: bool, changes: Option<&[PathOp]>) -> (r: Result<u32, Error>)
        ensures
            final(self).log() == old(self).log().push(
                Entry {
                    call: Call::Launch { group, changes: changes_view(changes) },
                    answer: launch_answer(r),
                },
            ),
    {
        let r = self.platform.launch(group, changes);
        proof {
            self.log@ = self.log@.push(
                Entry {
                    call: Call::Launch { group, changes: changes_view(changes) },
                    answer: launch_answer(r),
                },
            );
        }
        r
    }

    pub fn kill(&mut self, target: Target) -> (r: Result<(), Error>)
        ensures
            final(self).log() == old(self).log().push(
                Entry { call: Call::Kill(target), answer: plain_answer(r) },
            ),
    {
        let r = self.platform.kill(target);
        proof {
            self.log@ = self.log@.push(Entry { call: Call::Kill(target), answer: plain_answer(r) });
        }
        r
    }

    pub fn signal(&mut self, target: Target, signal: Signal) -> (r: Result<(), Error>)
        ensures
            final(self).log() == old(self).log().push(
                Entry { call: Call::Signal(target, signal), answer: plain_answer(r) },
            ),
    {
        let r = self.platform.signal(target, signal);
        proof {
            self.log@ = self.log@.push(
                Entry { call: Call::Signal(target, signal), answer: plain_answer(r) },
            );
        }
        r
    }

    pub fn is_running(&mut self, target: Target) -> (r: Result<bool, Error>)
        ensures
            final(self).log() == old(self).log().push(
                Entry {
                    call: Call::Poll(target),
                    answer: poll_answer(r),
                },
            ),
    {
        let r = self.platform.is_running(target);
        proof {
            self.log@ = self.log@.push(
                Entry {
                    call: Call::Poll(target),
                    answer: poll_answer(r),
                },
            );
        }
        r
    }

    pub fn wait(&mut self, target: Target) -> (r: Result<(), Error>)
        ensures
            final(self).log() == old(self).log().push(
                Entry { call: Call::Wait(target), answer: plain_answer(r) },
            ),
    {
        let r = self.platform.wait(target);
        proof {
            self.log@ = self.log@.push(Entry { call: Call::Wait(target), answer: plain_answer(r) });
        }
        r
    }
}

} // verus!
