//! The child slot of a handler: the one command that it may have running.

use crate::error::Error;
use crate::platform::{plain_answer, poll_answer, Call, Entry, Journal, Platform, Target};
use crate::signal::Signal;
use vstd::prelude::*;

verus! {

/// The command that a handler has started, if any, by its process id. A
/// grouped child leads a process group, and what is done to it is done to the
/// whole group.
///
/// The slot is not emptied when the child exits: it holds the child until
/// the next one takes its place.
#[derive(Clone, Copy, Debug, PartialEq, Eq, Hash, Structural)]
pub enum ChildProcess {
    Absent,
    Grouped(u32),
    Ungrouped(u32),
}

impl Default for ChildProcess {
    fn default() -> (r: Self)
        ensures
            r == ChildProcess::Absent,
    {
        ChildProcess::Absent
    }
}

impl ChildProcess {
    /// The child to address, if there is one.
    pub open spec fn target(self) -> Option<Target> {
        match self {
            ChildProcess::Absent => None,
            ChildProcess::Grouped(id) => Some(Target { id, group: true }),
            ChildProcess::Ungrouped(id) => Some(Target { id, group: false }),
        }
    }

    /// The child to address, if there is one.
    pub fn addressed(&self) -> (r: Option<Target>)
        ensures
            r == self.target(),
    {
        match self {
            ChildProcess::Absent => None,
            ChildProcess::Grouped(id) => Some(Target { id: *id, group: true }),
            ChildProcess::Ungrouped(id) => Some(Target { id: *id, group: false }),
        }
    }

    /// Sends `signal` to the child; with no child, does nothing and succeeds.
    pub fn signal<P: Platform>(&self, platform: &mut Journal<P>, signal: Signal) -> (r: Result<
        (),
        Error,
    >)
        ensures
            match self.target() {
                None => r is Ok && final(platform).log() == old(platform).log(),
                Some(t) => final(platform).log() == old(platform).log().push(
                    Entry { call: Call::Signal(t, signal), answer: plain_answer(r) },
                ),
            },
    {
        match self.addressed() {
            None => Ok(()),
            Some(t) => platform.signal(t, signal),
        }
    }

    /// Terminates the child; with no child, does nothing and succeeds.
    pub fn kill<P: Platform>(&self, platform: &mut Journal<P>) -> (r: Result<(), Error>)
        ensures
            match self.target() {
                None => r is Ok && final(platform).log() == old(platform).log(),
                Some(t) => final(platform).log() == old(platform).log().push(
                    Entry { call: Call::Kill(t), answer: plain_answer(r) },
                ),
            },
    {
        match self.addressed() {
            None => Ok(()),
            Some(t) => platform.kill(t),
        }
    }

    /// Whether the child has not exited yet, without blocking; with no child,
    /// `false` without asking.
    pub fn is_running<P: Platform>(&self, platform: &mut Journal<P>) -> (r: Result<bool, Error>)
        ensures
            match self.target() {
                None => r == Ok::<bool, Error>(false) && final(platform).log() == old(
                    platform,
                ).log(),
                Some(t) => final(platform).log() == old(platform).log().push(
                    Entry { call: Call::Poll(t), answer: poll_answer(r) },
                ),
            },
    {
        match self.addressed() {
            None => Ok(false),
            Some(t) => platform.is_running(t),
        }
    }

    /// Blocks until the child has exited; with no child, does nothing and
    /// succeeds.
    pub fn wait<P: Platform>(&self, platform: &mut Journal<P>) -> (r: Result<(), Error>)
        ensures
            match self.target() {
                None => r is Ok && final(platform).log() == old(platform).log(),
                Some(t) => final(platform).log() == old(platform).log().push(
                    Entry { call: Call::Wait(t), answer: plain_answer(r) },
                ),
            },
    {
        match self.addressed() {
            None => Ok(()),
            Some(t) => platform.wait(t),
        }
    }
}

} // verus!
