//! Signals by name, so that a signal means the same on every platform.

use vstd::prelude::*;

verus! {

/// A signal that can be delivered to the command. The signals that the
/// watcher treats by name have a variant each; any other is held by its
/// number on the platform at hand.
#[derive(Clone, Copy, Debug, PartialEq, Eq, Hash, Structural)]
pub enum Signal {
    SIGHUP,
    SIGINT,
    SIGQUIT,
    SIGKILL,
    SIGTERM,
    SIGSTOP,
    SIGCONT,
    SIGCHLD,
    SIGUSR1,
    SIGUSR2,
    Other(i32),
}

/// The signal that a name stands for. A signal can be named in full, without
/// the `SIG` in front, or, where the number is the same on every platform, by
/// its number. Any other text names no signal.
pub open spec fn named(name: Seq<char>) -> Option<Signal> {
    if name == "SIGHUP"@ || name == "HUP"@ || name == "1"@ {
        Some(Signal::SIGHUP)
    } else if name == "SIGINT"@ || name == "INT"@ || name == "2"@ {
        Some(Signal::SIGINT)
    } else if name == "SIGQUIT"@ || name == "QUIT"@ || name == "3"@ {
        Some(Signal::SIGQUIT)
    } else if name == "SIGKILL"@ || name == "KILL"@ || name == "9"@ {
        Some(Signal::SIGKILL)
    } else if name == "SIGTERM"@ || name == "TERM"@ || name == "15"@ {
        Some(Signal::SIGTERM)
    } else if name == "SIGSTOP"@ || name == "STOP"@ {
        Some(Signal::SIGSTOP)
    } else if name == "SIGCONT"@ || name == "CONT"@ {
        Some(Signal::SIGCONT)
    } else if name == "SIGCHLD"@ || name == "CHLD"@ {
        Some(Signal::SIGCHLD)
    } else if name == "SIGUSR1"@ || name == "USR1"@ {
        Some(Signal::SIGUSR1)
    } else if name == "SIGUSR2"@ || name == "USR2"@ {
        Some(Signal::SIGUSR2)
    } else {
        None
    }
}

fn is_one_of(name: &str, full: &str, short: &str) -> (r: bool)
    ensures
        r == (name@ == full@ || name@ == short@),
{
    let name = name.to_owned();
    name == full.to_owned() || name == short.to_owned()
}

fn is_exactly(name: &str, text: &str) -> (r: bool)
    ensures
        r == (name@ == text@),
{
    name.to_owned() == text.to_owned()
}

impl Signal {
    /// The signal that `name` stands for, if it names one.
    pub fn from_name(name: &str) -> (r: Option<Signal>)
        ensures
            r == named(name@),
    {
        if is_one_of(name, "SIGHUP", "HUP") || is_exactly(name, "1") {
            Some(Signal::SIGHUP)
        } else if is_one_of(name, "SIGINT", "INT") || is_exactly(name, "2") {
            Some(Signal::SIGINT)
        } else if is_one_of(name, "SIGQUIT", "QUIT") || is_exactly(name, "3") {
            Some(Signal::SIGQUIT)
        } else if is_one_of(name, "SIGKILL", "KILL") || is_exactly(name, "9") {
            Some(Signal::SIGKILL)
        } else if is_one_of(name, "SIGTERM", "TERM") || is_exactly(name, "15") {
            Some(Signal::SIGTERM)
        } else if is_one_of(name, "SIGSTOP", "STOP") {
            Some(Signal::SIGSTOP)
        } else if is_one_of(name, "SIGCONT", "CONT") {
            Some(Signal::SIGCONT)
        } else if is_one_of(name, "SIGCHLD", "CHLD") {
            Some(Signal::SIGCHLD)
        } else if is_one_of(name, "SIGUSR1", "USR1") {
            Some(Signal::SIGUSR1)
        } else if is_one_of(name, "SIGUSR2", "USR2") {
            Some(Signal::SIGUSR2)
        } else {
            None
        }
    }

    /// Whether the signal asks the command to end: the two signals that a
    /// platform without signals can still honour, by killing the command.
    pub open spec fn terminates(self) -> bool {
        self == Signal::SIGTERM || self == Signal::SIGKILL
    }

    pub fn is_terminating(self) -> (r: bool)
        ensures
            r == self.terminates(),
    {
        match self {
            Signal::SIGTERM => true,
            Signal::SIGKILL => true,
            _ => false,
        }
    }

    /// Whether the signal reports that a child of the watcher changed state.
    pub fn is_child_status(self) -> (r: bool)
        ensures
            r == (self == Signal::SIGCHLD),
    {
        match self {
            Signal::SIGCHLD => true,
            _ => false,
        }
    }
}

} // verus!
