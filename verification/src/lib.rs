//! The coordination core of a file-watching command runner: it debounces
//! bursts of filesystem events, filters them, and decides what becomes of
//! the command when changes arrive.
//!
//! Nothing here touches a file, a process or a signal. Events come from a
//! source that the caller feeds, and all that is done to the command goes
//! through a `Platform` that the caller supplies.

pub mod batch;
pub mod child;
pub mod config;
pub mod debounce;
pub mod error;
pub mod exec;
pub mod handler;
pub mod pathop;
pub mod platform;
pub mod policy;
pub mod record;
pub mod runner;
pub mod signal;
pub mod watch;

pub use crate::child::ChildProcess;
pub use crate::config::{Config, OnBusyUpdate};
pub use crate::debounce::wait_fs;
pub use crate::error::Error;
pub use crate::exec::ExecHandler;
pub use crate::handler::Handler;
pub use crate::pathop::PathOp;
pub use crate::runner::run;
pub use crate::signal::Signal;
pub use crate::watch::watch;
