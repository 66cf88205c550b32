//! What the watch loop calls when something happens.

use crate::config::Config;
use crate::error::Error;
use crate::pathop::{views, PathOp, PathOpView};
use vstd::prelude::*;

verus! {

/// The receiving end of the watch loop. Each call answers with
///
/// - `Err`: an error has occurred while processing, quit;
/// - `Ok(true)`: everything is fine and the loop can continue;
/// - `Ok(false)`: everything is fine but the loop should stop.
pub trait Handler {
    /// Called through a manual request, such as an initial run.
    fn on_manual(&mut self) -> Result<bool, Error>;

    /// Called through a file-update request, with the path operations that
    /// triggered it.
    fn on_update(&mut self, ops: &[PathOp]) -> Result<bool, Error>;

    /// Called once by `watch` at the very start, and not again: later
    /// changes are never picked up.
    fn args(&self) -> Config;
}

/// What the watch loop does with an answer of the handler: `None` to go on,
/// or the result to stop with.
pub open spec fn stops_with(answer: Result<bool, Error>) -> Option<Result<(), Error>> {
    match answer {
        Ok(true) => None,
        Ok(false) => Some(Ok(())),
        Err(e) => Some(Err(e)),
    }
}

/// What the watch loop does with an answer of the handler: `None` to go on,
/// or the result to stop with.
pub fn next_move(answer: Result<bool, Error>) -> (r: Option<Result<(), Error>>)
    ensures
        r == stops_with(answer),
{
    match answer {
        Ok(true) => None,
        Ok(false) => Some(Ok(())),
        Err(e) => Some(Err(e)),
    }
}

/// One call to a handler with its answer.
pub enum Visit {
    /// The handler was asked for its settings.
    Args(Config),
    /// The handler was asked to run by hand.
    Manual(Result<bool, Error>),
    /// The handler was handed a batch of changes.
    Update(Seq<PathOpView>, Result<bool, Error>),
}

/// A handler together with the record of what it was called with and what
/// it answered. Nothing is taken for granted of the handler; the record
/// lets the contract of the watch loop say what the loop handed to it.
pub struct Recorded<H: Handler> {
    handler: H,
    visits: Ghost<Seq<Visit>>,
}

impl<H: Handler> Recorded<H> {
    /// Every call so far with its answer, oldest first.
    pub closed spec fn visits(&self) -> Seq<Visit> {
        self.visits@
    }

    pub closed spec fn inner(&self) -> H {
        self.handler
    }

    pub fn new(handler: H) -> (r: Self)
        ensures
            r.visits() == Seq::<Visit>::empty(),
            r.inner() == handler,
    {
        Recorded { handler, visits: Ghost(Seq::empty()) }
    }

    /// The handler itself, to look at.
    pub fn handler(&self) -> (r: &H)
        ensures
            *r == self.inner(),
    {
        &self.handler
    }

    /// Gives the handler back.
    pub fn into_handler(self) -> (r: H)
        ensures
            r == self.inner(),
    {
        self.handler
    }

    pub fn on_manual(&mut self) -> (r: Result<bool, Error>)
        ensures
            final(self).visits() == old(self).visits().push(Visit::Manual(r)),
    {
        let r = self.handler.on_manual();
        proof {
            self.visits@ = self.visits@.push(Visit::Manual(r));
        }
        r
    }

    pub fn on_update(&mut self, ops: &[PathOp]) -> (r: Result<bool, Error>)
        ensures
            final(self).visits() == old(self).visits().push(Visit::Update(views(ops@), r)),
    {
        let r = self.handler.on_update(ops);
        proof {
            self.visits@ = self.visits@.push(Visit::Update(views(ops@), r));
        }
        r
    }

    pub fn args(&mut self) -> (r: Config)
        ensures
            final(self).visits() == old(self).visits().push(Visit::Args(r)),
    {
        let r = self.handler.args();
        proof {
            self.visits@ = self.visits@.push(Visit::Args(r));
        }
        r
    }
}

} // verus!
