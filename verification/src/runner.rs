//! Running the command on every batch of changes: the watch loop with the
//! handler that runs the command.

use crate::child::ChildProcess;
use crate::config::Config;
use crate::debounce::{total, ArrivalView, Inbox};
use crate::error::Error;
use crate::exec::{
    manual_steps, run_explained, settings_of, update_explained, ExecHandler, Settings,
};
use crate::handler::{Handler, Visit};
use crate::pathop::{views, PathOp, PathOpView};
use crate::platform::{Entry, Platform};
use crate::record::{lemma_grown_by_nothing, since};
use crate::watch::{is_watch_of, watch_ends_well_when_asked, watch_loop, watched, Driven};
use vstd::prelude::*;

verus! {

/// Whether `entries` is the record of the one call to the command handler
/// that `visit` stands for, made with the child slot at `slot` and leaving
/// it at `end`.
pub open spec fn visit_explained(
    s: Settings,
    slot: ChildProcess,
    visit: Visit,
    entries: Seq<Entry>,
    end: ChildProcess,
) -> bool {
    match visit {
        Visit::Args(_) => false,
        Visit::Manual(answer) => run_explained(
            manual_steps(s),
            slot,
            s,
            Seq::<PathOpView>::empty(),
            entries,
            end,
            answer,
            true,
        ),
        Visit::Update(changes, answer) => update_explained(s, slot, changes, entries, end, answer),
    }
}

/// Whether `visits` are calls to the command handler one after the other,
/// from a child slot at `first` to one at `last`: each answer is one that
/// the handler gives to that call, for some answers of the platform.
pub open spec fn answered(
    s: Settings,
    first: ChildProcess,
    visits: Seq<Visit>,
    last: ChildProcess,
) -> bool
    decreases visits.len(),
{
    if visits.len() == 0 {
        first == last
    } else {
        exists|mid: ChildProcess, entries: Seq<Entry>|
            answered(s, first, visits.drop_last(), mid) && #[trigger] visit_explained(
                s,
                mid,
                visits.last(),
                entries,
                last,
            )
    }
}

/// The command handler asks to go on after every run by hand, and after a
/// change unless it is to run the command only once.
pub proof fn command_handler_stops_only_once(
    s: Settings,
    first: ChildProcess,
    visits: Seq<Visit>,
    last: ChildProcess,
    i: int,
)
    requires
        answered(s, first, visits, last),
        0 <= i < visits.len(),
    ensures
        match visits[i] {
            Visit::Args(_) => false,
            Visit::Manual(answer) => answer is Ok ==> answer == Ok::<bool, Error>(true),
            Visit::Update(_, answer) => answer is Ok ==> answer == Ok::<bool, Error>(!s.once),
        },
    decreases visits.len(),
{
    let (mid, entries) = choose|mid: ChildProcess, entries: Seq<Entry>|
        answered(s, first, visits.drop_last(), mid) && #[trigger] visit_explained(
            s,
            mid,
            visits.last(),
            entries,
            last,
        );
    if i < visits.len() - 1 {
        command_handler_stops_only_once(s, first, visits.drop_last(), mid, i);
        assert(visits.drop_last()[i] == visits[i]);
    }
}

/// With the command handler, watching ends well only where the command is
/// to run once: otherwise it ends with a failure, be it that the stream of
/// events closes.
pub proof fn run_ends_well_only_once(
    s: Settings,
    run_initially: bool,
    debounce: u64,
    no_meta: bool,
    pending: Seq<ArrivalView>,
    excluded: spec_fn(Seq<char>) -> bool,
    visits: Seq<Visit>,
    first: ChildProcess,
    last: ChildProcess,
)
    requires
        answered(s, first, visits, last),
        watched(run_initially, debounce, no_meta, pending, excluded, visits) matches Some((r, _))
            && r is Ok,
    ensures
        s.once,
{
    watch_ends_well_when_asked(run_initially, debounce, no_meta, pending, excluded, visits);
    command_handler_stops_only_once(s, first, visits, last, visits.len() - 1);
}

/// The command handler as the watch loop drives it.
struct Commanded<P: Platform> {
    handler: ExecHandler<P>,
    visits: Ghost<Seq<Visit>>,
}

impl<P: Platform> Driven for Commanded<P> {
    type Key = Settings;

    closed spec fn visits(&self) -> Seq<Visit> {
        self.visits@
    }

    closed spec fn sound(&self, key: Settings) -> bool {
        &&& self.handler.settings() == key
        &&& answered(key, ChildProcess::Absent, self.visits@, self.handler.slot())
    }

    fn manual(&mut self, key: Ghost<Settings>) -> (r: Result<bool, Error>) {
        let ghost slot = self.handler.slot();
        let ghost log = self.handler.log();
        let ghost seen = self.visits@;
        let r = self.handler.on_manual();
        proof {
            self.visits@ = seen.push(Visit::Manual(r));
            assert(self.visits@.drop_last() =~= seen);
            assert(visit_explained(
                key@,
                slot,
                self.visits@.last(),
                since(log, self.handler.log()),
                self.handler.slot(),
            ));
        }
        r
    }

    fn update(&mut self, ops: &[PathOp], key: Ghost<Settings>) -> (r: Result<bool, Error>) {
        let ghost slot = self.handler.slot();
        let ghost log = self.handler.log();
        let ghost seen = self.visits@;
        let r = self.handler.on_update(ops);
        proof {
            self.visits@ = seen.push(Visit::Update(views(ops@), r));
            assert(self.visits@.drop_last() =~= seen);
            assert(visit_explained(
                key@,
                slot,
                self.visits@.last(),
                since(log, self.handler.log()),
                self.handler.slot(),
            ));
        }
        r
    }
}

/// Runs the command as `args` say on every batch of changes that a recorded
/// stream holds: makes the handler that runs the command on `platform`, and
/// watches the stream with it.
///
/// The result and what is left of the stream are what `watched` says of
/// the stream and of the answers of the handler; and the answers are those
/// that the handler gives, from an empty child slot on, to what the platform
/// answers.
pub fn run<P: Platform, F: Fn(&str) -> bool>(
    args: Config,
    posix: bool,
    platform: P,
    rx: &mut Inbox,
    filter: &F,
) -> (r: Result<(), Error>)
    requires
        total(filter),
    ensures
        final(rx).pending().len() <= old(rx).pending().len(),
        exists|visits: Seq<Visit>, end: ChildProcess|
            {
                &&& #[trigger] answered(settings_of(args, posix), ChildProcess::Absent, visits, end)
                &&& is_watch_of(
                    filter,
                    args.run_initially,
                    args.debounce,
                    args.no_meta,
                    old(rx).pending(),
                    visits,
                    r,
                    final(rx).pending(),
                )
            },
{
    let settings = args.clone();
    let handler = match ExecHandler::new(args, posix, platform) {
        Ok(handler) => handler,
        Err(e) => {
            return Err(e);
        },
    };
    let mut commanded = Commanded { handler, visits: Ghost(Seq::empty()) };
    let r = watch_loop(&mut commanded, &settings, rx, filter, Ghost(settings_of(args, posix)));
    proof {
        lemma_grown_by_nothing(Seq::<Visit>::empty());
        assert(since(Seq::<Visit>::empty(), commanded.visits()) =~= commanded.visits());
        assert(answered(
            settings_of(args, posix),
            ChildProcess::Absent,
            commanded.visits(),
            commanded.handler.slot(),
        ));
    }
    r
}

} // verus!
