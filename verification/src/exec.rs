//! The handler that runs the command: what it does when a change arrives
//! while the command is or is not running.
//!
//! What the handler does is laid down as a list of steps, which depends only
//! on the settings and on whether the command is running. The steps are then
//! carried out one after the other against the platform, and the first
//! failure that matters ends the run.

use crate::child::ChildProcess;
use crate::config::{Config, OnBusyUpdate};
use crate::error::Error;
use crate::handler::Handler;
use crate::pathop::{views, PathOp, PathOpView};
use crate::platform::{poll_answer, Answer, Call, Entry, Journal, Platform};
use crate::record::{extends, lemma_grown_by_one_at_most, lemma_grown_twice, since};
use crate::signal::{named, Signal};
use vstd::prelude::*;

verus! {

/// One thing that the handler does to the command or to the terminal.
#[derive(Clone, Copy, Debug, PartialEq, Eq, Hash, Structural)]
pub enum Step {
    /// Clear the terminal.
    ClearScreen,
    /// Terminate the child in the slot. That this fails is of no
    /// consequence: what matters is the command that takes its place.
    Kill,
    /// Start the command and put it in the slot.
    Launch,
    /// Send a signal to the child in the slot.
    Signal(Signal),
    /// Wait for the child in the slot to exit.
    Wait,
}

/// What of the configuration and the platform bears on the handler's steps.
pub struct Settings {
    pub clear_screen: bool,
    pub use_process_group: bool,
    pub no_environment: bool,
    pub once: bool,
    pub on_busy_update: OnBusyUpdate,
    /// The signal that the user chose, if any.
    pub signal: Option<Signal>,
    /// Whether the platform can deliver signals.
    pub posix: bool,
}

impl Settings {
    /// The signal to send to a running command: the user's, or `SIGTERM`.
    pub open spec fn busy_signal(self) -> Signal {
        match self.signal {
            Some(signal) => signal,
            None => Signal::SIGTERM,
        }
    }
}

/// The steps that start the command: replace whatever is in the slot.
pub open spec fn spawn_steps(s: Settings) -> Seq<Step> {
    if s.clear_screen {
        seq![Step::ClearScreen, Step::Kill, Step::Launch]
    } else {
        seq![Step::Kill, Step::Launch]
    }
}

/// The steps that a change calls for, by whether the command is running and
/// by the policy for a busy command.
pub open spec fn dispatch_steps(s: Settings, running: bool) -> Seq<Step> {
    if !running {
        spawn_steps(s)
    } else {
        match s.on_busy_update {
            OnBusyUpdate::Signal => seq![Step::Signal(s.busy_signal())],
            OnBusyUpdate::Restart => seq![Step::Signal(s.busy_signal()), Step::Wait] + spawn_steps(
                s,
            ),
            OnBusyUpdate::Queue => seq![Step::Wait] + spawn_steps(s),
            OnBusyUpdate::DoNothing => Seq::empty(),
        }
    }
}

/// The steps that end a run that is to happen only once: the user's signal,
/// if there is one, and a wait for the command.
pub open spec fn once_steps(s: Settings) -> Seq<Step> {
    if !s.once {
        Seq::empty()
    } else {
        match s.signal {
            Some(signal) => seq![Step::Signal(signal), Step::Wait],
            None => seq![Step::Wait],
        }
    }
}

/// All the steps that a change calls for.
pub open spec fn update_steps(s: Settings, running: bool) -> Seq<Step> {
    dispatch_steps(s, running) + once_steps(s)
}

/// The steps of a run that was asked for by hand.
pub open spec fn manual_steps(s: Settings) -> Seq<Step> {
    if s.once {
        Seq::empty()
    } else {
        spawn_steps(s)
    }
}

/// The call that a step makes with `slot` as it stands, if it makes one.
/// A step that addresses the child makes none where the slot is empty. On a
/// platform without signals, a signal that asks the command to end becomes a
/// kill, and any other signal is not sent.
pub open spec fn call_for(
    step: Step,
    slot: ChildProcess,
    s: Settings,
    changes: Seq<PathOpView>,
) -> Option<Call> {
    match step {
        Step::ClearScreen => Some(Call::ClearScreen),
        Step::Launch => Some(
            Call::Launch {
                group: s.use_process_group,
                changes: if s.no_environment {
                    None
                } else {
                    Some(changes)
                },
            },
        ),
        Step::Kill => match slot.target() {
            Some(t) => Some(Call::Kill(t)),
            None => None,
        },
        Step::Wait => match slot.target() {
            Some(t) => Some(Call::Wait(t)),
            None => None,
        },
        Step::Signal(signal) => match slot.target() {
            Some(t) => if s.posix {
                Some(Call::Signal(t, signal))
            } else if signal.terminates() {
                Some(Call::Kill(t))
            } else {
                None
            },
            None => None,
        },
    }
}

/// The slot after a step that came back with `answer`: only a command that
/// was started changes it.
pub open spec fn slot_after(step: Step, slot: ChildProcess, s: Settings, answer: Answer)
    -> ChildProcess {
    match (step, answer) {
        (Step::Launch, Answer::Launched(id)) => if s.use_process_group {
            ChildProcess::Grouped(id)
        } else {
            ChildProcess::Ungrouped(id)
        },
        _ => slot,
    }
}

/// Whether `entries` is the record of carrying out `steps` from `slot`:
/// each step that makes a call has its entry, in order; the run goes on
/// after an answer unless it is a failure of a step other than `Kill`; it
/// ends with the slot `end`, and with `failure` if it was cut short.
pub open spec fn explains(
    steps: Seq<Step>,
    slot: ChildProcess,
    s: Settings,
    changes: Seq<PathOpView>,
    entries: Seq<Entry>,
    end: ChildProcess,
    failure: Option<Error>,
) -> bool
    decreases steps.len(),
{
    if steps.len() == 0 {
        entries.len() == 0 && end == slot && failure is None
    } else {
        match call_for(steps[0], slot, s, changes) {
            None => explains(steps.skip(1), slot, s, changes, entries, end, failure),
            Some(call) => {
                &&& entries.len() > 0
                &&& entries[0].call == call
                &&& match entries[0].answer {
                    Answer::Failed(e) if steps[0] != Step::Kill => {
                        &&& entries.len() == 1
                        &&& end == slot
                        &&& failure == Some(e)
                    },
                    answer => explains(
                        steps.skip(1),
                        slot_after(steps[0], slot, s, answer),
                        s,
                        changes,
                        entries.skip(1),
                        end,
                        failure,
                    ),
                }
            },
        }
    }
}

/// The failure that a result stands for, if it is one.
pub open spec fn failure_of(r: Result<(), Error>) -> Option<Error> {
    match r {
        Ok(_) => None,
        Err(e) => Some(e),
    }
}

/// A run of `first` that went through, followed by a run of `rest`, is a run
/// of the two in a row.
pub proof fn lemma_explains_then(
    first: Seq<Step>,
    rest: Seq<Step>,
    slot: ChildProcess,
    s: Settings,
    changes: Seq<PathOpView>,
    entries: Seq<Entry>,
    mid: ChildProcess,
    more: Seq<Entry>,
    end: ChildProcess,
    failure: Option<Error>,
)
    requires
        explains(first, slot, s, changes, entries, mid, None),
        explains(rest, mid, s, changes, more, end, failure),
    ensures
        explains(first + rest, slot, s, changes, entries + more, end, failure),
    decreases first.len(),
{
    if first.len() == 0 {
        assert(first + rest =~= rest);
        assert(entries + more =~= more);
    } else {
        let all = first + rest;
        assert(all[0] == first[0]);
        assert(all.skip(1) =~= first.skip(1) + rest);
        match call_for(first[0], slot, s, changes) {
            None => {
                lemma_explains_then(
                    first.skip(1),
                    rest,
                    slot,
                    s,
                    changes,
                    entries,
                    mid,
                    more,
                    end,
                    failure,
                );
            },
            Some(call) => {
                let next = slot_after(first[0], slot, s, entries[0].answer);
                assert((entries + more)[0] == entries[0]);
                assert((entries + more).skip(1) =~= entries.skip(1) + more);
                lemma_explains_then(
                    first.skip(1),
                    rest,
                    next,
                    s,
                    changes,
                    entries.skip(1),
                    mid,
                    more,
                    end,
                    failure,
                );
            },
        }
    }
}

/// A run of `first` that was cut short is a run of `first` and whatever was
/// to follow.
pub proof fn lemma_explains_cut_short(
    first: Seq<Step>,
    rest: Seq<Step>,
    slot: ChildProcess,
    s: Settings,
    changes: Seq<PathOpView>,
    entries: Seq<Entry>,
    end: ChildProcess,
    e: Error,
)
    requires
        explains(first, slot, s, changes, entries, end, Some(e)),
    ensures
        explains(first + rest, slot, s, changes, entries, end, Some(e)),
    decreases first.len(),
{
    if first.len() > 0 {
        let all = first + rest;
        assert(all[0] == first[0]);
        assert(all.skip(1) =~= first.skip(1) + rest);
        match call_for(first[0], slot, s, changes) {
            None => {
                lemma_explains_cut_short(first.skip(1), rest, slot, s, changes, entries, end, e);
            },
            Some(call) => {
                let stops = entries[0].answer is Failed && first[0] != Step::Kill;
                if !stops {
                    lemma_explains_cut_short(
                        first.skip(1),
                        rest,
                        slot_after(first[0], slot, s, entries[0].answer),
                        s,
                        changes,
                        entries.skip(1),
                        end,
                        e,
                    );
                }
            },
        }
    }
}

/// What a run of one step looks like.
pub open spec fn explains_one(
    step: Step,
    slot: ChildProcess,
    s: Settings,
    changes: Seq<PathOpView>,
    entries: Seq<Entry>,
    end: ChildProcess,
    failure: Option<Error>,
) -> bool {
    match call_for(step, slot, s, changes) {
        None => entries.len() == 0 && end == slot && failure is None,
        Some(call) => {
            &&& entries.len() == 1
            &&& entries[0].call == call
            &&& match entries[0].answer {
                Answer::Failed(e) if step != Step::Kill => end == slot && failure == Some(e),
                answer => end == slot_after(step, slot, s, answer) && failure is None,
            }
        },
    }
}

/// A run of one step is a run of the list that holds that step alone.
pub proof fn lemma_explains_one(
    step: Step,
    slot: ChildProcess,
    s: Settings,
    changes: Seq<PathOpView>,
    entries: Seq<Entry>,
    end: ChildProcess,
    failure: Option<Error>,
)
    ensures
        explains(seq![step], slot, s, changes, entries, end, failure) == explains_one(
            step,
            slot,
            s,
            changes,
            entries,
            end,
            failure,
        ),
{
    reveal_with_fuel(explains, 2);
    let steps = seq![step];
    assert(steps[0] == step);
    assert(steps.skip(1).len() == 0);
    if entries.len() > 0 {
        assert(entries.skip(1).len() == entries.len() - 1);
    }
}

/// Sends `signal` to the child in the slot. Where the platform has no
/// signals, a signal that asks the command to end kills it, and any other is
/// dropped.
pub fn signal_process<P: Platform>(
    process: &ChildProcess,
    platform: &mut Journal<P>,
    signal: Signal,
    posix: bool,
) -> (r: Result<(), Error>)
    ensures
        extends(old(platform).log(), final(platform).log()),
        forall|s: Settings, changes: Seq<PathOpView>|
            s.posix == posix ==> #[trigger] explains_one(
                Step::Signal(signal),
                *process,
                s,
                changes,
                since(old(platform).log(), final(platform).log()),
                *process,
                failure_of(r),
            ),
{
    let ghost before = platform.log();
    let r = if posix {
        process.signal(platform, signal)
    } else if signal.is_terminating() {
        process.kill(platform)
    } else {
        Ok(())
    };
    proof {
        lemma_grown_by_one_at_most(before, platform.log());
    }
    r
}

/// Waits for the child in the slot to exit.
pub fn wait_on_process<P: Platform>(process: &ChildProcess, platform: &mut Journal<P>) -> (r:
    Result<(), Error>)
    ensures
        extends(old(platform).log(), final(platform).log()),
        forall|s: Settings, changes: Seq<PathOpView>| #[trigger]
            explains_one(
                Step::Wait,
                *process,
                s,
                changes,
                since(old(platform).log(), final(platform).log()),
                *process,
                failure_of(r),
            ),
{
    let ghost before = platform.log();
    let r = process.wait(platform);
    proof {
        lemma_grown_by_one_at_most(before, platform.log());
    }
    r
}

/// The settings of a handler made from `args` on a platform that has
/// signals or has none.
pub open spec fn settings_of(args: Config, posix: bool) -> Settings {
    Settings {
        clear_screen: args.clear_screen,
        use_process_group: args.use_process_group,
        no_environment: args.no_environment,
        once: args.once,
        on_busy_update: args.on_busy_update,
        signal: match args.signal {
            Some(name) => named(name@),
            None => None,
        },
        posix,
    }
}

/// Whether `r` and `entries` are the result and the record of carrying out
/// `steps`: a run that went through says `verdict`, one that was cut short
/// fails with what cut it short.
pub open spec fn run_explained(
    steps: Seq<Step>,
    slot: ChildProcess,
    s: Settings,
    changes: Seq<PathOpView>,
    entries: Seq<Entry>,
    end: ChildProcess,
    r: Result<bool, Error>,
    verdict: bool,
) -> bool {
    match r {
        Ok(v) => v == verdict && explains(steps, slot, s, changes, entries, end, None),
        Err(e) => explains(steps, slot, s, changes, entries, end, Some(e)),
    }
}

/// Whether `r` and `entries` are the result and the record of handling a
/// change: a look at the child in the slot, if there is one, and then the
/// steps that the settings call for. The handler asks to go on unless it is
/// to run only once.
pub open spec fn update_explained(
    s: Settings,
    slot: ChildProcess,
    changes: Seq<PathOpView>,
    entries: Seq<Entry>,
    end: ChildProcess,
    r: Result<bool, Error>,
) -> bool {
    match slot.target() {
        None => run_explained(
            update_steps(s, false),
            slot,
            s,
            changes,
            entries,
            end,
            r,
            !s.once,
        ),
        Some(t) => {
            &&& entries.len() > 0
            &&& entries[0].call == Call::Poll(t)
            &&& match entries[0].answer {
                Answer::Running(running) => run_explained(
                    update_steps(s, running),
                    slot,
                    s,
                    changes,
                    entries.skip(1),
                    end,
                    r,
                    !s.once,
                ),
                Answer::Failed(e) => entries.len() == 1 && end == slot && r == Err::<bool, Error>(e),
                _ => false,
            }
        },
    }
}

/// Whether `entries` is the record of passing a signal on that the watcher
/// itself received: a notice that a child changed state makes the handler
/// look at its child; any other signal goes to the child, or, where the
/// platform has no signals, ends it.
pub open spec fn signal_explained(
    s: Settings,
    slot: ChildProcess,
    signal: Signal,
    entries: Seq<Entry>,
) -> bool {
    match slot.target() {
        None => entries.len() == 0,
        Some(t) => {
            &&& entries.len() == 1
            &&& entries[0].call == if signal == Signal::SIGCHLD {
                Call::Poll(t)
            } else if s.posix {
                Call::Signal(t, signal)
            } else {
                Call::Kill(t)
            }
        },
    }
}

/// Runs the command when asked to, and whenever a change is reported.
pub struct ExecHandler<P: Platform> {
    args: Config,
    signal: Option<Signal>,
    posix: bool,
    child_process: ChildProcess,
    platform: Journal<P>,
}

impl<P: Platform> ExecHandler<P> {
    pub closed spec fn config(&self) -> Config {
        self.args
    }

    pub closed spec fn settings(&self) -> Settings {
        Settings {
            clear_screen: self.args.clear_screen,
            use_process_group: self.args.use_process_group,
            no_environment: self.args.no_environment,
            once: self.args.once,
            on_busy_update: self.args.on_busy_update,
            signal: self.signal,
            posix: self.posix,
        }
    }

    /// The child slot.
    pub closed spec fn slot(&self) -> ChildProcess {
        self.child_process
    }

    /// Every call to the platform so far with its answer, oldest first.
    pub closed spec fn log(&self) -> Seq<Entry> {
        self.platform.log()
    }

    /// The platform that the handler runs the command on.
    pub closed spec fn system(&self) -> P {
        self.platform.inner()
    }

    /// A handler with an empty slot. The name of the signal in `args` is
    /// resolved here, once; a name that names no signal counts as none
    /// given. `posix` says whether the platform can deliver signals.
    pub fn new(args: Config, posix: bool, platform: P) -> (r: Result<Self, Error>)
        ensures
            r matches Ok(h) && h.config() == args && h.settings() == settings_of(args, posix)
                && h.slot() == ChildProcess::Absent && h.log() == Seq::<Entry>::empty()
                && h.system() == platform,
    {
        let signal = match &args.signal {
            Some(name) => Signal::from_name(name.as_str()),
            None => None,
        };
        Ok(
            ExecHandler {
                args,
                signal,
                posix,
                child_process: ChildProcess::Absent,
                platform: Journal::new(platform),
            },
        )
    }

    /// The child slot.
    pub fn child(&self) -> (r: ChildProcess)
        ensures
            r == self.slot(),
    {
        self.child_process
    }

    /// The platform, to look at.
    pub fn platform(&self) -> (r: &P)
        ensures
            *r == self.system(),
    {
        self.platform.platform()
    }

    fn spawn_plan(&self) -> (r: Vec<Step>)
        ensures
            r@ == spawn_steps(self.settings()),
    {
        let mut steps = Vec::new();
        if self.args.clear_screen {
            steps.push(Step::ClearScreen);
        }
        steps.push(Step::Kill);
        steps.push(Step::Launch);
        assert(steps@ =~= spawn_steps(self.settings()));
        steps
    }

    /// The steps of a run that was asked for by hand.
    pub fn manual_plan(&self) -> (r: Vec<Step>)
        ensures
            r@ == manual_steps(self.settings()),
    {
        if self.args.once {
            Vec::new()
        } else {
            self.spawn_plan()
        }
    }

    /// The steps that a change calls for, given whether the command is
    /// running.
    pub fn update_plan(&self, running: bool) -> (r: Vec<Step>)
        ensures
            r@ == update_steps(self.settings(), running),
    {
        let signal = match self.signal {
            Some(signal) => signal,
            None => Signal::SIGTERM,
        };
        let ghost s = self.settings();
        let mut steps: Vec<Step> = Vec::new();
        if running {
            match self.args.on_busy_update {
                OnBusyUpdate::Signal => {
                    steps.push(Step::Signal(signal));
                },
                OnBusyUpdate::Restart => {
                    steps.push(Step::Signal(signal));
                    steps.push(Step::Wait);
                },
                OnBusyUpdate::Queue => {
                    steps.push(Step::Wait);
                },
                OnBusyUpdate::DoNothing => {},
            }
        }
        let spawns = match (running, self.args.on_busy_update) {
            (false, _) => true,
            (true, OnBusyUpdate::Restart) => true,
            (true, OnBusyUpdate::Queue) => true,
            _ => false,
        };
        if spawns {
            if self.args.clear_screen {
                steps.push(Step::ClearScreen);
            }
            steps.push(Step::Kill);
            steps.push(Step::Launch);
        }
        assert(steps@ =~= dispatch_steps(s, running));
        if self.args.once {
            if let Some(signal) = self.signal {
                steps.push(Step::Signal(signal));
            }
            steps.push(Step::Wait);
        }
        assert(steps@ =~= update_steps(s, running));
        steps
    }

    /// Carries out one step.
    fn perform(&mut self, step: Step, ops: &[PathOp]) -> (r: Result<(), Error>)
        ensures
            final(self).config() == old(self).config(),
            final(self).settings() == old(self).settings(),
            extends(old(self).log(), final(self).log()),
            explains_one(
                step,
                old(self).slot(),
                old(self).settings(),
                views(ops@),
                since(old(self).log(), final(self).log()),
                final(self).slot(),
                failure_of(r),
            ),
    {
        let ghost before = self.platform.log();
        let child = self.child_process;
        let r = match step {
            Step::ClearScreen => self.platform.clear_screen(),
            Step::Kill => {
                let _ = child.kill(&mut self.platform);
                Ok(())
            },
            Step::Launch => {
                let changes = if self.args.no_environment {
                    None
                } else {
                    Some(ops)
                };
                match self.platform.launch(self.args.use_process_group, changes) {
                    Ok(id) => {
                        self.child_process = if self.args.use_process_group {
                            ChildProcess::Grouped(id)
                        } else {
                            ChildProcess::Ungrouped(id)
                        };
                        Ok(())
                    },
                    Err(e) => Err(e),
                }
            },
            Step::Signal(signal) => signal_process(&child, &mut self.platform, signal, self.posix),
            Step::Wait => wait_on_process(&child, &mut self.platform),
        };
        proof {
            let tail = since(before, self.platform.log());
            match step {
                Step::Signal(signal) => {
                    assert(explains_one(
                        step,
                        child,
                        old(self).settings(),
                        views(ops@),
                        tail,
                        child,
                        failure_of(r),
                    ));
                },
                Step::Wait => {
                    assert(explains_one(
                        step,
                        child,
                        old(self).settings(),
                        views(ops@),
                        tail,
                        child,
                        failure_of(r),
                    ));
                },
                _ => {
                    lemma_grown_by_one_at_most(before, self.platform.log());
                },
            }
        }
        r
    }

    /// Carries out `steps` in order, up to the first failure that matters.
    fn carry_out(&mut self, steps: &Vec<Step>, ops: &[PathOp]) -> (r: Result<(), Error>)
        ensures
            final(self).config() == old(self).config(),
            final(self).settings() == old(self).settings(),
            extends(old(self).log(), final(self).log()),
            explains(
                steps@,
                old(self).slot(),
                old(self).settings(),
                views(ops@),
                since(old(self).log(), final(self).log()),
                final(self).slot(),
                failure_of(r),
            ),
    {
        let ghost s = self.settings();
        let ghost slot = self.slot();
        let ghost before = self.log();
        let ghost changes = views(ops@);
        let mut i: usize = 0;
        proof {
            lemma_grown_by_one_at_most(before, self.log());
        }
        while i < steps.len()
            invariant
                i <= steps.len(),
                self.config() == old(self).config(),
                self.settings() == s,
                s == old(self).settings(),
                slot == old(self).slot(),
                before == old(self).log(),
                changes == views(ops@),
                extends(before, self.log()),
                explains(
                    steps@.take(i as int),
                    slot,
                    s,
                    changes,
                    since(before, self.log()),
                    self.slot(),
                    None,
                ),
            decreases steps.len() - i,
        {
            let ghost mid = self.slot();
            let ghost log_mid = self.log();
            let r = self.perform(steps[i], ops);
            proof {
                let done = steps@.take(i as int);
                let one = seq![steps@[i as int]];
                let tail = since(log_mid, self.log());
                lemma_explains_one(
                    steps@[i as int],
                    mid,
                    s,
                    changes,
                    tail,
                    self.slot(),
                    failure_of(r),
                );
                lemma_explains_then(
                    done,
                    one,
                    slot,
                    s,
                    changes,
                    since(before, log_mid),
                    mid,
                    tail,
                    self.slot(),
                    failure_of(r),
                );
                assert(done + one =~= steps@.take(i + 1));
                lemma_grown_twice(before, log_mid, self.log());
            }
            match r {
                Ok(_) => {},
                Err(e) => {
                    proof {
                        lemma_explains_cut_short(
                            steps@.take(i + 1),
                            steps@.skip(i + 1),
                            slot,
                            s,
                            changes,
                            since(before, self.log()),
                            self.slot(),
                            e,
                        );
                        assert(steps@.take(i + 1) + steps@.skip(i + 1) =~= steps@);
                    }
                    return Err(e);
                },
            }
            i += 1;
        }
        proof {
            assert(steps@.take(i as int) =~= steps@);
        }
        Ok(())
    }

    /// Starts the command in place of whatever is in the slot: clears the
    /// screen if asked to, kills the child in the slot, and starts the
    /// command, telling it of `ops` unless that is switched off.
    pub fn spawn(&mut self, ops: &[PathOp]) -> (r: Result<(), Error>)
        ensures
            final(self).config() == old(self).config(),
            final(self).settings() == old(self).settings(),
            extends(old(self).log(), final(self).log()),
            explains(
                spawn_steps(old(self).settings()),
                old(self).slot(),
                old(self).settings(),
                views(ops@),
                since(old(self).log(), final(self).log()),
                final(self).slot(),
                failure_of(r),
            ),
    {
        let steps = self.spawn_plan();
        self.carry_out(&steps, ops)
    }

    /// Whether the command is running: asks the platform about the child in
    /// the slot, and says `false` without asking where the slot is empty.
    pub fn has_running_process(&mut self) -> (r: Result<bool, Error>)
        ensures
            final(self).config() == old(self).config(),
            final(self).settings() == old(self).settings(),
            final(self).slot() == old(self).slot(),
            match old(self).slot().target() {
                None => r == Ok::<bool, Error>(false) && final(self).log() == old(self).log(),
                Some(t) => final(self).log() == old(self).log().push(
                    Entry { call: Call::Poll(t), answer: poll_answer(r) },
                ),
            },
    {
        let child = self.child_process;
        child.is_running(&mut self.platform)
    }

    /// Passes on a signal that the watcher itself received. Nothing that
    /// goes wrong in doing so is reported.
    pub fn on_signal(&mut self, signal: Signal)
        ensures
            final(self).config() == old(self).config(),
            final(self).settings() == old(self).settings(),
            final(self).slot() == old(self).slot(),
            extends(old(self).log(), final(self).log()),
            signal_explained(
                old(self).settings(),
                old(self).slot(),
                signal,
                since(old(self).log(), final(self).log()),
            ),
    {
        let ghost before = self.platform.log();
        let child = self.child_process;
        if signal.is_child_status() {
            let _ = child.is_running(&mut self.platform);
        } else if self.posix {
            let _ = child.signal(&mut self.platform, signal);
        } else {
            let _ = child.kill(&mut self.platform);
        }
        proof {
            lemma_grown_by_one_at_most(before, self.platform.log());
        }
    }
}

impl<P: Platform> Handler for ExecHandler<P> {
    /// Starts the command, unless the handler is to run it only once: then
    /// it waits for the first change. Asks to go on either way.
    fn on_manual(&mut self) -> (r: Result<bool, Error>)
        ensures
            final(self).config() == old(self).config(),
            final(self).settings() == old(self).settings(),
            extends(old(self).log(), final(self).log()),
            run_explained(
                manual_steps(old(self).settings()),
                old(self).slot(),
                old(self).settings(),
                Seq::empty(),
                since(old(self).log(), final(self).log()),
                final(self).slot(),
                r,
                true,
            ),
    {
        let steps = self.manual_plan();
        let none: Vec<PathOp> = Vec::new();
        assert(views(none@) =~= Seq::<PathOpView>::empty());
        match self.carry_out(&steps, none.as_slice()) {
            Ok(_) => Ok(true),
            Err(e) => Err(e),
        }
    }

    /// Handles a change: looks whether the command is running, and does what
    /// the policy for a busy command says. A handler that is to run the
    /// command only once then waits for it and asks to stop.
    fn on_update(&mut self, ops: &[PathOp]) -> (r: Result<bool, Error>)
        ensures
            final(self).config() == old(self).config(),
            final(self).settings() == old(self).settings(),
            extends(old(self).log(), final(self).log()),
            update_explained(
                old(self).settings(),
                old(self).slot(),
                views(ops@),
                since(old(self).log(), final(self).log()),
                final(self).slot(),
                r,
            ),
    {
        let ghost before = self.log();
        let running = match self.has_running_process() {
            Ok(running) => running,
            Err(e) => {
                proof {
                    lemma_grown_by_one_at_most(before, self.log());
                }
                return Err(e);
            },
        };
        let ghost probed = self.log();
        let steps = self.update_plan(running);
        let done = self.carry_out(&steps, ops);
        proof {
            lemma_grown_by_one_at_most(before, probed);
            lemma_grown_twice(before, probed, self.log());
            if old(self).slot().target() is Some {
                assert((since(before, probed) + since(probed, self.log())).skip(1) =~= since(
                    probed,
                    self.log(),
                ));
            } else {
                assert(since(before, probed) + since(probed, self.log()) =~= since(
                    probed,
                    self.log(),
                ));
            }
        }
        match done {
            Ok(_) => Ok(!self.args.once),
            Err(e) => Err(e),
        }
    }

    fn args(&self) -> (r: Config)
        ensures
            r.same(self.config()),
    {
        self.args.clone()
    }
}

} // verus!
