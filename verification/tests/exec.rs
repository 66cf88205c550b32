use std::cell::Cell;

use watchexec::child::ChildProcess;
use watchexec::config::{Config, OnBusyUpdate};
use watchexec::error::{Error, IoError};
use watchexec::exec::{signal_process, wait_on_process, ExecHandler, Step};
use watchexec::handler::Handler;
use watchexec::pathop::{OpKind, PathOp, WRITE};
use watchexec::platform::{Journal, Platform, Target};
use watchexec::signal::Signal;

#[derive(Clone, Debug, PartialEq, Eq)]
enum Did {
    Clear,
    Launch(bool, Option<Vec<PathOp>>),
    Kill(Target),
    Signal(Target, Signal),
    Poll(Target),
    Wait(Target),
}

/// A platform that starts nothing: it notes what it is asked and answers as
/// a system would whose commands run until they are killed or waited for.
#[derive(Default)]
struct Fake {
    calls: Vec<Did>,
    launched: u32,
    running: Cell<bool>,
    fail_clear: bool,
    fail_launch: bool,
    fail_kill: bool,
    fail_signal: bool,
    fail_poll: bool,
    fail_wait: bool,
}

fn io(message: &str) -> IoError {
    IoError { code: None, message: message.to_string() }
}

impl Platform for Fake {
    fn clear_screen(&mut self) -> Result<(), Error> {
        self.calls.push(Did::Clear);
        if self.fail_clear {
            Err(Error::ClearScreen("no terminal".to_string()))
        } else {
            Ok(())
        }
    }

    fn launch(&mut self, group: bool, changes: Option<&[PathOp]>) -> Result<u32, Error> {
        self.calls.push(Did::Launch(group, changes.map(|ops| ops.to_vec())));
        if self.fail_launch {
            return Err(Error::SpawnFailed(io("not found")));
        }
        self.launched += 1;
        self.running.set(true);
        Ok(100 + self.launched)
    }

    fn kill(&mut self, target: Target) -> Result<(), Error> {
        self.calls.push(Did::Kill(target));
        if self.fail_kill {
            return Err(Error::SignalFailure(io("no such process")));
        }
        self.running.set(false);
        Ok(())
    }

    fn signal(&mut self, target: Target, signal: Signal) -> Result<(), Error> {
        self.calls.push(Did::Signal(target, signal));
        if self.fail_signal {
            Err(Error::SignalFailure(io("not permitted")))
        } else {
            Ok(())
        }
    }

    fn is_running(&mut self, target: Target) -> Result<bool, Error> {
        self.calls.push(Did::Poll(target));
        if self.fail_poll {
            Err(Error::SignalFailure(io("no child")))
        } else {
            Ok(self.running.get())
        }
    }

    fn wait(&mut self, target: Target) -> Result<(), Error> {
        self.calls.push(Did::Wait(target));
        if self.fail_wait {
            return Err(Error::SignalFailure(io("interrupted")));
        }
        self.running.set(false);
        Ok(())
    }
}

fn config() -> Config {
    Config {
        paths: vec!["/w".to_string()],
        filters: vec![],
        ignores: vec![],
        no_ignore: false,
        no_vcs_ignore: false,
        poll: false,
        poll_interval: 1000,
        debounce: 500,
        no_meta: false,
        run_initially: true,
        once: false,
        clear_screen: false,
        cmd: vec!["make".to_string()],
        shell: None,
        no_environment: false,
        use_process_group: false,
        signal: None,
        on_busy_update: OnBusyUpdate::DoNothing,
    }
}

fn handler(args: Config) -> ExecHandler<Fake> {
    ExecHandler::new(args, true, Fake::default()).unwrap()
}

fn change() -> Vec<PathOp> {
    vec![PathOp { path: "/w/a.txt".to_string(), op: Some(OpKind::new(WRITE)), cookie: None }]
}

fn leader(id: u32) -> Target {
    Target { id, group: false }
}

fn running(args: Config) -> ExecHandler<Fake> {
    let mut h = handler(args);
    assert_eq!(h.spawn(&[]), Ok(()));
    assert_eq!(h.child(), ChildProcess::Ungrouped(101));
    h
}

fn calls_after_start(h: &ExecHandler<Fake>) -> Vec<Did> {
    h.platform().calls[1..].to_vec()
}

#[test]
fn basic_fire_starts_the_command() {
    let mut h = handler(config());
    assert_eq!(h.on_update(&change()), Ok(true));
    assert_eq!(h.platform().calls, vec![Did::Launch(false, Some(change()))]);
    assert_eq!(h.child(), ChildProcess::Ungrouped(101));
}

#[test]
fn restart_while_running_signals_waits_and_starts_again() {
    let mut h = running(Config {
        on_busy_update: OnBusyUpdate::Restart,
        signal: Some("SIGUSR2".to_string()),
        ..config()
    });
    assert_eq!(h.on_update(&change()), Ok(true));
    assert_eq!(
        calls_after_start(&h),
        vec![
            Did::Poll(leader(101)),
            Did::Signal(leader(101), Signal::SIGUSR2),
            Did::Wait(leader(101)),
            Did::Kill(leader(101)),
            Did::Launch(false, Some(change())),
        ]
    );
    assert_eq!(h.child(), ChildProcess::Ungrouped(102));
    assert_eq!(h.has_running_process(), Ok(true));
}

#[test]
fn restart_without_a_chosen_signal_sends_sigterm() {
    let mut h = running(Config { on_busy_update: OnBusyUpdate::Restart, ..config() });
    assert_eq!(h.on_update(&change()), Ok(true));
    assert_eq!(calls_after_start(&h)[1], Did::Signal(leader(101), Signal::SIGTERM));
}

#[test]
fn queue_waits_for_the_command_and_starts_it_again() {
    let mut h = running(Config { on_busy_update: OnBusyUpdate::Queue, ..config() });
    assert_eq!(h.on_update(&change()), Ok(true));
    assert_eq!(
        calls_after_start(&h),
        vec![
            Did::Poll(leader(101)),
            Did::Wait(leader(101)),
            Did::Kill(leader(101)),
            Did::Launch(false, Some(change())),
        ]
    );
    assert_eq!(h.child(), ChildProcess::Ungrouped(102));
}

#[test]
fn do_nothing_leaves_the_running_command_alone() {
    let mut h = running(config());
    assert_eq!(h.on_update(&change()), Ok(true));
    assert_eq!(h.on_update(&change()), Ok(true));
    assert_eq!(calls_after_start(&h), vec![Did::Poll(leader(101)), Did::Poll(leader(101))]);
    assert_eq!(h.child(), ChildProcess::Ungrouped(101));
}

#[test]
fn signal_policy_only_signals() {
    let mut h = running(Config { on_busy_update: OnBusyUpdate::Signal, ..config() });
    assert_eq!(h.on_update(&change()), Ok(true));
    assert_eq!(
        calls_after_start(&h),
        vec![Did::Poll(leader(101)), Did::Signal(leader(101), Signal::SIGTERM)]
    );
    assert_eq!(h.child(), ChildProcess::Ungrouped(101));
}

#[test]
fn command_that_has_exited_is_started_again_whatever_the_policy() {
    for policy in
        [OnBusyUpdate::DoNothing, OnBusyUpdate::Queue, OnBusyUpdate::Restart, OnBusyUpdate::Signal]
    {
        let mut h = running(Config { on_busy_update: policy, ..config() });
        h.platform().running.set(false);
        assert_eq!(h.on_update(&change()), Ok(true));
        assert_eq!(
            calls_after_start(&h),
            vec![
                Did::Poll(leader(101)),
                Did::Kill(leader(101)),
                Did::Launch(false, Some(change())),
            ]
        );
        assert_eq!(h.child(), ChildProcess::Ungrouped(102));
        assert_eq!(h.update_plan(false), vec![Step::Kill, Step::Launch]);
    }
}

#[test]
fn slot_keeps_a_command_that_has_exited() {
    let mut h = running(config());
    h.platform().running.set(false);
    assert_eq!(h.has_running_process(), Ok(false));
    assert_eq!(h.child(), ChildProcess::Ungrouped(101));
    h.on_signal(Signal::SIGINT);
    assert_eq!(h.platform().calls.last(), Some(&Did::Signal(leader(101), Signal::SIGINT)));
}

#[test]
fn once_starts_awaits_and_asks_to_stop() {
    let mut h = handler(Config { once: true, ..config() });
    assert_eq!(h.on_update(&change()), Ok(false));
    assert_eq!(
        h.platform().calls,
        vec![Did::Launch(false, Some(change())), Did::Wait(leader(101))]
    );
    assert_eq!(h.has_running_process(), Ok(false));
}

#[test]
fn once_with_a_chosen_signal_delivers_it_before_the_wait() {
    let mut h = handler(Config { once: true, signal: Some("INT".to_string()), ..config() });
    assert_eq!(h.on_update(&change()), Ok(false));
    assert_eq!(
        h.platform().calls,
        vec![
            Did::Launch(false, Some(change())),
            Did::Signal(leader(101), Signal::SIGINT),
            Did::Wait(leader(101)),
        ]
    );
}

#[test]
fn once_does_not_run_the_command_by_hand() {
    let mut h = handler(Config { once: true, ..config() });
    assert_eq!(h.on_manual(), Ok(true));
    assert!(h.platform().calls.is_empty());
    assert_eq!(h.child(), ChildProcess::Absent);
    assert_eq!(h.manual_plan(), vec![]);
}

#[test]
fn manual_run_starts_the_command_with_no_changes() {
    let mut h = handler(config());
    assert_eq!(h.on_manual(), Ok(true));
    assert_eq!(h.platform().calls, vec![Did::Launch(false, Some(vec![]))]);
    assert_eq!(h.manual_plan(), vec![Step::Kill, Step::Launch]);
}

#[test]
fn plan_follows_the_policy() {
    let plan = |policy, once, signal: Option<&str>, clear, running| {
        handler(Config {
            on_busy_update: policy,
            once,
            signal: signal.map(|s| s.to_string()),
            clear_screen: clear,
            ..config()
        })
        .update_plan(running)
    };
    let term = Step::Signal(Signal::SIGTERM);
    let usr1 = Step::Signal(Signal::SIGUSR1);
    assert_eq!(plan(OnBusyUpdate::DoNothing, false, None, false, true), vec![]);
    assert_eq!(plan(OnBusyUpdate::Signal, false, None, false, true), vec![term]);
    assert_eq!(plan(OnBusyUpdate::Signal, false, Some("USR1"), false, true), vec![usr1]);
    assert_eq!(
        plan(OnBusyUpdate::Queue, false, None, false, true),
        vec![Step::Wait, Step::Kill, Step::Launch]
    );
    assert_eq!(
        plan(OnBusyUpdate::Restart, false, None, true, true),
        vec![term, Step::Wait, Step::ClearScreen, Step::Kill, Step::Launch]
    );
    assert_eq!(
        plan(OnBusyUpdate::Restart, true, Some("USR1"), false, true),
        vec![usr1, Step::Wait, Step::Kill, Step::Launch, usr1, Step::Wait]
    );
    assert_eq!(plan(OnBusyUpdate::DoNothing, true, None, false, true), vec![Step::Wait]);
    assert_eq!(
        plan(OnBusyUpdate::Signal, false, None, true, false),
        vec![Step::ClearScreen, Step::Kill, Step::Launch]
    );
}

#[test]
fn screen_is_cleared_before_the_command_starts() {
    let mut h = handler(Config { clear_screen: true, ..config() });
    assert_eq!(h.on_update(&change()), Ok(true));
    assert_eq!(h.platform().calls, vec![Did::Clear, Did::Launch(false, Some(change()))]);
}

#[test]
fn command_is_told_nothing_where_the_environment_is_off() {
    let mut h = handler(Config { no_environment: true, ..config() });
    assert_eq!(h.on_update(&change()), Ok(true));
    assert_eq!(h.platform().calls, vec![Did::Launch(false, None)]);
}

#[test]
fn grouped_command_is_addressed_as_a_group() {
    let mut h = handler(Config {
        use_process_group: true,
        on_busy_update: OnBusyUpdate::Queue,
        ..config()
    });
    assert_eq!(h.on_update(&change()), Ok(true));
    assert_eq!(h.child(), ChildProcess::Grouped(101));
    assert_eq!(h.on_update(&change()), Ok(true));
    let group = Target { id: 101, group: true };
    assert_eq!(
        h.platform().calls,
        vec![
            Did::Launch(true, Some(change())),
            Did::Poll(group),
            Did::Wait(group),
            Did::Kill(group),
            Did::Launch(true, Some(change())),
        ]
    );
    assert_eq!(h.child(), ChildProcess::Grouped(102));
}

#[test]
fn same_changes_ask_for_the_same_launch() {
    let mut h = handler(Config { on_busy_update: OnBusyUpdate::Queue, ..config() });
    assert_eq!(h.on_update(&change()), Ok(true));
    assert_eq!(h.on_update(&change()), Ok(true));
    let launches: Vec<&Did> =
        h.platform().calls.iter().filter(|c| matches!(c, Did::Launch(..))).collect();
    assert_eq!(launches.len(), 2);
    assert_eq!(launches[0], launches[1]);
}

#[test]
fn failure_to_start_is_reported_and_leaves_the_slot() {
    let mut h = ExecHandler::new(config(), true, Fake { fail_launch: true, ..Fake::default() })
        .unwrap();
    assert_eq!(h.on_update(&change()), Err(Error::SpawnFailed(io("not found"))));
    assert_eq!(h.child(), ChildProcess::Absent);
    assert_eq!(h.on_manual(), Err(Error::SpawnFailed(io("not found"))));
}

#[test]
fn failure_to_kill_before_a_start_is_ignored() {
    let mut h = ExecHandler::new(
        Config { on_busy_update: OnBusyUpdate::Queue, ..config() },
        true,
        Fake { fail_kill: true, ..Fake::default() },
    )
    .unwrap();
    assert_eq!(h.on_update(&change()), Ok(true));
    assert_eq!(h.on_update(&change()), Ok(true));
    assert_eq!(h.child(), ChildProcess::Ungrouped(102));
    assert_eq!(h.platform().calls[3], Did::Kill(leader(101)));
}

#[test]
fn failure_to_signal_ends_the_update() {
    let mut h = ExecHandler::new(
        Config { on_busy_update: OnBusyUpdate::Restart, ..config() },
        true,
        Fake { fail_signal: true, ..Fake::default() },
    )
    .unwrap();
    assert_eq!(h.on_update(&change()), Ok(true));
    assert_eq!(h.on_update(&change()), Err(Error::SignalFailure(io("not permitted"))));
    assert_eq!(
        calls_after_start(&h),
        vec![Did::Poll(leader(101)), Did::Signal(leader(101), Signal::SIGTERM)]
    );
    assert_eq!(h.child(), ChildProcess::Ungrouped(101));
}

#[test]
fn failure_to_wait_ends_the_update() {
    let mut h = ExecHandler::new(
        Config { on_busy_update: OnBusyUpdate::Queue, ..config() },
        true,
        Fake { fail_wait: true, ..Fake::default() },
    )
    .unwrap();
    assert_eq!(h.on_update(&change()), Ok(true));
    assert_eq!(h.on_update(&change()), Err(Error::SignalFailure(io("interrupted"))));
    assert_eq!(calls_after_start(&h), vec![Did::Poll(leader(101)), Did::Wait(leader(101))]);
}

#[test]
fn failure_to_clear_the_screen_ends_the_update() {
    let mut h = ExecHandler::new(
        Config { clear_screen: true, ..config() },
        true,
        Fake { fail_clear: true, ..Fake::default() },
    )
    .unwrap();
    assert_eq!(h.on_update(&change()), Err(Error::ClearScreen("no terminal".to_string())));
    assert_eq!(h.platform().calls, vec![Did::Clear]);
}

#[test]
fn failure_to_look_at_the_child_ends_the_update() {
    let mut failing =
        ExecHandler::new(config(), true, Fake { fail_poll: true, ..Fake::default() }).unwrap();
    assert_eq!(failing.spawn(&[]), Ok(()));
    assert_eq!(failing.on_update(&change()), Err(Error::SignalFailure(io("no child"))));
    assert_eq!(failing.has_running_process(), Err(Error::SignalFailure(io("no child"))));
    assert_eq!(
        failing.platform().calls,
        vec![Did::Launch(false, Some(vec![])), Did::Poll(leader(101)), Did::Poll(leader(101))]
    );
}

#[test]
fn spawn_replaces_the_child_after_killing_it() {
    let mut h = running(config());
    assert_eq!(h.spawn(&change()), Ok(()));
    assert_eq!(
        calls_after_start(&h),
        vec![Did::Kill(leader(101)), Did::Launch(false, Some(change()))]
    );
    assert_eq!(h.child(), ChildProcess::Ungrouped(102));
}

#[test]
fn has_running_process_asks_only_where_there_is_a_child() {
    let mut h = handler(config());
    assert_eq!(h.has_running_process(), Ok(false));
    assert!(h.platform().calls.is_empty());
    assert_eq!(h.spawn(&[]), Ok(()));
    assert_eq!(h.has_running_process(), Ok(true));
    assert_eq!(h.platform().calls.last(), Some(&Did::Poll(leader(101))));
}

#[test]
fn platform_without_signals_kills_on_a_terminating_signal() {
    let mut h = ExecHandler::new(
        Config { on_busy_update: OnBusyUpdate::Signal, ..config() },
        false,
        Fake::default(),
    )
    .unwrap();
    assert_eq!(h.on_update(&change()), Ok(true));
    assert_eq!(h.on_update(&change()), Ok(true));
    assert_eq!(calls_after_start(&h), vec![Did::Poll(leader(101)), Did::Kill(leader(101))]);
}

#[test]
fn platform_without_signals_drops_any_other_signal() {
    let mut h = ExecHandler::new(
        Config {
            on_busy_update: OnBusyUpdate::Signal,
            signal: Some("SIGUSR1".to_string()),
            ..config()
        },
        false,
        Fake::default(),
    )
    .unwrap();
    assert_eq!(h.on_update(&change()), Ok(true));
    assert_eq!(h.on_update(&change()), Ok(true));
    assert_eq!(calls_after_start(&h), vec![Did::Poll(leader(101))]);
}

#[test]
fn received_signal_is_passed_on() {
    let mut h = running(config());
    h.on_signal(Signal::SIGINT);
    h.on_signal(Signal::Other(28));
    assert_eq!(
        calls_after_start(&h),
        vec![
            Did::Signal(leader(101), Signal::SIGINT),
            Did::Signal(leader(101), Signal::Other(28)),
        ]
    );
}

#[test]
fn child_status_signal_only_looks_at_the_child() {
    let mut h = running(config());
    h.on_signal(Signal::SIGCHLD);
    assert_eq!(calls_after_start(&h), vec![Did::Poll(leader(101))]);
    assert_eq!(h.child(), ChildProcess::Ungrouped(101));
}

#[test]
fn received_signal_ends_the_command_where_there_are_no_signals() {
    let mut h = ExecHandler::new(config(), false, Fake::default()).unwrap();
    assert_eq!(h.spawn(&[]), Ok(()));
    h.on_signal(Signal::SIGUSR1);
    assert_eq!(calls_after_start(&h), vec![Did::Kill(leader(101))]);
}

#[test]
fn received_signal_with_no_child_does_nothing() {
    let mut h = handler(config());
    h.on_signal(Signal::SIGINT);
    h.on_signal(Signal::SIGCHLD);
    assert!(h.platform().calls.is_empty());
}

#[test]
fn failure_to_pass_a_signal_on_is_swallowed() {
    let mut h =
        ExecHandler::new(config(), true, Fake { fail_signal: true, ..Fake::default() }).unwrap();
    assert_eq!(h.spawn(&[]), Ok(()));
    h.on_signal(Signal::SIGINT);
    assert_eq!(h.child(), ChildProcess::Ungrouped(101));
}

#[test]
fn repeated_kill_on_an_empty_slot_is_a_no_op() {
    let slot = ChildProcess::Absent;
    let mut platform = Journal::new(Fake::default());
    assert_eq!(slot.kill(&mut platform), Ok(()));
    assert_eq!(slot.kill(&mut platform), Ok(()));
    assert_eq!(slot.kill(&mut platform), Ok(()));
    assert!(platform.platform().calls.is_empty());
    assert_eq!(slot, ChildProcess::Absent);
}

#[test]
fn empty_slot_answers_without_asking() {
    let slot = ChildProcess::default();
    let mut platform = Journal::new(Fake { fail_poll: true, fail_wait: true, ..Fake::default() });
    assert_eq!(slot, ChildProcess::Absent);
    assert_eq!(slot.addressed(), None);
    assert_eq!(slot.signal(&mut platform, Signal::SIGTERM), Ok(()));
    assert_eq!(slot.is_running(&mut platform), Ok(false));
    assert_eq!(slot.wait(&mut platform), Ok(()));
    assert!(platform.platform().calls.is_empty());
}

#[test]
fn child_is_addressed_by_its_kind() {
    let mut platform = Journal::new(Fake { running: Cell::new(true), ..Fake::default() });
    let group = ChildProcess::Grouped(7);
    let single = ChildProcess::Ungrouped(8);
    assert_eq!(group.addressed(), Some(Target { id: 7, group: true }));
    assert_eq!(single.addressed(), Some(Target { id: 8, group: false }));
    assert_eq!(group.signal(&mut platform, Signal::SIGHUP), Ok(()));
    assert_eq!(single.is_running(&mut platform), Ok(true));
    assert_eq!(single.wait(&mut platform), Ok(()));
    assert_eq!(group.kill(&mut platform), Ok(()));
    assert_eq!(
        platform.platform().calls,
        vec![
            Did::Signal(Target { id: 7, group: true }, Signal::SIGHUP),
            Did::Poll(leader(8)),
            Did::Wait(leader(8)),
            Did::Kill(Target { id: 7, group: true }),
        ]
    );
}

#[test]
fn signal_process_and_wait_on_process_address_the_slot() {
    let mut platform = Journal::new(Fake::default());
    let slot = ChildProcess::Ungrouped(9);
    assert_eq!(signal_process(&slot, &mut platform, Signal::SIGUSR1, true), Ok(()));
    assert_eq!(signal_process(&slot, &mut platform, Signal::SIGUSR1, false), Ok(()));
    assert_eq!(signal_process(&slot, &mut platform, Signal::SIGKILL, false), Ok(()));
    assert_eq!(wait_on_process(&slot, &mut platform), Ok(()));
    assert_eq!(wait_on_process(&ChildProcess::Absent, &mut platform), Ok(()));
    assert_eq!(
        platform.platform().calls,
        vec![Did::Signal(leader(9), Signal::SIGUSR1), Did::Kill(leader(9)), Did::Wait(leader(9))]
    );
}

#[test]
fn handler_hands_its_settings_out() {
    let args = Config { debounce: 123, signal: Some("HUP".to_string()), ..config() };
    let h = handler(args.clone());
    assert_eq!(h.args(), args);
}

#[test]
fn unknown_signal_name_counts_as_none_given() {
    let mut h = running(Config {
        on_busy_update: OnBusyUpdate::Signal,
        signal: Some("SIGBOGUS".to_string()),
        ..config()
    });
    assert_eq!(h.on_update(&change()), Ok(true));
    assert_eq!(calls_after_start(&h)[1], Did::Signal(leader(101), Signal::SIGTERM));
}
