use std::cell::RefCell;
use std::rc::Rc;
use watchexec::config::{Config, OnBusyUpdate};
use watchexec::debounce::{Arrival, Inbox};
use watchexec::error::{Error, IoError};
use watchexec::handler::{next_move, Handler, Recorded};
use watchexec::pathop::{Event, OpKind, PathOp, WRITE};
use watchexec::platform::{Platform, Target};
use watchexec::signal::Signal;
use watchexec::runner::run;
use watchexec::watch::{watch, watch_with};

fn config() -> Config {
    Config {
        paths: vec!["/w".to_string()],
        filters: vec![],
        ignores: vec![],
        no_ignore: false,
        no_vcs_ignore: false,
        poll: false,
        poll_interval: 1000,
        debounce: 500,
        no_meta: false,
        run_initially: false,
        once: false,
        clear_screen: false,
        cmd: vec!["make".to_string()],
        shell: None,
        no_environment: false,
        use_process_group: false,
        signal: None,
        on_busy_update: OnBusyUpdate::DoNothing,
    }
}

#[derive(Debug, PartialEq, Eq)]
enum Seen {
    Manual,
    Update(Vec<PathOp>),
}

/// A handler that notes what it is called with and answers from a script;
/// once the script is used up it asks to stop.
struct Scripted {
    args: Config,
    seen: Vec<Seen>,
    answers: Vec<Result<bool, Error>>,
}

impl Scripted {
    fn new(args: Config, answers: Vec<Result<bool, Error>>) -> Recorded<Scripted> {
        Recorded::new(Scripted { args, seen: vec![], answers })
    }

    fn answer(&mut self) -> Result<bool, Error> {
        if self.answers.is_empty() {
            Ok(false)
        } else {
            self.answers.remove(0)
        }
    }
}

impl Handler for Scripted {
    fn on_manual(&mut self) -> Result<bool, Error> {
        self.seen.push(Seen::Manual);
        self.answer()
    }

    fn on_update(&mut self, ops: &[PathOp]) -> Result<bool, Error> {
        self.seen.push(Seen::Update(ops.to_vec()));
        self.answer()
    }

    fn args(&self) -> Config {
        self.args.clone()
    }
}

fn write(after: u64, path: &str) -> Arrival {
    Arrival {
        after,
        event: Event { path: Some(path.to_string()), op: Ok(OpKind::new(WRITE)), cookie: None },
    }
}

fn written(path: &str) -> PathOp {
    PathOp { path: path.to_string(), op: Some(OpKind::new(WRITE)), cookie: None }
}

fn nothing_excluded(_: &str) -> bool {
    false
}

fn two_bursts() -> Inbox {
    Inbox::new(vec![write(0, "/w/a"), write(10, "/w/b"), write(900, "/w/c")])
}

#[test]
fn answers_steer_the_loop() {
    assert_eq!(next_move(Ok(true)), None);
    assert_eq!(next_move(Ok(false)), Some(Ok(())));
    assert_eq!(next_move(Err(Error::LockPoisoned)), Some(Err(Error::LockPoisoned)));
}

#[test]
fn watch_hands_each_batch_to_the_handler() {
    let mut handler = Scripted::new(config(), vec![Ok(true), Ok(false)]);
    let mut rx = two_bursts();
    assert_eq!(watch(&mut handler, &mut rx, &nothing_excluded), Ok(()));
    assert_eq!(
        handler.handler().seen,
        vec![
            Seen::Update(vec![written("/w/a"), written("/w/b")]),
            Seen::Update(vec![written("/w/c")]),
        ]
    );
    assert_eq!(rx.len(), 0);
}

#[test]
fn watch_stops_when_the_handler_asks_to() {
    let mut handler = Scripted::new(config(), vec![Ok(false)]);
    let mut rx = two_bursts();
    assert_eq!(watch(&mut handler, &mut rx, &nothing_excluded), Ok(()));
    assert_eq!(handler.handler().seen, vec![Seen::Update(vec![written("/w/a"), written("/w/b")])]);
    assert_eq!(rx.len(), 1);
}

#[test]
fn watch_fails_when_the_handler_fails() {
    let failure = Error::SpawnFailed(IoError { code: Some(2), message: "not found".to_string() });
    let mut handler = Scripted::new(config(), vec![Err(failure.clone())]);
    let mut rx = two_bursts();
    assert_eq!(watch(&mut handler, &mut rx, &nothing_excluded), Err(failure));
    assert_eq!(rx.len(), 1);
}

#[test]
fn watch_fails_when_the_stream_closes() {
    let mut handler = Scripted::new(config(), vec![Ok(true), Ok(true), Ok(true)]);
    let mut rx = two_bursts();
    assert_eq!(watch(&mut handler, &mut rx, &nothing_excluded), Err(Error::BackendReceive));
    assert_eq!(handler.handler().seen.len(), 2);
}

#[test]
fn watch_runs_the_handler_first_where_asked_to() {
    let mut handler =
        Scripted::new(Config { run_initially: true, ..config() }, vec![Ok(true), Ok(false)]);
    let mut rx = two_bursts();
    assert_eq!(watch(&mut handler, &mut rx, &nothing_excluded), Ok(()));
    assert_eq!(
        handler.handler().seen,
        vec![Seen::Manual, Seen::Update(vec![written("/w/a"), written("/w/b")])]
    );
}

#[test]
fn watch_ends_after_the_first_run_if_the_handler_asks_to() {
    let mut handler = Scripted::new(Config { run_initially: true, ..config() }, vec![Ok(false)]);
    let mut rx = two_bursts();
    assert_eq!(watch(&mut handler, &mut rx, &nothing_excluded), Ok(()));
    assert_eq!(handler.handler().seen, vec![Seen::Manual]);
    assert_eq!(rx.len(), 3);
}

#[test]
fn watch_fails_if_the_first_run_fails() {
    let mut handler =
        Scripted::new(Config { run_initially: true, ..config() }, vec![Err(Error::LockPoisoned)]);
    let mut rx = two_bursts();
    assert_eq!(watch(&mut handler, &mut rx, &nothing_excluded), Err(Error::LockPoisoned));
    assert_eq!(rx.len(), 3);
}

#[test]
fn watch_debounces_as_the_handler_says() {
    let mut handler =
        Scripted::new(Config { debounce: 0, ..config() }, vec![Ok(true), Ok(true), Ok(false)]);
    let mut rx = two_bursts();
    assert_eq!(watch(&mut handler, &mut rx, &nothing_excluded), Ok(()));
    assert_eq!(
        handler.handler().seen,
        vec![
            Seen::Update(vec![written("/w/a")]),
            Seen::Update(vec![written("/w/b")]),
            Seen::Update(vec![written("/w/c")]),
        ]
    );
}

#[test]
fn recorded_handler_is_handed_back() {
    let mut handler = Scripted::new(config(), vec![Ok(true), Err(Error::LockPoisoned)]);
    assert_eq!(handler.args(), config());
    assert_eq!(handler.on_manual(), Ok(true));
    assert_eq!(handler.on_update(&[written("/w/a")]), Err(Error::LockPoisoned));
    let inner = handler.into_handler();
    assert_eq!(inner.seen, vec![Seen::Manual, Seen::Update(vec![written("/w/a")])]);
}

#[test]
fn watch_with_goes_by_the_settings_it_is_given() {
    let mut handler = Scripted::new(config(), vec![Ok(true), Ok(false)]);
    let args = Config { run_initially: true, debounce: 5, ..config() };
    let mut rx = two_bursts();
    assert_eq!(watch_with(&mut handler, &args, &mut rx, &nothing_excluded), Ok(()));
    assert_eq!(handler.handler().seen, vec![Seen::Manual, Seen::Update(vec![written("/w/a")])]);
}

#[derive(Clone, Debug, PartialEq, Eq)]
enum Did {
    Launch(Vec<PathOp>),
    Kill(u32),
    Poll(u32),
    Wait(u32),
    Other,
}

/// A platform whose record outlives it.
struct Shared {
    calls: Rc<RefCell<Vec<Did>>>,
    launched: u32,
    running: bool,
}

impl Platform for Shared {
    fn clear_screen(&mut self) -> Result<(), Error> {
        self.calls.borrow_mut().push(Did::Other);
        Ok(())
    }

    fn launch(&mut self, _group: bool, changes: Option<&[PathOp]>) -> Result<u32, Error> {
        self.calls.borrow_mut().push(Did::Launch(changes.unwrap_or(&[]).to_vec()));
        self.launched += 1;
        self.running = true;
        Ok(self.launched)
    }

    fn kill(&mut self, target: Target) -> Result<(), Error> {
        self.calls.borrow_mut().push(Did::Kill(target.id));
        self.running = false;
        Ok(())
    }

    fn signal(&mut self, _target: Target, _signal: Signal) -> Result<(), Error> {
        self.calls.borrow_mut().push(Did::Other);
        Ok(())
    }

    fn is_running(&mut self, target: Target) -> Result<bool, Error> {
        self.calls.borrow_mut().push(Did::Poll(target.id));
        Ok(self.running)
    }

    fn wait(&mut self, target: Target) -> Result<(), Error> {
        self.calls.borrow_mut().push(Did::Wait(target.id));
        self.running = false;
        Ok(())
    }
}

#[test]
fn run_restarts_the_command_on_every_batch() {
    let calls = Rc::new(RefCell::new(vec![]));
    let platform = Shared { calls: calls.clone(), launched: 0, running: false };
    let args =
        Config { run_initially: true, on_busy_update: OnBusyUpdate::Queue, ..config() };
    let mut rx = two_bursts();
    assert_eq!(run(args, true, platform, &mut rx, &nothing_excluded), Err(Error::BackendReceive));
    assert_eq!(
        *calls.borrow(),
        vec![
            Did::Launch(vec![]),
            Did::Poll(1),
            Did::Wait(1),
            Did::Kill(1),
            Did::Launch(vec![written("/w/a"), written("/w/b")]),
            Did::Poll(2),
            Did::Wait(2),
            Did::Kill(2),
            Did::Launch(vec![written("/w/c")]),
        ]
    );
}

#[test]
fn run_once_ends_after_the_first_batch() {
    let calls = Rc::new(RefCell::new(vec![]));
    let platform = Shared { calls: calls.clone(), launched: 0, running: false };
    let args = Config { run_initially: true, once: true, ..config() };
    let mut rx = two_bursts();
    assert_eq!(run(args, true, platform, &mut rx, &nothing_excluded), Ok(()));
    assert_eq!(
        *calls.borrow(),
        vec![Did::Launch(vec![written("/w/a"), written("/w/b")]), Did::Wait(1)]
    );
    assert_eq!(rx.len(), 1);
}

#[test]
fn run_leaves_filtered_changes_out() {
    let calls = Rc::new(RefCell::new(vec![]));
    let platform = Shared { calls: calls.clone(), launched: 0, running: false };
    let args = Config { once: true, ..config() };
    let mut rx = Inbox::new(vec![write(0, "/w/target/x"), write(0, "/w/src/y")]);
    let filter = |path: &str| path.starts_with("/w/target/");
    assert_eq!(run(args, true, platform, &mut rx, &filter), Ok(()));
    assert_eq!(calls.borrow()[0], Did::Launch(vec![written("/w/src/y")]));
}
