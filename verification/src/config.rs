//! What the watcher is asked to do.

use vstd::prelude::*;

verus! {

/// Behaviour to use when handling updates while the command is running.
#[derive(Clone, Copy, Debug, PartialEq, Eq, Hash, Structural)]
pub enum OnBusyUpdate {
    /// ignore updates while busy
    DoNothing,
    /// wait for the command to exit, then start a new one
    Queue,
    /// restart the command immediately
    Restart,
    /// send a signal only
    Signal,
}

impl Default for OnBusyUpdate {
    fn default() -> (r: Self)
        ensures
            r == OnBusyUpdate::DoNothing,
    {
        OnBusyUpdate::DoNothing
    }
}

/// The settings of one run of the watcher. Times are in milliseconds.
#[derive(Debug, PartialEq, Eq)]
pub struct Config {
    /// The trees to watch.
    pub paths: Vec<String>,
    /// Patterns of the only paths that may trigger the command.
    pub filters: Vec<String>,
    /// Patterns of paths that never trigger the command.
    pub ignores: Vec<String>,
    /// Leave ignore files of every kind unread.
    pub no_ignore: bool,
    /// Leave the ignore files of version control unread.
    pub no_vcs_ignore: bool,
    /// Poll for changes instead of asking the system for notifications.
    pub poll: bool,
    pub poll_interval: u64,
    /// How long the stream of events must be quiet before a batch is handed
    /// to the handler.
    pub debounce: u64,
    /// Pay no attention to changes of metadata.
    pub no_meta: bool,
    /// Run the command once before the first change.
    pub run_initially: bool,
    /// Stop after the first run that a change triggered.
    pub once: bool,
    pub clear_screen: bool,
    pub cmd: Vec<String>,
    /// The shell to run the command with; `None` runs it directly.
    pub shell: Option<String>,
    /// Tell the command nothing about the changes through its environment.
    pub no_environment: bool,
    pub use_process_group: bool,
    /// The name of the signal to send to a running command.
    pub signal: Option<String>,
    pub on_busy_update: OnBusyUpdate,
}

impl Clone for Config {
    fn clone(&self) -> (r: Config)
        ensures
            r.same(*self),
    {
        let paths = self.paths.clone();
        let filters = self.filters.clone();
        let ignores = self.ignores.clone();
        let cmd = self.cmd.clone();
        assert(paths@ =~= self.paths@);
        assert(filters@ =~= self.filters@);
        assert(ignores@ =~= self.ignores@);
        assert(cmd@ =~= self.cmd@);
        Config {
            paths,
            filters,
            ignores,
            no_ignore: self.no_ignore,
            no_vcs_ignore: self.no_vcs_ignore,
            poll: self.poll,
            poll_interval: self.poll_interval,
            debounce: self.debounce,
            no_meta: self.no_meta,
            run_initially: self.run_initially,
            once: self.once,
            clear_screen: self.clear_screen,
            cmd,
            shell: match &self.shell {
                Some(shell) => Some(shell.clone()),
                None => None,
            },
            no_environment: self.no_environment,
            use_process_group: self.use_process_group,
            signal: match &self.signal {
                Some(signal) => Some(signal.clone()),
                None => None,
            },
            on_busy_update: self.on_busy_update,
        }
    }
}

impl Config {
    /// Whether two configurations say the same in every setting.
    pub open spec fn same(self, other: Config) -> bool {
        &&& self.paths@ == other.paths@
        &&& self.filters@ == other.filters@
        &&& self.ignores@ == other.ignores@
        &&& self.no_ignore == other.no_ignore
        &&& self.no_vcs_ignore == other.no_vcs_ignore
        &&& self.poll == other.poll
        &&& self.poll_interval == other.poll_interval
        &&& self.debounce == other.debounce
        &&& self.no_meta == other.no_meta
        &&& self.run_initially == other.run_initially
        &&& self.once == other.once
        &&& self.clear_screen == other.clear_screen
        &&& self.cmd@ == other.cmd@
        &&& self.shell == other.shell
        &&& self.no_environment == other.no_environment
        &&& self.use_process_group == other.use_process_group
        &&& self.signal == other.signal
        &&& self.on_busy_update == other.on_busy_update
    }

    /// Whether ignore files are read at all.
    pub fn reads_ignore_files(&self) -> (r: bool)
        ensures
            r == !self.no_ignore,
    {
        !self.no_ignore
    }

    /// Whether the ignore files of version control are read: not where they
    /// are switched off, and not where all ignore files are.
    pub fn reads_vcs_ignore_files(&self) -> (r: bool)
        ensures
            r == (!self.no_vcs_ignore && !self.no_ignore),
    {
        !(self.no_vcs_ignore || self.no_ignore)
    }

    /// Whether to start the watcher again with polling after it failed to
    /// start: only where polling was not asked for in the first place and the
    /// system ran out of watches.
    pub fn falls_back_to_polling(&self, out_of_watches: bool) -> (r: bool)
        ensures
            r == (!self.poll && out_of_watches),
    {
        !self.poll && out_of_watches
    }
}

} // verus!
