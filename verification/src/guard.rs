//! The guard: what is done, and in what order, to run one command under memory floors.
//!
//! The guard decides and the caller acts. [`Guard::action`] says what is to be done next;
//! [`Guard::step`] takes what came of it.
use crate::duration::{self, Duration, DurationError};
use crate::event::{Event, EventView};
use crate::meminfo::MemInfo;
use crate::profile::{self, Profile};
use crate::size::{self, SizeError};
use crate::{process, text};
use vstd::pervasive::unreached;
use vstd::prelude::*;
use vstd::string::*;

verus! {

/// The arguments of a run.
#[derive(Debug)]
pub struct RunArgs {
    pub profile: Profile,
    pub min_mem: String,
    pub min_swap: String,
    pub poll: String,
    pub term_grace: String,
    pub require_earlyoom: bool,
    pub allow_no_earlyoom: bool,
    pub use_systemd_scope: bool,
    pub memory_high: Option<String>,
    pub memory_max: Option<String>,
    pub command: Vec<Vec<u8>>,
}

/// Why a run cannot begin.
#[derive(Debug, PartialEq, Eq)]
pub enum RunError {
    Scope,
    MinMem(SizeError),
    MinSwap(SizeError),
    Poll(DurationError),
    TermGrace(DurationError),
}

/// What a [`RunError`] says.
pub enum RunFault {
    Scope,
    MinMem(size::SizeFault),
    MinSwap(size::SizeFault),
    Poll(duration::DurationFault),
    TermGrace(duration::DurationFault),
}

impl View for RunError {
    type V = RunFault;

    open spec fn view(&self) -> RunFault {
        match *self {
            RunError::Scope => RunFault::Scope,
            RunError::MinMem(e) => RunFault::MinMem(e@),
            RunError::MinSwap(e) => RunFault::MinSwap(e@),
            RunError::Poll(e) => RunFault::Poll(e@),
            RunError::TermGrace(e) => RunFault::TermGrace(e@),
        }
    }
}

/// The words for a reason not to begin.
pub open spec fn run_error_text(e: RunFault) -> Seq<char> {
    match e {
        RunFault::Scope =>
            "systemd scope support is planned but not implemented in this release"@,
        RunFault::MinMem(e) => "invalid --min-mem: "@ + size::size_error_text(e),
        RunFault::MinSwap(e) => "invalid --min-swap: "@ + size::size_error_text(e),
        RunFault::Poll(e) => "invalid --poll: "@ + duration::duration_error_text(e),
        RunFault::TermGrace(e) => "invalid --term-grace: "@ + duration::duration_error_text(e),
    }
}

impl RunError {
    /// The words for the fault.
    pub fn message(&self) -> (r: String)
        ensures
            r@ == run_error_text(self@),
    {
        match self {
            RunError::Scope => {
                "systemd scope support is planned but not implemented in this release".to_string()
            },
            RunError::MinMem(e) => {
                let mut r = "invalid --min-mem: ".to_string();
                r.append(e.message().as_str());
                r
            },
            RunError::MinSwap(e) => {
                let mut r = "invalid --min-swap: ".to_string();
                r.append(e.message().as_str());
                r
            },
            RunError::Poll(e) => {
                let mut r = "invalid --poll: ".to_string();
                r.append(e.message().as_str());
                r
            },
            RunError::TermGrace(e) => {
                let mut r = "invalid --term-grace: ".to_string();
                r.append(e.message().as_str());
                r
            },
        }
    }
}

/// What a run is held to.
pub struct Settings {
    pub min_mem_bytes: u64,
    pub min_swap_bytes: u64,
    pub poll: Duration,
    pub term_grace: Duration,
    pub command: Vec<String>,
    pub profile: Profile,
    pub require_earlyoom: bool,
}

/// What [`Settings`] say. Spans of time are in nanoseconds.
#[verifier::ext_equal]
pub struct SettingsView {
    pub min_mem_bytes: nat,
    pub min_swap_bytes: nat,
    pub poll: nat,
    pub term_grace: nat,
    pub command: Seq<Seq<char>>,
    pub profile: Profile,
    pub require_earlyoom: bool,
}

impl View for Settings {
    type V = SettingsView;

    open spec fn view(&self) -> SettingsView {
        SettingsView {
            min_mem_bytes: self.min_mem_bytes as nat,
            min_swap_bytes: self.min_swap_bytes as nat,
            poll: self.poll@,
            term_grace: self.term_grace@,
            command: text::contents(self.command@),
            profile: self.profile,
            require_earlyoom: self.require_earlyoom,
        }
    }
}

/// Whether `earlyoom` has to be active: where that was asked for, and for an inference engine where
/// it was not waived.
pub open spec fn needs_earlyoom(required: bool, waived: bool, profile: Profile) -> bool {
    required || (!waived && profile::is_inference(profile))
}

/// The settings that the arguments of a run give, for a command of the given text. The first
/// argument at fault decides.
pub open spec fn settings_from(args: RunArgs, command: Seq<Seq<char>>) -> Result<
    SettingsView,
    RunFault,
> {
    if args.use_systemd_scope || args.memory_high is Some || args.memory_max is Some {
        Err(RunFault::Scope)
    } else {
        match (
            size::size_from_text(args.min_mem@),
            size::size_from_text(args.min_swap@),
            duration::duration_from_text(args.poll@),
            duration::duration_from_text(args.term_grace@),
        ) {
            (Err(e), _, _, _) => Err(RunFault::MinMem(e)),
            (_, Err(e), _, _) => Err(RunFault::MinSwap(e)),
            (_, _, Err(e), _) => Err(RunFault::Poll(e)),
            (_, _, _, Err(e)) => Err(RunFault::TermGrace(e)),
            (Ok(min_mem_bytes), Ok(min_swap_bytes), Ok(poll), Ok(term_grace)) => {
                let profile = profile::effective(args.profile, command);
                Ok(
                    SettingsView {
                        min_mem_bytes,
                        min_swap_bytes,
                        poll,
                        term_grace,
                        command,
                        profile,
                        require_earlyoom: needs_earlyoom(
                            args.require_earlyoom,
                            args.allow_no_earlyoom,
                            profile,
                        ),
                    },
                )
            },
        }
    }
}

/// The settings that the arguments of a run give, for a command of the given text.
pub fn settings_for(args: &RunArgs, command: Vec<String>) -> (r: Result<Settings, RunError>)
    ensures
        match r {
            Ok(s) => settings_from(*args, text::contents(command@)) == Ok::<
                SettingsView,
                RunFault,
            >(s@),
            Err(e) => settings_from(*args, text::contents(command@)) == Err::<
                SettingsView,
                RunFault,
            >(e@),
        },
{
    if args.use_systemd_scope || args.memory_high.is_some() || args.memory_max.is_some() {
        return Err(RunError::Scope);
    }
    let min_mem_bytes = match size::parse_size(args.min_mem.as_str()) {
        Ok(n) => n,
        Err(e) => return Err(RunError::MinMem(e)),
    };
    let min_swap_bytes = match size::parse_size(args.min_swap.as_str()) {
        Ok(n) => n,
        Err(e) => return Err(RunError::MinSwap(e)),
    };
    let poll = match duration::parse_duration(args.poll.as_str()) {
        Ok(d) => d,
        Err(e) => return Err(RunError::Poll(e)),
    };
    let term_grace = match duration::parse_duration(args.term_grace.as_str()) {
        Ok(d) => d,
        Err(e) => return Err(RunError::TermGrace(e)),
    };
    let profile = profile::effective_profile(args.profile, command.as_slice());
    let require_earlyoom = args.require_earlyoom || (!args.allow_no_earlyoom
        && profile.requires_earlyoom());
    Ok(
        Settings {
            min_mem_bytes,
            min_swap_bytes,
            poll,
            term_grace,
            command,
            profile,
            require_earlyoom,
        },
    )
}

/// How a child ended: with a code of its own, or by a signal.
#[derive(Clone, Copy, Debug, PartialEq, Eq, Structural)]
pub struct ExitStatus {
    pub code: Option<i32>,
    pub signal: Option<i32>,
}

/// Something for the caller of the guard to do.
#[derive(Debug, PartialEq, Eq)]
pub enum Action {
    /// Open the event log, if there is to be one.
    OpenLog,
    /// Write an event before the launch.
    Log(Event),
    /// Find out whether `earlyoom` is active.
    AskEarlyoom,
    /// Read how much memory is left.
    ReadMemory,
    /// Begin to take note of signals.
    WatchSignals,
    /// Start the command in a process group of its own.
    Spawn,
    /// Give the terminal to the group.
    HandOff { pgid: i32 },
    /// Write an event after the launch.
    LogAfterLaunch(Event),
    /// See whether a signal has come.
    PollSignal,
    /// See whether the child has ended.
    PollChild,
    /// Wait until the time is over, a signal has come or the child has ended.
    WaitForPoll(Duration),
    /// See whether anything is left of the group.
    CheckGroup { pgid: i32 },
    /// Take the terminal back.
    RestoreTerminal,
    /// Take the terminal back, for the last time.
    ReleaseTerminal,
    /// Write a line of errors.
    Print(String),
    /// Stop the group.
    Terminate { pgid: i32, grace: Duration },
    /// Wait for the end of the child.
    Reap,
    /// Come to an end, with an exit code or with the words for an error.
    Finish(Result<i32, String>),
}

/// What came of an action. Errors come as words.
#[derive(Debug, PartialEq, Eq)]
pub enum Reply {
    Done(Result<(), String>),
    Earlyoom(Result<bool, String>),
    Memory(Result<MemInfo, String>),
    Spawned(Result<u32, String>),
    HandedOff(Result<bool, String>),
    Signal(Option<i32>),
    Child(Result<Option<ExitStatus>, String>),
    Group(bool),
}

/// What an [`Action`] says. Spans of time are in nanoseconds.
pub enum ActionView {
    OpenLog,
    Log(EventView),
    AskEarlyoom,
    ReadMemory,
    WatchSignals,
    Spawn,
    HandOff { pgid: int },
    LogAfterLaunch(EventView),
    PollSignal,
    PollChild,
    WaitForPoll(nat),
    CheckGroup { pgid: int },
    RestoreTerminal,
    ReleaseTerminal,
    Print(Seq<char>),
    Terminate { pgid: int, grace: nat },
    Reap,
    Finish(Result<int, Seq<char>>),
}

/// What a [`Reply`] says.
pub enum ReplyView {
    Done(Result<(), Seq<char>>),
    Earlyoom(Result<bool, Seq<char>>),
    Memory(Result<MemInfo, Seq<char>>),
    Spawned(Result<u32, Seq<char>>),
    HandedOff(Result<bool, Seq<char>>),
    Signal(Option<i32>),
    Child(Result<Option<ExitStatus>, Seq<char>>),
    Group(bool),
}

impl View for Action {
    type V = ActionView;

    open spec fn view(&self) -> ActionView {
        match *self {
            Action::OpenLog => ActionView::OpenLog,
            Action::Log(e) => ActionView::Log(e@),
            Action::AskEarlyoom => ActionView::AskEarlyoom,
            Action::ReadMemory => ActionView::ReadMemory,
            Action::WatchSignals => ActionView::WatchSignals,
            Action::Spawn => ActionView::Spawn,
            Action::HandOff { pgid } => ActionView::HandOff { pgid: pgid as int },
            Action::LogAfterLaunch(e) => ActionView::LogAfterLaunch(e@),
            Action::PollSignal => ActionView::PollSignal,
            Action::PollChild => ActionView::PollChild,
            Action::WaitForPoll(d) => ActionView::WaitForPoll(d@),
            Action::CheckGroup { pgid } => ActionView::CheckGroup { pgid: pgid as int },
            Action::RestoreTerminal => ActionView::RestoreTerminal,
            Action::ReleaseTerminal => ActionView::ReleaseTerminal,
            Action::Print(s) => ActionView::Print(s@),
            Action::Terminate { pgid, grace } => ActionView::Terminate {
                pgid: pgid as int,
                grace: grace@,
            },
            Action::Reap => ActionView::Reap,
            Action::Finish(r) => ActionView::Finish(
                match r {
                    Ok(code) => Ok(code as int),
                    Err(e) => Err(e@),
                },
            ),
        }
    }
}

impl View for Reply {
    type V = ReplyView;

    open spec fn view(&self) -> ReplyView {
        match *self {
            Reply::Done(r) => ReplyView::Done(text::in_words(r)),
            Reply::Earlyoom(r) => ReplyView::Earlyoom(text::in_words(r)),
            Reply::Memory(r) => ReplyView::Memory(text::in_words(r)),
            Reply::Spawned(r) => ReplyView::Spawned(text::in_words(r)),
            Reply::HandedOff(r) => ReplyView::HandedOff(text::in_words(r)),
            Reply::Signal(n) => ReplyView::Signal(n),
            Reply::Child(r) => ReplyView::Child(text::in_words(r)),
            Reply::Group(b) => ReplyView::Group(b),
        }
    }
}

/// What a list of actions says.
pub open spec fn plan_view(plan: Seq<Action>) -> Seq<ActionView> {
    Seq::new(plan.len(), |i: int| plan[i]@)
}

/// Whether a reply is one that can come of an action. A signal, or the end of a child, is one that
/// has an exit code.
pub open spec fn answers(action: ActionView, reply: ReplyView) -> bool {
    match action {
        ActionView::OpenLog
        | ActionView::Log(_)
        | ActionView::WatchSignals
        | ActionView::LogAfterLaunch(_)
        | ActionView::RestoreTerminal
        | ActionView::ReleaseTerminal
        | ActionView::Print(_)
        | ActionView::Terminate { .. }
        | ActionView::Reap => reply is Done,
        ActionView::AskEarlyoom => reply is Earlyoom,
        ActionView::ReadMemory => reply is Memory,
        ActionView::Spawn => reply is Spawned,
        ActionView::HandOff { .. } => reply is HandedOff,
        ActionView::PollSignal => match reply {
            ReplyView::Signal(Some(n)) => 128 + n <= i32::MAX,
            ReplyView::Signal(None) => true,
            _ => false,
        },
        ActionView::PollChild | ActionView::WaitForPoll(_) => match reply {
            ReplyView::Child(Ok(Some(status))) => process::exit_code(status.code, status.signal)
                <= i32::MAX,
            ReplyView::Child(_) => true,
            _ => false,
        },
        ActionView::CheckGroup { .. } => reply is Group,
        ActionView::Finish(_) => false,
    }
}

/// The floor that is not met.
#[derive(Clone, Copy, Debug, PartialEq, Eq, Structural)]
pub enum Shortage {
    Memory,
    Swap,
}

/// Which floor is not met, if any; memory is looked at first. What equals a floor meets it.
pub open spec fn shortage(settings: SettingsView, mem: MemInfo) -> Option<Shortage> {
    if (mem.mem_available_bytes as nat) < settings.min_mem_bytes {
        Some(Shortage::Memory)
    } else if (mem.swap_free_bytes as nat) < settings.min_swap_bytes {
        Some(Shortage::Swap)
    } else {
        None
    }
}

/// What is left of the one, and what its floor is: `MemAvailable 1.0GiB <between> 2.0GiB`.
pub open spec fn shortage_text(
    settings: SettingsView,
    mem: MemInfo,
    what: Shortage,
    between: Seq<char>,
) -> Seq<char> {
    match what {
        Shortage::Memory => "MemAvailable "@ + size::bytes_text(mem.mem_available_bytes as nat)
            + between + size::bytes_text(settings.min_mem_bytes),
        Shortage::Swap => "SwapFree "@ + size::bytes_text(mem.swap_free_bytes as nat) + between
            + size::bytes_text(settings.min_swap_bytes),
    }
}

/// The process group that a child leads: its process number, as a signed number of 32 bits.
pub open spec fn group_of(pid: u32) -> int {
    if pid <= i32::MAX {
        pid as int
    } else {
        pid - 0x1_0000_0000
    }
}

/// How a run stands: what it is held to, the child if it was launched, and whether the terminal
/// was given away.
#[verifier::ext_equal]
pub struct RunView {
    pub settings: SettingsView,
    pub child: Option<u32>,
    pub handed_off: bool,
}

impl RunView {
    /// An event about the command.
    pub open spec fn event(self, now: u128, event: Seq<char>, label: Seq<char>) -> EventView {
        EventView::new(now, event, label).with_command(self.settings.command)
    }

    /// An event about the child.
    pub open spec fn child_event(self, now: u128, event: Seq<char>) -> EventView {
        self.event(now, event, "run"@).with_pid(self.child->0)
    }

    /// The process group of the child.
    pub open spec fn pgid(self) -> int {
        group_of(self.child->0)
    }

    /// To stop the group.
    pub open spec fn terminate(self) -> ActionView {
        ActionView::Terminate { pgid: self.pgid(), grace: self.settings.term_grace }
    }

    /// To take the terminal back, where it was given away.
    pub open spec fn restore(self) -> Seq<ActionView> {
        if self.handed_off {
            seq![ActionView::RestoreTerminal]
        } else {
            Seq::empty()
        }
    }

    /// One look at signals, the child and the memory, and the wait for the next.
    pub open spec fn round(self) -> Seq<ActionView> {
        seq![
            ActionView::PollSignal,
            ActionView::PollChild,
            ActionView::ReadMemory,
            ActionView::WaitForPoll(self.settings.poll),
        ]
    }

    /// What is done before the launch, once the log is open.
    pub open spec fn preflight(self, now: u128) -> Seq<ActionView> {
        if self.settings.require_earlyoom {
            seq![
                ActionView::Log(self.event(now, "preflight"@, "run"@)),
                ActionView::AskEarlyoom,
                ActionView::ReadMemory,
            ]
        } else {
            seq![
                ActionView::Log(self.event(now, "preflight"@, "run"@)),
                ActionView::ReadMemory,
            ]
        }
    }

    /// What is done where `earlyoom` is required and not active.
    pub open spec fn refuse_without_earlyoom(self, now: u128) -> Seq<ActionView> {
        seq![
            ActionView::Log(
                self.event(now, "refused"@, "earlyoom"@).with_detail(
                    "earlyoom is required but not active"@,
                ),
            ),
            ActionView::Print(
                "refusing to launch: earlyoom is required for profile "@ + profile::profile_text(
                    self.settings.profile,
                ),
            ),
            ActionView::Finish(Ok(3)),
        ]
    }

    /// What is done where a floor is not met before the launch.
    pub open spec fn refuse_for_shortage(self, now: u128, mem: MemInfo, what: Shortage) -> Seq<
        ActionView,
    > {
        let label = match what {
            Shortage::Memory => "memory"@,
            Shortage::Swap => "swap"@,
        };
        let detail = match what {
            Shortage::Memory => "MemAvailable is below the configured floor"@,
            Shortage::Swap => "SwapFree is below the configured floor"@,
        };
        seq![
            ActionView::Log(
                self.event(now, "refused"@, label).with_mem(mem).with_detail(detail),
            ),
            ActionView::Print(
                "refusing to launch: "@ + shortage_text(
                    self.settings,
                    mem,
                    what,
                    " is below floor "@,
                ),
            ),
            ActionView::Finish(Ok(4)),
        ]
    }

    /// What is done where a floor is not met after the launch.
    pub open spec fn stop_for_pressure(self, now: u128, mem: MemInfo, what: Shortage) -> Seq<
        ActionView,
    > {
        let detail = shortage_text(self.settings, mem, what, " below floor "@);
        self.restore() + seq![
            ActionView::LogAfterLaunch(
                self.child_event(now, "memory_pressure_kill"@).with_mem(mem).with_detail(detail),
            ),
            ActionView::Print(
                "memory pressure: "@ + detail + "; terminating process group "@
                    + text::signed_decimal(self.pgid()),
            ),
            self.terminate(),
            ActionView::Reap,
            ActionView::Finish(Ok(137)),
        ]
    }

    /// What is done where a signal has come.
    pub open spec fn stop_for_signal(self, now: u128, signal: i32) -> Seq<ActionView> {
        let words = "received signal "@ + text::signed_decimal(signal as int);
        self.restore() + seq![
            ActionView::LogAfterLaunch(
                self.child_event(now, "parent_signal_kill"@).with_detail(words),
            ),
            ActionView::Print(
                words + "; terminating process group "@ + text::signed_decimal(self.pgid()),
            ),
            self.terminate(),
            ActionView::Reap,
            ActionView::Finish(Ok(128 + signal)),
        ]
    }

    /// What is done where the guard itself fails after the launch.
    pub open spec fn stop_for_error(self, error: Seq<char>) -> Seq<ActionView> {
        self.restore() + seq![
            ActionView::Print(
                "guard error after launch: "@ + error + "; terminating process group "@
                    + text::signed_decimal(self.pgid()),
            ),
            self.terminate(),
            ActionView::Reap,
            ActionView::Finish(Err(error)),
        ]
    }

    /// What is done where the child has ended.
    pub open spec fn after_exit(self, now: u128, status: ExitStatus) -> Seq<ActionView> {
        let code = process::exit_code(status.code, status.signal);
        seq![
            ActionView::LogAfterLaunch(
                self.child_event(now, "child_exit"@).with_exit(code as i32),
            ),
            ActionView::CheckGroup { pgid: self.pgid() },
        ] + self.restore() + seq![self.terminate(), ActionView::Finish(Ok(code))]
    }

    /// What is done where an action has failed that the run depends on.
    pub open spec fn give_up(self, error: Seq<char>) -> Seq<ActionView> {
        if self.child is Some {
            self.stop_for_error(error)
        } else {
            seq![ActionView::Finish(Err(error))]
        }
    }

    /// What is done where `earlyoom` is active, or is not; `rest` is what was planned.
    pub open spec fn on_earlyoom(self, now: u128, active: bool, rest: Seq<ActionView>) -> Seq<
        ActionView,
    > {
        if active {
            rest
        } else {
            self.refuse_without_earlyoom(now)
        }
    }

    /// What is done where so much memory is left; `rest` is what was planned.
    pub open spec fn on_memory(self, now: u128, mem: MemInfo, rest: Seq<ActionView>) -> Seq<
        ActionView,
    > {
        match (shortage(self.settings, mem), self.child) {
            (Some(what), None) => self.refuse_for_shortage(now, mem, what),
            (Some(what), Some(_)) => self.stop_for_pressure(now, mem, what),
            (None, None) => seq![ActionView::WatchSignals, ActionView::Spawn],
            (None, Some(_)) => rest,
        }
    }
}

/// A run and what is to be done in it, first things first.
#[verifier::ext_equal]
pub struct GuardView {
    pub run: RunView,
    pub plan: Seq<ActionView>,
}

impl GuardView {
    /// The start of a run.
    pub open spec fn start(settings: SettingsView) -> GuardView {
        GuardView {
            run: RunView { settings, child: None, handed_off: false },
            plan: seq![ActionView::OpenLog],
        }
    }

    /// What is to be done now.
    pub open spec fn action(self) -> ActionView {
        self.plan[0]
    }

    /// What is to be done after that.
    pub open spec fn rest(self) -> Seq<ActionView> {
        self.plan.drop_first()
    }

    /// The same run with another plan.
    pub open spec fn with_plan(self, plan: Seq<ActionView>) -> GuardView {
        GuardView { plan, ..self }
    }

    /// The run after a reply to its action, at the given time.
    pub open spec fn next(self, reply: ReplyView, now: u128) -> GuardView {
        let run = self.run;
        let rest = self.rest();
        match reply {
            ReplyView::Done(Ok(_)) => self.with_plan(
                if self.action() is OpenLog {
                    run.preflight(now)
                } else {
                    rest
                },
            ),
            ReplyView::Done(Err(e)) => self.with_plan(
                match self.action() {
                    ActionView::OpenLog | ActionView::Log(_) | ActionView::WatchSignals =>
                        run.give_up(e),
                    ActionView::LogAfterLaunch(_) => seq![
                        ActionView::Print(
                            "warning: failed to write event log after launch: "@ + e,
                        ),
                    ] + rest,
                    ActionView::RestoreTerminal => seq![ActionView::Print("warning: "@ + e)]
                        + rest.drop_last() + seq![ActionView::ReleaseTerminal, rest.last()],
                    ActionView::ReleaseTerminal => seq![ActionView::Print("warning: "@ + e)]
                        + rest,
                    _ => rest,
                },
            ),
            ReplyView::Earlyoom(Ok(active)) => self.with_plan(run.on_earlyoom(now, active, rest)),
            ReplyView::Memory(Ok(mem)) => self.with_plan(run.on_memory(now, mem, rest)),
            ReplyView::Spawned(Ok(pid)) => GuardView {
                run: RunView { child: Some(pid), ..run },
                plan: seq![ActionView::HandOff { pgid: group_of(pid) }],
            },
            ReplyView::HandedOff(Ok(given)) => GuardView {
                run: RunView { handed_off: given, ..run },
                plan: seq![ActionView::LogAfterLaunch(run.child_event(now, "launched"@))]
                    + run.round(),
            },
            ReplyView::Signal(Some(signal)) => self.with_plan(run.stop_for_signal(now, signal)),
            ReplyView::Signal(None) => self.with_plan(rest),
            ReplyView::Child(Ok(Some(status))) => self.with_plan(run.after_exit(now, status)),
            ReplyView::Child(Ok(None)) => self.with_plan(
                if self.action() is WaitForPoll {
                    run.round()
                } else {
                    rest
                },
            ),
            ReplyView::Group(true) => self.with_plan(
                seq![
                    ActionView::LogAfterLaunch(
                        run.child_event(now, "process_group_cleanup"@).with_detail(
                            "leader exited while process group still had running members"@,
                        ),
                    ),
                ] + rest,
            ),
            ReplyView::Group(false) => self.with_plan(rest),
            ReplyView::Earlyoom(Err(e))
            | ReplyView::Memory(Err(e))
            | ReplyView::Spawned(Err(e))
            | ReplyView::HandedOff(Err(e))
            | ReplyView::Child(Err(e)) => self.with_plan(run.give_up(e)),
        }
    }

    /// What holds of every plan: it leads to an end or to a decision, nothing follows an end, and
    /// before and after the launch it holds only what belongs there.
    pub open spec fn consistent(self) -> bool {
        &&& self.plan.len() > 0
        &&& match self.plan.last() {
            ActionView::OpenLog
            | ActionView::Spawn
            | ActionView::HandOff { .. }
            | ActionView::WaitForPoll(_)
            | ActionView::Finish(_) => true,
            ActionView::ReadMemory => self.run.child is None,
            _ => false,
        }
        &&& forall|i: int|
            0 <= i < self.plan.len() && (#[trigger] self.plan[i]) is Finish ==> i == self.plan.len()
                - 1
        &&& forall|i: int|
            0 <= i < self.plan.len() ==> if self.run.child is Some {
                after_launch(#[trigger] self.plan[i])
            } else {
                before_launch(self.plan[i])
            }
        &&& self.run.handed_off ==> self.run.child is Some
    }
}

/// Whether an action can stand before the launch.
pub open spec fn before_launch(action: ActionView) -> bool {
    action is OpenLog || action is Log || action is AskEarlyoom || action is ReadMemory || action
        is WatchSignals || action is Spawn || action is Print || action is Finish
}

/// Whether an action can stand after the launch.
pub open spec fn after_launch(action: ActionView) -> bool {
    action is Finish || action is Print || action is ReadMemory || !before_launch(action)
}

/// A consistent plan stays consistent.
pub proof fn lemma_next_consistent(guard: GuardView, reply: ReplyView, now: u128)
    requires
        guard.consistent(),
        answers(guard.action(), reply),
    ensures
        guard.next(reply, now).consistent(),
{
    let next = guard.next(reply, now);
    assert forall|i: int| 0 <= i < next.plan.len() implies (if next.run.child is Some {
        after_launch(#[trigger] next.plan[i])
    } else {
        before_launch(next.plan[i])
    }) && (next.plan[i] is Finish ==> i == next.plan.len() - 1) by {
        if i < guard.rest().len() {
            assert(guard.rest()[i] == guard.plan[i + 1]);
        }
        if 0 < i <= guard.rest().len() {
            assert(guard.rest()[i - 1] == guard.plan[i]);
        }
    }
}

/// How a run stands.
pub struct Run {
    pub settings: Settings,
    pub child: Option<u32>,
    pub handed_off: bool,
}

impl View for Run {
    type V = RunView;

    open spec fn view(&self) -> RunView {
        RunView {
            settings: self.settings@,
            child: self.child,
            handed_off: self.handed_off,
        }
    }
}

/// The process group that a child leads.
fn process_group(pid: u32) -> (r: i32)
    ensures
        r == group_of(pid),
{
    if pid <= 0x7fff_ffff {
        pid as i32
    } else {
        (pid as i64 - 0x1_0000_0000) as i32
    }
}

/// One plan behind another.
fn with_actions(a: Vec<Action>, b: Vec<Action>) -> (r: Vec<Action>)
    ensures
        plan_view(r@) == plan_view(a@) + plan_view(b@),
{
    let mut r = a;
    let mut b = b;
    let ghost first = r@;
    let ghost second = b@;
    r.append(&mut b);
    assert(plan_view(r@) =~= plan_view(first) + plan_view(second));
    r
}

/// Which floor is not met, if any.
fn find_shortage(settings: &Settings, mem: MemInfo) -> (r: Option<Shortage>)
    ensures
        r == shortage(settings@, mem),
{
    if mem.mem_available_bytes < settings.min_mem_bytes {
        Some(Shortage::Memory)
    } else if mem.swap_free_bytes < settings.min_swap_bytes {
        Some(Shortage::Swap)
    } else {
        None
    }
}

/// What is left of the one, and what its floor is.
fn describe_shortage(settings: &Settings, mem: MemInfo, what: Shortage, between: &str) -> (r:
    String)
    ensures
        r@ == shortage_text(settings@, mem, what, between@),
{
    let mut r: String;
    let floor: u64;
    match what {
        Shortage::Memory => {
            r = text::concat("MemAvailable ", size::format_bytes(mem.mem_available_bytes).as_str());
            floor = settings.min_mem_bytes;
        },
        Shortage::Swap => {
            r = text::concat("SwapFree ", size::format_bytes(mem.swap_free_bytes).as_str());
            floor = settings.min_swap_bytes;
        },
    }
    r.append(between);
    r.append(size::format_bytes(floor).as_str());
    r
}

impl Run {
    /// An event about the command.
    fn event(&self, now: u128, event: &str, label: &str) -> (r: Event)
        ensures
            r@ == self@.event(now, event@, label@),
    {
        Event::new(now, event, label).with_command(
            text::copy_strings(self.settings.command.as_slice()),
        )
    }

    /// An event about the child.
    fn child_event(&self, now: u128, event: &str, pid: u32) -> (r: Event)
        requires
            self.child == Some(pid),
        ensures
            r@ == self@.child_event(now, event@),
    {
        self.event(now, event, "run").with_pid(pid)
    }

    /// To stop the group.
    fn terminate(&self, pid: u32) -> (r: Action)
        requires
            self.child == Some(pid),
        ensures
            r@ == self@.terminate(),
    {
        Action::Terminate { pgid: process_group(pid), grace: self.settings.term_grace }
    }

    /// To take the terminal back, where it was given away.
    fn restore(&self) -> (r: Vec<Action>)
        ensures
            plan_view(r@) == self@.restore(),
    {
        let mut r: Vec<Action> = Vec::new();
        if self.handed_off {
            r.push(Action::RestoreTerminal);
        }
        assert(plan_view(r@) =~= self@.restore());
        r
    }

    /// One look at signals, the child and the memory, and the wait for the next.
    fn round(&self) -> (r: Vec<Action>)
        ensures
            plan_view(r@) == self@.round(),
    {
        let r = vec![
            Action::PollSignal,
            Action::PollChild,
            Action::ReadMemory,
            Action::WaitForPoll(self.settings.poll),
        ];
        assert(plan_view(r@) =~= self@.round());
        r
    }

    /// What is done before the launch, once the log is open.
    fn preflight(&self, now: u128) -> (r: Vec<Action>)
        ensures
            plan_view(r@) == self@.preflight(now),
    {
        let mut r = vec![Action::Log(self.event(now, "preflight", "run"))];
        if self.settings.require_earlyoom {
            r.push(Action::AskEarlyoom);
        }
        r.push(Action::ReadMemory);
        assert(plan_view(r@) =~= self@.preflight(now));
        r
    }

    /// What is done where `earlyoom` is required and not active.
    fn refuse_without_earlyoom(&self, now: u128) -> (r: Vec<Action>)
        ensures
            plan_view(r@) == self@.refuse_without_earlyoom(now),
    {
        let event = self.event(now, "refused", "earlyoom").with_detail(
            "earlyoom is required but not active".to_string(),
        );
        let words = text::concat(
            "refusing to launch: earlyoom is required for profile ",
            self.settings.profile.name().as_str(),
        );
        let r = vec![Action::Log(event), Action::Print(words), Action::Finish(Ok(3))];
        assert(plan_view(r@) =~= self@.refuse_without_earlyoom(now));
        r
    }

    /// What is done where a floor is not met before the launch.
    fn refuse_for_shortage(&self, now: u128, mem: MemInfo, what: Shortage) -> (r: Vec<Action>)
        ensures
            plan_view(r@) == self@.refuse_for_shortage(now, mem, what),
    {
        let event = match what {
            Shortage::Memory => self.event(now, "refused", "memory").with_mem(mem).with_detail(
                "MemAvailable is below the configured floor".to_string(),
            ),
            Shortage::Swap => self.event(now, "refused", "swap").with_mem(mem).with_detail(
                "SwapFree is below the configured floor".to_string(),
            ),
        };
        let words = text::concat(
            "refusing to launch: ",
            describe_shortage(&self.settings, mem, what, " is below floor ").as_str(),
        );
        let r = vec![Action::Log(event), Action::Print(words), Action::Finish(Ok(4))];
        assert(plan_view(r@) =~= self@.refuse_for_shortage(now, mem, what));
        r
    }

    /// The end of a line that says that the group is stopped.
    fn terminating(words: String, pid: u32) -> (r: Action)
        ensures
            r@ == ActionView::Print(
                words@ + "; terminating process group "@ + text::signed_decimal(group_of(pid)),
            ),
    {
        let mut line = words;
        line.append("; terminating process group ");
        line.append(text::signed_string(process_group(pid)).as_str());
        Action::Print(line)
    }

    /// What is done where a floor is not met after the launch.
    fn kill_for_pressure(&self, now: u128, mem: MemInfo, what: Shortage, pid: u32) -> (r: Vec<
        Action,
    >)
        requires
            self.child == Some(pid),
        ensures
            plan_view(r@) == self@.stop_for_pressure(now, mem, what),
    {
        let detail = describe_shortage(&self.settings, mem, what, " below floor ");
        let line = Run::terminating(text::concat("memory pressure: ", detail.as_str()), pid);
        let event = self.child_event(now, "memory_pressure_kill", pid).with_mem(mem).with_detail(
            detail,
        );
        let stop = vec![
            Action::LogAfterLaunch(event),
            line,
            self.terminate(pid),
            Action::Reap,
            Action::Finish(Ok(137)),
        ];
        let r = with_actions(self.restore(), stop);
        assert(plan_view(r@) =~= self@.stop_for_pressure(now, mem, what));
        r
    }

    /// What is done where a signal has come.
    fn kill_for_parent_signal(&self, now: u128, signal: i32, pid: u32) -> (r: Vec<Action>)
        requires
            self.child == Some(pid),
            128 + signal <= i32::MAX,
        ensures
            plan_view(r@) == self@.stop_for_signal(now, signal),
    {
        let words = text::concat("received signal ", text::signed_string(signal).as_str());
        let event = self.child_event(now, "parent_signal_kill", pid).with_detail(words.clone());
        let stop = vec![
            Action::LogAfterLaunch(event),
            Run::terminating(words, pid),
            self.terminate(pid),
            Action::Reap,
            Action::Finish(Ok(128 + signal)),
        ];
        let r = with_actions(self.restore(), stop);
        assert(plan_view(r@) =~= self@.stop_for_signal(now, signal));
        r
    }

    /// What is done where the guard itself fails after the launch.
    fn cleanup_child_after_error(&self, error: String, pid: u32) -> (r: Vec<Action>)
        requires
            self.child == Some(pid),
        ensures
            plan_view(r@) == self@.stop_for_error(error@),
    {
        let words = text::concat("guard error after launch: ", error.as_str());
        let stop = vec![
            Run::terminating(words, pid),
            self.terminate(pid),
            Action::Reap,
            Action::Finish(Err(error)),
        ];
        let r = with_actions(self.restore(), stop);
        assert(plan_view(r@) =~= self@.stop_for_error(error@));
        r
    }

    /// What is done where the child has ended.
    fn after_exit(&self, now: u128, status: ExitStatus, pid: u32) -> (r: Vec<Action>)
        requires
            self.child == Some(pid),
            process::exit_code(status.code, status.signal) <= i32::MAX,
        ensures
            plan_view(r@) == self@.after_exit(now, status),
    {
        let code = process::status_to_code(status.code, status.signal);
        let look = vec![
            Action::LogAfterLaunch(self.child_event(now, "child_exit", pid).with_exit(code)),
            Action::CheckGroup { pgid: process_group(pid) },
        ];
        let stop = vec![self.terminate(pid), Action::Finish(Ok(code))];
        let r = with_actions(with_actions(look, self.restore()), stop);
        assert(plan_view(r@) =~= self@.after_exit(now, status));
        r
    }

    /// What is done where an action has failed that the run depends on.
    fn give_up(&self, error: String) -> (r: Vec<Action>)
        ensures
            plan_view(r@) == self@.give_up(error@),
    {
        match self.child {
            Some(pid) => self.cleanup_child_after_error(error, pid),
            None => {
                let r = vec![Action::Finish(Err(error))];
                assert(plan_view(r@) =~= self@.give_up(error@));
                r
            },
        }
    }

    /// What is done where so much memory is left.
    fn on_memory(&self, now: u128, mem: MemInfo, rest: Vec<Action>) -> (r: Vec<Action>)
        ensures
            plan_view(r@) == self@.on_memory(now, mem, plan_view(rest@)),
    {
        match (find_shortage(&self.settings, mem), self.child) {
            (Some(what), None) => self.refuse_for_shortage(now, mem, what),
            (Some(what), Some(pid)) => self.kill_for_pressure(now, mem, what, pid),
            (None, None) => {
                let r = vec![Action::WatchSignals, Action::Spawn];
                assert(plan_view(r@) =~= seq![ActionView::WatchSignals, ActionView::Spawn]);
                r
            },
            (None, Some(_)) => rest,
        }
    }
}

/// Whether there is an exit code for the end of a child.
fn has_code(status: ExitStatus) -> (r: bool)
    ensures
        r == (process::exit_code(status.code, status.signal) <= i32::MAX),
{
    match (status.code, status.signal) {
        (None, Some(signal)) => signal <= 0x7fff_ffff - 128,
        _ => true,
    }
}

/// A run, and what is to be done in it.
pub struct Guard {
    run: Run,
    plan: Vec<Action>,
}

impl View for Guard {
    type V = GuardView;

    closed spec fn view(&self) -> GuardView {
        GuardView { run: self.run@, plan: plan_view(self.plan@) }
    }
}

/// Checks the arguments of a run, and starts it.
pub fn run_guard(args: &RunArgs) -> (r: Result<Guard, RunError>)
    ensures
        match r {
            Ok(guard) => settings_from(*args, process::lossy_all(args.command@)) is Ok && guard@
                == GuardView::start(
                settings_from(*args, process::lossy_all(args.command@))->Ok_0,
            ),
            Err(e) => settings_from(*args, process::lossy_all(args.command@)) == Err::<
                SettingsView,
                RunFault,
            >(e@),
        },
{
    let command = process::command_strings(args.command.as_slice());
    match settings_for(args, command) {
        Ok(settings) => Ok(Guard::new(settings)),
        Err(e) => Err(e),
    }
}

impl Guard {
    #[verifier::type_invariant]
    spec fn well_formed(self) -> bool {
        self@.consistent()
    }

    /// The start of a run.
    pub fn new(settings: Settings) -> (r: Guard)
        ensures
            r@ == GuardView::start(settings@),
    {
        let run = Run { settings, child: None, handed_off: false };
        let plan = vec![Action::OpenLog];
        assert(plan_view(plan@) =~= seq![ActionView::OpenLog]);
        Guard { run, plan }
    }

    /// What is to be done now.
    pub fn action(&self) -> (r: &Action)
        ensures
            r@ == self@.action(),
    {
        proof {
            use_type_invariant(self);
        }
        &self.plan[0]
    }

    /// Whether a reply is one that can come of the action.
    pub fn accepts(&self, reply: &Reply) -> (r: bool)
        ensures
            r == answers(self@.action(), reply@),
    {
        proof {
            use_type_invariant(self);
            assert(plan_view(self.plan@)[0] == self.plan[0]@);
        }
        match (&self.plan[0], reply) {
            (Action::AskEarlyoom, Reply::Earlyoom(_)) => true,
            (Action::ReadMemory, Reply::Memory(_)) => true,
            (Action::Spawn, Reply::Spawned(_)) => true,
            (Action::HandOff { .. }, Reply::HandedOff(_)) => true,
            (Action::PollSignal, Reply::Signal(Some(n))) => *n <= 0x7fff_ffff - 128,
            (Action::PollSignal, Reply::Signal(None)) => true,
            (Action::PollChild, Reply::Child(Ok(Some(status)))) => has_code(*status),
            (Action::WaitForPoll(_), Reply::Child(Ok(Some(status)))) => has_code(*status),
            (Action::PollChild, Reply::Child(_)) => true,
            (Action::WaitForPoll(_), Reply::Child(_)) => true,
            (Action::CheckGroup { .. }, Reply::Group(_)) => true,
            (
                Action::OpenLog
                | Action::Log(_)
                | Action::WatchSignals
                | Action::LogAfterLaunch(_)
                | Action::RestoreTerminal
                | Action::ReleaseTerminal
                | Action::Print(_)
                | Action::Terminate { .. }
                | Action::Reap,
                Reply::Done(_),
            ) => true,
            _ => false,
        }
    }

    /// The run after a reply to its action, at the given time in milliseconds since the start of
    /// 1970.
    pub fn step(self, reply: Reply, now: u128) -> (r: Guard)
        requires
            answers(self@.action(), reply@),
        ensures
            r@ == self@.next(reply@, now),
    {
        proof {
            use_type_invariant(&self);
            lemma_next_consistent(self@, reply@, now);
            assert(plan_view(self.plan@)[0] == self.plan[0]@);
        }
        let ghost before = self@;
        let mut run = self.run;
        let mut rest = self.plan;
        let action = rest.remove(0);
        assert(plan_view(rest@) =~= before.rest());
        let plan = match reply {
            Reply::Done(Ok(_)) => match action {
                Action::OpenLog => run.preflight(now),
                _ => rest,
            },
            Reply::Done(Err(e)) => match action {
                Action::OpenLog | Action::Log(_) | Action::WatchSignals => run.give_up(e),
                Action::LogAfterLaunch(_) => with_actions(
                    vec![
                        Action::Print(
                            text::concat(
                                "warning: failed to write event log after launch: ",
                                e.as_str(),
                            ),
                        ),
                    ],
                    rest,
                ),
                Action::RestoreTerminal => {
                    let end = rest.len() - 1;
                    rest.insert(end, Action::ReleaseTerminal);
                    with_actions(vec![Action::Print(text::concat("warning: ", e.as_str()))], rest)
                },
                Action::ReleaseTerminal => with_actions(
                    vec![Action::Print(text::concat("warning: ", e.as_str()))],
                    rest,
                ),
                _ => rest,
            },
            Reply::Earlyoom(Ok(active)) => if active {
                rest
            } else {
                run.refuse_without_earlyoom(now)
            },
            Reply::Memory(Ok(mem)) => run.on_memory(now, mem, rest),
            Reply::Spawned(Ok(pid)) => {
                run.child = Some(pid);
                vec![Action::HandOff { pgid: process_group(pid) }]
            },
            Reply::HandedOff(Ok(given)) => {
                run.handed_off = given;
                match run.child {
                    Some(pid) => with_actions(
                        vec![Action::LogAfterLaunch(run.child_event(now, "launched", pid))],
                        run.round(),
                    ),
                    None => unreached(),
                }
            },
            Reply::Signal(Some(signal)) => match run.child {
                Some(pid) => run.kill_for_parent_signal(now, signal, pid),
                None => unreached(),
            },
            Reply::Signal(None) => rest,
            Reply::Child(Ok(Some(status))) => match run.child {
                Some(pid) => run.after_exit(now, status, pid),
                None => unreached(),
            },
            Reply::Child(Ok(None)) => match action {
                Action::WaitForPoll(_) => run.round(),
                _ => rest,
            },
            Reply::Group(true) => match run.child {
                Some(pid) => {
                    let event = run.child_event(now, "process_group_cleanup", pid).with_detail(
                        "leader exited while process group still had running members".to_string(),
                    );
                    with_actions(vec![Action::LogAfterLaunch(event)], rest)
                },
                None => unreached(),
            },
            Reply::Group(false) => rest,
            Reply::Earlyoom(Err(e))
            | Reply::Memory(Err(e))
            | Reply::Spawned(Err(e))
            | Reply::HandedOff(Err(e))
            | Reply::Child(Err(e)) => run.give_up(e),
        };
        assert(plan_view(plan@) =~= before.next(reply@, now).plan);
        Guard { run, plan }
    }
}

} // verus!
