//! The command line: what each command begins, and how the program ends.
use crate::guard::{self, Guard, GuardView, RunArgs};
use crate::install::{self, InstallShimsArgs, InstallView, UninstallShimsArgs, UninstallView};
use crate::job::{Job, JobView};
use crate::wrap::{self, UnwrapArgs, UnwrapView, WrapArgs, WrapView};
use crate::{process, text};
use vstd::prelude::*;
use vstd::string::*;

verus! {

/// The exit code where something is wrong with the arguments or with the guard itself.
pub const FAILURE: i32 = 2;

/// A command line.
#[derive(Debug)]
pub struct Cli {
    pub command: Commands,
}

/// The commands, with their arguments.
#[derive(Debug)]
pub enum Commands {
    Doctor(DoctorArgs),
    Run(RunArgs),
    InstallShims(InstallShimsArgs),
    UninstallShims(UninstallShimsArgs),
    Wrap(WrapArgs),
    Unwrap(UnwrapArgs),
    Inspect(InspectArgs),
}

/// The arguments of a request for a report on the machine.
#[derive(Debug)]
pub struct DoctorArgs {
    pub json: bool,
}

/// The arguments of a request for a report on the guard.
#[derive(Debug)]
pub struct InspectArgs {
    pub json: bool,
}

/// What a command begins.
pub enum Session {
    /// A report on the machine.
    Doctor { json: bool },
    /// A report on the guard.
    Inspect { json: bool },
    /// A run under the guard.
    Guard(Guard),
    /// Work on files.
    Job(Job),
}

/// What a [`Session`] says.
pub enum SessionView {
    Doctor { json: bool },
    Inspect { json: bool },
    Guard(GuardView),
    Job(JobView),
}

impl View for Session {
    type V = SessionView;

    open spec fn view(&self) -> SessionView {
        match *self {
            Session::Doctor { json } => SessionView::Doctor { json },
            Session::Inspect { json } => SessionView::Inspect { json },
            Session::Guard(guard) => SessionView::Guard(guard@),
            Session::Job(job) => SessionView::Job(job@),
        }
    }
}

/// What a command begins, or the words for what is wrong with its arguments. `home` is the home
/// directory, and `text` is the command that is to run as text.
pub open spec fn session_for(
    command: Commands,
    home: Option<Vec<u8>>,
    text: Seq<Seq<char>>,
) -> Result<SessionView, Seq<char>> {
    match command {
        Commands::Doctor(args) => Ok(SessionView::Doctor { json: args.json }),
        Commands::Inspect(args) => Ok(SessionView::Inspect { json: args.json }),
        Commands::Run(args) => match guard::settings_from(args, text) {
            Ok(settings) => Ok(SessionView::Guard(GuardView::start(settings))),
            Err(e) => Err(guard::run_error_text(e)),
        },
        Commands::InstallShims(args) => match install::shim_dir(args.bin_dir, home) {
            Some(dir) => Ok(SessionView::Job(JobView::Install(InstallView::start(args, dir)))),
            None => Err("HOME is not set"@),
        },
        Commands::UninstallShims(args) => match install::shim_dir(args.bin_dir, home) {
            Some(dir) => Ok(SessionView::Job(JobView::Uninstall(UninstallView::start(args, dir)))),
            None => Err("HOME is not set"@),
        },
        Commands::Wrap(args) => Ok(SessionView::Job(JobView::Wrap(WrapView::start(args)))),
        Commands::Unwrap(args) => Ok(SessionView::Job(JobView::Unwrap(UnwrapView::start(args)))),
    }
}

/// The command that is to run as text; nothing where none is.
pub open spec fn command_text(command: Commands) -> Seq<Seq<char>> {
    match command {
        Commands::Run(args) => process::lossy_all(args.command@),
        _ => Seq::empty(),
    }
}

/// What a command begins. `home` is the home directory.
pub fn run_cli(cli: Cli, home: &Option<Vec<u8>>) -> (r: Result<Session, String>)
    ensures
        match r {
            Ok(session) => session_for(cli.command, *home, command_text(cli.command)) == Ok::<
                SessionView,
                Seq<char>,
            >(session@),
            Err(e) => session_for(cli.command, *home, command_text(cli.command)) == Err::<
                SessionView,
                Seq<char>,
            >(e@),
        },
{
    match cli.command {
        Commands::Doctor(args) => Ok(Session::Doctor { json: args.json }),
        Commands::Inspect(args) => Ok(Session::Inspect { json: args.json }),
        Commands::Run(args) => match guard::run_guard(&args) {
            Ok(guard) => Ok(Session::Guard(guard)),
            Err(e) => Err(e.message()),
        },
        Commands::InstallShims(args) => match install::install_shims(args, home) {
            Ok(job) => Ok(Session::Job(Job::Install(job))),
            Err(e) => Err(e.message()),
        },
        Commands::UninstallShims(args) => match install::uninstall_shims(args, home) {
            Ok(job) => Ok(Session::Job(Job::Uninstall(job))),
            Err(e) => Err(e.message()),
        },
        Commands::Wrap(args) => Ok(Session::Job(Job::Wrap(wrap::wrap(args)))),
        Commands::Unwrap(args) => Ok(Session::Job(Job::Unwrap(wrap::unwrap(args)))),
    }
}

/// How the program ends: with a code, after a line of errors if there is one.
#[derive(Debug, PartialEq, Eq)]
pub struct Exit {
    pub code: i32,
    pub error: Option<String>,
}

/// How the program ends, for what came of its work.
pub fn main_entry(result: Result<i32, String>) -> (r: Exit)
    ensures
        match result {
            Ok(code) => r.code == code && r.error is None,
            Err(e) => r.code == 2 && text::content_of(r.error) == Some("error: "@ + e@),
        },
{
    match result {
        Ok(code) => Exit { code, error: None },
        Err(e) => Exit { code: FAILURE, error: Some(text::concat("error: ", e.as_str())) },
    }
}

/// Each command begins its own work, with its own arguments.
pub proof fn law_commands_begin_their_work(
    doctor: DoctorArgs,
    inspect: InspectArgs,
    wrap_args: WrapArgs,
    unwrap_args: UnwrapArgs,
    home: Option<Vec<u8>>,
    text: Seq<Seq<char>>,
)
    ensures
        session_for(Commands::Doctor(doctor), home, text) == Ok::<SessionView, Seq<char>>(
            SessionView::Doctor { json: doctor.json },
        ),
        session_for(Commands::Inspect(inspect), home, text) == Ok::<SessionView, Seq<char>>(
            SessionView::Inspect { json: inspect.json },
        ),
        session_for(Commands::Wrap(wrap_args), home, text) matches Ok(
            SessionView::Job(JobView::Wrap(job)),
        ) && job.target == wrap_args.path@ && job.min_mem == wrap_args.min_mem@ && job.min_swap
            == wrap_args.min_swap@ && job.force == wrap_args.force && job.stage is Look,
        session_for(Commands::Unwrap(unwrap_args), home, text) matches Ok(
            SessionView::Job(JobView::Unwrap(job)),
        ) && job.path == unwrap_args.path@ && job.stage is Resolve,
{
}

/// A request to run, to install or to remove begins exactly where its arguments can be used.
pub proof fn law_requests_begin_where_they_can(
    run: RunArgs,
    add: InstallShimsArgs,
    gone: UninstallShimsArgs,
    home: Option<Vec<u8>>,
    text: Seq<Seq<char>>,
)
    ensures
        session_for(Commands::Run(run), home, text) is Ok <==> guard::settings_from(run, text)
            is Ok,
        session_for(Commands::Run(run), home, text) matches Ok(s) ==> s == SessionView::Guard(
            GuardView::start(guard::settings_from(run, text)->Ok_0),
        ),
        session_for(Commands::InstallShims(add), home, text) is Ok <==> home is Some,
        session_for(Commands::UninstallShims(gone), home, text) is Ok <==> home is Some,
        session_for(Commands::InstallShims(add), home, text) matches Ok(s) ==> (s matches
            SessionView::Job(JobView::Install(job)) && (add.bin_dir matches Some(dir)
            ==> job.bin_dir == dir@) && job.force == add.force),
        session_for(Commands::UninstallShims(gone), home, text) matches Ok(s) ==> (s matches
            SessionView::Job(JobView::Uninstall(job)) && (gone.bin_dir matches Some(dir)
            ==> job.bin_dir == dir@)),
{
}

} // verus!
