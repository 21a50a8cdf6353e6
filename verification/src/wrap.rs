//! Wrapping an executable in place, and undoing it.
use crate::files::{self, FileAction, FileActionView, FileReply, FileReplyView};
use crate::{path, process, shim, text};
use vstd::prelude::*;
use vstd::string::*;

verus! {

/// The arguments of a request to wrap an executable.
#[derive(Debug)]
pub struct WrapArgs {
    pub path: Vec<u8>,
    pub min_mem: String,
    pub min_swap: String,
    pub force: bool,
}

/// How far the wrapping has come.
#[derive(Debug, PartialEq, Eq)]
pub enum WrapStage {
    /// The target is to be looked at.
    Look,
    /// The permissions of the target are to be read.
    Mode,
    /// The place for the target is to be looked at.
    Sidecar,
    /// The target is to be moved there.
    Move,
    /// The path of the running program is to be found.
    Binary,
    /// The wrapper is to be written, for the program at that path.
    Write { bin: Vec<u8> },
    /// That failed. The target is to be moved back.
    PutBack { error: String },
    /// A last line is to be written.
    Say { line: String },
    /// The end.
    End(Result<i32, String>),
}

/// What a [`WrapStage`] says.
pub enum WrapStageView {
    Look,
    Mode,
    Sidecar,
    Move,
    Binary,
    Write { bin: Seq<u8> },
    PutBack { error: Seq<char> },
    Say { line: Seq<char> },
    End(Result<i32, Seq<char>>),
}

impl View for WrapStage {
    type V = WrapStageView;

    open spec fn view(&self) -> WrapStageView {
        match *self {
            WrapStage::Look => WrapStageView::Look,
            WrapStage::Mode => WrapStageView::Mode,
            WrapStage::Sidecar => WrapStageView::Sidecar,
            WrapStage::Move => WrapStageView::Move,
            WrapStage::Binary => WrapStageView::Binary,
            WrapStage::Write { bin } => WrapStageView::Write { bin: bin@ },
            WrapStage::PutBack { error } => WrapStageView::PutBack { error: error@ },
            WrapStage::Say { line } => WrapStageView::Say { line: line@ },
            WrapStage::End(r) => WrapStageView::End(text::in_words(r)),
        }
    }
}

/// The wrapping of an executable.
#[derive(Debug)]
pub struct Wrap {
    pub target: Vec<u8>,
    pub min_mem: String,
    pub min_swap: String,
    pub force: bool,
    pub stage: WrapStage,
}

/// What a [`Wrap`] says.
pub struct WrapView {
    pub target: Seq<u8>,
    pub min_mem: Seq<char>,
    pub min_swap: Seq<char>,
    pub force: bool,
    pub stage: WrapStageView,
}

impl View for Wrap {
    type V = WrapView;

    open spec fn view(&self) -> WrapView {
        WrapView {
            target: self.target@,
            min_mem: self.min_mem@,
            min_swap: self.min_swap@,
            force: self.force,
            stage: self.stage@,
        }
    }
}

/// Where the executable behind a wrapper is kept.
pub open spec fn sidecar(target: Seq<u8>) -> Seq<u8> {
    target + path::real_suffix()
}

impl WrapView {
    /// The start.
    pub open spec fn start(args: WrapArgs) -> WrapView {
        WrapView {
            target: args.path@,
            min_mem: args.min_mem@,
            min_swap: args.min_swap@,
            force: args.force,
            stage: WrapStageView::Look,
        }
    }

    /// The wrapper for the program at the given path.
    pub open spec fn script(self, bin: Seq<u8>) -> Seq<char> {
        shim::wrapper_text(files::shown(bin), self.min_mem, self.min_swap)
    }

    /// What is to be done now.
    pub open spec fn action(self) -> FileActionView {
        let target = self.target;
        match self.stage {
            WrapStageView::Look => FileActionView::Probe(target),
            WrapStageView::Mode => FileActionView::ReadMode(target),
            WrapStageView::Sidecar => FileActionView::CheckEntry(sidecar(target)),
            WrapStageView::Move => FileActionView::Rename { from: target, to: sidecar(target) },
            WrapStageView::Binary => FileActionView::FindBinary,
            WrapStageView::Write { bin } => FileActionView::WriteExecutable {
                path: target,
                content: self.script(bin),
            },
            WrapStageView::PutBack { .. } => FileActionView::Rename {
                from: sidecar(target),
                to: target,
            },
            WrapStageView::Say { line } => FileActionView::Print(line),
            WrapStageView::End(r) => FileActionView::Finish(r),
        }
    }

    /// An end for the given reason.
    pub open spec fn fail(self, words: Seq<char>) -> WrapStageView {
        WrapStageView::End(Err(files::about(words, self.target)))
    }

    /// What follows a look at the target.
    pub open spec fn looked(self, probe: shim::ProbeView) -> WrapStageView {
        if !probe.exists {
            self.fail("cannot wrap missing path: "@)
        } else if shim::is_marked(probe, shim::ABSOLUTE_WRAPPER_MARKER@) {
            WrapStageView::Say { line: files::about("already wrapped: "@, self.target) }
        } else if shim::is_marked(probe, shim::PATH_SHIM_MARKER@) {
            self.fail("cannot wrap PATH shim: "@)
        } else if !probe.is_file {
            self.fail("cannot wrap non-file path: "@)
        } else {
            WrapStageView::Mode
        }
    }

    /// The stage after a reply.
    pub open spec fn next_stage(self, reply: FileReplyView) -> WrapStageView {
        let target = self.target;
        match (self.stage, reply) {
            (_, FileReplyView::Found(probe)) => self.looked(probe),
            (_, FileReplyView::Mode(Ok(mode))) => if mode & 0o111 != 0 {
                WrapStageView::Sidecar
            } else {
                self.fail("cannot wrap non-executable path: "@)
            },
            (_, FileReplyView::Mode(Err(e))) => WrapStageView::End(Err(e)),
            (_, FileReplyView::Entry(entry)) => match files::entry_exists(
                sidecar(target),
                entry,
            ) {
                Ok(exists) => if exists && !self.force {
                    WrapStageView::End(
                        Err(
                            files::about(
                                "refusing to overwrite existing real path: "@,
                                sidecar(target),
                            ),
                        ),
                    )
                } else {
                    WrapStageView::Move
                },
                Err(e) => WrapStageView::End(Err(e)),
            },
            (_, FileReplyView::Path(Ok(bin))) => WrapStageView::Write { bin },
            (_, FileReplyView::Path(Err(e))) => WrapStageView::End(
                Err("failed to resolve current oomwrap binary: "@ + e),
            ),
            (WrapStageView::Move, FileReplyView::Done(Ok(_))) => WrapStageView::Binary,
            (WrapStageView::Move, FileReplyView::Done(Err(e))) => WrapStageView::End(
                Err(
                    files::about_fault(
                        files::about("failed to move "@, target) + " to "@,
                        sidecar(target),
                        e,
                    ),
                ),
            ),
            (WrapStageView::Write { .. }, FileReplyView::Done(Ok(_))) => WrapStageView::Say {
                line: files::about("wrapped executable: "@, target),
            },
            (WrapStageView::Write { .. }, FileReplyView::Done(Err(error))) =>
                WrapStageView::PutBack { error },
            (WrapStageView::PutBack { error }, FileReplyView::Done(_)) => WrapStageView::End(
                Err(error),
            ),
            (WrapStageView::Say { .. }, FileReplyView::Done(_)) => WrapStageView::End(Ok(0)),
            (stage, _) => stage,
        }
    }

    /// The state after a reply.
    pub open spec fn next(self, reply: FileReplyView) -> WrapView {
        WrapView { stage: self.next_stage(reply), ..self }
    }
}

/// Begins to wrap an executable.
pub fn wrap(args: WrapArgs) -> (r: Wrap)
    ensures
        r@ == WrapView::start(args),
{
    Wrap {
        target: args.path,
        min_mem: args.min_mem,
        min_swap: args.min_swap,
        force: args.force,
        stage: WrapStage::Look,
    }
}

impl Wrap {
    /// What is to be done now.
    pub fn action(&self) -> (r: FileAction)
        ensures
            r@ == self@.action(),
    {
        let target = path::copy_bytes(self.target.as_slice());
        let kept = path::real_path_for(self.target.as_slice());
        match &self.stage {
            WrapStage::Look => FileAction::Probe(target),
            WrapStage::Mode => FileAction::ReadMode(target),
            WrapStage::Sidecar => FileAction::CheckEntry(kept),
            WrapStage::Move => FileAction::Rename { from: target, to: kept },
            WrapStage::Binary => FileAction::FindBinary,
            WrapStage::Write { bin } => FileAction::WriteExecutable {
                path: target,
                content: shim::absolute_wrapper_script(
                    process::from_utf8_lossy(bin.as_slice()).as_str(),
                    self.min_mem.as_str(),
                    self.min_swap.as_str(),
                ),
            },
            WrapStage::PutBack { .. } => FileAction::Rename { from: kept, to: target },
            WrapStage::Say { line } => FileAction::Print(line.clone()),
            WrapStage::End(Ok(code)) => FileAction::Finish(Ok(*code)),
            WrapStage::End(Err(e)) => FileAction::Finish(Err(e.clone())),
        }
    }

    /// An end for the given reason.
    fn fail(&self, words: &str) -> (r: WrapStage)
        ensures
            r@ == self@.fail(words@),
    {
        WrapStage::End(Err(files::line_about(words, self.target.as_slice())))
    }

    /// What follows a look at the target.
    fn looked(&self, probe: &shim::FileProbe) -> (r: WrapStage)
        ensures
            r@ == self@.looked(probe@),
    {
        if !probe.exists {
            self.fail("cannot wrap missing path: ")
        } else if shim::is_managed_absolute_wrapper(probe) {
            WrapStage::Say {
                line: files::line_about("already wrapped: ", self.target.as_slice()),
            }
        } else if shim::is_managed_path_shim(probe) {
            self.fail("cannot wrap PATH shim: ")
        } else if !probe.is_file {
            self.fail("cannot wrap non-file path: ")
        } else {
            WrapStage::Mode
        }
    }

    /// The stage after a reply.
    fn next_stage(&self, reply: FileReply) -> (r: WrapStage)
        requires
            files::answers(self@.action(), reply@),
        ensures
            r@ == self@.next_stage(reply@),
    {
        let kept = path::real_path_for(self.target.as_slice());
        match reply {
            FileReply::Found(probe) => self.looked(&probe),
            FileReply::Mode(Ok(mode)) => if shim::is_executable(mode) {
                WrapStage::Sidecar
            } else {
                self.fail("cannot wrap non-executable path: ")
            },
            FileReply::Mode(Err(e)) => WrapStage::End(Err(e)),
            FileReply::Entry(entry) => match files::path_entry_exists(kept.as_slice(), entry) {
                Ok(exists) => if exists && !self.force {
                    WrapStage::End(
                        Err(
                            files::line_about(
                                "refusing to overwrite existing real path: ",
                                kept.as_slice(),
                            ),
                        ),
                    )
                } else {
                    WrapStage::Move
                },
                Err(e) => WrapStage::End(Err(e)),
            },
            FileReply::Path(Ok(bin)) => WrapStage::Write { bin },
            FileReply::Path(Err(e)) => WrapStage::End(
                Err(text::concat("failed to resolve current oomwrap binary: ", e.as_str())),
            ),
            FileReply::Done(result) => match (&self.stage, result) {
                (WrapStage::Move, Ok(_)) => WrapStage::Binary,
                (WrapStage::Move, Err(e)) => {
                    let mut words = files::line_about("failed to move ", self.target.as_slice());
                    words.append(" to ");
                    WrapStage::End(
                        Err(files::line_about_fault(words.as_str(), kept.as_slice(), e.as_str())),
                    )
                },
                (WrapStage::Write { .. }, Ok(_)) => WrapStage::Say {
                    line: files::line_about("wrapped executable: ", self.target.as_slice()),
                },
                (WrapStage::Write { .. }, Err(error)) => WrapStage::PutBack { error },
                (WrapStage::PutBack { error }, _) => WrapStage::End(Err(error.clone())),
                _ => WrapStage::End(Ok(0)),
            },
        }
    }

    /// The state after a reply.
    pub fn step(self, reply: FileReply) -> (r: Wrap)
        requires
            files::answers(self@.action(), reply@),
        ensures
            r@ == self@.next(reply@),
    {
        let stage = self.next_stage(reply);
        Wrap { stage, ..self }
    }
}

/// The arguments of a request to undo a wrapping.
#[derive(Debug)]
pub struct UnwrapArgs {
    pub path: Vec<u8>,
}

/// How far the undoing has come.
#[derive(Debug, PartialEq, Eq)]
pub enum UnwrapStage {
    /// The wrapper is to be found.
    Resolve,
    /// It is to be looked at.
    Look { target: Vec<u8> },
    /// The executable behind it is to be looked for.
    Sidecar { target: Vec<u8> },
    /// The wrapper is to be removed.
    Remove { target: Vec<u8> },
    /// The executable is to be moved to its place.
    Restore { target: Vec<u8> },
    /// A last line is to be written.
    Say { line: String },
    /// The end.
    End(Result<i32, String>),
}

/// What an [`UnwrapStage`] says.
pub enum UnwrapStageView {
    Resolve,
    Look { target: Seq<u8> },
    Sidecar { target: Seq<u8> },
    Remove { target: Seq<u8> },
    Restore { target: Seq<u8> },
    Say { line: Seq<char> },
    End(Result<i32, Seq<char>>),
}

impl View for UnwrapStage {
    type V = UnwrapStageView;

    open spec fn view(&self) -> UnwrapStageView {
        match *self {
            UnwrapStage::Resolve => UnwrapStageView::Resolve,
            UnwrapStage::Look { target } => UnwrapStageView::Look { target: target@ },
            UnwrapStage::Sidecar { target } => UnwrapStageView::Sidecar { target: target@ },
            UnwrapStage::Remove { target } => UnwrapStageView::Remove { target: target@ },
            UnwrapStage::Restore { target } => UnwrapStageView::Restore { target: target@ },
            UnwrapStage::Say { line } => UnwrapStageView::Say { line: line@ },
            UnwrapStage::End(r) => UnwrapStageView::End(text::in_words(r)),
        }
    }
}

/// The undoing of a wrapping.
#[derive(Debug)]
pub struct Unwrap {
    pub path: Vec<u8>,
    pub stage: UnwrapStage,
}

/// What an [`Unwrap`] says.
pub struct UnwrapView {
    pub path: Seq<u8>,
    pub stage: UnwrapStageView,
}

impl View for Unwrap {
    type V = UnwrapView;

    open spec fn view(&self) -> UnwrapView {
        UnwrapView { path: self.path@, stage: self.stage@ }
    }
}

impl UnwrapView {
    /// The start.
    pub open spec fn start(args: UnwrapArgs) -> UnwrapView {
        UnwrapView { path: args.path@, stage: UnwrapStageView::Resolve }
    }

    /// What is to be done now.
    pub open spec fn action(self) -> FileActionView {
        match self.stage {
            UnwrapStageView::Resolve => FileActionView::Resolve(self.path),
            UnwrapStageView::Look { target } => FileActionView::Probe(target),
            UnwrapStageView::Sidecar { target } => FileActionView::CheckEntry(sidecar(target)),
            UnwrapStageView::Remove { target } => FileActionView::Remove(target),
            UnwrapStageView::Restore { target } => FileActionView::Rename {
                from: sidecar(target),
                to: target,
            },
            UnwrapStageView::Say { line } => FileActionView::Print(line),
            UnwrapStageView::End(r) => FileActionView::Finish(r),
        }
    }

    /// The stage after a reply.
    pub open spec fn next_stage(self, reply: FileReplyView) -> UnwrapStageView {
        match (self.stage, reply) {
            (_, FileReplyView::Path(Ok(target))) => UnwrapStageView::Look { target },
            (_, FileReplyView::Path(Err(e))) => UnwrapStageView::End(
                Err(files::about_fault("failed to resolve "@, self.path, e)),
            ),
            (UnwrapStageView::Look { target }, FileReplyView::Found(probe)) => if shim::is_marked(
                probe,
                shim::ABSOLUTE_WRAPPER_MARKER@,
            ) {
                UnwrapStageView::Sidecar { target }
            } else {
                UnwrapStageView::End(
                    Err(files::about("not an oomwrap managed wrapper: "@, target)),
                )
            },
            (
                UnwrapStageView::Sidecar { target },
                FileReplyView::Entry(entry),
            ) => match files::entry_exists(sidecar(target), entry) {
                Ok(true) => UnwrapStageView::Remove { target },
                Ok(false) => UnwrapStageView::End(
                    Err(files::about("missing real executable: "@, sidecar(target))),
                ),
                Err(e) => UnwrapStageView::End(Err(e)),
            },
            (UnwrapStageView::Remove { target }, FileReplyView::Done(Ok(_))) =>
                UnwrapStageView::Restore { target },
            (UnwrapStageView::Remove { target }, FileReplyView::Done(Err(e))) =>
                UnwrapStageView::End(Err(files::about_fault("failed to remove "@, target, e))),
            (UnwrapStageView::Restore { target }, FileReplyView::Done(Ok(_))) =>
                UnwrapStageView::Say { line: files::about("unwrapped executable: "@, target) },
            (UnwrapStageView::Restore { target }, FileReplyView::Done(Err(e))) =>
                UnwrapStageView::End(Err(files::about_fault("failed to restore "@, target, e))),
            (UnwrapStageView::Say { .. }, FileReplyView::Done(_)) => UnwrapStageView::End(Ok(0)),
            (stage, _) => stage,
        }
    }

    /// The state after a reply.
    pub open spec fn next(self, reply: FileReplyView) -> UnwrapView {
        UnwrapView { stage: self.next_stage(reply), ..self }
    }
}

/// Begins to undo a wrapping.
pub fn unwrap(args: UnwrapArgs) -> (r: Unwrap)
    ensures
        r@ == UnwrapView::start(args),
{
    Unwrap { path: args.path, stage: UnwrapStage::Resolve }
}

impl Unwrap {
    /// What is to be done now.
    pub fn action(&self) -> (r: FileAction)
        ensures
            r@ == self@.action(),
    {
        match &self.stage {
            UnwrapStage::Resolve => FileAction::Resolve(path::copy_bytes(self.path.as_slice())),
            UnwrapStage::Look { target } => FileAction::Probe(
                path::copy_bytes(target.as_slice()),
            ),
            UnwrapStage::Sidecar { target } => FileAction::CheckEntry(
                path::real_path_for(target.as_slice()),
            ),
            UnwrapStage::Remove { target } => FileAction::Remove(
                path::copy_bytes(target.as_slice()),
            ),
            UnwrapStage::Restore { target } => FileAction::Rename {
                from: path::real_path_for(target.as_slice()),
                to: path::copy_bytes(target.as_slice()),
            },
            UnwrapStage::Say { line } => FileAction::Print(line.clone()),
            UnwrapStage::End(Ok(code)) => FileAction::Finish(Ok(*code)),
            UnwrapStage::End(Err(e)) => FileAction::Finish(Err(e.clone())),
        }
    }

    /// The state after a reply.
    pub fn step(self, reply: FileReply) -> (r: Unwrap)
        requires
            files::answers(self@.action(), reply@),
        ensures
            r@ == self@.next(reply@),
    {
        let path = self.path;
        let stage = match (self.stage, reply) {
            (_, FileReply::Path(Ok(target))) => UnwrapStage::Look { target },
            (_, FileReply::Path(Err(e))) => UnwrapStage::End(
                Err(files::line_about_fault("failed to resolve ", path.as_slice(), e.as_str())),
            ),
            (
                UnwrapStage::Look { target },
                FileReply::Found(probe),
            ) => if shim::is_managed_absolute_wrapper(&probe) {
                UnwrapStage::Sidecar { target }
            } else {
                UnwrapStage::End(
                    Err(
                        files::line_about("not an oomwrap managed wrapper: ", target.as_slice()),
                    ),
                )
            },
            (UnwrapStage::Sidecar { target }, FileReply::Entry(entry)) => {
                let kept = path::real_path_for(target.as_slice());
                match files::path_entry_exists(kept.as_slice(), entry) {
                    Ok(exists) => if exists {
                        UnwrapStage::Remove { target }
                    } else {
                        UnwrapStage::End(
                            Err(files::line_about("missing real executable: ", kept.as_slice())),
                        )
                    },
                    Err(e) => UnwrapStage::End(Err(e)),
                }
            },
            (UnwrapStage::Remove { target }, FileReply::Done(Ok(_))) => UnwrapStage::Restore {
                target,
            },
            (UnwrapStage::Remove { target }, FileReply::Done(Err(e))) => UnwrapStage::End(
                Err(files::line_about_fault("failed to remove ", target.as_slice(), e.as_str())),
            ),
            (UnwrapStage::Restore { target }, FileReply::Done(Ok(_))) => UnwrapStage::Say {
                line: files::line_about("unwrapped executable: ", target.as_slice()),
            },
            (UnwrapStage::Restore { target }, FileReply::Done(Err(e))) => UnwrapStage::End(
                Err(files::line_about_fault("failed to restore ", target.as_slice(), e.as_str())),
            ),
            (UnwrapStage::Say { .. }, FileReply::Done(_)) => UnwrapStage::End(Ok(0)),
            (stage, _) => stage,
        };
        Unwrap { path, stage }
    }
}

} // verus!
