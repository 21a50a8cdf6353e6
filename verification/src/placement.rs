//! Putting an executable in its place: written next to it first, then moved there in one step.
use crate::files;
use crate::{path, process, text};
use vstd::prelude::*;
use vstd::string::*;

verus! {

/// How often a name for the temporary file is tried.
pub const ATTEMPTS: u32 = 100;

/// The permissions of an executable.
pub const EXECUTABLE_MODE: u32 = 0o755;

/// Something to do in order to write an executable.
#[derive(Debug, PartialEq, Eq)]
pub enum WriteAction {
    /// Make a new file.
    Create(Vec<u8>),
    /// Write its content.
    Write { path: Vec<u8>, content: String },
    /// Have it written to the disk.
    Sync(Vec<u8>),
    /// Set its permissions.
    SetMode { path: Vec<u8>, mode: u32 },
    /// Move it.
    Rename { from: Vec<u8>, to: Vec<u8> },
    /// Remove it.
    Remove(Vec<u8>),
    /// Come to an end, well or with the words for an error.
    Finish(Result<(), String>),
}

/// What came of making a new file.
#[derive(Debug, PartialEq, Eq)]
pub enum Creation {
    Created,
    Exists,
    Failed(String),
}

/// What came of an action. Errors come as words.
#[derive(Debug, PartialEq, Eq)]
pub enum WriteReply {
    Created(Creation),
    Done(Result<(), String>),
}

/// What a [`WriteAction`] says.
pub enum WriteActionView {
    Create(Seq<u8>),
    Write { path: Seq<u8>, content: Seq<char> },
    Sync(Seq<u8>),
    SetMode { path: Seq<u8>, mode: u32 },
    Rename { from: Seq<u8>, to: Seq<u8> },
    Remove(Seq<u8>),
    Finish(Result<(), Seq<char>>),
}

/// What a [`Creation`] says.
pub enum CreationView {
    Created,
    Exists,
    Failed(Seq<char>),
}

/// What a [`WriteReply`] says.
pub enum WriteReplyView {
    Created(CreationView),
    Done(Result<(), Seq<char>>),
}

impl View for WriteAction {
    type V = WriteActionView;

    open spec fn view(&self) -> WriteActionView {
        match *self {
            WriteAction::Create(p) => WriteActionView::Create(p@),
            WriteAction::Write { path, content } => WriteActionView::Write {
                path: path@,
                content: content@,
            },
            WriteAction::Sync(p) => WriteActionView::Sync(p@),
            WriteAction::SetMode { path, mode } => WriteActionView::SetMode { path: path@, mode },
            WriteAction::Rename { from, to } => WriteActionView::Rename { from: from@, to: to@ },
            WriteAction::Remove(p) => WriteActionView::Remove(p@),
            WriteAction::Finish(r) => WriteActionView::Finish(text::in_words(r)),
        }
    }
}

impl View for Creation {
    type V = CreationView;

    open spec fn view(&self) -> CreationView {
        match *self {
            Creation::Created => CreationView::Created,
            Creation::Exists => CreationView::Exists,
            Creation::Failed(e) => CreationView::Failed(e@),
        }
    }
}

impl View for WriteReply {
    type V = WriteReplyView;

    open spec fn view(&self) -> WriteReplyView {
        match *self {
            WriteReply::Created(c) => WriteReplyView::Created(c@),
            WriteReply::Done(r) => WriteReplyView::Done(text::in_words(r)),
        }
    }
}

/// Whether a reply is one that can come of an action.
pub open spec fn answers(action: WriteActionView, reply: WriteReplyView) -> bool {
    match action {
        WriteActionView::Create(_) => reply is Created,
        WriteActionView::Finish(_) => false,
        _ => reply is Done,
    }
}

/// How far the writing has come.
#[derive(Debug, PartialEq, Eq)]
pub enum WriteStage {
    Create,
    Write,
    Sync,
    Mode,
    Rename,
    /// Something failed. The temporary file is to be removed.
    CleanUp { error: String },
    End(Result<(), String>),
}

/// What a [`WriteStage`] says.
pub enum WriteStageView {
    Create,
    Write,
    Sync,
    Mode,
    Rename,
    CleanUp { error: Seq<char> },
    End(Result<(), Seq<char>>),
}

impl View for WriteStage {
    type V = WriteStageView;

    open spec fn view(&self) -> WriteStageView {
        match *self {
            WriteStage::Create => WriteStageView::Create,
            WriteStage::Write => WriteStageView::Write,
            WriteStage::Sync => WriteStageView::Sync,
            WriteStage::Mode => WriteStageView::Mode,
            WriteStage::Rename => WriteStageView::Rename,
            WriteStage::CleanUp { error } => WriteStageView::CleanUp { error: error@ },
            WriteStage::End(r) => WriteStageView::End(text::in_words(r)),
        }
    }
}

/// The writing of an executable: its path, the directory that the path leads to, its name there as
/// text, what is to be written, the number of this process, and how often a name for the temporary
/// file has been tried in vain.
#[derive(Debug)]
pub struct Writing {
    pub path: Vec<u8>,
    pub dir: Vec<u8>,
    pub name: String,
    pub content: String,
    pub pid: u32,
    pub attempt: u32,
    pub stage: WriteStage,
}

/// What a [`Writing`] says.
pub struct WritingView {
    pub path: Seq<u8>,
    pub dir: Seq<u8>,
    pub name: Seq<char>,
    pub content: Seq<char>,
    pub pid: u32,
    pub attempt: u32,
    pub stage: WriteStageView,
}

impl View for Writing {
    type V = WritingView;

    open spec fn view(&self) -> WritingView {
        WritingView {
            path: self.path@,
            dir: self.dir@,
            name: self.name@,
            content: self.content@,
            pid: self.pid,
            attempt: self.attempt,
            stage: self.stage@,
        }
    }
}

/// The name of a temporary file.
pub open spec fn temporary_name(name: Seq<char>, pid: u32, attempt: u32) -> Seq<char> {
    "."@ + name + ".oomwrap-tmp-"@ + text::decimal(pid as nat) + "-"@ + text::decimal(
        attempt as nat,
    )
}

/// The path of a temporary file in a directory.
pub open spec fn temporary_path(dir: Seq<u8>, name: Seq<char>, pid: u32, attempt: u32) -> Seq<u8> {
    path::joined(dir, vstd::utf8::encode_utf8(temporary_name(name, pid, attempt)))
}

/// The path of a temporary file for an executable at the given path, where that leads to a name.
pub open spec fn temporary_for(path: Seq<u8>, pid: u32, attempt: u32) -> Option<Seq<u8>> {
    match path::place_of(path) {
        Some((dir, name)) => Some(temporary_path(dir, files::shown(name), pid, attempt)),
        None => None,
    }
}

/// The encoding of text is no shorter than the text.
proof fn lemma_encoded_len(s: Seq<char>)
    ensures
        vstd::utf8::encode_utf8(s).len() >= s.len(),
    decreases s.len(),
{
    if s.len() > 0 {
        lemma_encoded_len(s.drop_first());
    }
}

/// A temporary file never has the path of the executable that it is for. `name` is the name that
/// the path leads to, and `text` what it reads as: without a slash, which no name has, and with the
/// name as its encoding where the name has one.
pub proof fn law_temporary_stands_apart(
    path: Seq<u8>,
    dir: Seq<u8>,
    name: Seq<u8>,
    text: Seq<char>,
    pid: u32,
    attempt: u32,
)
    requires
        path::place_of(path) == Some((dir, name)),
        !text.contains('/'),
        vstd::utf8::valid_utf8(name) ==> vstd::utf8::encode_utf8(text) == name,
    ensures
        temporary_path(dir, text, pid, attempt) != path,
{
    let t = temporary_name(text, pid, attempt);
    let bytes = vstd::utf8::encode_utf8(t);
    reveal_strlit(".");
    reveal_strlit("-");
    reveal_strlit(".oomwrap-tmp-");
    text::lemma_decimal_value(pid as nat);
    text::lemma_decimal_value(attempt as nat);
    assert(!t.contains('/'));
    path::lemma_encoded_without_slash(t);
    vstd::utf8::encode_utf8_valid_utf8(t);
    lemma_encoded_len(t);
    path::lemma_place_of_joined(dir, bytes);
    if temporary_path(dir, text, pid, attempt) == path {
        assert(bytes == name);
        path::lemma_encoded_apart(text, t);
    }
}

/// The name of a temporary file.
pub fn name_temporary(name: &str, pid: u32, attempt: u32) -> (r: String)
    ensures
        r@ == temporary_name(name@, pid, attempt),
{
    let mut r = ".".to_string();
    r.append(name);
    r.append(".oomwrap-tmp-");
    r.append(text::decimal_string(pid as u128).as_str());
    r.append("-");
    r.append(text::decimal_string(attempt as u128).as_str());
    r
}

impl WritingView {
    /// The start. A path that leads to no name cannot be written to.
    pub open spec fn start(path: Seq<u8>, content: Seq<char>, pid: u32) -> WritingView {
        match path::place_of(path) {
            Some((dir, name)) => WritingView {
                path,
                dir,
                name: files::shown(name),
                content,
                pid,
                attempt: 0,
                stage: WriteStageView::Create,
            },
            None => WritingView {
                path,
                dir: Seq::empty(),
                name: Seq::empty(),
                content,
                pid,
                attempt: 0,
                stage: WriteStageView::End(Err(files::about("missing file name for "@, path))),
            },
        }
    }

    /// The path of the temporary file, which stands next to the executable.
    pub open spec fn temporary(self) -> Seq<u8> {
        temporary_path(self.dir, self.name, self.pid, self.attempt)
    }

    /// What is to be done now.
    pub open spec fn action(self) -> WriteActionView {
        match self.stage {
            WriteStageView::Create => WriteActionView::Create(self.temporary()),
            WriteStageView::Write => WriteActionView::Write {
                path: self.temporary(),
                content: self.content,
            },
            WriteStageView::Sync => WriteActionView::Sync(self.temporary()),
            WriteStageView::Mode => WriteActionView::SetMode {
                path: self.temporary(),
                mode: EXECUTABLE_MODE,
            },
            WriteStageView::Rename => WriteActionView::Rename {
                from: self.temporary(),
                to: self.path,
            },
            WriteStageView::CleanUp { .. } => WriteActionView::Remove(self.temporary()),
            WriteStageView::End(r) => WriteActionView::Finish(r),
        }
    }

    /// Another stage.
    pub open spec fn at(self, stage: WriteStageView) -> WritingView {
        WritingView { stage, ..self }
    }

    /// What follows where the temporary file is there, or is not.
    pub open spec fn created(self, creation: CreationView) -> WritingView {
        match creation {
            CreationView::Created => self.at(WriteStageView::Write),
            CreationView::Exists => if self.attempt + 1 < ATTEMPTS {
                WritingView { attempt: (self.attempt + 1) as u32, ..self }
            } else {
                self.at(
                    WriteStageView::End(
                        Err(
                            files::about(
                                "failed to create temporary executable next to "@,
                                self.path,
                            ),
                        ),
                    ),
                )
            },
            CreationView::Failed(e) => self.at(
                WriteStageView::End(
                    Err(files::about_fault("failed to create "@, self.temporary(), e)),
                ),
            ),
        }
    }

    /// The words for a fault at the present stage.
    pub open spec fn fault(self, e: Seq<char>) -> Seq<char> {
        match self.stage {
            WriteStageView::Write => files::about_fault("failed to write "@, self.temporary(), e),
            WriteStageView::Sync => files::about_fault("failed to sync "@, self.temporary(), e),
            WriteStageView::Rename => files::about("failed to replace "@, self.path)
                + " with generated executable: "@ + e,
            _ => e,
        }
    }

    /// The state after a reply.
    pub open spec fn next(self, reply: WriteReplyView) -> WritingView {
        match (self.stage, reply) {
            (_, WriteReplyView::Created(creation)) => self.created(creation),
            (WriteStageView::CleanUp { error }, WriteReplyView::Done(_)) => self.at(
                WriteStageView::End(Err(error)),
            ),
            (_, WriteReplyView::Done(Err(e))) => self.at(
                WriteStageView::CleanUp { error: self.fault(e) },
            ),
            (WriteStageView::Write, WriteReplyView::Done(Ok(_))) => self.at(WriteStageView::Sync),
            (WriteStageView::Sync, WriteReplyView::Done(Ok(_))) => self.at(WriteStageView::Mode),
            (WriteStageView::Mode, WriteReplyView::Done(Ok(_))) => self.at(WriteStageView::Rename),
            (_, WriteReplyView::Done(Ok(_))) => self.at(WriteStageView::End(Ok(()))),
        }
    }
}

/// Begins to put an executable at a path. `pid` is the number of this process. No temporary file
/// for it has that path.
pub fn write_executable(path: Vec<u8>, content: String, pid: u32) -> (r: Writing)
    ensures
        r@ == WritingView::start(path@, content@, pid),
        forall|attempt: u32| #[trigger] temporary_for(path@, pid, attempt) != Some(path@),
{
    match path::split_place(path.as_slice()) {
        Some((dir, name)) => {
            let shown = process::from_utf8_lossy(name.as_slice());
            proof {
                path::lemma_place_name(path@);
                assert(!shown@.contains('/')) by {
                    assert forall|i: int| 0 <= i < shown@.len() implies shown@[i] != '/' by {
                        assert(('/' as u8) == 0x2fu8);
                    }
                }
                assert forall|attempt: u32| #[trigger]
                    temporary_for(path@, pid, attempt) != Some(path@) by {
                    law_temporary_stands_apart(path@, dir@, name@, shown@, pid, attempt);
                }
            }
            Writing {
                path,
                dir,
                name: shown,
                content,
                pid,
                attempt: 0,
                stage: WriteStage::Create,
            }
        },
        None => {
            let error = files::line_about("missing file name for ", path.as_slice());
            let r = Writing {
                path,
                dir: Vec::new(),
                name: String::new(),
                content,
                pid,
                attempt: 0,
                stage: WriteStage::End(Err(error)),
            };
            assert(r.dir@ =~= Seq::<u8>::empty() && r.name@ =~= Seq::<char>::empty());
            r
        },
    }
}

impl Writing {
    /// The path of the temporary file.
    fn temporary(&self) -> (r: Vec<u8>)
        ensures
            r@ == self@.temporary(),
    {
        let name = name_temporary(self.name.as_str(), self.pid, self.attempt);
        path::join(self.dir.as_slice(), name.as_str().as_bytes())
    }

    /// What is to be done now.
    pub fn action(&self) -> (r: WriteAction)
        ensures
            r@ == self@.action(),
    {
        match &self.stage {
            WriteStage::Create => WriteAction::Create(self.temporary()),
            WriteStage::Write => WriteAction::Write {
                path: self.temporary(),
                content: self.content.clone(),
            },
            WriteStage::Sync => WriteAction::Sync(self.temporary()),
            WriteStage::Mode => WriteAction::SetMode {
                path: self.temporary(),
                mode: EXECUTABLE_MODE,
            },
            WriteStage::Rename => WriteAction::Rename {
                from: self.temporary(),
                to: path::copy_bytes(self.path.as_slice()),
            },
            WriteStage::CleanUp { .. } => WriteAction::Remove(self.temporary()),
            WriteStage::End(Ok(_)) => WriteAction::Finish(Ok(())),
            WriteStage::End(Err(e)) => WriteAction::Finish(Err(e.clone())),
        }
    }

    /// Another stage.
    fn at(self, stage: WriteStage) -> (r: Writing)
        ensures
            r@ == self@.at(stage@),
    {
        Writing { stage, ..self }
    }

    /// What follows where the temporary file is there, or is not.
    fn created(self, creation: Creation) -> (r: Writing)
        ensures
            r@ == self@.created(creation@),
    {
        match creation {
            Creation::Created => self.at(WriteStage::Write),
            Creation::Exists => if self.attempt < ATTEMPTS - 1 {
                Writing { attempt: self.attempt + 1, ..self }
            } else {
                let error = files::line_about(
                    "failed to create temporary executable next to ",
                    self.path.as_slice(),
                );
                self.at(WriteStage::End(Err(error)))
            },
            Creation::Failed(e) => {
                let error = files::line_about_fault(
                    "failed to create ",
                    self.temporary().as_slice(),
                    e.as_str(),
                );
                self.at(WriteStage::End(Err(error)))
            },
        }
    }

    /// The words for a fault at the present stage.
    fn fault(&self, e: String) -> (r: String)
        ensures
            r@ == self@.fault(e@),
    {
        match &self.stage {
            WriteStage::Write => files::line_about_fault(
                "failed to write ",
                self.temporary().as_slice(),
                e.as_str(),
            ),
            WriteStage::Sync => files::line_about_fault(
                "failed to sync ",
                self.temporary().as_slice(),
                e.as_str(),
            ),
            WriteStage::Rename => {
                let mut r = files::line_about("failed to replace ", self.path.as_slice());
                r.append(" with generated executable: ");
                r.append(e.as_str());
                r
            },
            _ => e,
        }
    }

    /// The state after a reply.
    pub fn step(self, reply: WriteReply) -> (r: Writing)
        requires
            answers(self@.action(), reply@),
        ensures
            r@ == self@.next(reply@),
    {
        match reply {
            WriteReply::Created(creation) => self.created(creation),
            WriteReply::Done(result) => {
                let stage = match (&self.stage, result) {
                    (WriteStage::CleanUp { error }, _) => WriteStage::End(Err(error.clone())),
                    (_, Err(e)) => WriteStage::CleanUp { error: self.fault(e) },
                    (WriteStage::Write, Ok(_)) => WriteStage::Sync,
                    (WriteStage::Sync, Ok(_)) => WriteStage::Mode,
                    (WriteStage::Mode, Ok(_)) => WriteStage::Rename,
                    (_, Ok(_)) => WriteStage::End(Ok(())),
                };
                self.at(stage)
            },
        }
    }
}

} // verus!
