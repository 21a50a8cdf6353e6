//! Work on files: what shims and wrappers need of the file system.
//!
//! The same division of work as in [`crate::guard`]: a job says what is to be done next, and takes
//! what came of it. Paths are bytes.
use crate::shim::{FileProbe, ProbeView};
use crate::{path, process, text};
use vstd::prelude::*;
use vstd::string::*;

verus! {

/// Something to do with files.
#[derive(Debug, PartialEq, Eq)]
pub enum FileAction {
    /// Make a directory, with all that lead to it.
    CreateDir(Vec<u8>),
    /// Find the path of the running program.
    FindBinary,
    /// Find the absolute path without links that a path leads to.
    Resolve(Vec<u8>),
    /// See what is at a path, through links.
    Probe(Vec<u8>),
    /// Read the permissions of a file, through links.
    ReadMode(Vec<u8>),
    /// See whether there is anything at a path, be it a link.
    CheckEntry(Vec<u8>),
    /// Move a file, or a link.
    Rename { from: Vec<u8>, to: Vec<u8> },
    /// Remove a file, or a link.
    Remove(Vec<u8>),
    /// Put an executable at a path.
    WriteExecutable { path: Vec<u8>, content: String },
    /// Write a line of output.
    Print(String),
    /// Come to an end, with an exit code or with the words for an error.
    Finish(Result<i32, String>),
}

/// Whether there is anything at a path.
#[derive(Debug, PartialEq, Eq)]
pub enum EntryProbe {
    Present,
    Absent,
    Failed(String),
}

/// What came of an action. Errors come as words.
#[derive(Debug, PartialEq, Eq)]
pub enum FileReply {
    Done(Result<(), String>),
    Path(Result<Vec<u8>, String>),
    Found(FileProbe),
    Mode(Result<u32, String>),
    Entry(EntryProbe),
}

/// What a [`FileAction`] says.
pub enum FileActionView {
    CreateDir(Seq<u8>),
    FindBinary,
    Resolve(Seq<u8>),
    Probe(Seq<u8>),
    ReadMode(Seq<u8>),
    CheckEntry(Seq<u8>),
    Rename { from: Seq<u8>, to: Seq<u8> },
    Remove(Seq<u8>),
    WriteExecutable { path: Seq<u8>, content: Seq<char> },
    Print(Seq<char>),
    Finish(Result<i32, Seq<char>>),
}

/// What an [`EntryProbe`] says.
pub enum EntryView {
    Present,
    Absent,
    Failed(Seq<char>),
}

/// What a [`FileReply`] says.
pub enum FileReplyView {
    Done(Result<(), Seq<char>>),
    Path(Result<Seq<u8>, Seq<char>>),
    Found(ProbeView),
    Mode(Result<u32, Seq<char>>),
    Entry(EntryView),
}

impl View for FileAction {
    type V = FileActionView;

    open spec fn view(&self) -> FileActionView {
        match *self {
            FileAction::CreateDir(p) => FileActionView::CreateDir(p@),
            FileAction::FindBinary => FileActionView::FindBinary,
            FileAction::Resolve(p) => FileActionView::Resolve(p@),
            FileAction::Probe(p) => FileActionView::Probe(p@),
            FileAction::ReadMode(p) => FileActionView::ReadMode(p@),
            FileAction::CheckEntry(p) => FileActionView::CheckEntry(p@),
            FileAction::Rename { from, to } => FileActionView::Rename { from: from@, to: to@ },
            FileAction::Remove(p) => FileActionView::Remove(p@),
            FileAction::WriteExecutable { path, content } => FileActionView::WriteExecutable {
                path: path@,
                content: content@,
            },
            FileAction::Print(s) => FileActionView::Print(s@),
            FileAction::Finish(r) => FileActionView::Finish(text::in_words(r)),
        }
    }
}

impl View for EntryProbe {
    type V = EntryView;

    open spec fn view(&self) -> EntryView {
        match *self {
            EntryProbe::Present => EntryView::Present,
            EntryProbe::Absent => EntryView::Absent,
            EntryProbe::Failed(e) => EntryView::Failed(e@),
        }
    }
}

impl View for FileReply {
    type V = FileReplyView;

    open spec fn view(&self) -> FileReplyView {
        match *self {
            FileReply::Done(r) => FileReplyView::Done(text::in_words(r)),
            FileReply::Path(r) => FileReplyView::Path(
                match r {
                    Ok(p) => Ok(p@),
                    Err(e) => Err(e@),
                },
            ),
            FileReply::Found(p) => FileReplyView::Found(p@),
            FileReply::Mode(r) => FileReplyView::Mode(text::in_words(r)),
            FileReply::Entry(e) => FileReplyView::Entry(e@),
        }
    }
}

/// Whether a reply is one that can come of an action.
pub open spec fn answers(action: FileActionView, reply: FileReplyView) -> bool {
    match action {
        FileActionView::CreateDir(_)
        | FileActionView::Rename { .. }
        | FileActionView::Remove(_)
        | FileActionView::WriteExecutable { .. }
        | FileActionView::Print(_) => reply is Done,
        FileActionView::FindBinary | FileActionView::Resolve(_) => reply is Path,
        FileActionView::Probe(_) => reply is Found,
        FileActionView::ReadMode(_) => reply is Mode,
        FileActionView::CheckEntry(_) => reply is Entry,
        FileActionView::Finish(_) => false,
    }
}

/// A path as text, with a replacement character for whatever is not UTF-8.
pub open spec fn shown(path: Seq<u8>) -> Seq<char> {
    process::utf8_lossy(path)
}

/// A line about a path.
pub open spec fn about(words: Seq<char>, path: Seq<u8>) -> Seq<char> {
    words + shown(path)
}

/// A line about a path, with the cause of a fault.
pub open spec fn about_fault(words: Seq<char>, path: Seq<u8>, cause: Seq<char>) -> Seq<char> {
    words + shown(path) + ": "@ + cause
}

/// A line about a path.
pub fn line_about(words: &str, path: &[u8]) -> (r: String)
    ensures
        r@ == about(words@, path@),
{
    let mut r = words.to_string();
    r.append(process::from_utf8_lossy(path).as_str());
    r
}

/// A line about a path, with the cause of a fault.
pub fn line_about_fault(words: &str, path: &[u8], cause: &str) -> (r: String)
    ensures
        r@ == about_fault(words@, path@, cause@),
{
    let mut r = line_about(words, path);
    r.append(": ");
    r.append(cause);
    r
}

/// Whether there is anything at a path, or the words for the fault where that cannot be told.
pub open spec fn entry_exists(path: Seq<u8>, entry: EntryView) -> Result<bool, Seq<char>> {
    match entry {
        EntryView::Present => Ok(true),
        EntryView::Absent => Ok(false),
        EntryView::Failed(e) => Err(about_fault("failed to inspect "@, path, e)),
    }
}

/// Whether there is anything at a path.
pub fn path_entry_exists(path: &[u8], entry: EntryProbe) -> (r: Result<bool, String>)
    ensures
        text::in_words(r) == entry_exists(path@, entry@),
{
    match entry {
        EntryProbe::Present => Ok(true),
        EntryProbe::Absent => Ok(false),
        EntryProbe::Failed(e) => Err(line_about_fault("failed to inspect ", path, e.as_str())),
    }
}

} // verus!
