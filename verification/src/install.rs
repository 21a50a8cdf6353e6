//! Putting shims on the search path, and taking them away.
use crate::files::{self, FileAction, FileActionView, FileReply, FileReplyView};
use crate::path::{self, HomeNotSet};
use crate::{process, shim, text};
use vstd::prelude::*;
use vstd::string::*;

verus! {

/// The arguments of a request to install shims.
#[derive(Debug)]
pub struct InstallShimsArgs {
    pub bin_dir: Option<Vec<u8>>,
    pub tools: Vec<String>,
    pub min_mem: String,
    pub min_swap: String,
    pub force: bool,
}

/// The arguments of a request to remove shims.
#[derive(Debug)]
pub struct UninstallShimsArgs {
    pub bin_dir: Option<Vec<u8>>,
    pub tools: Vec<String>,
}

/// The directory for shims: the one that is named, or the one below the home directory. There has
/// to be a home directory in any case.
pub open spec fn shim_dir(named: Option<Vec<u8>>, home: Option<Vec<u8>>) -> Option<Seq<u8>> {
    match (path::path_bytes(named), path::path_bytes(home)) {
        (_, None) => None,
        (Some(dir), Some(_)) => Some(dir),
        (None, Some(home)) => Some(path::bin_dir_below(home)),
    }
}

/// The directory for shims.
fn find_shim_dir(named: Option<Vec<u8>>, home: &Option<Vec<u8>>) -> (r: Result<
    Vec<u8>,
    HomeNotSet,
>)
    ensures
        match r {
            Ok(dir) => shim_dir(named, *home) == Some(dir@),
            Err(_) => shim_dir(named, *home) is None,
        },
{
    match path::default_bin_dir(home) {
        Ok(default) => match named {
            Some(dir) => Ok(dir),
            None => Ok(default),
        },
        Err(e) => Err(e),
    }
}

/// The path of a shim.
pub open spec fn shim_path(bin_dir: Seq<u8>, tool: Seq<char>) -> Seq<u8> {
    path::joined(bin_dir, vstd::utf8::encode_utf8(tool))
}

/// The path of a shim.
fn path_of_shim(bin_dir: &[u8], tool: &str) -> (r: Vec<u8>)
    ensures
        r@ == shim_path(bin_dir@, tool@),
{
    path::join(bin_dir, tool.as_bytes())
}

/// How far the installation has come. `k` is the number of the tool at hand.
#[derive(Debug, PartialEq, Eq)]
pub enum InstallStage {
    /// The directory is to be made.
    Directory,
    /// The path of the running program is to be found.
    Binary,
    /// It is to be seen whether there is anything in the place of the shim.
    Entry { bin: Vec<u8>, k: usize },
    /// That is to be looked at.
    Look { bin: Vec<u8>, k: usize },
    /// The shim is to be written.
    Write { bin: Vec<u8>, k: usize },
    /// A line is to be written about it.
    Say { bin: Vec<u8>, k: usize },
    /// The end.
    End(Result<i32, String>),
}

/// What an [`InstallStage`] says.
pub enum InstallStageView {
    Directory,
    Binary,
    Entry { bin: Seq<u8>, k: int },
    Look { bin: Seq<u8>, k: int },
    Write { bin: Seq<u8>, k: int },
    Say { bin: Seq<u8>, k: int },
    End(Result<i32, Seq<char>>),
}

impl View for InstallStage {
    type V = InstallStageView;

    open spec fn view(&self) -> InstallStageView {
        match *self {
            InstallStage::Directory => InstallStageView::Directory,
            InstallStage::Binary => InstallStageView::Binary,
            InstallStage::Entry { bin, k } => InstallStageView::Entry { bin: bin@, k: k as int },
            InstallStage::Look { bin, k } => InstallStageView::Look { bin: bin@, k: k as int },
            InstallStage::Write { bin, k } => InstallStageView::Write { bin: bin@, k: k as int },
            InstallStage::Say { bin, k } => InstallStageView::Say { bin: bin@, k: k as int },
            InstallStage::End(r) => InstallStageView::End(text::in_words(r)),
        }
    }
}

/// What an [`Install`] says.
pub struct InstallView {
    pub bin_dir: Seq<u8>,
    pub tools: Seq<Seq<char>>,
    pub min_mem: Seq<char>,
    pub min_swap: Seq<char>,
    pub force: bool,
    pub stage: InstallStageView,
}

impl InstallView {
    /// The start.
    pub open spec fn start(args: InstallShimsArgs, bin_dir: Seq<u8>) -> InstallView {
        InstallView {
            bin_dir,
            tools: shim::tools_to_use(text::contents(args.tools@)),
            min_mem: args.min_mem@,
            min_swap: args.min_swap@,
            force: args.force,
            stage: InstallStageView::Directory,
        }
    }

    /// Whether the stage is about one of the tools, and one with a proper name.
    pub open spec fn well_formed(self) -> bool {
        match self.stage {
            InstallStageView::Entry { k, .. }
            | InstallStageView::Look { k, .. }
            | InstallStageView::Write { k, .. }
            | InstallStageView::Say { k, .. } => 0 <= k < self.tools.len() && shim::is_tool_name(
                self.tools[k],
            ),
            _ => true,
        }
    }

    /// The path of a shim.
    pub open spec fn place(self, k: int) -> Seq<u8> {
        shim_path(self.bin_dir, self.tools[k])
    }

    /// A shim.
    pub open spec fn script(self, bin: Seq<u8>, k: int) -> Seq<char> {
        shim::shim_text(self.tools[k], files::shown(bin), self.min_mem, self.min_swap)
    }

    /// What is to be done now.
    pub open spec fn action(self) -> FileActionView {
        match self.stage {
            InstallStageView::Directory => FileActionView::CreateDir(self.bin_dir),
            InstallStageView::Binary => FileActionView::FindBinary,
            InstallStageView::Entry { k, .. } => FileActionView::CheckEntry(self.place(k)),
            InstallStageView::Look { k, .. } => FileActionView::Probe(self.place(k)),
            InstallStageView::Write { bin, k } => FileActionView::WriteExecutable {
                path: self.place(k),
                content: self.script(bin, k),
            },
            InstallStageView::Say { k, .. } => FileActionView::Print(
                files::about("installed shim: "@, self.place(k)),
            ),
            InstallStageView::End(r) => FileActionView::Finish(r),
        }
    }

    /// The turn of a tool: the end where there is none left, and where its name is none.
    pub open spec fn turn(self, bin: Seq<u8>, k: int) -> InstallStageView {
        if k >= self.tools.len() {
            InstallStageView::End(Ok(0))
        } else if !shim::is_tool_name(self.tools[k]) {
            InstallStageView::End(Err(shim::tool_name_text(self.tools[k])))
        } else {
            InstallStageView::Entry { bin, k }
        }
    }

    /// The stage after a reply.
    pub open spec fn next_stage(self, reply: FileReplyView) -> InstallStageView {
        match (self.stage, reply) {
            (InstallStageView::Directory, FileReplyView::Done(Ok(_))) => InstallStageView::Binary,
            (InstallStageView::Directory, FileReplyView::Done(Err(e))) => InstallStageView::End(
                Err(files::about_fault("failed to create "@, self.bin_dir, e)),
            ),
            (_, FileReplyView::Path(Ok(bin))) => self.turn(bin, 0),
            (_, FileReplyView::Path(Err(e))) => InstallStageView::End(
                Err("failed to resolve current oomwrap binary: "@ + e),
            ),
            (
                InstallStageView::Entry { bin, k },
                FileReplyView::Entry(entry),
            ) => match files::entry_exists(self.place(k), entry) {
                Ok(true) => InstallStageView::Look { bin, k },
                Ok(false) => InstallStageView::Write { bin, k },
                Err(e) => InstallStageView::End(Err(e)),
            },
            (InstallStageView::Look { bin, k }, FileReplyView::Found(probe)) => if shim::is_marked(
                probe,
                shim::PATH_SHIM_MARKER@,
            ) || self.force {
                InstallStageView::Write { bin, k }
            } else {
                InstallStageView::End(
                    Err(files::about("refusing to replace non-managed file: "@, self.place(k))),
                )
            },
            (InstallStageView::Write { bin, k }, FileReplyView::Done(Ok(_))) =>
                InstallStageView::Say { bin, k },
            (InstallStageView::Write { .. }, FileReplyView::Done(Err(e))) => InstallStageView::End(
                Err(e),
            ),
            (InstallStageView::Say { bin, k }, FileReplyView::Done(_)) => self.turn(bin, k + 1),
            (stage, _) => stage,
        }
    }

    /// The state after a reply.
    pub open spec fn next(self, reply: FileReplyView) -> InstallView {
        InstallView { stage: self.next_stage(reply), ..self }
    }
}

/// The installation of shims.
#[derive(Debug)]
pub struct Install {
    bin_dir: Vec<u8>,
    tools: Vec<String>,
    min_mem: String,
    min_swap: String,
    force: bool,
    stage: InstallStage,
}

impl View for Install {
    type V = InstallView;

    closed spec fn view(&self) -> InstallView {
        InstallView {
            bin_dir: self.bin_dir@,
            tools: text::contents(self.tools@),
            min_mem: self.min_mem@,
            min_swap: self.min_swap@,
            force: self.force,
            stage: self.stage@,
        }
    }
}

/// Begins to install shims. `home` is the home directory.
pub fn install_shims(args: InstallShimsArgs, home: &Option<Vec<u8>>) -> (r: Result<
    Install,
    HomeNotSet,
>)
    ensures
        match r {
            Ok(install) => shim_dir(args.bin_dir, *home) is Some && install@ == InstallView::start(
                args,
                shim_dir(args.bin_dir, *home)->0,
            ),
            Err(_) => shim_dir(args.bin_dir, *home) is None,
        },
{
    let tools = shim::selected_tools(args.tools.as_slice());
    match find_shim_dir(args.bin_dir, home) {
        Ok(bin_dir) => Ok(
            Install {
                bin_dir,
                tools,
                min_mem: args.min_mem,
                min_swap: args.min_swap,
                force: args.force,
                stage: InstallStage::Directory,
            },
        ),
        Err(e) => Err(e),
    }
}

impl Install {
    #[verifier::type_invariant]
    spec fn inv(self) -> bool {
        self@.well_formed()
    }

    /// The path of a shim.
    fn place(&self, k: usize) -> (r: Vec<u8>)
        requires
            k < self.tools.len(),
        ensures
            r@ == self@.place(k as int),
    {
        path_of_shim(self.bin_dir.as_slice(), self.tools[k].as_str())
    }

    /// What is to be done now.
    pub fn action(&self) -> (r: FileAction)
        ensures
            r@ == self@.action(),
    {
        proof {
            use_type_invariant(self);
        }
        match &self.stage {
            InstallStage::Directory => FileAction::CreateDir(
                path::copy_bytes(self.bin_dir.as_slice()),
            ),
            InstallStage::Binary => FileAction::FindBinary,
            InstallStage::Entry { k, .. } => FileAction::CheckEntry(self.place(*k)),
            InstallStage::Look { k, .. } => FileAction::Probe(self.place(*k)),
            InstallStage::Write { bin, k } => FileAction::WriteExecutable {
                path: self.place(*k),
                content: shim::path_shim_script(
                    self.tools[*k].as_str(),
                    process::from_utf8_lossy(bin.as_slice()).as_str(),
                    self.min_mem.as_str(),
                    self.min_swap.as_str(),
                ),
            },
            InstallStage::Say { k, .. } => FileAction::Print(
                files::line_about("installed shim: ", self.place(*k).as_slice()),
            ),
            InstallStage::End(Ok(code)) => FileAction::Finish(Ok(*code)),
            InstallStage::End(Err(e)) => FileAction::Finish(Err(e.clone())),
        }
    }

    /// The turn of a tool.
    fn turn(&self, bin: &[u8], k: usize) -> (r: InstallStage)
        ensures
            r@ == self@.turn(bin@, k as int),
    {
        if k >= self.tools.len() {
            return InstallStage::End(Ok(0));
        }
        match shim::validate_tool_name(self.tools[k].as_str()) {
            Ok(_) => InstallStage::Entry { bin: path::copy_bytes(bin), k },
            Err(e) => InstallStage::End(Err(e.message())),
        }
    }

    /// The stage after a reply.
    fn next_stage(&self, reply: FileReply) -> (r: InstallStage)
        requires
            files::answers(self@.action(), reply@),
        ensures
            r@ == self@.next_stage(reply@),
    {
        proof {
            use_type_invariant(self);
        }
        let count = self.tools.len();
        match (&self.stage, reply) {
            (InstallStage::Directory, FileReply::Done(Ok(_))) => InstallStage::Binary,
            (InstallStage::Directory, FileReply::Done(Err(e))) => InstallStage::End(
                Err(
                    files::line_about_fault(
                        "failed to create ",
                        self.bin_dir.as_slice(),
                        e.as_str(),
                    ),
                ),
            ),
            (InstallStage::Entry { bin, k }, FileReply::Entry(entry)) => {
                match files::path_entry_exists(self.place(*k).as_slice(), entry) {
                    Ok(exists) => if exists {
                        InstallStage::Look { bin: path::copy_bytes(bin.as_slice()), k: *k }
                    } else {
                        InstallStage::Write { bin: path::copy_bytes(bin.as_slice()), k: *k }
                    },
                    Err(e) => InstallStage::End(Err(e)),
                }
            },
            (InstallStage::Look { bin, k }, FileReply::Found(probe)) => {
                if shim::is_managed_path_shim(&probe) || self.force {
                    InstallStage::Write { bin: path::copy_bytes(bin.as_slice()), k: *k }
                } else {
                    InstallStage::End(
                        Err(
                            files::line_about(
                                "refusing to replace non-managed file: ",
                                self.place(*k).as_slice(),
                            ),
                        ),
                    )
                }
            },
            (InstallStage::Write { bin, k }, FileReply::Done(Ok(_))) => InstallStage::Say {
                bin: path::copy_bytes(bin.as_slice()),
                k: *k,
            },
            (InstallStage::Write { .. }, FileReply::Done(Err(e))) => InstallStage::End(Err(e)),
            (InstallStage::Say { bin, k }, FileReply::Done(_)) => {
                assert(*k < count);
                self.turn(bin.as_slice(), *k + 1)
            },
            (_, FileReply::Path(Ok(bin))) => self.turn(bin.as_slice(), 0),
            (_, FileReply::Path(Err(e))) => InstallStage::End(
                Err(text::concat("failed to resolve current oomwrap binary: ", e.as_str())),
            ),
            _ => InstallStage::End(Ok(0)),
        }
    }

    /// The state after a reply.
    pub fn step(self, reply: FileReply) -> (r: Install)
        requires
            files::answers(self@.action(), reply@),
        ensures
            r@ == self@.next(reply@),
    {
        proof {
            use_type_invariant(&self);
        }
        let stage = self.next_stage(reply);
        Install {
            bin_dir: self.bin_dir,
            tools: self.tools,
            min_mem: self.min_mem,
            min_swap: self.min_swap,
            force: self.force,
            stage,
        }
    }
}

/// How far the removal has come. `k` is the number of the tool at hand.
#[derive(Debug, PartialEq, Eq)]
pub enum UninstallStage {
    /// The place of the shim is to be looked at.
    Look { k: usize },
    /// The shim is to be removed.
    Remove { k: usize },
    /// A line is to be written about it.
    Say { k: usize },
    /// The end.
    End(Result<i32, String>),
}

/// What an [`UninstallStage`] says.
pub enum UninstallStageView {
    Look { k: int },
    Remove { k: int },
    Say { k: int },
    End(Result<i32, Seq<char>>),
}

impl View for UninstallStage {
    type V = UninstallStageView;

    open spec fn view(&self) -> UninstallStageView {
        match *self {
            UninstallStage::Look { k } => UninstallStageView::Look { k: k as int },
            UninstallStage::Remove { k } => UninstallStageView::Remove { k: k as int },
            UninstallStage::Say { k } => UninstallStageView::Say { k: k as int },
            UninstallStage::End(r) => UninstallStageView::End(text::in_words(r)),
        }
    }
}

/// What an [`Uninstall`] says.
pub struct UninstallView {
    pub bin_dir: Seq<u8>,
    pub tools: Seq<Seq<char>>,
    pub stage: UninstallStageView,
}

/// The turn of a tool: the end where there is none left, and where its name is none.
pub open spec fn uninstall_turn(tools: Seq<Seq<char>>, k: int) -> UninstallStageView {
    if k >= tools.len() {
        UninstallStageView::End(Ok(0))
    } else if !shim::is_tool_name(tools[k]) {
        UninstallStageView::End(Err(shim::tool_name_text(tools[k])))
    } else {
        UninstallStageView::Look { k }
    }
}

impl UninstallView {
    /// The start.
    pub open spec fn start(args: UninstallShimsArgs, bin_dir: Seq<u8>) -> UninstallView {
        let tools = shim::tools_to_use(text::contents(args.tools@));
        UninstallView { bin_dir, tools, stage: uninstall_turn(tools, 0) }
    }

    /// Whether the stage is about one of the tools, and one with a proper name.
    pub open spec fn well_formed(self) -> bool {
        match self.stage {
            UninstallStageView::Look { k }
            | UninstallStageView::Remove { k }
            | UninstallStageView::Say { k } => 0 <= k < self.tools.len() && shim::is_tool_name(
                self.tools[k],
            ),
            _ => true,
        }
    }

    /// The path of a shim.
    pub open spec fn place(self, k: int) -> Seq<u8> {
        shim_path(self.bin_dir, self.tools[k])
    }

    /// What is to be done now.
    pub open spec fn action(self) -> FileActionView {
        match self.stage {
            UninstallStageView::Look { k } => FileActionView::Probe(self.place(k)),
            UninstallStageView::Remove { k } => FileActionView::Remove(self.place(k)),
            UninstallStageView::Say { k } => FileActionView::Print(
                files::about("removed shim: "@, self.place(k)),
            ),
            UninstallStageView::End(r) => FileActionView::Finish(r),
        }
    }

    /// The stage after a reply.
    pub open spec fn next_stage(self, reply: FileReplyView) -> UninstallStageView {
        match (self.stage, reply) {
            (UninstallStageView::Look { k }, FileReplyView::Found(probe)) => if shim::is_marked(
                probe,
                shim::PATH_SHIM_MARKER@,
            ) {
                UninstallStageView::Remove { k }
            } else {
                uninstall_turn(self.tools, k + 1)
            },
            (UninstallStageView::Remove { k }, FileReplyView::Done(Ok(_))) =>
                UninstallStageView::Say { k },
            (UninstallStageView::Remove { k }, FileReplyView::Done(Err(e))) =>
                UninstallStageView::End(
                Err(files::about_fault("failed to remove "@, self.place(k), e)),
            ),
            (UninstallStageView::Say { k }, FileReplyView::Done(_)) => uninstall_turn(
                self.tools,
                k + 1,
            ),
            (stage, _) => stage,
        }
    }

    /// The state after a reply.
    pub open spec fn next(self, reply: FileReplyView) -> UninstallView {
        UninstallView { stage: self.next_stage(reply), ..self }
    }
}

/// The removal of shims.
#[derive(Debug)]
pub struct Uninstall {
    bin_dir: Vec<u8>,
    tools: Vec<String>,
    stage: UninstallStage,
}

impl View for Uninstall {
    type V = UninstallView;

    closed spec fn view(&self) -> UninstallView {
        UninstallView {
            bin_dir: self.bin_dir@,
            tools: text::contents(self.tools@),
            stage: self.stage@,
        }
    }
}

/// The turn of a tool.
fn next_to_remove(tools: &[String], k: usize) -> (r: UninstallStage)
    ensures
        r@ == uninstall_turn(text::contents(tools@), k as int),
{
    if k >= tools.len() {
        return UninstallStage::End(Ok(0));
    }
    match shim::validate_tool_name(tools[k].as_str()) {
        Ok(_) => UninstallStage::Look { k },
        Err(e) => UninstallStage::End(Err(e.message())),
    }
}

/// Begins to remove shims. `home` is the home directory.
pub fn uninstall_shims(args: UninstallShimsArgs, home: &Option<Vec<u8>>) -> (r: Result<
    Uninstall,
    HomeNotSet,
>)
    ensures
        match r {
            Ok(uninstall) => shim_dir(args.bin_dir, *home) is Some && uninstall@
                == UninstallView::start(args, shim_dir(args.bin_dir, *home)->0),
            Err(_) => shim_dir(args.bin_dir, *home) is None,
        },
{
    let tools = shim::selected_tools(args.tools.as_slice());
    match find_shim_dir(args.bin_dir, home) {
        Ok(bin_dir) => {
            let stage = next_to_remove(tools.as_slice(), 0);
            Ok(Uninstall { bin_dir, tools, stage })
        },
        Err(e) => Err(e),
    }
}

impl Uninstall {
    #[verifier::type_invariant]
    spec fn inv(self) -> bool {
        self@.well_formed()
    }

    /// The path of a shim.
    fn place(&self, k: usize) -> (r: Vec<u8>)
        requires
            k < self.tools.len(),
        ensures
            r@ == self@.place(k as int),
    {
        path_of_shim(self.bin_dir.as_slice(), self.tools[k].as_str())
    }

    /// What is to be done now.
    pub fn action(&self) -> (r: FileAction)
        ensures
            r@ == self@.action(),
    {
        proof {
            use_type_invariant(self);
        }
        match &self.stage {
            UninstallStage::Look { k } => FileAction::Probe(self.place(*k)),
            UninstallStage::Remove { k } => FileAction::Remove(self.place(*k)),
            UninstallStage::Say { k } => FileAction::Print(
                files::line_about("removed shim: ", self.place(*k).as_slice()),
            ),
            UninstallStage::End(Ok(code)) => FileAction::Finish(Ok(*code)),
            UninstallStage::End(Err(e)) => FileAction::Finish(Err(e.clone())),
        }
    }

    /// The stage after a reply.
    fn next_stage(&self, reply: FileReply) -> (r: UninstallStage)
        requires
            files::answers(self@.action(), reply@),
        ensures
            r@ == self@.next_stage(reply@),
    {
        proof {
            use_type_invariant(self);
        }
        let count = self.tools.len();
        match (&self.stage, reply) {
            (UninstallStage::Look { k }, FileReply::Found(probe)) => {
                assert(*k < count);
                if shim::is_managed_path_shim(&probe) {
                    UninstallStage::Remove { k: *k }
                } else {
                    next_to_remove(self.tools.as_slice(), *k + 1)
                }
            },
            (UninstallStage::Remove { k }, FileReply::Done(Ok(_))) => UninstallStage::Say { k: *k },
            (UninstallStage::Remove { k }, FileReply::Done(Err(e))) => UninstallStage::End(
                Err(
                    files::line_about_fault(
                        "failed to remove ",
                        self.place(*k).as_slice(),
                        e.as_str(),
                    ),
                ),
            ),
            (UninstallStage::Say { k }, _) => {
                assert(*k < count);
                next_to_remove(self.tools.as_slice(), *k + 1)
            },
            _ => UninstallStage::End(Ok(0)),
        }
    }

    /// The state after a reply.
    pub fn step(self, reply: FileReply) -> (r: Uninstall)
        requires
            files::answers(self@.action(), reply@),
        ensures
            r@ == self@.next(reply@),
    {
        proof {
            use_type_invariant(&self);
        }
        let stage = self.next_stage(reply);
        Uninstall { bin_dir: self.bin_dir, tools: self.tools, stage }
    }
}

} // verus!
