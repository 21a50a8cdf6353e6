//! A disk, and what the work on files does to it, whatever fails on the way.
use crate::files::{self, FileActionView, FileReplyView};
use crate::job::JobView;
use crate::placement::{
    self, CreationView, WriteActionView, WriteReplyView, WriteStageView, WritingView,
};
use crate::{install, path, shim, text, wrap};
use vstd::prelude::*;

verus! {

/// What can be at a place.
pub enum Node {
    /// A file with text in it.
    Text { text: Seq<char>, mode: u32 },
    /// A file that holds no text, such as a compiled program, or whose content cannot be read.
    Binary { content: int, mode: u32 },
    /// A link to a place.
    Link { to: Seq<u8> },
    /// Anything else, such as a directory.
    Other(int),
}

impl Node {
    /// Whether this is a file.
    pub open spec fn is_file(self) -> bool {
        self is Text || self is Binary
    }

    /// The permissions of a file.
    pub open spec fn mode(self) -> u32 {
        match self {
            Node::Text { mode, .. } | Node::Binary { mode, .. } => mode,
            _ => 0,
        }
    }

    /// Whether this is a file with a marker in it.
    pub open spec fn holds(self, marker: Seq<char>) -> bool {
        self matches Node::Text { text, .. } && text::contains(text, marker)
    }
}

/// What is at which place. A place goes by its absolute path without links on the way to it.
pub type Disk = Map<Seq<u8>, Node>;

/// Which place a path names, where links on the way to it are followed but not one at its end. The
/// links on the way stay what they are.
pub type Places = spec_fn(Seq<u8>) -> Seq<u8>;

/// Whether a path ends in a name, as the path of a file does.
pub open spec fn ends_in_name(p: Seq<u8>) -> bool {
    let name = p.skip(p.len() - path::tail_len(p, 0));
    name.len() > 0 && name != seq![0x2eu8] && name != seq![0x2eu8, 0x2eu8]
}

/// Whether what stands next to a path stands next to its place.
pub open spec fn keeps_neighbours(places: Places) -> bool {
    forall|p: Seq<u8>|
        ends_in_name(p) ==> #[trigger] places(wrap::sidecar(p)) == wrap::sidecar(places(p))
}

/// Whether different names in a directory stand for different places.
#[verifier::opaque]
pub open spec fn keeps_names(places: Places) -> bool {
    forall|dir: Seq<u8>, a: Seq<char>, b: Seq<char>|
        shim::is_tool_name(a) && shim::is_tool_name(b) && places(
            #[trigger] install::shim_path(dir, a),
        ) == places(#[trigger] install::shim_path(dir, b)) ==> a == b
}

/// Whether paths name places as they do on a disk.
pub open spec fn is_naming(places: Places) -> bool {
    keeps_neighbours(places) && keeps_names(places)
}

/// Two names in a directory that stand for one place are the same.
pub proof fn lemma_names_apart(places: Places, dir: Seq<u8>, a: Seq<char>, b: Seq<char>)
    requires
        keeps_names(places),
        shim::is_tool_name(a),
        shim::is_tool_name(b),
        places(install::shim_path(dir, a)) == places(install::shim_path(dir, b)),
    ensures
        a == b,
{
    reveal(keeps_names);
}

/// Where no links are on the way, paths go by themselves.
pub proof fn law_plain_paths_are_places()
    ensures
        is_naming(|p: Seq<u8>| p),
{
    reveal(keeps_names);
    assert forall|dir: Seq<u8>, a: Seq<char>, b: Seq<char>|
        shim::is_tool_name(a) && shim::is_tool_name(b) && #[trigger] install::shim_path(dir, a)
            == #[trigger] install::shim_path(dir, b) implies a == b by {
        shim::law_tool_names(a);
        shim::law_tool_names(b);
        path::lemma_encoded_without_slash(a);
        path::lemma_encoded_without_slash(b);
        path::lemma_joined_apart(dir, vstd::utf8::encode_utf8(a), vstd::utf8::encode_utf8(b));
        path::lemma_encoded_apart(a, b);
    }
}

/// Where paths go by themselves, no shim is on the way to the directory that it is in.
pub proof fn law_shims_are_off_the_way(dir: Seq<u8>, tool: Seq<char>)
    requires
        shim::is_tool_name(tool),
    ensures
        !is_on_the_way(|p: Seq<u8>| p, dir, install::shim_path(dir, tool)),
{
    let name = vstd::utf8::encode_utf8(tool);
    shim::law_tool_names(tool);
    path::lemma_encoded_without_slash(tool);
    reveal_strlit("");
    assert(name.len() > 0) by {
        if name.len() == 0 {
            assert(name =~= vstd::utf8::encode_utf8(Seq::<char>::empty()));
            path::lemma_encoded_apart(tool, Seq::empty());
            assert(tool =~= ""@);
        }
    }
    assert(name.contains(name[0]));
    assert(install::shim_path(dir, tool).len() > dir.len());
}

/// How many links are followed, one from the other, before that is given up.
pub const MOST_LINKS: u32 = 40;

/// The place where `n` links at most lead from a place, which is that place if no link is there.
pub open spec fn end_of_links(disk: Disk, p: Seq<u8>, n: nat) -> Option<Seq<u8>>
    decreases n,
{
    if disk.contains_key(p) && disk[p] is Link {
        if n == 0 {
            None
        } else {
            end_of_links(disk, disk[p]->to, (n - 1) as nat)
        }
    } else {
        Some(p)
    }
}

/// What is seen at a place through `n` links at most.
pub open spec fn seen_within(disk: Disk, p: Seq<u8>, n: nat) -> Option<Node> {
    match end_of_links(disk, p, n) {
        Some(q) => if disk.contains_key(q) {
            Some(disk[q])
        } else {
            None
        },
        None => None,
    }
}

/// What is seen at a place, through links.
pub open spec fn seen(disk: Disk, p: Seq<u8>) -> Option<Node> {
    seen_within(disk, p, MOST_LINKS as nat)
}

/// Whether a file with a marker in it is seen at a place, through links.
pub open spec fn shows(disk: Disk, p: Seq<u8>, marker: Seq<char>) -> bool {
    seen(disk, p) matches Some(node) && node.holds(marker)
}

/// What is found at a path, through links. A file is found only at a path that ends in a name.
pub open spec fn found(disk: Disk, places: Places, p: Seq<u8>) -> Option<Node> {
    match seen(disk, places(p)) {
        Some(node) => if node.is_file() && !ends_in_name(p) {
            None
        } else {
            Some(node)
        },
        None => None,
    }
}

/// Whether a place has the given node.
pub open spec fn has(disk: Disk, p: Seq<u8>, node: Node) -> bool {
    disk.contains_key(p) && disk[p] == node
}

/// Whether two disks agree on what is at a place.
pub open spec fn agree_at(a: Disk, b: Disk, p: Seq<u8>) -> bool {
    a.contains_key(p) == b.contains_key(p) && (a.contains_key(p) ==> a[p] == b[p])
}

/// Whether two disks differ at a place at most, and the second one has something there.
pub open spec fn changes_at(disk: Disk, p: Seq<u8>, next: Disk) -> bool {
    next == disk.insert(p, next[p])
}

/// Whether the second disk has a file more, at the given place.
pub open spec fn adds_file(disk: Disk, p: Seq<u8>, next: Disk) -> bool {
    !disk.contains_key(p) && changes_at(disk, p, next) && next[p].is_file()
}

/// Whether a place is on the way to a path, that of the path counted: where the path leads to as far
/// as one of its slashes, or as a whole.
pub open spec fn is_on_the_way(places: Places, path: Seq<u8>, p: Seq<u8>) -> bool {
    exists|i: int|
        0 <= i <= path.len() && (i == path.len() || path[i] == 0x2f) && p == places(
            #[trigger] path.take(i),
        )
}

/// Whether a directory may be made at a place in order to make one at a path.
pub open spec fn may_be_made(places: Places, disk: Disk, path: Seq<u8>, p: Seq<u8>) -> bool {
    !disk.contains_key(places(path)) && is_on_the_way(places, path, p)
}

/// Whether the second disk has nothing more than directories, on the way to one at a path.
pub open spec fn adds_directories(places: Places, disk: Disk, path: Seq<u8>, next: Disk) -> bool {
    &&& forall|p: Seq<u8>|
        disk.contains_key(p) ==> #[trigger] next.contains_key(p) && next[p] == disk[p]
    &&& forall|p: Seq<u8>| #[trigger]
        next.contains_key(p) ==> disk.contains_key(p) || (may_be_made(places, disk, path, p)
            && next[p] is Other)
}

/// A file with the permissions of an executable.
pub open spec fn executable(text: Seq<char>) -> Node {
    Node::Text { text, mode: placement::EXECUTABLE_MODE }
}

/// What an action of a writer may do to a disk, with the given reply.
pub open spec fn write_effect(
    places: Places,
    disk: Disk,
    action: WriteActionView,
    reply: WriteReplyView,
    next: Disk,
) -> bool {
    match (action, reply) {
        (WriteActionView::Create(p), WriteReplyView::Created(CreationView::Created)) => {
            adds_file(disk, places(p), next)
        },
        (WriteActionView::Write { path, content }, WriteReplyView::Done(r)) => {
            &&& changes_at(disk, places(path), next)
            &&& next[places(path)].is_file()
            &&& r is Ok ==> (next[places(path)] matches Node::Text { text, .. } && text == content)
        },
        (WriteActionView::SetMode { path, mode }, WriteReplyView::Done(Ok(_))) => {
            disk[places(path)] matches Node::Text { text, .. } ==> next == disk.insert(
                places(path),
                Node::Text { text, mode },
            )
        },
        (WriteActionView::Rename { from, to }, WriteReplyView::Done(Ok(_))) => {
            disk.contains_key(places(from)) && next == disk.remove(places(from)).insert(
                places(to),
                disk[places(from)],
            )
        },
        (WriteActionView::Remove(p), WriteReplyView::Done(Ok(_))) => next == disk.remove(
            places(p),
        ),
        _ => next == disk,
    }
}

/// The writer after a number of replies, each with the disk as it then is.
pub open spec fn writer_after(
    writer: WritingView,
    steps: Seq<(WriteReplyView, Disk)>,
) -> WritingView
    decreases steps.len(),
{
    if steps.len() == 0 {
        writer
    } else {
        writer_after(writer, steps.drop_last()).next(steps.last().0)
    }
}

/// The disk after a number of replies.
pub open spec fn disk_after<R>(disk: Disk, steps: Seq<(R, Disk)>) -> Disk {
    if steps.len() == 0 {
        disk
    } else {
        steps.last().1
    }
}

/// Whether the replies can come, and the disk can change in that way.
pub open spec fn can_write(
    places: Places,
    writer: WritingView,
    disk: Disk,
    steps: Seq<(WriteReplyView, Disk)>,
) -> bool
    decreases steps.len(),
{
    steps.len() == 0 || {
        let front = steps.drop_last();
        let action = writer_after(writer, front).action();
        &&& can_write(places, writer, disk, front)
        &&& placement::answers(action, steps.last().0)
        &&& write_effect(places, disk_after(disk, front), action, steps.last().0, steps.last().1)
    }
}

/// How the disk stands at a stage of the writing, before which it was `disk`.
pub open spec fn written_so_far(
    places: Places,
    writer: WritingView,
    disk: Disk,
    now: Disk,
) -> bool {
    let temporary = places(writer.temporary());
    match writer.stage {
        WriteStageView::Create => now == disk,
        WriteStageView::Write | WriteStageView::CleanUp { .. } => adds_file(disk, temporary, now),
        WriteStageView::Sync | WriteStageView::Mode => adds_file(disk, temporary, now) && (
        now[temporary] matches Node::Text { text, .. } && text == writer.content),
        WriteStageView::Rename => adds_file(disk, temporary, now) && now[temporary]
            == executable(writer.content),
        WriteStageView::End(Ok(_)) => now == disk.insert(
            places(writer.path),
            executable(writer.content),
        ),
        WriteStageView::End(Err(_)) => now == disk || adds_file(disk, temporary, now),
    }
}

proof fn lemma_write_step(
    places: Places,
    writer: WritingView,
    disk: Disk,
    before: Disk,
    reply: WriteReplyView,
    now: Disk,
)
    requires
        written_so_far(places, writer, disk, before),
        placement::answers(writer.action(), reply),
        write_effect(places, before, writer.action(), reply, now),
    ensures
        written_so_far(places, writer.next(reply), disk, now),
{
    let temporary = places(writer.temporary());
    match writer.stage {
        WriteStageView::Create => {},
        WriteStageView::Write => {
            assert(now =~= disk.insert(temporary, now[temporary]));
        },
        WriteStageView::Sync => {},
        WriteStageView::Mode => {
            assert(now =~= disk.insert(temporary, now[temporary]));
        },
        WriteStageView::Rename => {
            if reply matches WriteReplyView::Done(Ok(_)) {
                assert(now =~= disk.insert(places(writer.path), executable(writer.content)));
            }
        },
        WriteStageView::CleanUp { .. } => {
            assert(before.remove(temporary) =~= disk);
        },
        WriteStageView::End(_) => {},
    }
}

/// Until the executable is in its place nothing but a temporary file is added to the disk; then
/// that file has become the executable, with its content and permissions. Where the writing fails,
/// the disk is as it was, but for a temporary file that could not be removed.
pub proof fn law_writing_is_all_or_nothing(
    places: Places,
    path: Seq<u8>,
    content: Seq<char>,
    pid: u32,
    disk: Disk,
    steps: Seq<(WriteReplyView, Disk)>,
)
    requires
        can_write(places, WritingView::start(path, content, pid), disk, steps),
    ensures
        ({
            let start = WritingView::start(path, content, pid);
            let writer = writer_after(start, steps);
            &&& written_so_far(places, writer, disk, disk_after(disk, steps))
            &&& writer == (WritingView { attempt: writer.attempt, stage: writer.stage, ..start })
            &&& path::place_of(path) is None ==> writer.stage is End && disk_after(disk, steps)
                == disk
        }),
    decreases steps.len(),
{
    let start = WritingView::start(path, content, pid);
    if steps.len() > 0 {
        let front = steps.drop_last();
        law_writing_is_all_or_nothing(places, path, content, pid, disk, front);
        lemma_write_step(
            places,
            writer_after(start, front),
            disk,
            disk_after(disk, front),
            steps.last().0,
            steps.last().1,
        );
    }
}

/// Whether the temporary files for an executable have other places than the executable, as they
/// have other paths.
pub open spec fn stands_apart(places: Places, path: Seq<u8>, pid: u32) -> bool {
    forall|attempt: u32|
        (#[trigger] placement::temporary_for(path, pid, attempt)) matches Some(q) ==> places(q)
            != places(path)
}

/// Until the executable is in its place, and where it never gets there, its place is as it was:
/// empty if it was empty.
pub proof fn law_writing_spares_its_place(
    places: Places,
    path: Seq<u8>,
    content: Seq<char>,
    pid: u32,
    disk: Disk,
    steps: Seq<(WriteReplyView, Disk)>,
)
    requires
        can_write(places, WritingView::start(path, content, pid), disk, steps),
        stands_apart(places, path, pid),
    ensures
        !(writer_after(WritingView::start(path, content, pid), steps).stage matches
            WriteStageView::End(Ok(_))) ==> agree_at(
            disk,
            disk_after(disk, steps),
            places(path),
        ),
{
    law_writing_is_all_or_nothing(places, path, content, pid, disk, steps);
    let writer = writer_after(WritingView::start(path, content, pid), steps);
    if path::place_of(path) is Some {
        assert(placement::temporary_for(path, pid, writer.attempt) == Some(writer.temporary()));
    }
}

/// Whether the second disk has a temporary file more, of an executable that was to be written, and
/// not in the place of that.
pub open spec fn leaves_temporary(
    places: Places,
    path: Seq<u8>,
    disk: Disk,
    next: Disk,
) -> bool {
    exists|pid: u32, attempt: u32|
        (#[trigger] placement::temporary_for(path, pid, attempt)) matches Some(q) && adds_file(
            disk,
            places(q),
            next,
        ) && places(q) != places(path)
}

/// What an action of a job may do to a disk, with the given reply. A look at a path shows what is
/// there; every other action may fail.
pub open spec fn file_effect(
    places: Places,
    disk: Disk,
    action: FileActionView,
    reply: FileReplyView,
    next: Disk,
) -> bool {
    match (action, reply) {
        (FileActionView::CreateDir(p), _) => adds_directories(places, disk, p, next),
        (FileActionView::Resolve(p), FileReplyView::Path(Ok(t))) => {
            &&& next == disk
            &&& found(disk, places, p) matches Some(node) && (node.is_file() ==> ends_in_name(t))
            &&& end_of_links(disk, places(p), MOST_LINKS as nat) == Some(places(t))
        },
        (FileActionView::Probe(p), FileReplyView::Found(probe)) => {
            &&& next == disk
            &&& match found(disk, places, p) {
                Some(node) => probe.exists && probe.is_file == node.is_file() && match node {
                    Node::Text { text, .. } => probe.content == Some(text),
                    _ => probe.content is None,
                },
                None => !probe.exists,
            }
        },
        (FileActionView::ReadMode(p), FileReplyView::Mode(Ok(mode))) => {
            &&& next == disk
            &&& found(disk, places, p) matches Some(node) && (node.is_file() ==> mode
                == node.mode())
        },
        (FileActionView::CheckEntry(p), FileReplyView::Entry(entry)) => {
            &&& next == disk
            &&& entry is Present ==> disk.contains_key(places(p))
            &&& entry is Absent ==> !disk.contains_key(places(p))
        },
        (FileActionView::Rename { from, to }, FileReplyView::Done(Ok(_))) => {
            disk.contains_key(places(from)) && next == disk.remove(places(from)).insert(
                places(to),
                disk[places(from)],
            )
        },
        (FileActionView::Remove(p), FileReplyView::Done(Ok(_))) => next == disk.remove(places(p)),
        (FileActionView::WriteExecutable { path, content }, FileReplyView::Done(r)) => match r {
            Ok(_) => next == disk.insert(places(path), executable(content)),
            Err(_) => next == disk || leaves_temporary(places, path, disk, next),
        },
        _ => next == disk,
    }
}

/// The steps by which a writer puts an executable in its place make up one action of a job.
pub proof fn law_writing_is_one_action(
    places: Places,
    path: Seq<u8>,
    content: Seq<char>,
    pid: u32,
    disk: Disk,
    steps: Seq<(WriteReplyView, Disk)>,
    result: Result<(), Seq<char>>,
)
    requires
        can_write(places, WritingView::start(path, content, pid), disk, steps),
        stands_apart(places, path, pid),
        writer_after(WritingView::start(path, content, pid), steps).action()
            == WriteActionView::Finish(result),
    ensures
        file_effect(
            places,
            disk,
            FileActionView::WriteExecutable { path, content },
            FileReplyView::Done(result),
            disk_after(disk, steps),
        ),
{
    law_writing_is_all_or_nothing(places, path, content, pid, disk, steps);
    let writer = writer_after(WritingView::start(path, content, pid), steps);
    if path::place_of(path) is Some {
        assert(placement::temporary_for(path, pid, writer.attempt) == Some(writer.temporary()));
    }
}

/// The job after a number of replies, each with the disk as it then is.
pub open spec fn job_after(job: JobView, steps: Seq<(FileReplyView, Disk)>) -> JobView
    decreases steps.len(),
{
    if steps.len() == 0 {
        job
    } else {
        job_after(job, steps.drop_last()).next(steps.last().0)
    }
}

/// Whether the replies can come, and the disk can change in that way.
pub open spec fn can_do(
    places: Places,
    job: JobView,
    disk: Disk,
    steps: Seq<(FileReplyView, Disk)>,
) -> bool
    decreases steps.len(),
{
    steps.len() == 0 || {
        let front = steps.drop_last();
        let action = job_after(job, front).action();
        &&& can_do(places, job, disk, front)
        &&& files::answers(action, steps.last().0)
        &&& file_effect(places, disk_after(disk, front), action, steps.last().0, steps.last().1)
    }
}

/// Whether a reply tells of a failure.
pub open spec fn failed(reply: FileReplyView) -> bool {
    match reply {
        FileReplyView::Done(r) => r is Err,
        FileReplyView::Path(r) => r is Err,
        FileReplyView::Mode(r) => r is Err,
        FileReplyView::Entry(e) => e is Failed,
        FileReplyView::Found(_) => false,
    }
}

/// Whether nothing has failed.
pub open spec fn all_well(steps: Seq<(FileReplyView, Disk)>) -> bool {
    forall|i: int| 0 <= i < steps.len() ==> !failed((#[trigger] steps[i]).0)
}

/// Where nothing has failed, nothing has failed so far, nor at last.
pub proof fn lemma_all_well(steps: Seq<(FileReplyView, Disk)>)
    requires
        all_well(steps),
        steps.len() > 0,
    ensures
        all_well(steps.drop_last()),
        !failed(steps.last().0),
{
    let front = steps.drop_last();
    assert forall|i: int| 0 <= i < front.len() implies !failed((#[trigger] front[i]).0) by {
        assert(front[i] == steps[i]);
    }
    assert(!failed(steps[steps.len() - 1].0));
}

} // verus!
