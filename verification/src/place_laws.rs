//! Where shims, wrappers and temporary files are put.
use crate::placement::{
    self, CreationView, WriteActionView, WriteReplyView, WriteStageView, WritingView,
};
use crate::{files, install, path, text};
use vstd::prelude::*;

verus! {

/// A path below a directory has one slash between the two, which the directory may bring itself; an
/// absolute path stands alone.
pub proof fn law_paths_are_joined_by_one_slash(dir: Seq<u8>, name: Seq<u8>)
    ensures
        name.len() > 0 && name[0] == 0x2f ==> path::joined(dir, name) == name,
        !(name.len() > 0 && name[0] == 0x2f) && dir.len() == 0 ==> path::joined(dir, name) == name,
        !(name.len() > 0 && name[0] == 0x2f) && dir.len() > 0 && dir.last() == 0x2f
            ==> path::joined(dir, name) == dir + name,
        !(name.len() > 0 && name[0] == 0x2f) && dir.len() > 0 && dir.last() != 0x2f
            ==> path::joined(dir, name) == dir + seq![0x2fu8] + name,
{
    assert(Seq::<u8>::empty() + name =~= name);
    if dir.len() == 0 {
        assert(dir =~= Seq::<u8>::empty());
    }
    assert(dir.push(0x2f) =~= dir + seq![0x2fu8]);
}

/// Shims go to the directory that is named, and else to `.local/bin` below the home directory. There
/// has to be a home directory either way.
pub proof fn law_directory_for_shims(named: Option<Vec<u8>>, home: Option<Vec<u8>>)
    ensures
        home is None ==> install::shim_dir(named, home) is None,
        home is Some && named is Some ==> install::shim_dir(named, home) == Some(named->0@),
        home is Some && named is None && home->0@.len() > 0 && home->0@.last() != 0x2f
            ==> install::shim_dir(named, home) == Some(
            home->0@ + seq![
                0x2fu8,
                0x2e,
                0x6c,
                0x6f,
                0x63,
                0x61,
                0x6c,
                0x2f,
                0x62,
                0x69,
                0x6e,
            ],
        ),
{
    if home is Some && named is None && home->0@.len() > 0 && home->0@.last() != 0x2f {
        let h = home->0@;
        reveal_strlit(".local/bin");
        assert(path::bin_dir_below(h) =~= h + seq![
            0x2fu8,
            0x2e,
            0x6c,
            0x6f,
            0x63,
            0x61,
            0x6c,
            0x2f,
            0x62,
            0x69,
            0x6e,
        ]);
    }
}

proof fn lemma_decimal_apart(a: nat, b: nat)
    requires
        text::decimal(a) == text::decimal(b),
    ensures
        a == b,
{
    text::lemma_decimal_value(a);
    text::lemma_decimal_value(b);
}

/// The names of two tries for one temporary file are different, and begin with a dot and the name of
/// the executable.
pub proof fn law_temporary_names_differ(name: Seq<char>, pid: u32, a: u32, b: u32)
    ensures
        placement::temporary_name(name, pid, a) == placement::temporary_name(name, pid, b) ==> a
            == b,
        text::starts_with(placement::temporary_name(name, pid, a), seq!['.'] + name),
{
    let head = "."@ + name + ".oomwrap-tmp-"@ + text::decimal(pid as nat) + "-"@;
    let x = placement::temporary_name(name, pid, a);
    let y = placement::temporary_name(name, pid, b);
    assert(x.skip(head.len() as int) =~= text::decimal(a as nat));
    assert(y.skip(head.len() as int) =~= text::decimal(b as nat));
    if x == y {
        lemma_decimal_apart(a as nat, b as nat);
    }
    reveal_strlit(".");
    assert(x.take(1 + name.len() as int) =~= seq!['.'] + name);
}

/// A name for the temporary file that is taken is followed by the next one, up to a hundred; then the
/// writing fails. Any other fault in making the file ends the writing at once.
pub proof fn law_a_hundred_names_are_tried(writer: WritingView, e: Seq<char>)
    ensures
        writer.attempt < 99 ==> writer.next(WriteReplyView::Created(CreationView::Exists)) == (
        WritingView { attempt: (writer.attempt + 1) as u32, ..writer }),
        writer.attempt >= 99 ==> (writer.next(WriteReplyView::Created(CreationView::Exists)).stage
            matches WriteStageView::End(r) && r is Err),
        writer.next(WriteReplyView::Created(CreationView::Failed(e))).stage matches
            WriteStageView::End(r) && r is Err,
        writer.next(WriteReplyView::Created(CreationView::Created)) == (WritingView {
            stage: WriteStageView::Write,
            ..writer
        }),
{
}

/// An executable is written to a temporary file, brought to the disk, made executable for everybody,
/// and only then moved into its place. A fault in any of these leads to the removal of the file, and
/// to an error whatever comes of that.
pub proof fn law_writing_goes_step_by_step(w: WritingView, e: Seq<char>)
    ensures
        ({
            let ok = WriteReplyView::Done(Ok(()));
            let bad = WriteReplyView::Done(Err(e));
            let temporary = w.temporary();
            &&& w.at(WriteStageView::Create).action() == WriteActionView::Create(temporary)
            &&& w.at(WriteStageView::Write).action() == (WriteActionView::Write {
                path: temporary,
                content: w.content,
            })
            &&& w.at(WriteStageView::Write).next(ok) == w.at(WriteStageView::Sync)
            &&& w.at(WriteStageView::Sync).action() == WriteActionView::Sync(temporary)
            &&& w.at(WriteStageView::Sync).next(ok) == w.at(WriteStageView::Mode)
            &&& w.at(WriteStageView::Mode).action() == (WriteActionView::SetMode {
                path: temporary,
                mode: 0o755,
            })
            &&& w.at(WriteStageView::Mode).next(ok) == w.at(WriteStageView::Rename)
            &&& w.at(WriteStageView::Rename).action() == (WriteActionView::Rename {
                from: temporary,
                to: w.path,
            })
            &&& w.at(WriteStageView::Rename).next(ok).action() == WriteActionView::Finish(Ok(()))
            &&& w.at(WriteStageView::Write).next(bad).action() == WriteActionView::Remove(temporary)
            &&& w.at(WriteStageView::Sync).next(bad).action() == WriteActionView::Remove(temporary)
            &&& w.at(WriteStageView::Mode).next(bad).action() == WriteActionView::Remove(temporary)
            &&& w.at(WriteStageView::Rename).next(bad).action() == WriteActionView::Remove(
                temporary,
            )
            &&& forall|r: Result<(), Seq<char>>|
                (#[trigger] w.at(WriteStageView::Write).next(bad).next(WriteReplyView::Done(r)))
                    .action() matches WriteActionView::Finish(x) && x is Err
        }),
{
}

/// A path made of a directory, a slash and a name leads to that directory and that name, where the
/// directory itself ends in a name.
pub proof fn law_place_of_a_path(dir: Seq<u8>, name: Seq<u8>)
    requires
        dir.len() > 0,
        dir.last() != 0x2f,
        dir.last() != 0x2e,
        name.len() > 0,
        !name.contains(0x2f),
        name != seq![0x2eu8],
        name != seq![0x2eu8, 0x2eu8],
    ensures
        path::place_of(dir + seq![0x2fu8] + name) == Some((dir, name)),
{
    let p = dir + seq![0x2fu8] + name;
    let lead = path::lead_len(p);
    assert(name.contains(name[0]));
    assert(path::tail_len(p, lead) == name.len()) by {
        path::lemma_tail_of_concat(dir + seq![0x2fu8], name, lead);
        assert((dir + seq![0x2fu8]) + name =~= p);
    }
    assert(p.skip(p.len() - name.len()) =~= name);
    assert(!(name.len() == 1 && p.last() == 0x2e)) by {
        if name.len() == 1 && p.last() == 0x2e {
            assert(name =~= seq![0x2eu8]);
        }
    }
    assert(path::without_empty_end(p, lead) == p);
    path::lemma_tail_len(p, lead);
    assert(path::without_tail(p, lead) =~= dir);
    assert(path::without_empty_end(dir, lead) == dir) by {
        if dir.len() > lead {
            path::lemma_tail_len(dir.drop_last(), lead);
            assert(path::tail_len(dir, lead) >= 1);
        }
    }
}

/// The temporary file for an executable stands in the directory of the executable.
pub proof fn law_temporary_file_is_next_to_the_executable(
    dir: Seq<u8>,
    name: Seq<u8>,
    content: Seq<char>,
    pid: u32,
)
    requires
        dir.len() > 0,
        dir.last() != 0x2f,
        dir.last() != 0x2e,
        name.len() > 0,
        !name.contains(0x2f),
        name != seq![0x2eu8],
        name != seq![0x2eu8, 0x2eu8],
    ensures
        ({
            let writer = WritingView::start(dir + seq![0x2fu8] + name, content, pid);
            &&& writer.action() is Create
            &&& writer.path == dir + seq![0x2fu8] + name
            &&& writer.content == content
            &&& writer.attempt == 0
            &&& writer.temporary() == dir + seq![0x2fu8] + vstd::utf8::encode_utf8(
                placement::temporary_name(files::shown(name), pid, 0),
            )
        }),
{
    law_place_of_a_path(dir, name);
    let t = placement::temporary_name(files::shown(name), pid, 0);
    let bytes = vstd::utf8::encode_utf8(t);
    reveal_strlit(".");
    assert(t[0] == '.');
    assert(bytes[0] == 0x2e) by {
        let c = t[0] as u32;
        assert(c == 0x2e);
        assert(0x2eu32 & 0x7f == 0x2e) by (bit_vector);
        assert(vstd::utf8::encode_scalar(c) =~= seq![0x2eu8]);
    }
    law_paths_are_joined_by_one_slash(dir, bytes);
}

} // verus!
