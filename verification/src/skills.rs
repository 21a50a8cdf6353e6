//! The skill that the program carries: whether it is asked for, and where its files are put.
use crate::{files, path, text};
use vstd::prelude::*;
use vstd::string::*;

verus! {

/// The name of the skill.
pub const SKILL_ID: &'static str = "memory-safe-launch";

/// Whether the skill is asked for: one of the arguments says so.
pub open spec fn asks_for_skill(args: Seq<Vec<u8>>) -> bool {
    exists|i: int|
        0 <= i < args.len() && (#[trigger] args[i])@ == vstd::utf8::encode_utf8("--skill"@)
}

fn same_bytes(a: &[u8], b: &[u8]) -> (r: bool)
    ensures
        r == (a@ == b@),
{
    if a.len() != b.len() {
        return false;
    }
    for i in 0..a.len()
        invariant
            a.len() == b.len(),
            forall|j: int| 0 <= j < i ==> a[j] == b[j],
    {
        if a[i] != b[i] {
            return false;
        }
    }
    assert(a@ =~= b@);
    true
}

/// Whether the skill is asked for.
pub fn skill_requested(args: &[Vec<u8>]) -> (r: bool)
    ensures
        r == asks_for_skill(args@),
{
    for i in 0..args.len()
        invariant
            forall|j: int| 0 <= j < i ==> args[j]@ != vstd::utf8::encode_utf8("--skill"@),
    {
        if same_bytes(args[i].as_slice(), "--skill".as_bytes()) {
            return true;
        }
    }
    false
}

/// Below a temporary directory, the one that holds skills.
pub open spec fn root_below(temp_dir: Seq<u8>) -> Seq<u8> {
    path::joined(temp_dir, vstd::utf8::encode_utf8(".agents/skills"@))
}

/// Below a directory that holds skills, the place of a file of this one.
pub open spec fn place_below(root: Seq<u8>, relative: Seq<char>) -> Seq<u8> {
    path::joined(
        path::joined(root, vstd::utf8::encode_utf8(SKILL_ID@)),
        vstd::utf8::encode_utf8(relative),
    )
}

/// Below a temporary directory, the one that holds skills.
pub fn skills_root(temp_dir: &[u8]) -> (r: Vec<u8>)
    ensures
        r@ == root_below(temp_dir@),
{
    path::join(temp_dir, ".agents/skills".as_bytes())
}

/// A file to be written, and the directory that it is in.
#[derive(Debug, PartialEq, Eq)]
pub struct SkillFile {
    pub dir: Vec<u8>,
    pub path: Vec<u8>,
}

/// Where a file of the skill is to be put, below a directory that holds skills.
pub fn skill_file(root: &[u8], relative: &str) -> (r: Result<SkillFile, String>)
    ensures
        match r {
            Ok(file) => file.path@ == place_below(root@, relative@) && (path::place_of(
                file.path@,
            ) matches Some((dir, _)) && file.dir@ == dir),
            Err(e) => path::place_of(place_below(root@, relative@)) is None && e@
                == "embedded skill file has no parent directory"@,
        },
{
    let skill = path::join(root, SKILL_ID.as_bytes());
    let path = path::join(skill.as_slice(), relative.as_bytes());
    match path::split_place(path.as_slice()) {
        Some((dir, _)) => Ok(SkillFile { dir, path }),
        None => Err("embedded skill file has no parent directory".to_string()),
    }
}

/// The words for a failure to put the files of the skill in their places.
pub fn skill_failure(error: &str) -> (r: String)
    ensures
        r@ == "error: failed to prepare embedded skills: "@ + error@,
{
    text::concat("error: failed to prepare embedded skills: ", error)
}

/// The words for a directory that could not be made, or for a file that could not be written.
pub fn skill_file_failure(file: &SkillFile, made_directory: bool, cause: &str) -> (r: String)
    ensures
        r@ == if made_directory {
            files::about_fault("write embedded skill file "@, file.path@, cause@)
        } else {
            files::about_fault("create embedded skill directory "@, file.dir@, cause@)
        },
{
    if made_directory {
        files::line_about_fault("write embedded skill file ", file.path.as_slice(), cause)
    } else {
        files::line_about_fault("create embedded skill directory ", file.dir.as_slice(), cause)
    }
}

/// The skill is asked for exactly where one of the arguments is `--skill`, whatever stands before and
/// behind it.
pub proof fn law_skill_is_asked_for_anywhere(before: Seq<Vec<u8>>, arg: Vec<u8>, behind: Seq<Vec<u8>>)
    requires
        arg@ == vstd::utf8::encode_utf8(seq!['-', '-', 's', 'k', 'i', 'l', 'l']),
    ensures
        asks_for_skill(before + seq![arg] + behind),
{
    let args = before + seq![arg] + behind;
    reveal_strlit("--skill");
    assert("--skill"@ =~= seq!['-', '-', 's', 'k', 'i', 'l', 'l']);
    assert(args[before.len() as int] == arg);
}

} // verus!
