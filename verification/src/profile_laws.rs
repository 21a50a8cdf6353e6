//! Which command lines are taken for which inference engine.
use crate::profile::{self, Profile};
use crate::{path, text};
use vstd::prelude::*;

verus! {

/// Whether a text can stand before the name of a program: a path that ends with a slash, or nothing.
pub open spec fn is_lead(dir: Seq<char>) -> bool {
    dir.len() == 0 || dir.last() == '/'
}

proof fn lemma_lead_has_no_last_part(dir: Seq<char>)
    requires
        is_lead(dir),
    ensures
        path::last_part(dir) == Seq::<char>::empty(),
    decreases dir.len(),
{
    let n = text::len_before(dir, '/');
    text::lemma_len_before(dir, '/');
    if dir.len() == 0 {
        assert(text::split(dir, '/') =~= seq![dir]);
        assert(dir =~= Seq::empty());
    } else {
        assert(n < dir.len()) by {
            if n >= dir.len() {
                assert(dir[dir.len() - 1] == '/');
            }
        }
        let rest = dir.skip(n as int + 1);
        if rest.len() > 0 {
            assert(rest.last() == dir.last());
        }
        lemma_lead_has_no_last_part(rest);
        path::lemma_split_some(rest, '/');
        let parts = text::split(rest, '/');
        assert(text::split(dir, '/') =~= seq![dir.take(n as int)] + parts);
        assert(text::split(dir, '/').last() == parts.last());
    }
}

/// The name of what is at a path is what stands behind the last slash.
pub proof fn law_path_ends_in_its_name(dir: Seq<char>, name: Seq<char>)
    requires
        is_lead(dir),
        name.len() > 0,
        !name.contains('/'),
        name != seq!['.'],
        name != seq!['.', '.'],
    ensures
        path::file_name(dir + name) == Some(name),
{
    reveal_strlit("");
    reveal_strlit(".");
    reveal_strlit("..");
    assert("."@ =~= seq!['.']);
    assert(".."@ =~= seq!['.', '.']);
    lemma_lead_has_no_last_part(dir);
    path::lemma_last_part_grows(dir, name);
    assert(path::last_part(dir + name) =~= name);
    path::lemma_name_is_last_part(dir + name);
}

/// A program goes by its name, wherever it is, and whether or not it is the executable behind a
/// wrapper.
pub proof fn law_program_goes_by_its_name(dir: Seq<char>, name: Seq<char>)
    requires
        is_lead(dir),
        name.len() > 0,
        !name.contains('/'),
        name != seq!['.'],
        name != seq!['.', '.'],
        !text::ends_with(name, seq!['.', 'r', 'e', 'a', 'l']),
    ensures
        profile::program_name(dir + name) == name,
        profile::program_name(dir + name + seq!['.', 'r', 'e', 'a', 'l']) == name,
{
    reveal_strlit("");
    reveal_strlit(".");
    reveal_strlit("..");
    reveal_strlit(".real");
    assert(".real"@ =~= seq!['.', 'r', 'e', 'a', 'l']);
    assert("."@ =~= seq!['.']);
    assert(".."@ =~= seq!['.', '.']);
    lemma_lead_has_no_last_part(dir);
    path::lemma_last_part_grows(dir, name);
    assert(path::last_part(dir + name) =~= name);
    path::lemma_name_is_last_part(dir + name);
    profile::law_real_ending_keeps_name(dir + name);
}

/// The engine that a program of the given name belongs to.
pub open spec fn engine_names(p: Profile) -> Seq<Seq<char>> {
    match p {
        Profile::Vllm => seq!["vllm"@, "api_server"@, "gpu_worker"@],
        Profile::LlamaCpp => seq!["llama-server"@, "llama-cli"@, "llama-bench"@],
        Profile::Sglang => seq!["sglang"@],
        Profile::Trtllm => seq!["trtllm-serve"@],
        Profile::Tgi => seq!["text-generation-launcher"@],
        _ => Seq::empty(),
    }
}

proof fn lemma_names()
    ensures
        forall|p: Profile, i: int|
            0 <= i < engine_names(p).len() ==> {
                let n = #[trigger] engine_names(p)[i];
                &&& n.len() > 0
                &&& !n.contains('/')
                &&& n[0] != '.'
                &&& !text::ends_with(n, seq!['.', 'r', 'e', 'a', 'l'])
                &&& !text::starts_with(n, "python"@)
            },
        forall|p: Profile, q: Profile, i: int, j: int|
            0 <= i < engine_names(p).len() && 0 <= j < engine_names(q).len() && #[trigger]
                engine_names(p)[i] == #[trigger] engine_names(q)[j] ==> p == q,
{
    reveal_strlit("vllm");
    reveal_strlit("api_server");
    reveal_strlit("gpu_worker");
    reveal_strlit("llama-server");
    reveal_strlit("llama-cli");
    reveal_strlit("llama-bench");
    reveal_strlit("sglang");
    reveal_strlit("trtllm-serve");
    reveal_strlit("text-generation-launcher");
    reveal_strlit("python");
    let ending = seq!['.', 'r', 'e', 'a', 'l'];
    assert forall|p: Profile, i: int| 0 <= i < engine_names(p).len() implies {
        let n = #[trigger] engine_names(p)[i];
        &&& n.len() > 0
        &&& !n.contains('/')
        &&& n[0] != '.'
        &&& !text::ends_with(n, ending)
        &&& !text::starts_with(n, "python"@)
    } by {
        let n = engine_names(p)[i];
        assert(n[0] == 'v' || n[0] == 'a' || n[0] == 'g' || n[0] == 'l' || n[0] == 's' || n[0] == 't');
        if text::starts_with(n, "python"@) {
            assert(n.take(6)[0] == 'p');
        }
        assert(n.last() == 'm' || n.last() == 'r' || n.last() == 'i' || n.last() == 'h' || n.last()
            == 'g' || n.last() == 'e');
        if text::ends_with(n, ending) {
            assert(n.skip(n.len() - 5).last() == 'l');
        }
    }
    assert forall|p: Profile, q: Profile, i: int, j: int|
        0 <= i < engine_names(p).len() && 0 <= j < engine_names(q).len() && #[trigger]
            engine_names(p)[i] == #[trigger] engine_names(q)[j] implies p == q by {
        let n = engine_names(p)[i];
        assert(n[0] == engine_names(q)[j][0]);
        assert(n[1] == engine_names(q)[j][1]);
    }
}

/// A program with the name of an engine is taken for that engine, wherever it is and whatever its
/// arguments are. Only the launcher of `Tgi` gives way to a path that mentions `TensorRT-LLM`.
pub proof fn law_engines_go_by_their_names(
    p: Profile,
    i: int,
    dir: Seq<char>,
    args: Seq<Seq<char>>,
)
    requires
        is_lead(dir),
        0 <= i < engine_names(p).len(),
        p is Tgi ==> !text::contains(dir + engine_names(p)[i], "TensorRT-LLM"@),
    ensures
        profile::detected(seq![dir + engine_names(p)[i]] + args) == Some(p),
{
    let name = engine_names(p)[i];
    let command = seq![dir + name] + args;
    lemma_names();
    law_program_goes_by_its_name(dir, name);
    assert(command[0] == dir + name);
    assert(!profile::is_python(name));
    lemma_is_engine(name, p, i);
}

/// A name of an engine is none of another.
proof fn lemma_is_engine(name: Seq<char>, p: Profile, i: int)
    requires
        0 <= i < engine_names(p).len(),
        name == engine_names(p)[i],
    ensures
        (name == "vllm"@ || name == "api_server"@ || name == "gpu_worker"@) == (p is Vllm),
        (name == "llama-server"@ || name == "llama-cli"@ || name == "llama-bench"@) == (p
            is LlamaCpp),
        (name == "sglang"@) == (p is Sglang),
        (name == "trtllm-serve"@) == (p is Trtllm),
        (name == "text-generation-launcher"@) == (p is Tgi),
{
    lemma_names();
    let v = engine_names(Profile::Vllm);
    let l = engine_names(Profile::LlamaCpp);
    let s = engine_names(Profile::Sglang);
    let r = engine_names(Profile::Trtllm);
    let t = engine_names(Profile::Tgi);
    assert(v[0] == "vllm"@ && v[1] == "api_server"@ && v[2] == "gpu_worker"@);
    assert(l[0] == "llama-server"@ && l[1] == "llama-cli"@ && l[2] == "llama-bench"@);
    assert(s[0] == "sglang"@ && r[0] == "trtllm-serve"@ && t[0] == "text-generation-launcher"@);
}

/// Whether `-m` stands on a command line at a position, with a module behind it: that of the given
/// name, or one below it.
pub open spec fn has_module(command: Seq<Seq<char>>, module: Seq<char>, i: int) -> bool {
    &&& 0 <= i < command.len() - 1
    &&& command[i] == seq!['-', 'm']
    &&& command[i + 1] == module || exists|rest: Seq<char>|
        command[i + 1] == #[trigger] (module + seq!['.'] + rest)
}

proof fn lemma_has_module(command: Seq<Seq<char>>, module: Seq<char>, i: int)
    ensures
        has_module(command, module, i) == profile::module_at(command, module, i),
{
    reveal_strlit("-m");
    assert("-m"@ =~= seq!['-', 'm']);
    if 0 <= i < command.len() - 1 {
        let arg = command[i + 1];
        let below = module.push('.');
        if text::starts_with(arg, below) {
            let rest = arg.skip(below.len() as int);
            assert(arg =~= arg.take(below.len() as int) + rest);
            assert(below =~= module + seq!['.']);
            assert(arg == module + seq!['.'] + rest);
        }
        if exists|rest: Seq<char>| arg == #[trigger] (module + seq!['.'] + rest) {
            let rest = choose|rest: Seq<char>| arg == #[trigger] (module + seq!['.'] + rest);
            assert(arg.take(below.len() as int) =~= below);
        }
    }
}

/// A module that stands on a command line is found, whatever stands before and behind it.
pub proof fn law_modules_are_found_anywhere(
    before: Seq<Seq<char>>,
    command: Seq<Seq<char>>,
    more: Seq<Seq<char>>,
    module: Seq<char>,
    i: int,
)
    requires
        has_module(command, module, i),
    ensures
        profile::runs_module(before + command + more, module),
{
    let all = before + command + more;
    assert(all[before.len() + i] == command[i] && all[before.len() + i + 1] == command[i + 1]);
    assert(has_module(all, module, before.len() + i));
    lemma_has_module(all, module, before.len() + i);
}

/// A module is found only where it stands.
pub proof fn law_only_modules_are_found(command: Seq<Seq<char>>, module: Seq<char>)
    requires
        profile::runs_module(command, module),
    ensures
        exists|i: int| has_module(command, module, i),
{
    let i = choose|i: int| profile::module_at(command, module, i);
    lemma_has_module(command, module, i);
}

/// Whether a program is a Python interpreter: `python`, with a version of digits and dots if any.
pub open spec fn is_interpreter(name: Seq<char>) -> bool {
    &&& name.len() >= 6
    &&& name.take(6) == seq!['p', 'y', 't', 'h', 'o', 'n']
    &&& forall|i: int|
        6 <= i < name.len() ==> ('0' <= #[trigger] name[i] && name[i] <= '9') || name[i] == '.'
}

proof fn lemma_interpreter(name: Seq<char>)
    ensures
        is_interpreter(name) == profile::is_python(name),
        forall|p: Profile, i: int|
            is_interpreter(name) && 0 <= i < engine_names(p).len() ==> name != #[trigger]
                engine_names(p)[i],
{
    reveal_strlit("python");
    assert("python"@ =~= seq!['p', 'y', 't', 'h', 'o', 'n']);
    lemma_names();
}

proof fn lemma_no_engine(name: Seq<char>)
    requires
        forall|p: Profile, i: int|
            0 <= i < engine_names(p).len() ==> name != #[trigger] engine_names(p)[i],
    ensures
        name != "vllm"@ && name != "api_server"@ && name != "gpu_worker"@,
        name != "llama-server"@ && name != "llama-cli"@ && name != "llama-bench"@,
        name != "sglang"@ && name != "trtllm-serve"@ && name != "text-generation-launcher"@,
{
    let v = engine_names(Profile::Vllm);
    let l = engine_names(Profile::LlamaCpp);
    let s = engine_names(Profile::Sglang);
    let r = engine_names(Profile::Trtllm);
    let t = engine_names(Profile::Tgi);
    assert(v[0] == "vllm"@ && v[1] == "api_server"@ && v[2] == "gpu_worker"@);
    assert(l[0] == "llama-server"@ && l[1] == "llama-cli"@ && l[2] == "llama-bench"@);
    assert(s[0] == "sglang"@ && r[0] == "trtllm-serve"@ && t[0] == "text-generation-launcher"@);
}

proof fn lemma_found(command: Seq<Seq<char>>, module: Seq<char>)
    ensures
        profile::runs_module(command, module) == exists|i: int| has_module(command, module, i),
{
    if exists|i: int| has_module(command, module, i) {
        let i = choose|i: int| has_module(command, module, i);
        lemma_has_module(command, module, i);
    }
    if profile::runs_module(command, module) {
        law_only_modules_are_found(command, module);
    }
}

/// A command line whose program has no name of an engine is taken for `Vllm` where a Python
/// interpreter runs the module `vllm`, or one below it; else for `Sglang` where it runs `sglang`;
/// else for `Trtllm` where the path of the program mentions `TensorRT-LLM`; and else for none.
pub proof fn law_other_programs_go_by_their_modules(
    dir: Seq<char>,
    name: Seq<char>,
    args: Seq<Seq<char>>,
)
    requires
        is_lead(dir),
        name.len() > 0,
        !name.contains('/'),
        name != seq!['.'],
        name != seq!['.', '.'],
        !text::ends_with(name, seq!['.', 'r', 'e', 'a', 'l']),
        forall|p: Profile, i: int|
            0 <= i < engine_names(p).len() ==> name != #[trigger] engine_names(p)[i],
    ensures
        ({
            let command = seq![dir + name] + args;
            profile::detected(command) == if is_interpreter(name) && (exists|i: int|
                has_module(command, "vllm"@, i)) {
                Some(Profile::Vllm)
            } else if is_interpreter(name) && (exists|i: int| has_module(command, "sglang"@, i)) {
                Some(Profile::Sglang)
            } else if text::contains(dir + name, "TensorRT-LLM"@) {
                Some(Profile::Trtllm)
            } else {
                None
            }
        }),
{
    let command = seq![dir + name] + args;
    law_program_goes_by_its_name(dir, name);
    assert(command[0] == dir + name);
    lemma_interpreter(name);
    lemma_no_engine(name);
    lemma_found(command, "vllm"@);
    lemma_found(command, "sglang"@);
}

/// No command line, no engine.
pub proof fn law_nothing_is_no_engine()
    ensures
        profile::detected(Seq::empty()) is None,
{
}

/// The profile that was chosen applies; for `Auto` the one that was detected, or `Generic`. The
/// five profiles of inference engines need `earlyoom`, and no other does.
pub proof fn law_profile_decides_on_earlyoom(chosen: Profile, command: Seq<Seq<char>>)
    ensures
        chosen != Profile::Auto ==> profile::effective(chosen, command) == chosen,
        chosen == Profile::Auto ==> profile::effective(chosen, command) == (
        if profile::detected(command) is Some {
            profile::detected(command)->0
        } else {
            Profile::Generic
        }),
        forall|p: Profile| #[trigger]
            profile::is_inference(p) == (p != Profile::Auto && p != Profile::Generic),
{
}

} // verus!
