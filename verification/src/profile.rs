//! Workload profiles, and how a command line is matched to one.
use crate::{path, text};
use vstd::prelude::*;
use vstd::slice::slice_subrange;

verus! {

/// What kind of workload a command is.
#[derive(Clone, Copy, Debug, PartialEq, Eq, Structural)]
pub enum Profile {
    Auto,
    Vllm,
    LlamaCpp,
    Sglang,
    Trtllm,
    Tgi,
    Generic,
}

/// The profiles of inference engines.
pub open spec fn is_inference(p: Profile) -> bool {
    p is Vllm || p is LlamaCpp || p is Sglang || p is Trtllm || p is Tgi
}

/// The name of a profile.
pub open spec fn profile_text(p: Profile) -> Seq<char> {
    match p {
        Profile::Auto => "Auto"@,
        Profile::Vllm => "Vllm"@,
        Profile::LlamaCpp => "LlamaCpp"@,
        Profile::Sglang => "Sglang"@,
        Profile::Trtllm => "Trtllm"@,
        Profile::Tgi => "Tgi"@,
        Profile::Generic => "Generic"@,
    }
}

impl Profile {
    /// Whether the profile asks for a running earlyoom.
    pub fn requires_earlyoom(self) -> (r: bool)
        ensures
            r == is_inference(self),
    {
        matches!(
            self,
            Profile::Vllm | Profile::LlamaCpp | Profile::Sglang | Profile::Trtllm | Profile::Tgi
        )
    }

    /// The name of the profile.
    pub fn name(self) -> (r: String)
        ensures
            r@ == profile_text(self),
    {
        match self {
            Profile::Auto => "Auto".to_string(),
            Profile::Vllm => "Vllm".to_string(),
            Profile::LlamaCpp => "LlamaCpp".to_string(),
            Profile::Sglang => "Sglang".to_string(),
            Profile::Trtllm => "Trtllm".to_string(),
            Profile::Tgi => "Tgi".to_string(),
            Profile::Generic => "Generic".to_string(),
        }
    }
}

/// The name under which a program is known: the last name of its path, or the path where that
/// ends with none, without one ending `.real`.
pub open spec fn program_name(program: Seq<char>) -> Seq<char> {
    let name = match path::file_name(program) {
        Some(name) => name,
        None => program,
    };
    match text::strip_suffix(name, ".real"@) {
        Some(rest) => rest,
        None => name,
    }
}

/// `python`, with a version of digits and dots behind it if any.
pub open spec fn is_python(name: Seq<char>) -> bool {
    text::starts_with(name, "python"@) && forall|i: int|
        "python"@.len() <= i < name.len() ==> text::is_digit(#[trigger] name[i]) || name[i] == '.'
}

/// The module itself, or one below it.
pub open spec fn names_module(arg: Seq<char>, module: Seq<char>) -> bool {
    arg == module || text::starts_with(arg, module.push('.'))
}

/// Position `i` of a command line holds `-m`, and the next one the module.
pub open spec fn module_at(command: Seq<Seq<char>>, module: Seq<char>, i: int) -> bool {
    0 <= i && i + 1 < command.len() && command[i] == "-m"@ && names_module(command[i + 1], module)
}

/// Somewhere on a command line `-m` is followed by the module.
pub open spec fn runs_module(command: Seq<Seq<char>>, module: Seq<char>) -> bool {
    exists|i: int| module_at(command, module, i)
}

/// The profile of a command line, if it is known.
pub open spec fn detected(command: Seq<Seq<char>>) -> Option<Profile> {
    let name = program_name(command[0]);
    let python = is_python(name);
    if command.len() == 0 {
        None
    } else if name == "vllm"@ || name == "api_server"@ || name == "gpu_worker"@ || (python
        && runs_module(command, "vllm"@)) {
        Some(Profile::Vllm)
    } else if name == "llama-server"@ || name == "llama-cli"@ || name == "llama-bench"@ {
        Some(Profile::LlamaCpp)
    } else if name == "sglang"@ || (python && runs_module(command, "sglang"@)) {
        Some(Profile::Sglang)
    } else if name == "trtllm-serve"@ || text::contains(command[0], "TensorRT-LLM"@) {
        Some(Profile::Trtllm)
    } else if name == "text-generation-launcher"@ {
        Some(Profile::Tgi)
    } else {
        None
    }
}

/// The profile that applies: the chosen one, or for `Auto` the one that the command line shows.
pub open spec fn effective(profile: Profile, command: Seq<Seq<char>>) -> Profile {
    if !(profile is Auto) {
        profile
    } else {
        match detected(command) {
            Some(p) => p,
            None => Profile::Generic,
        }
    }
}

/// Whether a name is that of a Python interpreter.
pub fn is_python_executable(name: &str) -> (r: bool)
    ensures
        r == is_python(name@),
{
    let chars = text::to_chars(name);
    let prefix = text::to_chars("python");
    if !text::has_prefix(chars.as_slice(), prefix.as_slice()) {
        return false;
    }
    for i in prefix.len()..chars.len()
        invariant
            chars@ == name@,
            prefix@ == "python"@,
            text::starts_with(name@, "python"@),
            forall|j: int|
                "python"@.len() <= j < i ==> text::is_digit(#[trigger] name@[j]) || name@[j] == '.',
    {
        if !text::digit(chars[i]) && chars[i] != '.' {
            assert(!text::is_digit(name@[i as int]) && name@[i as int] != '.');
            return false;
        }
    }
    true
}

/// Whether a command line runs a module or one below it.
pub fn command_runs_module(command: &[String], module: &str) -> (r: bool)
    ensures
        r == runs_module(text::contents(command@), module@),
{
    let module_chars = text::to_chars(module);
    let mut below = text::to_chars(module);
    below.push('.');
    let ghost all = text::contents(command@);
    let mut i: usize = 0;
    while i < command.len()
        invariant
            all == text::contents(command@),
            module_chars@ == module@,
            below@ == module@.push('.'),
            i <= command.len(),
            forall|j: int| 0 <= j < i ==> !module_at(all, module@, j),
        decreases command.len() - i,
    {
        if i + 1 < command.len() {
            let flag = text::to_chars(command[i].as_str());
            let arg = text::to_chars(command[i + 1].as_str());
            proof {
                assert(all[i as int] == flag@);
                assert(all[i + 1] == arg@);
            }
            if text::spells(flag.as_slice(), "-m") && (text::same(
                arg.as_slice(),
                module_chars.as_slice(),
            ) || text::has_prefix(arg.as_slice(), below.as_slice())) {
                assert(module_at(all, module@, i as int));
                return true;
            }
        }
        i = i + 1;
    }
    false
}

/// The name under which a program is known.
fn known_name(program: &[char]) -> (r: Vec<char>)
    ensures
        r@ == program_name(program@),
{
    let name = match path::name_of(program) {
        Some(name) => name,
        None => text::copy_chars(program),
    };
    let suffix = text::to_chars(".real");
    if text::has_suffix(name.as_slice(), suffix.as_slice()) {
        let n = name.len() - suffix.len();
        let r = text::copy_chars(slice_subrange(name.as_slice(), 0, n));
        assert(r@ =~= name@.take(n as int));
        r
    } else {
        name
    }
}

/// The profile of a command line, if it is known.
pub fn detect_profile(command: &[String]) -> (r: Option<Profile>)
    ensures
        r == detected(text::contents(command@)),
{
    let ghost all = text::contents(command@);
    if command.len() == 0 {
        return None;
    }
    let first = text::to_chars(command[0].as_str());
    assert(all[0] == first@);
    let name = known_name(first.as_slice());
    let n = name.as_slice();
    let python = is_python_executable(text::from_chars(n).as_str());
    if text::spells(n, "vllm") || text::spells(n, "api_server") || text::spells(n, "gpu_worker")
        || (python && command_runs_module(command, "vllm")) {
        return Some(Profile::Vllm);
    }
    if text::spells(n, "llama-server") || text::spells(n, "llama-cli") || text::spells(
        n,
        "llama-bench",
    ) {
        return Some(Profile::LlamaCpp);
    }
    if text::spells(n, "sglang") || (python && command_runs_module(command, "sglang")) {
        return Some(Profile::Sglang);
    }
    if text::spells(n, "trtllm-serve") || text::find(
        first.as_slice(),
        text::to_chars("TensorRT-LLM").as_slice(),
    ) {
        return Some(Profile::Trtllm);
    }
    if text::spells(n, "text-generation-launcher") {
        return Some(Profile::Tgi);
    }
    None
}

/// The profile that applies.
pub fn effective_profile(profile: Profile, command: &[String]) -> (r: Profile)
    ensures
        r == effective(profile, text::contents(command@)),
{
    if profile != Profile::Auto {
        return profile;
    }
    match detect_profile(command) {
        Some(p) => p,
        None => Profile::Generic,
    }
}

/// The profile that applies is never `Auto`.
pub proof fn law_effective_profile_is_settled(profile: Profile, command: Seq<Seq<char>>)
    ensures
        !(effective(profile, command) is Auto),
{
}

/// A wrapped program keeps its name: the ending that marks the executable behind a wrapper is
/// ignored.
pub proof fn law_real_ending_keeps_name(program: Seq<char>)
    requires
        path::ends_with_name(program),
        !text::ends_with(path::last_part(program), ".real"@),
    ensures
        program_name(program + ".real"@) == program_name(program),
{
    reveal_strlit(".real");
    let name = path::last_part(program);
    path::lemma_name_is_last_part(program);
    path::lemma_last_part_grows(program, ".real"@);
    let grown = name + ".real"@;
    assert(grown.skip(grown.len() - 5) =~= ".real"@);
    assert(grown.take(grown.len() - 5) =~= name);
    reveal_strlit(".");
    reveal_strlit("..");
    reveal_strlit("");
    path::lemma_name_is_last_part(program + ".real"@);
}

/// A wrapped program keeps its profile.
pub proof fn law_real_ending_keeps_profile(program: Seq<char>, args: Seq<Seq<char>>)
    requires
        path::ends_with_name(program),
        !text::ends_with(path::last_part(program), ".real"@),
    ensures
        detected(seq![program + ".real"@] + args) == detected(seq![program] + args),
{
    let a = seq![program] + args;
    let b = seq![program + ".real"@] + args;
    let name = program_name(program);
    law_real_ending_keeps_name(program);
    reveal_strlit(".real");
    reveal_strlit("TensorRT-LLM");
    reveal_strlit("-m");
    reveal_strlit("python");
    let mark = "TensorRT-LLM"@;
    let long = program + ".real"@;
    if text::contains(program, mark) {
        let i = choose|i: int| text::occurs_at(program, mark, i);
        assert(long.subrange(i, i + 12) =~= program.subrange(i, i + 12));
        assert(text::occurs_at(long, mark, i));
    }
    if text::contains(long, mark) {
        let i = choose|i: int| text::occurs_at(long, mark, i);
        if i + 12 > program.len() {
            if i <= program.len() {
                assert(long[program.len() as int] == '.');
                assert(long.subrange(i, i + 12)[program.len() - i] == '.');
            }
            assert(false);
        }
        assert(long.subrange(i, i + 12) =~= program.subrange(i, i + 12));
        assert(text::occurs_at(program, mark, i));
    }
    if is_python(name) {
        assert(program != "-m"@) by {
            if program == "-m"@ {
                lemma_dash_m_is_no_python();
            }
        }
        assert(long != "-m"@) by {
            assert(long.last() == 'l');
        }
        assert forall|module: Seq<char>| runs_module(a, module) == runs_module(b, module) by {
            assert forall|i: int| module_at(a, module, i) == module_at(b, module, i) by {
                if i == 0 {
                    assert(a[0] == program && b[0] == long);
                } else if 0 < i && i + 1 < a.len() {
                    assert(a[i] == b[i] && a[i + 1] == b[i + 1]);
                }
            }
            if runs_module(a, module) {
                let i = choose|i: int| module_at(a, module, i);
                assert(module_at(b, module, i));
            }
            if runs_module(b, module) {
                let i = choose|i: int| module_at(b, module, i);
                assert(module_at(a, module, i));
            }
        }
    }
}

proof fn lemma_dash_m_is_no_python()
    ensures
        !is_python(program_name("-m"@)),
{
    reveal_strlit("-m");
    reveal_strlit("python");
    reveal_strlit(".real");
    reveal_strlit("");
    reveal_strlit(".");
    reveal_strlit("..");
    text::lemma_len_before("-m"@, '/');
    assert(path::last_part("-m"@) == "-m"@);
    assert("-m"@[0] == '-');
    path::lemma_name_is_last_part("-m"@);
}

/// An inference profile that was chosen or detected asks for earlyoom; the generic one does not.
pub proof fn law_requirement_follows_profile(profile: Profile, command: Seq<Seq<char>>)
    ensures
        profile is Generic ==> !is_inference(effective(profile, command)),
        is_inference(profile) ==> is_inference(effective(profile, command)),
        profile is Auto && detected(command) is Some ==> is_inference(effective(profile, command)),
        profile is Auto && detected(command) is None ==> effective(profile, command) is Generic,
{
}

} // verus!
