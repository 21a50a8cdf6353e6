//! Shims and wrappers: the scripts that put the guard in front of a tool.
use crate::{path, text};
use vstd::prelude::*;
use vstd::string::*;

verus! {

/// The line that marks a shim on the search path.
pub const PATH_SHIM_MARKER: &'static str = "oomwrap managed path shim";

/// The line that marks a wrapper in place of an executable.
pub const ABSOLUTE_WRAPPER_MARKER: &'static str = "oomwrap managed absolute wrapper";

/// The part of a shim that looks for the executable behind it.
pub const SHIM_SEARCH: &'static str = r#"
oomwrap="${OOMWRAP_BIN:-$default_oomwrap}"
min_mem="${OOMWRAP_MIN_MEM:-$default_min_mem}"
min_swap="${OOMWRAP_MIN_SWAP:-$default_min_swap}"
profile="${OOMWRAP_PROFILE:-auto}"
real="${!real_env:-}"

if [[ -z "$real" ]]; then
  shim_dir="$(cd "$(dirname "${BASH_SOURCE[0]}")" && pwd)"
  IFS=: read -r -a path_parts <<< "$PATH"
  for dir in "${path_parts[@]}"; do
    [[ -z "$dir" ]] && dir="."
    [[ "$dir" == "$shim_dir" ]] && continue
    candidate="$dir/$tool"
    [[ -x "$candidate" && ! -d "$candidate" ]] || continue
    if grep -q ""#;

/// The part of a shim that runs the executable under the guard.
pub const SHIM_RUN: &'static str = r#"" "$candidate" 2>/dev/null; then
      continue
    fi
    real="$candidate"
    break
  done
fi

if [[ -z "$real" ]]; then
  echo "oomwrap: could not resolve real executable for $tool" >&2
  echo "set $real_env=/path/to/$tool or put the real binary later in PATH" >&2
  exit 127
fi

args=(run --profile "$profile" --min-mem "$min_mem" --min-swap "$min_swap")
if [[ "${OOMWRAP_ALLOW_NO_EARLYOOM:-}" == "1" ]]; then
  args+=(--allow-no-earlyoom)
fi
if [[ -n "${OOMWRAP_EVENT_LOG:-}" ]]; then
  args+=(--event-log "$OOMWRAP_EVENT_LOG")
fi

exec "$oomwrap" "${args[@]}" -- "$real" "$@"
"#;

/// The part of a wrapper that runs the executable under the guard.
pub const WRAPPER_RUN: &'static str = r#"
oomwrap="${OOMWRAP_BIN:-$default_oomwrap}"
min_mem="${OOMWRAP_MIN_MEM:-$default_min_mem}"
min_swap="${OOMWRAP_MIN_SWAP:-$default_min_swap}"
profile="${OOMWRAP_PROFILE:-auto}"
real="$(readlink -f "${BASH_SOURCE[0]}").real"

args=(run --profile "$profile" --min-mem "$min_mem" --min-swap "$min_swap")
if [[ "${OOMWRAP_ALLOW_NO_EARLYOOM:-}" == "1" ]]; then
  args+=(--allow-no-earlyoom)
fi
if [[ -n "${OOMWRAP_EVENT_LOG:-}" ]]; then
  args+=(--event-log "$OOMWRAP_EVENT_LOG")
fi

exec "$oomwrap" "${args[@]}" -- "$real" "$@"
"#;

/// The tools that get a shim when none is named.
pub open spec fn default_tool_names() -> Seq<Seq<char>> {
    seq![
        "vllm"@,
        "llama-server"@,
        "llama-cli"@,
        "llama-bench"@,
        "sglang"@,
        "trtllm-serve"@,
        "text-generation-launcher"@,
    ]
}

/// The tools that get a shim when none is named.
pub fn default_tools() -> (r: Vec<String>)
    ensures
        text::contents(r@) == default_tool_names(),
{
    let mut r: Vec<String> = Vec::new();
    r.push("vllm".to_string());
    r.push("llama-server".to_string());
    r.push("llama-cli".to_string());
    r.push("llama-bench".to_string());
    r.push("sglang".to_string());
    r.push("trtllm-serve".to_string());
    r.push("text-generation-launcher".to_string());
    assert(text::contents(r@) =~= default_tool_names());
    r
}

/// The tools to work on: those named, or the default ones where none is.
pub open spec fn tools_to_use(tools: Seq<Seq<char>>) -> Seq<Seq<char>> {
    if tools.len() == 0 {
        default_tool_names()
    } else {
        tools
    }
}

/// The tools to work on.
pub fn selected_tools(tools: &[String]) -> (r: Vec<String>)
    ensures
        text::contents(r@) == tools_to_use(text::contents(tools@)),
{
    if tools.len() == 0 {
        return default_tools();
    }
    text::copy_strings(tools)
}

/// Whether a text is the bare name of an executable: a path of one component, which is that name.
pub open spec fn is_tool_name(tool: Seq<char>) -> bool {
    &&& tool.len() > 0
    &&& !path::is_absolute(tool)
    &&& path::components(tool).len() == 1
    &&& path::file_name(tool) == Some(tool)
}

/// A text that is no bare name of an executable.
#[derive(Debug, PartialEq, Eq)]
pub struct ToolNameError {
    pub tool: String,
}

/// The words for a text that is no bare name of an executable.
pub open spec fn tool_name_text(tool: Seq<char>) -> Seq<char> {
    "tool name must be a bare executable name: "@ + tool
}

impl ToolNameError {
    /// The words for the fault.
    pub fn message(&self) -> (r: String)
        ensures
            r@ == tool_name_text(self.tool@),
    {
        let mut r = "tool name must be a bare executable name: ".to_string();
        r.append(self.tool.as_str());
        r
    }
}

/// Checks that a text is the bare name of an executable.
pub fn validate_tool_name(tool: &str) -> (r: Result<(), ToolNameError>)
    ensures
        match r {
            Ok(_) => is_tool_name(tool@),
            Err(e) => !is_tool_name(tool@) && e.tool@ == tool@,
        },
{
    let chars = text::to_chars(tool);
    let parts = path::split_components(chars.as_slice());
    assert(path::parts_view(parts@).len() == parts.len());
    if chars.len() == 0 || chars[0] == '/' || parts.len() != 1 {
        return Err(ToolNameError { tool: tool.to_string() });
    }
    match path::name_of(chars.as_slice()) {
        Some(name) => if text::same(name.as_slice(), chars.as_slice()) {
            Ok(())
        } else {
            Err(ToolNameError { tool: tool.to_string() })
        },
        None => Err(ToolNameError { tool: tool.to_string() }),
    }
}

/// The bare names are the texts without a slash, other than the empty one and the two that stand
/// for directories.
pub proof fn law_tool_names(tool: Seq<char>)
    ensures
        is_tool_name(tool) <==> tool != ""@ && tool != "."@ && tool != ".."@ && !tool.contains('/'),
{
    reveal_strlit("");
    reveal_strlit(".");
    reveal_strlit("..");
    text::lemma_len_before(tool, '/');
    if tool == ""@ {
        assert(tool.len() == 0);
    }
    if tool.len() == 0 {
        assert(tool =~= ""@);
    }
    if !tool.contains('/') {
        let n = text::len_before(tool, '/');
        if n < tool.len() {
            assert(tool.contains(tool[n as int]));
        }
        if tool.len() > 0 {
            assert(tool.contains(tool[0]));
        }
        let parts = text::split(tool, '/');
        assert(parts =~= seq![tool]);
        assert(path::components_of(parts.drop_last()) =~= Seq::<path::Component>::empty());
        assert(path::components(tool) =~= path::component_of(tool, true));
    } else if is_tool_name(tool) {
        path::lemma_name_is_a_part(tool);
        path::lemma_parts_without_separator(tool, '/');
    }
}

/// A character of the name of an environment variable.
pub open spec fn env_char(c: char) -> char {
    if text::is_digit(c) || ('a' <= c && c <= 'z') || ('A' <= c && c <= 'Z') {
        text::upper(c)
    } else {
        '_'
    }
}

/// A tool name as part of the name of an environment variable: letters made capital, and an
/// underscore for everything but letters and digits.
pub open spec fn env_name(tool: Seq<char>) -> Seq<char> {
    Seq::new(tool.len(), |i: int| env_char(tool[i]))
}

/// A tool name as part of the name of an environment variable.
pub fn env_suffix(tool: &str) -> (r: String)
    ensures
        r@ == env_name(tool@),
{
    let chars = text::to_chars(tool);
    let mut r = String::new();
    for i in 0..chars.len()
        invariant
            chars@ == tool@,
            r@ == env_name(tool@).take(i as int),
    {
        let c = chars[i];
        if text::digit(c) || ('a' <= c && c <= 'z') || ('A' <= c && c <= 'Z') {
            r.push(text::upper_char(c));
        } else {
            r.push('_');
        }
    }
    assert(env_name(tool@).take(tool@.len() as int) =~= env_name(tool@));
    r
}

/// The name made from a tool holds only capital letters, digits and underscores.
pub proof fn law_env_name_is_plain(tool: Seq<char>, i: int)
    requires
        0 <= i < tool.len(),
    ensures
        env_name(tool).len() == tool.len(),
        ({
            let c = env_name(tool)[i];
            text::is_digit(c) || c == '_' || ('A' <= c && c <= 'Z')
        }),
{
}

/// A text between single quotes, with every single quote in it taken out of the quotes.
pub open spec fn quoted_body(value: Seq<char>) -> Seq<char>
    decreases value.len(),
{
    if value.len() == 0 {
        Seq::empty()
    } else {
        (if value.first() == '\'' {
            "'\\''"@
        } else {
            seq![value.first()]
        }) + quoted_body(value.drop_first())
    }
}

/// A text as one word of the shell.
pub open spec fn shell_word(value: Seq<char>) -> Seq<char> {
    "'"@ + quoted_body(value) + "'"@
}

/// A text as one word of the shell.
pub fn sh_quote(value: &str) -> (r: String)
    ensures
        r@ == shell_word(value@),
{
    let chars = text::to_chars(value);
    let mut r = "'".to_string();
    assert(value@.skip(0) =~= value@);
    for i in 0..chars.len()
        invariant
            chars@ == value@,
            r@ + quoted_body(value@.skip(i as int)) == "'"@ + quoted_body(value@),
    {
        let ghost before = r@;
        let ghost rest = value@.skip(i as int);
        assert(rest.drop_first() =~= value@.skip(i + 1));
        if chars[i] == '\'' {
            r.append("'\\''");
            assert(before + quoted_body(rest) =~= r@ + quoted_body(value@.skip(i + 1)));
        } else {
            r.push(chars[i]);
            assert(before + quoted_body(rest) =~= r@ + quoted_body(value@.skip(i + 1)));
        }
    }
    assert(value@.skip(chars.len() as int) =~= Seq::<char>::empty());
    assert(r@ =~= "'"@ + quoted_body(value@));
    r.append("'");
    r
}

/// How a shell reads a word of single-quoted parts and escaped characters: everything between
/// single quotes stands for itself, and outside of them a backslash makes the next character stand
/// for itself. Nothing is said of words that hold anything else outside of quotes.
pub open spec fn read_by_shell(s: Seq<char>, in_quotes: bool) -> Option<Seq<char>>
    decreases s.len(),
{
    if s.len() == 0 {
        if in_quotes {
            None
        } else {
            Some(Seq::empty())
        }
    } else if s[0] == '\'' {
        read_by_shell(s.drop_first(), !in_quotes)
    } else if in_quotes {
        match read_by_shell(s.drop_first(), true) {
            Some(rest) => Some(seq![s[0]] + rest),
            None => None,
        }
    } else if s[0] == '\\' && s.len() >= 2 && s[1] != '\n' {
        match read_by_shell(s.skip(2), false) {
            Some(rest) => Some(seq![s[1]] + rest),
            None => None,
        }
    } else {
        None
    }
}

/// The shell reads a quoted text as that text, whatever it holds.
pub proof fn law_shell_reads_back(value: Seq<char>)
    ensures
        read_by_shell(shell_word(value), false) == Some(value),
{
    reveal_strlit("'");
    lemma_reads_body(value);
    assert(shell_word(value).drop_first() =~= quoted_body(value) + "'"@);
}

proof fn lemma_reads_body(value: Seq<char>)
    ensures
        read_by_shell(quoted_body(value) + "'"@, true) == Some(value),
    decreases value.len(),
{
    reveal_strlit("'");
    reveal_strlit("'\\''");
    let s = quoted_body(value) + "'"@;
    if value.len() == 0 {
        assert(s =~= "'"@);
        assert(s.drop_first() =~= Seq::<char>::empty());
        assert(read_by_shell(Seq::<char>::empty(), false) == Some(Seq::<char>::empty()));
        assert(value =~= Seq::<char>::empty());
    } else {
        let rest = quoted_body(value.drop_first()) + "'"@;
        lemma_reads_body(value.drop_first());
        assert(seq![value.first()] + value.drop_first() =~= value);
        if value.first() == '\'' {
            assert(s =~= "'\\''"@ + rest);
            let t = s.drop_first();
            assert(t[0] == '\\' && t[1] == '\'');
            let u = t.skip(2);
            assert(u[0] == '\'');
            assert(u.drop_first() =~= rest);
            assert(read_by_shell(u, false) == Some(value.drop_first()));
            assert(read_by_shell(t, false) == Some(seq!['\''] + value.drop_first()));
        } else {
            assert(s =~= seq![value.first()] + rest);
            assert(s.drop_first() =~= rest);
        }
    }
}

/// The lines of a script that set the defaults of the guard.
pub open spec fn defaults_text(bin: Seq<char>, min_mem: Seq<char>, min_swap: Seq<char>) -> Seq<
    char,
> {
    "default_oomwrap="@ + shell_word(bin) + "\ndefault_min_mem="@ + shell_word(min_mem)
        + "\ndefault_min_swap="@ + shell_word(min_swap)
}

/// What follows the marker in a shim.
pub open spec fn shim_body(
    tool: Seq<char>,
    bin: Seq<char>,
    min_mem: Seq<char>,
    min_swap: Seq<char>,
) -> Seq<char> {
    "\nset -euo pipefail\n\ntool="@ + shell_word(tool) + "\nreal_env="@ + shell_word(
        "OOMWRAP_REAL_"@ + env_name(tool),
    ) + "\n"@ + defaults_text(bin, min_mem, min_swap) + SHIM_SEARCH@ + PATH_SHIM_MARKER@ + SHIM_RUN@
}

/// A shim for a tool on the search path.
pub open spec fn shim_text(
    tool: Seq<char>,
    bin: Seq<char>,
    min_mem: Seq<char>,
    min_swap: Seq<char>,
) -> Seq<char> {
    "#!/usr/bin/env bash\n# "@ + PATH_SHIM_MARKER@ + shim_body(tool, bin, min_mem, min_swap)
}

/// What follows the marker in a wrapper.
pub open spec fn wrapper_body(bin: Seq<char>, min_mem: Seq<char>, min_swap: Seq<char>) -> Seq<
    char,
> {
    "\nset -euo pipefail\n\n"@ + defaults_text(bin, min_mem, min_swap) + WRAPPER_RUN@
}

/// A wrapper in place of an executable.
pub open spec fn wrapper_text(bin: Seq<char>, min_mem: Seq<char>, min_swap: Seq<char>) -> Seq<
    char,
> {
    "#!/usr/bin/env bash\n# "@ + ABSOLUTE_WRAPPER_MARKER@ + wrapper_body(bin, min_mem, min_swap)
}

fn defaults(bin: &str, min_mem: &str, min_swap: &str) -> (r: String)
    ensures
        r@ == defaults_text(bin@, min_mem@, min_swap@),
{
    let mut r = "default_oomwrap=".to_string();
    r.append(sh_quote(bin).as_str());
    r.append("\ndefault_min_mem=");
    r.append(sh_quote(min_mem).as_str());
    r.append("\ndefault_min_swap=");
    r.append(sh_quote(min_swap).as_str());
    r
}

/// A shim for a tool on the search path.
pub fn path_shim_script(tool: &str, oomwrap_bin: &str, min_mem: &str, min_swap: &str) -> (r: String)
    ensures
        r@ == shim_text(tool@, oomwrap_bin@, min_mem@, min_swap@),
{
    let mut env = "OOMWRAP_REAL_".to_string();
    env.append(env_suffix(tool).as_str());
    let mut body = "\nset -euo pipefail\n\ntool=".to_string();
    body.append(sh_quote(tool).as_str());
    body.append("\nreal_env=");
    body.append(sh_quote(env.as_str()).as_str());
    body.append("\n");
    body.append(defaults(oomwrap_bin, min_mem, min_swap).as_str());
    body.append(SHIM_SEARCH);
    body.append(PATH_SHIM_MARKER);
    body.append(SHIM_RUN);
    let mut r = "#!/usr/bin/env bash\n# ".to_string();
    r.append(PATH_SHIM_MARKER);
    r.append(body.as_str());
    r
}

/// A wrapper in place of an executable.
pub fn absolute_wrapper_script(oomwrap_bin: &str, min_mem: &str, min_swap: &str) -> (r: String)
    ensures
        r@ == wrapper_text(oomwrap_bin@, min_mem@, min_swap@),
{
    let mut body = "\nset -euo pipefail\n\n".to_string();
    body.append(defaults(oomwrap_bin, min_mem, min_swap).as_str());
    body.append(WRAPPER_RUN);
    let mut r = "#!/usr/bin/env bash\n# ".to_string();
    r.append(ABSOLUTE_WRAPPER_MARKER);
    r.append(body.as_str());
    r
}

/// What is found at a path: whether it exists and is a file, and its content where that is text
/// that can be read.
#[derive(Debug, PartialEq, Eq)]
pub struct FileProbe {
    pub exists: bool,
    pub is_file: bool,
    pub content: Option<String>,
}

/// What a [`FileProbe`] says.
pub struct ProbeView {
    pub exists: bool,
    pub is_file: bool,
    pub content: Option<Seq<char>>,
}

impl View for FileProbe {
    type V = ProbeView;

    open spec fn view(&self) -> ProbeView {
        ProbeView {
            exists: self.exists,
            is_file: self.is_file,
            content: text::content_of(self.content),
        }
    }
}

/// Whether a file is there and holds a marker. Content that cannot be read holds none.
pub open spec fn is_marked(probe: ProbeView, marker: Seq<char>) -> bool {
    probe.exists && probe.is_file && text::contains(
        match probe.content {
            Some(content) => content,
            None => Seq::empty(),
        },
        marker,
    )
}

/// There is no marker in nothing.
pub proof fn lemma_empty_is_unmarked()
    ensures
        !text::contains(Seq::empty(), PATH_SHIM_MARKER@),
        !text::contains(Seq::empty(), ABSOLUTE_WRAPPER_MARKER@),
{
    reveal_strlit("oomwrap managed path shim");
    reveal_strlit("oomwrap managed absolute wrapper");
}

/// Whether a file is there and holds a marker.
pub fn file_contains_marker(probe: &FileProbe, marker: &str) -> (r: bool)
    ensures
        r == is_marked(probe@, marker@),
{
    if !probe.exists || !probe.is_file {
        return false;
    }
    let content = match &probe.content {
        Some(content) => text::to_chars(content.as_str()),
        None => Vec::new(),
    };
    text::find(content.as_slice(), text::to_chars(marker).as_slice())
}

/// Whether a file is a shim.
pub fn is_managed_path_shim(probe: &FileProbe) -> (r: bool)
    ensures
        r == is_marked(probe@, PATH_SHIM_MARKER@),
{
    file_contains_marker(probe, PATH_SHIM_MARKER)
}

/// Whether a file is a wrapper.
pub fn is_managed_absolute_wrapper(probe: &FileProbe) -> (r: bool)
    ensures
        r == is_marked(probe@, ABSOLUTE_WRAPPER_MARKER@),
{
    file_contains_marker(probe, ABSOLUTE_WRAPPER_MARKER)
}

/// Whether a file mode lets anybody execute the file.
pub fn is_executable(mode: u32) -> (r: bool)
    ensures
        r == (mode & 0o111 != 0),
{
    mode & 0o111 != 0
}

/// Every shim carries its marker, whatever it was made from.
pub proof fn law_shim_is_marked(
    tool: Seq<char>,
    bin: Seq<char>,
    min_mem: Seq<char>,
    min_swap: Seq<char>,
)
    ensures
        text::contains(shim_text(tool, bin, min_mem, min_swap), PATH_SHIM_MARKER@),
{
    lemma_contains_middle(
        "#!/usr/bin/env bash\n# "@,
        PATH_SHIM_MARKER@,
        shim_body(tool, bin, min_mem, min_swap),
    );
}

/// Every wrapper carries its marker, whatever it was made from.
pub proof fn law_wrapper_is_marked(bin: Seq<char>, min_mem: Seq<char>, min_swap: Seq<char>)
    ensures
        text::contains(wrapper_text(bin, min_mem, min_swap), ABSOLUTE_WRAPPER_MARKER@),
{
    lemma_contains_middle(
        "#!/usr/bin/env bash\n# "@,
        ABSOLUTE_WRAPPER_MARKER@,
        wrapper_body(bin, min_mem, min_swap),
    );
}

proof fn lemma_contains_middle(a: Seq<char>, p: Seq<char>, b: Seq<char>)
    ensures
        text::contains(a + p + b, p),
{
    let s = a + p + b;
    assert(s.subrange(a.len() as int, (a.len() + p.len()) as int) =~= p);
    assert(text::occurs_at(s, p, a.len() as int));
}

/// Whether a script sets a variable, at the start of a line, to a word that the shell reads as the
/// given value.
pub open spec fn sets(script: Seq<char>, variable: Seq<char>, value: Seq<char>) -> bool {
    exists|word: Seq<char>| #[trigger]
        read_by_shell(word, false) == Some(value) && text::contains(
            script,
            seq!['\n'] + variable + seq!['='] + word,
        )
}

/// The line that sets a variable.
spec fn setting(variable: Seq<char>, value: Seq<char>) -> Seq<char> {
    seq!['\n'] + variable + seq!['='] + shell_word(value)
}

proof fn lemma_sets(before: Seq<char>, variable: Seq<char>, value: Seq<char>, behind: Seq<char>)
    ensures
        sets(before + setting(variable, value) + behind, variable, value),
{
    law_shell_reads_back(value);
    lemma_contains_middle(before, setting(variable, value), behind);
}

proof fn lemma_defaults(bin: Seq<char>, min_mem: Seq<char>, min_swap: Seq<char>)
    ensures
        seq!['\n'] + defaults_text(bin, min_mem, min_swap) == setting("default_oomwrap"@, bin)
            + setting("default_min_mem"@, min_mem) + setting("default_min_swap"@, min_swap),
{
    reveal_strlit("default_oomwrap=");
    reveal_strlit("\ndefault_min_mem=");
    reveal_strlit("\ndefault_min_swap=");
    reveal_strlit("default_oomwrap");
    reveal_strlit("default_min_mem");
    reveal_strlit("default_min_swap");
    assert("default_oomwrap="@ =~= "default_oomwrap"@ + seq!['=']);
    assert("\ndefault_min_mem="@ =~= seq!['\n'] + "default_min_mem"@ + seq!['=']);
    assert("\ndefault_min_swap="@ =~= seq!['\n'] + "default_min_swap"@ + seq!['=']);
    assert(seq!['\n'] + defaults_text(bin, min_mem, min_swap) =~= setting("default_oomwrap"@, bin)
        + setting("default_min_mem"@, min_mem) + setting("default_min_swap"@, min_swap));
}

proof fn lemma_three_settings(
    before: Seq<char>,
    bin: Seq<char>,
    min_mem: Seq<char>,
    min_swap: Seq<char>,
    behind: Seq<char>,
)
    ensures
        ({
            let script = before + (seq!['\n'] + defaults_text(bin, min_mem, min_swap)) + behind;
            &&& sets(script, "default_oomwrap"@, bin)
            &&& sets(script, "default_min_mem"@, min_mem)
            &&& sets(script, "default_min_swap"@, min_swap)
        }),
{
    let a = setting("default_oomwrap"@, bin);
    let b = setting("default_min_mem"@, min_mem);
    let c = setting("default_min_swap"@, min_swap);
    let script = before + (a + b + c) + behind;
    lemma_defaults(bin, min_mem, min_swap);
    lemma_sets(before, "default_oomwrap"@, bin, b + c + behind);
    assert(before + a + (b + c + behind) =~= script);
    lemma_sets(before + a, "default_min_mem"@, min_mem, c + behind);
    assert(before + a + b + (c + behind) =~= script);
    lemma_sets(before + a + b, "default_min_swap"@, min_swap, behind);
    assert(before + a + b + c + behind =~= script);
}

/// Whatever a shim is made from, the shell that runs it gets exactly the tool, the name of the
/// variable for the executable behind it, the program and the two floors that it was made from.
pub proof fn law_shim_sets_what_it_was_made_from(
    tool: Seq<char>,
    bin: Seq<char>,
    min_mem: Seq<char>,
    min_swap: Seq<char>,
)
    ensures
        ({
            let script = shim_text(tool, bin, min_mem, min_swap);
            &&& sets(script, "tool"@, tool)
            &&& sets(script, "real_env"@, "OOMWRAP_REAL_"@ + env_name(tool))
            &&& sets(script, "default_oomwrap"@, bin)
            &&& sets(script, "default_min_mem"@, min_mem)
            &&& sets(script, "default_min_swap"@, min_swap)
        }),
{
    let script = shim_text(tool, bin, min_mem, min_swap);
    let env = "OOMWRAP_REAL_"@ + env_name(tool);
    let newline = seq!['\n'];
    reveal_strlit("\nset -euo pipefail\n\ntool=");
    reveal_strlit("\nset -euo pipefail\n");
    reveal_strlit("\nreal_env=");
    reveal_strlit("\n");
    reveal_strlit("tool");
    reveal_strlit("real_env");
    assert("\nset -euo pipefail\n\ntool="@ =~= "\nset -euo pipefail\n"@ + (newline + "tool"@
        + seq!['=']));
    assert("\nreal_env="@ =~= newline + "real_env"@ + seq!['=']);
    assert("\n"@ =~= newline);
    let a = "#!/usr/bin/env bash\n# "@ + PATH_SHIM_MARKER@ + "\nset -euo pipefail\n"@;
    let b = setting("tool"@, tool);
    let c = setting("real_env"@, env);
    let d = newline + defaults_text(bin, min_mem, min_swap);
    let e = SHIM_SEARCH@ + PATH_SHIM_MARKER@ + SHIM_RUN@;
    assert(script =~= a + b + c + d + e);
    lemma_sets(a, "tool"@, tool, c + d + e);
    assert(a + b + (c + d + e) =~= script);
    lemma_sets(a + b, "real_env"@, env, d + e);
    assert(a + b + c + (d + e) =~= script);
    lemma_three_settings(a + b + c, bin, min_mem, min_swap, e);
}

/// Whatever a wrapper is made from, the shell that runs it gets exactly the program and the two
/// floors that it was made from.
pub proof fn law_wrapper_sets_what_it_was_made_from(
    bin: Seq<char>,
    min_mem: Seq<char>,
    min_swap: Seq<char>,
)
    ensures
        ({
            let script = wrapper_text(bin, min_mem, min_swap);
            &&& sets(script, "default_oomwrap"@, bin)
            &&& sets(script, "default_min_mem"@, min_mem)
            &&& sets(script, "default_min_swap"@, min_swap)
        }),
{
    let script = wrapper_text(bin, min_mem, min_swap);
    let newline = seq!['\n'];
    reveal_strlit("\nset -euo pipefail\n\n");
    reveal_strlit("\nset -euo pipefail\n");
    assert("\nset -euo pipefail\n\n"@ =~= "\nset -euo pipefail\n"@ + newline);
    let a = "#!/usr/bin/env bash\n# "@ + ABSOLUTE_WRAPPER_MARKER@ + "\nset -euo pipefail\n"@;
    let d = newline + defaults_text(bin, min_mem, min_swap);
    assert(script =~= a + d + WRAPPER_RUN@);
    lemma_three_settings(a, bin, min_mem, min_swap, WRAPPER_RUN@);
}

/// Scripts differ only in what they were made from: what stands before the first of their settings,
/// and behind the last one, is the same in all of them.
pub proof fn law_scripts_are_alike(
    tool: Seq<char>,
    bin: Seq<char>,
    min_mem: Seq<char>,
    min_swap: Seq<char>,
)
    ensures
        text::starts_with(
            shim_text(tool, bin, min_mem, min_swap),
            "#!/usr/bin/env bash\n# "@ + PATH_SHIM_MARKER@ + "\nset -euo pipefail\n\ntool="@,
        ),
        text::ends_with(
            shim_text(tool, bin, min_mem, min_swap),
            SHIM_SEARCH@ + PATH_SHIM_MARKER@ + SHIM_RUN@,
        ),
        text::starts_with(
            wrapper_text(bin, min_mem, min_swap),
            "#!/usr/bin/env bash\n# "@ + ABSOLUTE_WRAPPER_MARKER@ + "\nset -euo pipefail\n\n"@,
        ),
        text::ends_with(wrapper_text(bin, min_mem, min_swap), WRAPPER_RUN@),
{
    let s = shim_text(tool, bin, min_mem, min_swap);
    let front = "#!/usr/bin/env bash\n# "@ + PATH_SHIM_MARKER@
        + "\nset -euo pipefail\n\ntool="@;
    let back = SHIM_SEARCH@ + PATH_SHIM_MARKER@ + SHIM_RUN@;
    assert(s.take(front.len() as int) =~= front);
    assert(s.skip(s.len() - back.len()) =~= back);
    let w = wrapper_text(bin, min_mem, min_swap);
    let front = "#!/usr/bin/env bash\n# "@ + ABSOLUTE_WRAPPER_MARKER@
        + "\nset -euo pipefail\n\n"@;
    assert(w.take(front.len() as int) =~= front);
    assert(w.skip(w.len() - WRAPPER_RUN@.len()) =~= WRAPPER_RUN@);
}

/// The name of the variable for a tool has a capital for each letter of the tool, the digits as they
/// are, and an underscore for everything else.
pub proof fn law_env_name_follows_the_tool(tool: Seq<char>, i: int)
    requires
        0 <= i < tool.len(),
    ensures
        ({
            let c = tool[i];
            let e = env_name(tool)[i];
            if 'a' <= c && c <= 'z' {
                e as int == c as int - 32
            } else if ('A' <= c && c <= 'Z') || ('0' <= c && c <= '9') {
                e == c
            } else {
                e == '_'
            }
        }),
{
}

/// A file is a shim or a wrapper exactly where it is there, is a file, and its text could be read and
/// has the marker somewhere in it.
pub proof fn law_marked_files_hold_the_marker(probe: ProbeView)
    ensures
        is_marked(probe, PATH_SHIM_MARKER@) <==> probe.exists && probe.is_file && (
        probe.content matches Some(content) && text::contains(
            content,
            "oomwrap managed path shim"@,
        )),
        is_marked(probe, ABSOLUTE_WRAPPER_MARKER@) <==> probe.exists && probe.is_file && (
        probe.content matches Some(content) && text::contains(
            content,
            "oomwrap managed absolute wrapper"@,
        )),
{
    lemma_empty_is_unmarked();
}

} // verus!
