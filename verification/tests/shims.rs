use oomwrap::path::{default_bin_dir, real_path_for, HomeNotSet};
use oomwrap::process::disk_available;
use oomwrap::shim::{
    absolute_wrapper_script, default_tools, env_suffix, file_contains_marker, is_executable,
    is_managed_absolute_wrapper, is_managed_path_shim, path_shim_script, selected_tools, sh_quote,
    validate_tool_name, FileProbe, ABSOLUTE_WRAPPER_MARKER, PATH_SHIM_MARKER,
};
use oomwrap::size::format_bytes;

fn file(content: String) -> FileProbe {
    FileProbe { exists: true, is_file: true, content: Some(content) }
}

#[test]
fn misc_helpers_cover_boundaries() {
    assert_eq!(selected_tools(&[]), default_tools());
    assert_eq!(
        default_tools(),
        vec![
            "vllm",
            "llama-server",
            "llama-cli",
            "llama-bench",
            "sglang",
            "trtllm-serve",
            "text-generation-launcher",
        ]
    );
    assert_eq!(selected_tools(&["custom".to_string()]), vec!["custom"]);
    assert!(validate_tool_name("vllm").is_ok());
    assert!(validate_tool_name("llama-server").is_ok());
    assert!(validate_tool_name("").is_err());
    assert!(validate_tool_name("../vllm").is_err());
    assert!(validate_tool_name("/tmp/vllm").is_err());
    assert!(validate_tool_name(".").is_err());
    assert!(disk_available(1 << 20, 4096) > 1024 * 1024 * 1024);
    let home = b"/home/user".to_vec();
    let default_bin = default_bin_dir(&Some(home.clone())).unwrap();
    assert!(default_bin.ends_with(b".local/bin"));
    assert!(default_bin.starts_with(&home));
    assert_eq!(format_bytes(7), "7B");
    assert_eq!(format_bytes(4096), "4096B");
    assert_eq!(format_bytes(1024 * 1024), "1.0MiB");
    assert_eq!(format_bytes(2 * 1024 * 1024), "2.0MiB");
    assert_eq!(format_bytes(3 * 1024 * 1024), "3.0MiB");
    assert_eq!(format_bytes(1024 * 1024 * 1024), "1.0GiB");
    assert_eq!(format_bytes(2 * 1024 * 1024 * 1024), "2.0GiB");
    assert_eq!(format_bytes(3 * 1024 * 1024 * 1024), "3.0GiB");

    assert!(!is_managed_path_shim(&FileProbe { exists: false, is_file: false, content: None }));
    assert!(!is_managed_path_shim(&FileProbe { exists: true, is_file: false, content: None }));
    let shim = file(format!("# {PATH_SHIM_MARKER}\n"));
    assert!(is_managed_path_shim(&shim));
    assert!(!is_managed_absolute_wrapper(&shim));

    let wrapper = file(format!("# {ABSOLUTE_WRAPPER_MARKER}\n"));
    assert!(is_managed_absolute_wrapper(&wrapper));
    assert!(!is_managed_path_shim(&wrapper));
}

#[test]
fn generated_path_shim_has_marker_and_env_escape() {
    let script = path_shim_script("vllm", "/tmp/oomwrap", "24G", "4G");
    assert!(script.contains(PATH_SHIM_MARKER));
    assert!(script.contains("oomwrap managed"));
    assert!(script.contains("OOMWRAP_REAL_VLLM"));
    assert!(script.contains("OOMWRAP_ALLOW_NO_EARLYOOM"));
}

#[test]
fn generated_absolute_wrapper_has_marker_and_resolves_real_target() {
    let script = absolute_wrapper_script("/tmp/oomwrap", "24G", "4G");
    assert!(script.contains(ABSOLUTE_WRAPPER_MARKER));
    assert!(script.contains("readlink -f"));
    assert!(script.contains(".real"));
    assert!(script.contains("OOMWRAP_ALLOW_NO_EARLYOOM"));
}

#[test]
fn real_path_appends_real_suffix() {
    assert_eq!(real_path_for(b"/tmp/vllm"), b"/tmp/vllm.real");
}

#[test]
fn a_shim_is_this_script() {
    let expected = r#"#!/usr/bin/env bash
# oomwrap managed path shim
set -euo pipefail

tool='llama-cli'
real_env='OOMWRAP_REAL_LLAMA_CLI'
default_oomwrap='/opt/it'\''s/oomwrap'
default_min_mem='8G'
default_min_swap='1G'
oomwrap="${OOMWRAP_BIN:-$default_oomwrap}"
min_mem="${OOMWRAP_MIN_MEM:-$default_min_mem}"
min_swap="${OOMWRAP_MIN_SWAP:-$default_min_swap}"
profile="${OOMWRAP_PROFILE:-auto}"
real="${!real_env:-}"

if [[ -z "$real" ]]; then
  shim_dir="$(cd "$(dirname "${BASH_SOURCE[0]}")" && pwd)"
  IFS=: read -r -a path_parts <<< "$PATH"
  for dir in "${path_parts[@]}"; do
    [[ -z "$dir" ]] && dir="."
    [[ "$dir" == "$shim_dir" ]] && continue
    candidate="$dir/$tool"
    [[ -x "$candidate" && ! -d "$candidate" ]] || continue
    if grep -q "oomwrap managed path shim" "$candidate" 2>/dev/null; then
      continue
    fi
    real="$candidate"
    break
  done
fi

if [[ -z "$real" ]]; then
  echo "oomwrap: could not resolve real executable for $tool" >&2
  echo "set $real_env=/path/to/$tool or put the real binary later in PATH" >&2
  exit 127
fi

args=(run --profile "$profile" --min-mem "$min_mem" --min-swap "$min_swap")
if [[ "${OOMWRAP_ALLOW_NO_EARLYOOM:-}" == "1" ]]; then
  args+=(--allow-no-earlyoom)
fi
if [[ -n "${OOMWRAP_EVENT_LOG:-}" ]]; then
  args+=(--event-log "$OOMWRAP_EVENT_LOG")
fi

exec "$oomwrap" "${args[@]}" -- "$real" "$@"
"#;
    assert_eq!(path_shim_script("llama-cli", "/opt/it's/oomwrap", "8G", "1G"), expected);
}

#[test]
fn a_wrapper_is_this_script() {
    let expected = r#"#!/usr/bin/env bash
# oomwrap managed absolute wrapper
set -euo pipefail

default_oomwrap='/opt/oomwrap'
default_min_mem='8G'
default_min_swap='1G'
oomwrap="${OOMWRAP_BIN:-$default_oomwrap}"
min_mem="${OOMWRAP_MIN_MEM:-$default_min_mem}"
min_swap="${OOMWRAP_MIN_SWAP:-$default_min_swap}"
profile="${OOMWRAP_PROFILE:-auto}"
real="$(readlink -f "${BASH_SOURCE[0]}").real"

args=(run --profile "$profile" --min-mem "$min_mem" --min-swap "$min_swap")
if [[ "${OOMWRAP_ALLOW_NO_EARLYOOM:-}" == "1" ]]; then
  args+=(--allow-no-earlyoom)
fi
if [[ -n "${OOMWRAP_EVENT_LOG:-}" ]]; then
  args+=(--event-log "$OOMWRAP_EVENT_LOG")
fi

exec "$oomwrap" "${args[@]}" -- "$real" "$@"
"#;
    assert_eq!(absolute_wrapper_script("/opt/oomwrap", "8G", "1G"), expected);
}

#[test]
fn quoting_keeps_every_character() {
    assert_eq!(sh_quote(""), "''");
    assert_eq!(sh_quote("a b"), "'a b'");
    assert_eq!(sh_quote("$(touch x)`y`\\\n"), "'$(touch x)`y`\\\n'");
    assert_eq!(sh_quote("it's"), "'it'\\''s'");
    assert_eq!(sh_quote("''"), "''\\'''\\'''");
}

#[test]
fn environment_names_are_plain() {
    assert_eq!(env_suffix("text-generation-launcher"), "TEXT_GENERATION_LAUNCHER");
    assert_eq!(env_suffix("a.B9\u{e9}"), "A_B9_");
    assert_eq!(env_suffix(""), "");
}

#[test]
fn tool_names_have_no_slash_and_are_no_directories() {
    for name in ["a", "...", ".hidden", "a b", "\u{e9}", "a.", "-"] {
        assert!(validate_tool_name(name).is_ok(), "{}", name);
    }
    for name in ["", ".", "..", "/", "a/", "a/b", "./a", "a/.", "//"] {
        let error = validate_tool_name(name).unwrap_err();
        assert_eq!(error.message(), format!("tool name must be a bare executable name: {}", name));
    }
}

#[test]
fn markers_are_found_in_readable_files_only() {
    assert!(file_contains_marker(&file("xxab".to_string()), "ab"));
    assert!(!file_contains_marker(&file("xxa".to_string()), "ab"));
    let unreadable = FileProbe { exists: true, is_file: true, content: None };
    assert!(!file_contains_marker(&unreadable, "ab"));
    assert!(!is_managed_path_shim(&unreadable));
}

#[test]
fn any_execute_permission_counts() {
    for mode in [0o100, 0o010, 0o001, 0o755, 0o100755] {
        assert!(is_executable(mode));
    }
    for mode in [0, 0o644, 0o666, 0o100644, 0o7000] {
        assert!(!is_executable(mode));
    }
}

#[test]
fn shims_go_below_the_home_directory() {
    assert_eq!(default_bin_dir(&Some(b"/home/u".to_vec())), Ok(b"/home/u/.local/bin".to_vec()));
    assert_eq!(default_bin_dir(&Some(b"/".to_vec())), Ok(b"/.local/bin".to_vec()));
    assert_eq!(default_bin_dir(&Some(Vec::new())), Ok(b".local/bin".to_vec()));
    assert_eq!(default_bin_dir(&None), Err(HomeNotSet));
    assert_eq!(HomeNotSet.message(), "HOME is not set");
}
