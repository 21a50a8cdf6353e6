use std::collections::BTreeMap;

use oomwrap::cli::{main_entry, run_cli, Cli, Commands, DoctorArgs, Exit, InspectArgs, Session};
use oomwrap::event::Event;
use oomwrap::files::{path_entry_exists, EntryProbe, FileAction, FileReply};
use oomwrap::guard::{Action, RunArgs};
use oomwrap::install::{install_shims, uninstall_shims, InstallShimsArgs, UninstallShimsArgs};
use oomwrap::job::Job;
use oomwrap::meminfo::MemInfo;
use oomwrap::placement::{name_temporary, write_executable, Creation, WriteAction, WriteReply};
use oomwrap::process::ProcessInfo;
use oomwrap::profile::Profile;
use oomwrap::report::{DoctorReport, InspectReport};
use oomwrap::shim::{absolute_wrapper_script, path_shim_script, FileProbe};
use oomwrap::skills::{skill_failure, skill_file, skill_file_failure, skill_requested, skills_root, SkillFile};
use oomwrap::wrap::{unwrap, wrap, UnwrapArgs, WrapArgs};

#[derive(Clone, Debug, PartialEq, Eq)]
enum Node {
    File { text: String, mode: u32 },
    Program { id: u32, mode: u32 },
    Link(Vec<u8>),
    Directory,
}

type Disk = BTreeMap<Vec<u8>, Node>;

fn file(text: &str, mode: u32) -> Node {
    Node::File { text: text.to_string(), mode }
}

/// The place that a path names: `/alias` is a link to the directory `/rt`.
fn place(path: &[u8]) -> Vec<u8> {
    match path.strip_prefix(b"/alias/") {
        Some(rest) => [b"/rt/", rest].concat(),
        None => path.to_vec(),
    }
}

/// What a path leads to, through links.
fn seen<'a>(disk: &'a Disk, path: &[u8]) -> Option<&'a Node> {
    match disk.get(path) {
        Some(Node::Link(to)) => seen(disk, to),
        found => found,
    }
}

fn resolved(disk: &Disk, path: &[u8]) -> Option<Vec<u8>> {
    match disk.get(path) {
        Some(Node::Link(to)) => resolved(disk, to),
        Some(_) => Some(path.to_vec()),
        None => None,
    }
}

/// Carries out a job. Actions for which `fails` holds fail. Gives the lines that were printed.
fn carry_out(mut job: Job, disk: &mut Disk, fails: &dyn Fn(&FileAction) -> bool) -> (Result<i32, String>, Vec<String>) {
    let mut lines: Vec<String> = Vec::new();
    loop {
        let action = job.action();
        let broken = fails(&action);
        let broken_reply = FileReply::Done(Err("broken".to_string()));
        let reply = match action {
            FileAction::Finish(result) => return (result, lines),
            FileAction::Print(line) => {
                lines.push(line);
                FileReply::Done(Ok(()))
            }
            FileAction::CreateDir(path) => {
                if broken {
                    broken_reply
                } else {
                    disk.insert(path, Node::Directory);
                    FileReply::Done(Ok(()))
                }
            }
            FileAction::FindBinary => FileReply::Path(if broken {
                Err("broken".to_string())
            } else {
                Ok(b"/opt/oomwrap".to_vec())
            }),
            FileAction::Resolve(path) => {
                FileReply::Path(resolved(disk, &place(&path)).ok_or("missing".to_string()))
            }
            FileAction::Probe(path) => {
                let found = seen(disk, &place(&path));
                FileReply::Found(FileProbe {
                    exists: found.is_some(),
                    is_file: matches!(found, Some(Node::File { .. } | Node::Program { .. })),
                    content: match found {
                        Some(Node::File { text, .. }) => Some(text.clone()),
                        _ => None,
                    },
                })
            }
            FileAction::ReadMode(path) => FileReply::Mode(match seen(disk, &place(&path)) {
                Some(Node::File { mode, .. } | Node::Program { mode, .. }) if !broken => Ok(*mode),
                _ => Err("broken".to_string()),
            }),
            FileAction::CheckEntry(path) => FileReply::Entry(if broken {
                EntryProbe::Failed("broken".to_string())
            } else if disk.contains_key(&place(&path)) {
                EntryProbe::Present
            } else {
                EntryProbe::Absent
            }),
            FileAction::Rename { from, to } => {
                if broken {
                    broken_reply
                } else {
                    let node = disk.remove(&place(&from)).unwrap();
                    disk.insert(place(&to), node);
                    FileReply::Done(Ok(()))
                }
            }
            FileAction::Remove(path) => {
                if broken {
                    broken_reply
                } else {
                    disk.remove(&place(&path)).unwrap();
                    FileReply::Done(Ok(()))
                }
            }
            FileAction::WriteExecutable { path, content } => {
                if broken {
                    broken_reply
                } else {
                    disk.insert(place(&path), Node::File { text: content, mode: 0o755 });
                    FileReply::Done(Ok(()))
                }
            }
        };
        job = job.step(reply);
    }
}

fn never(_: &FileAction) -> bool {
    false
}

fn wrap_job(path: &str, force: bool) -> Job {
    Job::Wrap(wrap(WrapArgs {
        path: path.as_bytes().to_vec(),
        min_mem: "8G".to_string(),
        min_swap: "1G".to_string(),
        force,
    }))
}

fn unwrap_job(path: &str) -> Job {
    Job::Unwrap(unwrap(UnwrapArgs { path: path.as_bytes().to_vec() }))
}

fn install_job(tools: &[&str], force: bool) -> Job {
    let args = InstallShimsArgs {
        bin_dir: Some(b"/bin".to_vec()),
        tools: tools.iter().map(|t| t.to_string()).collect(),
        min_mem: "8G".to_string(),
        min_swap: "1G".to_string(),
        force,
    };
    Job::Install(install_shims(args, &Some(b"/home/u".to_vec())).unwrap())
}

fn uninstall_job(tools: &[&str]) -> Job {
    let args = UninstallShimsArgs {
        bin_dir: Some(b"/bin".to_vec()),
        tools: tools.iter().map(|t| t.to_string()).collect(),
    };
    Job::Uninstall(uninstall_shims(args, &Some(b"/home/u".to_vec())).unwrap())
}

fn disk_with(path: &str, node: Node) -> Disk {
    let mut disk = Disk::new();
    disk.insert(path.as_bytes().to_vec(), node);
    disk
}

fn bytes(path: &str) -> Vec<u8> {
    path.as_bytes().to_vec()
}

#[test]
fn wrapping_and_unwrapping_restores_the_disk() {
    let before = disk_with("/rt/vllm", file("#!/bin/sh\n", 0o755));
    let mut disk = before.clone();
    let (result, lines) = carry_out(wrap_job("/rt/vllm", false), &mut disk, &never);
    assert_eq!((result, lines), (Ok(0), vec!["wrapped executable: /rt/vllm".to_string()]));
    assert_eq!(disk[&bytes("/rt/vllm.real")], file("#!/bin/sh\n", 0o755));
    let script = absolute_wrapper_script("/opt/oomwrap", "8G", "1G");
    assert_eq!(disk[&bytes("/rt/vllm")], file(&script, 0o755));

    let wrapped = disk.clone();
    let (result, lines) = carry_out(wrap_job("/rt/vllm", false), &mut disk, &never);
    assert_eq!((result, lines), (Ok(0), vec!["already wrapped: /rt/vllm".to_string()]));
    assert_eq!(disk, wrapped);

    let (result, lines) = carry_out(unwrap_job("/rt/vllm"), &mut disk, &never);
    assert_eq!((result, lines), (Ok(0), vec!["unwrapped executable: /rt/vllm".to_string()]));
    assert_eq!(disk, before);
}

#[test]
fn a_wrapped_link_is_restored_even_if_it_leads_nowhere() {
    let mut disk = disk_with("/rt/vllm", Node::Link(bytes("/x")));
    disk.insert(bytes("/x"), file("x", 0o755));
    assert_eq!(carry_out(wrap_job("/rt/vllm", false), &mut disk, &never).0, Ok(0));
    disk.remove(&bytes("/x"));
    assert_eq!(carry_out(unwrap_job("/rt/vllm"), &mut disk, &never).0, Ok(0));
    assert_eq!(disk, disk_with("/rt/vllm", Node::Link(bytes("/x"))));
}

#[test]
fn unwrapping_through_a_link_restores_what_it_leads_to() {
    let mut disk = disk_with("/rt/vllm", file("x", 0o755));
    assert_eq!(carry_out(wrap_job("/rt/vllm", false), &mut disk, &never).0, Ok(0));
    disk.insert(bytes("/link"), Node::Link(bytes("/rt/vllm")));
    assert_eq!(carry_out(unwrap_job("/link"), &mut disk, &never).0, Ok(0));
    assert_eq!(disk[&bytes("/rt/vllm")], file("x", 0o755));
    assert_eq!(disk[&bytes("/link")], Node::Link(bytes("/rt/vllm")));
    assert!(!disk.contains_key(&bytes("/rt/vllm.real")));
}

#[test]
fn what_cannot_be_wrapped_is_refused() {
    let shim = path_shim_script("vllm", "/opt/oomwrap", "8G", "1G");
    for (node, words) in [
        (None, "cannot wrap missing path: /t"),
        (Some(Node::Directory), "cannot wrap non-file path: /t"),
        (Some(Node::Link(bytes("/nowhere"))), "cannot wrap missing path: /t"),
        (Some(file("x", 0o644)), "cannot wrap non-executable path: /t"),
        (Some(file(&shim, 0o755)), "cannot wrap PATH shim: /t"),
    ] {
        let mut disk = Disk::new();
        if let Some(node) = node {
            disk.insert(bytes("/t"), node);
        }
        let before = disk.clone();
        assert_eq!(carry_out(wrap_job("/t", false), &mut disk, &never).0, Err(words.to_string()));
        assert_eq!(disk, before);
    }
}

#[test]
fn a_place_that_is_taken_is_overwritten_by_force_only() {
    for node in [file("old", 0o644), Node::Link(bytes("/nowhere"))] {
        let mut disk = disk_with("/t", file("x", 0o755));
        disk.insert(bytes("/t.real"), node);
        let before = disk.clone();
        assert_eq!(
            carry_out(wrap_job("/t", false), &mut disk, &never).0,
            Err("refusing to overwrite existing real path: /t.real".to_string())
        );
        assert_eq!(disk, before);
        assert_eq!(carry_out(wrap_job("/t", true), &mut disk, &never).0, Ok(0));
        assert_eq!(disk[&bytes("/t.real")], file("x", 0o755));
    }
}

#[test]
fn a_failed_wrapping_keeps_the_executable() {
    let before = disk_with("/t", file("x", 0o755));
    let mut disk = before.clone();
    let (result, _) = carry_out(wrap_job("/t", false), &mut disk, &|a| matches!(a, FileAction::WriteExecutable { .. }));
    assert_eq!(result, Err("broken".to_string()));
    assert_eq!(disk, before);

    let (result, _) = carry_out(wrap_job("/t", false), &mut disk, &|a| matches!(a, FileAction::Rename { .. }));
    assert_eq!(result, Err("failed to move /t to /t.real: broken".to_string()));
    assert_eq!(disk, before);

    let (result, _) = carry_out(wrap_job("/t", false), &mut disk, &|a| matches!(a, FileAction::ReadMode(_)));
    assert_eq!(result, Err("broken".to_string()));
    let (result, _) = carry_out(wrap_job("/t", false), &mut disk, &|a| matches!(a, FileAction::CheckEntry(_)));
    assert_eq!(result, Err("failed to inspect /t.real: broken".to_string()));
    assert_eq!(disk, before);

    let (result, _) = carry_out(wrap_job("/t", false), &mut disk, &|a| matches!(a, FileAction::FindBinary));
    assert_eq!(result, Err("failed to resolve current oomwrap binary: broken".to_string()));
    assert_eq!(disk, disk_with("/t.real", file("x", 0o755)));
}

#[test]
fn what_cannot_be_unwrapped_is_refused() {
    let mut disk = disk_with("/t", file("x", 0o755));
    assert_eq!(
        carry_out(unwrap_job("/missing"), &mut disk, &never).0,
        Err("failed to resolve /missing: missing".to_string())
    );
    assert_eq!(
        carry_out(unwrap_job("/t"), &mut disk, &never).0,
        Err("not an oomwrap managed wrapper: /t".to_string())
    );
    assert_eq!(carry_out(wrap_job("/t", false), &mut disk, &never).0, Ok(0));
    let wrapped = disk.clone();
    assert_eq!(
        carry_out(unwrap_job("/t"), &mut disk, &|a| matches!(a, FileAction::Remove(_))).0,
        Err("failed to remove /t: broken".to_string())
    );
    assert_eq!(disk, wrapped);
    disk.remove(&bytes("/t.real"));
    assert_eq!(
        carry_out(unwrap_job("/t"), &mut disk, &never).0,
        Err("missing real executable: /t.real".to_string())
    );
    let mut disk = wrapped;
    assert_eq!(
        carry_out(unwrap_job("/t"), &mut disk, &|a| matches!(a, FileAction::Rename { .. })).0,
        Err("failed to restore /t: broken".to_string())
    );
    assert_eq!(disk, disk_with("/t.real", file("x", 0o755)));
}

#[test]
fn shims_are_installed_and_removed() {
    let mut disk = Disk::new();
    let (result, lines) = carry_out(install_job(&[], false), &mut disk, &never);
    assert_eq!(result, Ok(0));
    assert_eq!(lines.len(), 7);
    assert_eq!(lines[0], "installed shim: /bin/vllm");
    let script = path_shim_script("sglang", "/opt/oomwrap", "8G", "1G");
    assert_eq!(disk[&bytes("/bin/sglang")], file(&script, 0o755));
    let installed = disk.clone();
    assert_eq!(carry_out(install_job(&[], false), &mut disk, &never).0, Ok(0));
    assert_eq!(disk, installed);
    let (result, lines) = carry_out(uninstall_job(&[]), &mut disk, &never);
    assert_eq!(result, Ok(0));
    assert_eq!(lines.len(), 7);
    assert_eq!(lines[6], "removed shim: /bin/text-generation-launcher");
    assert_eq!(disk, disk_with("/bin", Node::Directory));
    let (result, lines) = carry_out(uninstall_job(&[]), &mut disk, &never);
    assert_eq!((result, lines.len()), (Ok(0), 0));
}

#[test]
fn foreign_files_are_replaced_by_force_only() {
    for node in [file("mine", 0o755), Node::Link(bytes("/nowhere"))] {
        let mut disk = disk_with("/bin/b", node.clone());
        let (result, lines) = carry_out(install_job(&["a", "b", "c"], false), &mut disk, &never);
        assert_eq!(result, Err("refusing to replace non-managed file: /bin/b".to_string()));
        assert_eq!(lines, vec!["installed shim: /bin/a".to_string()]);
        assert_eq!(disk[&bytes("/bin/b")], node);
        assert!(!disk.contains_key(&bytes("/bin/c")));
        assert_eq!(carry_out(install_job(&["a", "b", "c"], true), &mut disk, &never).0, Ok(0));
        let script = path_shim_script("b", "/opt/oomwrap", "8G", "1G");
        assert_eq!(disk[&bytes("/bin/b")], file(&script, 0o755));
    }
}

#[test]
fn a_forced_shim_leaves_the_target_of_a_link_alone() {
    let mut disk = disk_with("/bin/a", Node::Link(bytes("/x")));
    disk.insert(bytes("/x"), file("x", 0o755));
    assert_eq!(carry_out(install_job(&["a"], true), &mut disk, &never).0, Ok(0));
    assert_eq!(disk[&bytes("/x")], file("x", 0o755));
    assert!(matches!(disk[&bytes("/bin/a")], Node::File { .. }));
}

#[test]
fn removal_leaves_wrappers_and_foreign_files_alone() {
    let wrapper = absolute_wrapper_script("/opt/oomwrap", "8G", "1G");
    let mut disk = disk_with("/bin/a", file(&wrapper, 0o755));
    disk.insert(bytes("/bin/b"), file("mine", 0o755));
    let before = disk.clone();
    assert_eq!(carry_out(uninstall_job(&["a", "b", "c"]), &mut disk, &never).0, Ok(0));
    assert_eq!(disk, before);
}

#[test]
fn failures_of_installation_and_removal_are_told() {
    let mut disk = Disk::new();
    for (fails, words) in [
        (
            &(|a: &FileAction| matches!(a, FileAction::CreateDir(_))) as &dyn Fn(&FileAction) -> bool,
            "failed to create /bin: broken",
        ),
        (
            &|a: &FileAction| matches!(a, FileAction::FindBinary),
            "failed to resolve current oomwrap binary: broken",
        ),
        (
            &|a: &FileAction| matches!(a, FileAction::CheckEntry(_)),
            "failed to inspect /bin/a: broken",
        ),
        (&|a: &FileAction| matches!(a, FileAction::WriteExecutable { .. }), "broken"),
    ] {
        assert_eq!(carry_out(install_job(&["a"], false), &mut disk, fails).0, Err(words.to_string()));
    }
    assert_eq!(carry_out(install_job(&["a"], false), &mut disk, &never).0, Ok(0));
    assert_eq!(
        carry_out(uninstall_job(&["a"]), &mut disk, &|a| matches!(a, FileAction::Remove(_))).0,
        Err("failed to remove /bin/a: broken".to_string())
    );
}

#[test]
fn tools_that_are_paths_are_refused() {
    let mut disk = Disk::new();
    let words = "tool name must be a bare executable name: ../escaped".to_string();
    assert_eq!(carry_out(install_job(&["../escaped"], true), &mut disk, &never).0, Err(words.clone()));
    assert_eq!(disk, disk_with("/bin", Node::Directory));
    assert_eq!(carry_out(uninstall_job(&["../escaped"]), &mut disk, &never).0, Err(words));
}

#[test]
fn a_home_directory_is_needed_even_with_a_named_one() {
    let args = |bin_dir: Option<&str>| UninstallShimsArgs {
        bin_dir: bin_dir.map(bytes),
        tools: vec!["a".to_string()],
    };
    assert!(uninstall_shims(args(Some("/bin")), &None).is_err());
    let job = Job::Uninstall(uninstall_shims(args(None), &Some(bytes("/home/u"))).unwrap());
    assert_eq!(job.action(), FileAction::Probe(bytes("/home/u/.local/bin/a")));
}

/// Carries out a writing on a disk. The action of the given number fails.
fn write_out(path: &str, disk: &mut Disk, broken: usize) -> (Result<(), String>, usize) {
    let mut writing = write_executable(bytes(path), "text".to_string(), 9);
    let mut count: usize = 0;
    loop {
        let failure = if count == broken { Err("broken".to_string()) } else { Ok(()) };
        count += 1;
        let failed = failure.is_err();
        let reply = match writing.action() {
            WriteAction::Finish(result) => return (result, count - 1),
            WriteAction::Create(p) => WriteReply::Created(if failed {
                Creation::Failed("broken".to_string())
            } else if disk.contains_key(&p) {
                Creation::Exists
            } else {
                disk.insert(p, file("", 0o600));
                Creation::Created
            }),
            WriteAction::Write { path, content } => {
                disk.insert(path, file(&content, 0o600));
                WriteReply::Done(failure)
            }
            WriteAction::Sync(_) => WriteReply::Done(failure),
            WriteAction::SetMode { path, mode } => {
                if !failed {
                    disk.insert(path, file("text", mode));
                }
                WriteReply::Done(failure)
            }
            WriteAction::Rename { from, to } => {
                if !failed {
                    let node = disk.remove(&from).unwrap();
                    disk.insert(to, node);
                }
                WriteReply::Done(failure)
            }
            WriteAction::Remove(p) => {
                disk.remove(&p);
                WriteReply::Done(Ok(()))
            }
        };
        writing = writing.step(reply);
    }
}

#[test]
fn an_executable_is_written_whole_or_not_at_all() {
    let mut disk = disk_with("/d/t", file("old", 0o644));
    let before = disk.clone();
    for (broken, words) in [
        (0, "failed to create /d/.t.oomwrap-tmp-9-0: broken"),
        (1, "failed to write /d/.t.oomwrap-tmp-9-0: broken"),
        (2, "failed to sync /d/.t.oomwrap-tmp-9-0: broken"),
        (3, "broken"),
        (4, "failed to replace /d/t with generated executable: broken"),
    ] {
        assert_eq!(write_out("/d/t", &mut disk, broken).0, Err(words.to_string()));
        assert_eq!(disk, before);
    }
    assert_eq!(write_out("/d/t", &mut disk, 99), (Ok(()), 5));
    assert_eq!(disk, disk_with("/d/t", file("text", 0o755)));
}

#[test]
fn names_for_temporary_files_are_tried_in_turn() {
    let mut disk = Disk::new();
    for attempt in 0..99u32 {
        disk.insert(format!(".t.oomwrap-tmp-9-{}", attempt).into_bytes(), file("x", 0));
    }
    let taken = disk.clone();
    assert_eq!(write_out("t", &mut disk, 200), (Ok(()), 104));
    disk.remove(&bytes("t"));
    assert_eq!(disk, taken);
    disk.insert(bytes(".t.oomwrap-tmp-9-99"), file("x", 0));
    assert_eq!(
        write_out("t", &mut disk, 200).0,
        Err("failed to create temporary executable next to t".to_string())
    );
    assert_eq!(write_out("a/..", &mut disk, 200).0, Err("missing file name for a/..".to_string()));
    assert_eq!(name_temporary("x", 1, 2), ".x.oomwrap-tmp-1-2");
}

#[test]
fn entries_are_present_absent_or_unknown() {
    assert_eq!(path_entry_exists(b"/a", EntryProbe::Present), Ok(true));
    assert_eq!(path_entry_exists(b"/a", EntryProbe::Absent), Ok(false));
    assert_eq!(
        path_entry_exists(b"/\xff", EntryProbe::Failed("e".to_string())),
        Err("failed to inspect /\u{fffd}: e".to_string())
    );
}

#[test]
fn commands_begin_their_sessions() {
    let home = Some(bytes("/home/u"));
    let begin = |command: Commands| run_cli(Cli { command }, &home);
    assert!(matches!(
        begin(Commands::Doctor(DoctorArgs { json: true })),
        Ok(Session::Doctor { json: true })
    ));
    assert!(matches!(
        begin(Commands::Inspect(InspectArgs { json: false })),
        Ok(Session::Inspect { json: false })
    ));
    match begin(Commands::Wrap(WrapArgs {
        path: bytes("/t"),
        min_mem: String::new(),
        min_swap: String::new(),
        force: false,
    })) {
        Ok(Session::Job(job)) => assert_eq!(job.action(), FileAction::Probe(bytes("/t"))),
        _ => panic!("no job"),
    }
    match begin(Commands::Unwrap(UnwrapArgs { path: bytes("/t") })) {
        Ok(Session::Job(job)) => assert_eq!(job.action(), FileAction::Resolve(bytes("/t"))),
        _ => panic!("no job"),
    }
    let install = || {
        Commands::InstallShims(InstallShimsArgs {
            bin_dir: None,
            tools: Vec::new(),
            min_mem: String::new(),
            min_swap: String::new(),
            force: false,
        })
    };
    match begin(install()) {
        Ok(Session::Job(job)) => assert_eq!(job.action(), FileAction::CreateDir(bytes("/home/u/.local/bin"))),
        _ => panic!("no job"),
    }
    assert_eq!(run_cli(Cli { command: install() }, &None).err(), Some("HOME is not set".to_string()));
    let run = |poll: &str| {
        begin(Commands::Run(RunArgs {
            profile: Profile::Generic,
            min_mem: "1".to_string(),
            min_swap: "1".to_string(),
            poll: poll.to_string(),
            term_grace: "1".to_string(),
            require_earlyoom: false,
            allow_no_earlyoom: false,
            use_systemd_scope: false,
            memory_high: None,
            memory_max: None,
            command: vec![bytes("true")],
        }))
    };
    match run("1") {
        Ok(Session::Guard(guard)) => assert_eq!(*guard.action(), Action::OpenLog),
        _ => panic!("no guard"),
    }
    assert_eq!(
        run("-1").err(),
        Some("invalid --poll: duration must be a non-negative finite number".to_string())
    );
}

#[test]
fn errors_end_the_program_with_2() {
    assert_eq!(main_entry(Ok(137)), Exit { code: 137, error: None });
    assert_eq!(
        main_entry(Err("HOME is not set".to_string())),
        Exit { code: 2, error: Some("error: HOME is not set".to_string()) }
    );
}

fn doctor(processes: usize) -> DoctorReport {
    let known = (0..processes)
        .map(|i| ProcessInfo { pid: i as u32, command: format!("vllm {}", i), rss_bytes: Some(1 << 30) })
        .collect();
    let mem = MemInfo { mem_available_bytes: 3 << 30, swap_free_bytes: 5 };
    DoctorReport::collect("linux".to_string(), "x86_64".to_string(), mem, processes == 0, Some(7 << 20), known)
}

#[test]
fn reports_are_these_texts() {
    assert_eq!(
        doctor(0).text(),
        "oomwrap doctor\n  os: linux\n  arch: x86_64\n  memory: available=3.0GiB swap_free=5B\n  earlyoom: active\n  \
         home disk available: 7.0MiB\n  known high-memory processes: 0\n"
    );
    let crowded = doctor(12).text();
    assert!(crowded.contains("  earlyoom: not active\n"));
    assert!(crowded.contains("  known high-memory processes: 12\n    pid=0 rss=1.0GiB cmd=vllm 0\n"));
    assert!(crowded.contains("    pid=9 rss=1.0GiB cmd=vllm 9\n  warning: "));
    assert!(!crowded.contains("pid=10"));
    assert!(crowded.ends_with(
        "  warning: earlyoom is not active; high-risk profiles will refuse to launch by default\n  \
         warning: known high-memory processes are already running\n"
    ));
    let inspect = InspectReport::collect(b"/opt/oomwrap", b"/home/u/.local/bin", doctor(0));
    assert_eq!(inspect.default_tools.len(), 7);
    assert_eq!(
        inspect.text(),
        "oomwrap inspect\n  binary: /opt/oomwrap\n  default bin dir: /home/u/.local/bin\n  default tools: vllm, \
         llama-server, llama-cli, llama-bench, sglang, trtllm-serve, text-generation-launcher\n  defaults: \
         min_mem=24G min_swap=4G poll=1s term_grace=10s\n"
    );
}

#[test]
fn events_carry_what_they_are_given() {
    let mem = MemInfo { mem_available_bytes: 1, swap_free_bytes: 2 };
    let event = Event::new(5, "launched", "run")
        .with_pid(42)
        .with_command(vec!["a".to_string()])
        .with_detail("d".to_string())
        .with_mem(mem)
        .with_exit(-3);
    assert_eq!(
        event,
        Event {
            unix_ms: 5,
            event: "launched".to_string(),
            label: "run".to_string(),
            pid: Some(42),
            command: vec!["a".to_string()],
            detail: Some("d".to_string()),
            mem_available_bytes: Some(1),
            swap_free_bytes: Some(2),
            exit_code: Some(-3),
        }
    );
    let bare = Event::new(5, "a", "b");
    assert_eq!((bare.pid, bare.command.len(), bare.detail, bare.exit_code), (None, 0, None, None));
}

#[test]
fn the_skill_is_asked_for_by_name() {
    assert!(skill_requested(&[bytes("oomwrap"), bytes("--skill"), bytes("list")]));
    assert!(!skill_requested(&[bytes("oomwrap"), bytes("--skills")]));
    assert!(!skill_requested(&[]));
    let root = skills_root(b"/tmp/x");
    assert_eq!(root, b"/tmp/x/.agents/skills");
    let found = skill_file(&root, "agents/openai.yaml").unwrap();
    assert_eq!(
        found,
        SkillFile {
            dir: bytes("/tmp/x/.agents/skills/memory-safe-launch/agents"),
            path: bytes("/tmp/x/.agents/skills/memory-safe-launch/agents/openai.yaml"),
        }
    );
    assert_eq!(
        skill_file(&root, "..").unwrap_err(),
        "embedded skill file has no parent directory"
    );
    let file = SkillFile { dir: bytes("/d"), path: bytes("/d/f") };
    assert_eq!(skill_file_failure(&file, false, "e"), "create embedded skill directory /d: e");
    assert_eq!(skill_file_failure(&file, true, "e"), "write embedded skill file /d/f: e");
    assert_eq!(skill_failure("e"), "error: failed to prepare embedded skills: e");
}

#[test]
fn a_program_that_is_no_text_is_wrapped_and_restored() {
    let before = disk_with("/rt/vllm", Node::Program { id: 7, mode: 0o700 });
    let mut disk = before.clone();
    assert_eq!(carry_out(wrap_job("/rt/vllm", false), &mut disk, &never).0, Ok(0));
    assert_eq!(disk[&bytes("/rt/vllm.real")], Node::Program { id: 7, mode: 0o700 });
    assert!(matches!(disk[&bytes("/rt/vllm")], Node::File { .. }));
    assert_eq!(carry_out(unwrap_job("/rt/vllm"), &mut disk, &never).0, Ok(0));
    assert_eq!(disk, before);

    let mut disk = disk_with("/t", Node::Program { id: 7, mode: 0o644 });
    assert_eq!(
        carry_out(wrap_job("/t", false), &mut disk, &never).0,
        Err("cannot wrap non-executable path: /t".to_string())
    );
}

#[test]
fn a_link_to_a_program_is_moved_as_a_link() {
    let mut before = disk_with("/rt/vllm", Node::Link(bytes("/x")));
    before.insert(bytes("/x"), Node::Program { id: 7, mode: 0o755 });
    let mut disk = before.clone();
    assert_eq!(carry_out(wrap_job("/rt/vllm", false), &mut disk, &never).0, Ok(0));
    assert_eq!(disk[&bytes("/rt/vllm.real")], Node::Link(bytes("/x")));
    assert_eq!(disk[&bytes("/x")], Node::Program { id: 7, mode: 0o755 });
    assert_eq!(carry_out(unwrap_job("/rt/vllm"), &mut disk, &never).0, Ok(0));
    assert_eq!(disk, before);
}

#[test]
fn a_wrapper_is_undone_under_another_spelling() {
    let before = disk_with("/rt/vllm", Node::Program { id: 7, mode: 0o755 });
    for (there, back) in [("/alias/vllm", "/rt/vllm"), ("/rt/vllm", "/alias/vllm"), ("/alias/vllm", "/alias/vllm")] {
        let mut disk = before.clone();
        assert_eq!(carry_out(wrap_job(there, false), &mut disk, &never).0, Ok(0));
        assert_eq!(disk[&bytes("/rt/vllm.real")], Node::Program { id: 7, mode: 0o755 });
        let (result, lines) = carry_out(unwrap_job(back), &mut disk, &never);
        assert_eq!((result, lines), (Ok(0), vec!["unwrapped executable: /rt/vllm".to_string()]));
        assert_eq!(disk, before);
    }
}

#[test]
fn wrapping_takes_seven_replies_and_unwrapping_six() {
    let mut disk = disk_with("/t", Node::Program { id: 7, mode: 0o755 });
    for (mut job, replies) in [(wrap_job("/t", false), 7), (unwrap_job("/t"), 6)] {
        let mut count: i32 = 0;
        while !matches!(job.action(), FileAction::Finish(_)) {
            let (reply, after) = one_reply(&job, &disk);
            disk = after;
            job = job.step(reply);
            count += 1;
        }
        assert_eq!(count, replies);
        assert_eq!(job.action(), FileAction::Finish(Ok(0)));
    }
    assert_eq!(disk, disk_with("/t", Node::Program { id: 7, mode: 0o755 }));
}

/// The reply to the next action of a job on a disk where nothing fails, and the disk after it.
fn one_reply(job: &Job, disk: &Disk) -> (FileReply, Disk) {
    let mut after = disk.clone();
    let reply = match job.action() {
        FileAction::Probe(p) => FileReply::Found(FileProbe {
            exists: disk.contains_key(&p),
            is_file: disk.contains_key(&p),
            content: match disk.get(&p) {
                Some(Node::File { text, .. }) => Some(text.clone()),
                _ => None,
            },
        }),
        FileAction::ReadMode(_) => FileReply::Mode(Ok(0o755)),
        FileAction::CheckEntry(p) => {
            FileReply::Entry(if disk.contains_key(&p) { EntryProbe::Present } else { EntryProbe::Absent })
        }
        FileAction::FindBinary => FileReply::Path(Ok(bytes("/opt/oomwrap"))),
        FileAction::Resolve(p) => FileReply::Path(Ok(p)),
        FileAction::Rename { from, to } => {
            let node = after.remove(&from).unwrap();
            after.insert(to, node);
            FileReply::Done(Ok(()))
        }
        FileAction::Remove(p) => {
            after.remove(&p);
            FileReply::Done(Ok(()))
        }
        FileAction::WriteExecutable { path, content } => {
            after.insert(path, file(&content, 0o755));
            FileReply::Done(Ok(()))
        }
        _ => FileReply::Done(Ok(())),
    };
    (reply, after)
}

#[test]
fn programs_in_the_places_of_shims_are_left_alone() {
    let program = Node::Program { id: 7, mode: 0o755 };
    let mut disk = disk_with("/bin/b", program.clone());
    disk.insert(bytes("/bin"), Node::Directory);
    let (result, _) = carry_out(install_job(&["a", "b"], false), &mut disk, &never);
    assert_eq!(result, Err("refusing to replace non-managed file: /bin/b".to_string()));
    assert_eq!(disk[&bytes("/bin/b")], program);
    assert_eq!(carry_out(uninstall_job(&["a", "b"]), &mut disk, &never).0, Ok(0));
    assert_eq!(disk[&bytes("/bin/b")], program);
    assert!(!disk.contains_key(&bytes("/bin/a")));
}

#[test]
fn a_link_to_the_place_of_a_shim_is_taken_for_it() {
    let mut disk = disk_with("/bin/b", Node::Link(bytes("/bin/a")));
    assert_eq!(carry_out(install_job(&["a", "b"], false), &mut disk, &never).0, Ok(0));
    for tool in ["a", "b"] {
        let script = path_shim_script(tool, "/opt/oomwrap", "8G", "1G");
        assert_eq!(disk[&bytes(&format!("/bin/{tool}"))], file(&script, 0o755));
    }
}

#[test]
fn a_failed_writing_leaves_an_empty_place_empty() {
    for name in ["/d/t", "/d/.t.oomwrap-tmp-9-0", "t", "./t"] {
        let mut writing = write_executable(bytes(name), "text".to_string(), 9);
        let mut made: Vec<Vec<u8>> = Vec::new();
        loop {
            let reply = match writing.action() {
                WriteAction::Finish(result) => {
                    assert!(result.is_err());
                    break;
                }
                WriteAction::Create(p) => {
                    made.push(p);
                    WriteReply::Created(Creation::Created)
                }
                WriteAction::Remove(p) => {
                    assert_eq!(p, made[0]);
                    WriteReply::Done(Err("broken".to_string()))
                }
                _ => WriteReply::Done(Err("broken".to_string())),
            };
            writing = writing.step(reply);
        }
        assert_eq!(made.len(), 1);
        assert_ne!(made[0], bytes(name));
    }
}

#[test]
fn names_that_are_not_utf8_have_temporary_files_too() {
    let writing = write_executable(b"/d/a\xff".to_vec(), "text".to_string(), 9);
    assert_eq!(writing.action(), WriteAction::Create(bytes("/d/.a\u{fffd}.oomwrap-tmp-9-0")));
}

#[test]
fn a_link_to_a_shim_is_replaced_by_a_shim() {
    let shim = path_shim_script("x", "/opt/oomwrap", "1G", "1G");
    let mut disk = disk_with("/bin/a", Node::Link(bytes("/elsewhere/x")));
    disk.insert(bytes("/elsewhere/x"), file(&shim, 0o755));
    assert_eq!(carry_out(install_job(&["a", "b"], false), &mut disk, &never).0, Ok(0));
    assert_eq!(disk[&bytes("/elsewhere/x")], file(&shim, 0o755));
    assert_eq!(disk[&bytes("/bin/a")], file(&path_shim_script("a", "/opt/oomwrap", "8G", "1G"), 0o755));
}

#[test]
fn a_refused_installation_stops_where_it_is() {
    let mut disk = disk_with("/bin/b", Node::Program { id: 7, mode: 0o755 });
    disk.insert(bytes("/bin/c"), file(&path_shim_script("c", "/old", "1G", "1G"), 0o755));
    let before = disk.clone();
    assert!(carry_out(install_job(&["a", "b", "c"], false), &mut disk, &never).0.is_err());
    assert_eq!(disk[&bytes("/bin/a")], file(&path_shim_script("a", "/opt/oomwrap", "8G", "1G"), 0o755));
    for place in ["/bin/b", "/bin/c"] {
        assert_eq!(disk[&bytes(place)], before[&bytes(place)]);
    }
}
