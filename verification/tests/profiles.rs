use oomwrap::process::{
    checked_process_list, command_invokes_executable, command_strings, disk_available, earlyoom_active,
    known_high_memory_processes, parse_process_group_id, pending_shutdown_signal, process_group_exists,
    process_group_member_pids, process_list, process_list_overflows, read_cmdline, read_rss_bytes, rss_overflows,
    status_to_code, GroupProbe, ProcEntry, ProcessInfo, RssError, StatEntry, StatError,
};
use oomwrap::signal::{signal_process_group, SignalAction, SignalReply};
use oomwrap::profile::{command_runs_module, detect_profile, effective_profile, is_python_executable, Profile};

#[test]
fn detects_profiles() {
    assert_eq!(detect_profile(&["vllm".into()]), Some(Profile::Vllm));
    assert_eq!(detect_profile(&["api_server".into()]), Some(Profile::Vllm));
    assert_eq!(detect_profile(&["gpu_worker".into()]), Some(Profile::Vllm));
    assert_eq!(
        detect_profile(&["python".into(), "-m".into(), "vllm".into()]),
        Some(Profile::Vllm)
    );
    assert_eq!(
        detect_profile(&["python3.11".into(), "-m".into(), "vllm".into()]),
        Some(Profile::Vllm)
    );
    assert_eq!(
        detect_profile(&[
            "python3".into(),
            "-m".into(),
            "vllm.entrypoints.openai.api_server".into()
        ]),
        Some(Profile::Vllm)
    );
    assert_eq!(
        detect_profile(&["/tmp/vllm.real".into()]),
        Some(Profile::Vllm)
    );
    assert_eq!(
        detect_profile(&["/usr/bin/llama-server".into()]),
        Some(Profile::LlamaCpp)
    );
    assert_eq!(
        detect_profile(&["llama-cli".into()]),
        Some(Profile::LlamaCpp)
    );
    assert_eq!(
        detect_profile(&["llama-bench".into()]),
        Some(Profile::LlamaCpp)
    );
    assert_eq!(detect_profile(&["sglang".into()]), Some(Profile::Sglang));
    assert_eq!(
        detect_profile(&["python3".into(), "-m".into(), "sglang".into()]),
        Some(Profile::Sglang)
    );
    assert_eq!(
        detect_profile(&["python3".into(), "-m".into(), "sglang.launch_server".into()]),
        Some(Profile::Sglang)
    );
    assert_eq!(
        detect_profile(&["python3".into(), "-m".into(), "other".into()]),
        None
    );
    assert_eq!(
        detect_profile(&["python3".into(), "script.py".into(), "vllm".into()]),
        None
    );
    assert_eq!(
        detect_profile(&["trtllm-serve".into()]),
        Some(Profile::Trtllm)
    );
    assert_eq!(
        detect_profile(&["/opt/TensorRT-LLM/server".into()]),
        Some(Profile::Trtllm)
    );
    assert_eq!(
        detect_profile(&["text-generation-launcher".into()]),
        Some(Profile::Tgi)
    );
    assert_eq!(detect_profile(&["echo".into()]), None);
}

#[test]
fn profile_requirements_are_conservative() {
    assert!(Profile::Vllm.requires_earlyoom());
    assert!(Profile::LlamaCpp.requires_earlyoom());
    assert!(Profile::Sglang.requires_earlyoom());
    assert!(Profile::Trtllm.requires_earlyoom());
    assert!(Profile::Tgi.requires_earlyoom());
    assert!(!Profile::Generic.requires_earlyoom());
    assert_eq!(
        effective_profile(Profile::Generic, &["vllm".into()]),
        Profile::Generic
    );
    assert_eq!(
        effective_profile(Profile::Auto, &["vllm".into()]),
        Profile::Vllm
    );
}

#[test]
fn command_and_proc_helpers_parse_expected_shapes() {
    let command = command_strings(&[b"vllm".to_vec(), b"serve".to_vec()]);
    assert_eq!(command, vec!["vllm".to_string(), "serve".to_string()]);
    assert!(command_invokes_executable("/usr/bin/earlyoom -m 5", "earlyoom"));
    assert!(command_invokes_executable("earlyoom -m 5", "earlyoom"));
    assert!(!command_invokes_executable("oomwrap run --require-earlyoom", "earlyoom"));
    assert!(!command_invokes_executable("python3 -c 'earlyoom'", "earlyoom"));

    assert_eq!(read_cmdline(b"vllm\0serve\0"), "vllm serve");
    assert_eq!(
        read_rss_bytes("Name:\tvllm\nVmRSS:\t42 kB\nState:\tS\n").unwrap(),
        Some(42 * 1024)
    );
    assert_eq!(parse_process_group_id("123 (vllm worker) S 1 456 456 0\n").unwrap(), 456);
    assert_eq!(
        parse_process_group_id("123 (name with spaces) S 1 789 789 0").unwrap(),
        789
    );
}

#[test]
fn an_unknown_or_empty_command_is_generic() {
    assert_eq!(detect_profile(&[]), None);
    assert_eq!(effective_profile(Profile::Auto, &[]), Profile::Generic);
    assert_eq!(effective_profile(Profile::Auto, &["echo".into()]), Profile::Generic);
    assert_eq!(Profile::LlamaCpp.name(), "LlamaCpp");
}

#[test]
fn the_ending_of_a_wrapped_program_keeps_its_profile() {
    for name in ["vllm", "llama-cli", "sglang", "trtllm-serve", "text-generation-launcher", "echo"] {
        let plain = detect_profile(&[format!("/opt/bin/{}", name)]);
        let kept = detect_profile(&[format!("/opt/bin/{}.real", name)]);
        assert_eq!(plain, kept);
    }
}

#[test]
fn python_programs_and_modules_are_told_apart() {
    for name in ["python", "python3", "python3.11", "python."] {
        assert!(is_python_executable(name));
    }
    for name in ["", "pytho", "python-config", "python3x", "xpython"] {
        assert!(!is_python_executable(name));
    }
    let command: Vec<String> = vec!["python".into(), "-m".into(), "vllm.x".into()];
    assert!(command_runs_module(&command, "vllm"));
    assert!(!command_runs_module(&command, "vll"));
    assert!(!command_runs_module(&command[..2], "vllm"));
}

#[test]
fn names_agree_with_the_standard_library() {
    for p in [
        "", "/", "a", "a/", "a//", "/a", "/a/b", "a/.", "a/./", "./a", ".", "..", "a/..", "../a", "./", "//a//b//",
        "a/b/./.", "/.", "/..", "./.", "a.real", ".real", "x/.real/", "\u{e9}/\u{e9}.real", "a/./b", "a/b/../c",
    ] {
        let expected = std::path::Path::new(p).file_name().and_then(|n| n.to_str());
        let chars = oomwrap::text::to_chars(p);
        let ours: Option<String> = oomwrap::path::name_of(&chars).map(|n| n.iter().collect());
        assert_eq!(ours.as_deref(), expected, "{}", p);
        let place = oomwrap::path::split_place(p.as_bytes());
        assert_eq!(place.as_ref().map(|(_, n)| n.as_slice()), expected.map(|n| n.as_bytes()), "{}", p);
        if let Some((dir, _)) = place {
            let parent = std::path::Path::new(p).parent().and_then(|n| n.to_str()).unwrap();
            assert_eq!(dir, parent.as_bytes(), "{}", p);
        }
        for q in ["x", "", "/x", "./y", "a/b"] {
            let joined = std::path::Path::new(p).join(q);
            assert_eq!(oomwrap::path::join(p.as_bytes(), q.as_bytes()), joined.to_str().unwrap().as_bytes());
        }
    }
}

#[test]
fn bytes_that_are_not_text_are_replaced() {
    for bytes in [&b"abc"[..], b"\xff\xfe", b"a\xc3\xa9\xc3", b"\xf0\x9f\x98\x80\x80", b""] {
        assert_eq!(
            command_strings(&[bytes.to_vec()]),
            vec![String::from_utf8_lossy(bytes).into_owned()]
        );
    }
    assert_eq!(read_cmdline(b"\0\0a\0\0b\xff\0c"), "a b\u{fffd} c");
    assert_eq!(read_cmdline(b""), "");
}

#[test]
fn stat_lines_are_checked() {
    for (line, error, words) in [
        ("123 comm", StatError::NoCommand, "missing process command in stat"),
        ("1 (a)", StatError::NoState, "missing process state in stat"),
        ("1 (a) S", StatError::NoParent, "missing parent pid in stat"),
        ("1 (a) S 1", StatError::NoGroup, "missing process group id in stat"),
    ] {
        assert_eq!(parse_process_group_id(line), Err(error));
        assert_eq!(parse_process_group_id(line).unwrap_err().message(), words);
    }
    assert_eq!(
        parse_process_group_id("1 (a) S 1 x").unwrap_err().message(),
        "invalid process group id in stat: invalid digit found in string"
    );
    assert_eq!(parse_process_group_id("1 (a) b) S 1 -5"), Ok(-5));
}

#[test]
fn resident_memory_is_read_from_its_line() {
    assert_eq!(read_rss_bytes("Name: x\n"), Ok(None));
    assert_eq!(read_rss_bytes("VmRSS:\n"), Err(RssError::NoValue));
    assert_eq!(read_rss_bytes("VmRSS:\n").unwrap_err().message(), "missing VmRSS value");
    assert_eq!(
        read_rss_bytes("VmRSS: x kB\n").unwrap_err().message(),
        "invalid digit found in string"
    );
    assert!(rss_overflows("VmRSS: 18014398509481984 kB\n"));
    assert!(!rss_overflows("VmRSS: 18014398509481983 kB\n"));
}

#[test]
fn group_members_are_those_whose_stat_names_the_group() {
    let entries = vec![
        StatEntry { name: Some("10".into()), stat: Some("10 (a) S 1 7".into()) },
        StatEntry { name: Some("11".into()), stat: Some("11 (a) S 1 8".into()) },
        StatEntry { name: Some("meminfo".into()), stat: Some("12 (a) S 1 7".into()) },
        StatEntry { name: None, stat: Some("12 (a) S 1 7".into()) },
        StatEntry { name: Some("13".into()), stat: None },
        StatEntry { name: Some("14".into()), stat: Some("14 (a) S 1 7 7".into()) },
    ];
    assert_eq!(process_group_member_pids(&entries, 7), vec![10, 14]);
    assert!(process_group_exists(GroupProbe::Reached, &None));
    assert!(process_group_exists(GroupProbe::OtherError, &None));
    assert!(!process_group_exists(GroupProbe::NoSuchProcess, &None));
    assert!(!process_group_exists(GroupProbe::NoSuchProcess, &Some(vec![])));
    assert!(process_group_exists(GroupProbe::NoSuchProcess, &Some(vec![10])));
}

/// Sends a signal to a group that is reached or not, with members that are reached or not.
fn send(group: bool, members: Option<Vec<(i32, bool)>>) -> (bool, Vec<SignalAction>) {
    let mut sending = signal_process_group();
    let mut actions = Vec::new();
    loop {
        let action = sending.action();
        actions.push(action);
        let reply = match action {
            SignalAction::SignalGroup => SignalReply::Sent(group),
            SignalAction::ListMembers => {
                SignalReply::Listed(members.as_ref().map(|m| m.iter().map(|(pid, _)| *pid).collect()))
            }
            SignalAction::SignalMember(pid) => {
                SignalReply::Sent(members.as_ref().unwrap().iter().any(|m| *m == (pid, true)))
            }
            SignalAction::Finish(reached) => return (reached, actions),
        };
        sending = sending.step(reply);
    }
}

#[test]
fn members_are_signalled_where_the_group_is_not_reached() {
    assert_eq!(
        send(true, Some(vec![(10, true)])),
        (true, vec![SignalAction::SignalGroup, SignalAction::Finish(true)])
    );
    let (reached, actions) = send(false, Some(vec![(10, true), (14, false)]));
    assert!(reached);
    assert_eq!(
        actions,
        vec![
            SignalAction::SignalGroup,
            SignalAction::ListMembers,
            SignalAction::SignalMember(10),
            SignalAction::SignalMember(14),
            SignalAction::Finish(true),
        ]
    );
    assert!(!send(false, Some(vec![(10, false)])).0);
    assert!(!send(false, Some(vec![])).0);
    assert!(!send(false, None).0);
}

#[test]
fn exit_codes_and_signals() {
    assert_eq!(status_to_code(Some(7), None), 7);
    assert_eq!(status_to_code(None, Some(15)), 143);
    assert_eq!(status_to_code(None, None), 1);
    assert_eq!(pending_shutdown_signal(0), None);
    assert_eq!(pending_shutdown_signal(15), Some(15));
    assert_eq!(disk_available(5, 4096), 20480);
}

#[test]
fn listed_processes_have_a_number_and_a_command() {
    let entries = vec![
        ProcEntry { name: Some("1".into()), cmdline: Some(b"init\0".to_vec()), status: None },
        ProcEntry { name: Some("2".into()), cmdline: Some(b"".to_vec()), status: None },
        ProcEntry { name: Some("3".into()), cmdline: None, status: None },
        ProcEntry { name: Some("x".into()), cmdline: Some(b"a\0".to_vec()), status: None },
        ProcEntry {
            name: Some("4".into()),
            cmdline: Some(b"/opt/VLLM\0serve\0".to_vec()),
            status: Some("VmRSS: 2 kB\n".into()),
        },
    ];
    let list = process_list(&entries);
    assert_eq!(list.len(), 2);
    assert_eq!((list[0].pid, list[0].command.as_str(), list[0].rss_bytes), (1, "init", None));
    assert_eq!((list[1].pid, list[1].command.as_str(), list[1].rss_bytes), (4, "/opt/VLLM serve", Some(2048)));
    assert_eq!(checked_process_list(&entries).unwrap().len(), 2);
    let known = known_high_memory_processes(list, 1);
    assert_eq!(known.len(), 1);
    assert_eq!(known[0].pid, 4);
}

#[test]
fn memory_too_large_to_count_is_noticed_for_listed_processes() {
    let entry = |name: &str| ProcEntry {
        name: Some(name.to_string()),
        cmdline: Some(b"a\0".to_vec()),
        status: Some("VmRSS: 18014398509481984 kB\n".to_string()),
    };
    assert!(checked_process_list(&[entry("1")]).is_none());
    assert!(process_list_overflows(&[entry("1")]));
    assert_eq!(checked_process_list(&[entry("x")]).unwrap().len(), 0);
}

#[test]
fn earlyoom_is_active_where_set_or_running() {
    let process = |pid: u32, command: &str| ProcessInfo { pid, command: command.to_string(), rss_bytes: None };
    for value in ["1", "true", "yes", "on"] {
        assert!(earlyoom_active(&Some(value.to_string()), &[], 1));
    }
    for value in ["", "0", "TRUE", "off"] {
        assert!(!earlyoom_active(&Some(value.to_string()), &[process(2, "earlyoom")], 1));
    }
    assert!(earlyoom_active(&None, &[process(2, "/usr/bin/earlyoom -r 60")], 1));
    assert!(!earlyoom_active(&None, &[process(1, "earlyoom")], 1));
    assert!(!earlyoom_active(&None, &[process(2, "grep earlyoom")], 1));
}
