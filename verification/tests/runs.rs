use oomwrap::duration::Duration;
use oomwrap::guard::{run_guard, settings_for, Action, ExitStatus, Guard, Reply, RunArgs};
use oomwrap::meminfo::MemInfo;
use oomwrap::profile::Profile;
use oomwrap::stop::{terminate_process_group, Stop, StopAction, StopReply};
use oomwrap::terminal::{
    handoff_to_child, with_sigttou_blocked, ErrorKind, HandOff, HandOffReply, SystemError, TerminalForeground,
};
use oomwrap::wait::{sleep_until_poll_signal_or_child, WaitAction, WaitReply};

const GIB: u64 = 1 << 30;

fn args(command: &[&str]) -> RunArgs {
    RunArgs {
        profile: Profile::Auto,
        min_mem: "2G".to_string(),
        min_swap: "1G".to_string(),
        poll: "50ms".to_string(),
        term_grace: "3s".to_string(),
        require_earlyoom: false,
        allow_no_earlyoom: false,
        use_systemd_scope: false,
        memory_high: None,
        memory_max: None,
        command: command.iter().map(|arg| arg.as_bytes().to_vec()).collect(),
    }
}

fn mem(available: u64, swap: u64) -> Reply {
    Reply::Memory(Ok(MemInfo { mem_available_bytes: available, swap_free_bytes: swap }))
}

fn ok() -> Reply {
    Reply::Done(Ok(()))
}

fn fault(words: &str) -> Reply {
    Reply::Done(Err(words.to_string()))
}

fn give(guard: Guard, reply: Reply) -> Guard {
    assert!(guard.accepts(&reply), "{:?} for {:?}", reply, guard.action());
    guard.step(reply, 77)
}

fn event(action: &Action) -> (String, String, Option<String>) {
    match action {
        Action::Log(e) | Action::LogAfterLaunch(e) => {
            assert_eq!(e.unix_ms, 77);
            (e.event.clone(), e.label.clone(), e.detail.clone())
        }
        other => panic!("no event: {:?}", other),
    }
}

/// A run up to the point at which the child, with number 42, is watched.
fn launched(args: &RunArgs, given: bool) -> Guard {
    let mut guard = run_guard(args).ok().unwrap();
    assert_eq!(*guard.action(), Action::OpenLog);
    guard = give(guard, ok());
    assert_eq!(event(guard.action()).0, "preflight");
    guard = give(guard, ok());
    if *guard.action() == Action::AskEarlyoom {
        guard = give(guard, Reply::Earlyoom(Ok(true)));
    }
    guard = give(guard, mem(2 * GIB, GIB));
    assert_eq!(*guard.action(), Action::WatchSignals);
    guard = give(guard, ok());
    assert_eq!(*guard.action(), Action::Spawn);
    guard = give(guard, Reply::Spawned(Ok(42)));
    assert_eq!(*guard.action(), Action::HandOff { pgid: 42 });
    guard = give(guard, Reply::HandedOff(Ok(given)));
    assert_eq!(event(guard.action()).0, "launched");
    give(guard, ok())
}

fn quiet_round(guard: Guard) -> Guard {
    assert_eq!(*guard.action(), Action::PollSignal);
    let guard = give(guard, Reply::Signal(None));
    assert_eq!(*guard.action(), Action::PollChild);
    let guard = give(guard, Reply::Child(Ok(None)));
    assert_eq!(*guard.action(), Action::ReadMemory);
    let guard = give(guard, mem(2 * GIB, GIB));
    assert_eq!(*guard.action(), Action::WaitForPoll(Duration::from_millis(50)));
    guard
}

fn terminate() -> Action {
    Action::Terminate { pgid: 42, grace: Duration::from_secs(3) }
}

fn print(line: &str) -> Action {
    Action::Print(line.to_string())
}

#[test]
fn arguments_are_checked_in_order() {
    let words = |args: &RunArgs| run_guard(args).err().unwrap().message();
    let scope = "systemd scope support is planned but not implemented in this release";
    let mut a = args(&["true"]);
    a.use_systemd_scope = true;
    a.min_mem = "x".to_string();
    assert_eq!(words(&a), scope);
    let mut a = args(&["true"]);
    a.memory_high = Some("1G".to_string());
    assert_eq!(words(&a), scope);
    let mut a = args(&["true"]);
    a.memory_max = Some("1G".to_string());
    assert_eq!(words(&a), scope);
    let mut a = args(&["true"]);
    a.min_mem = "5X".to_string();
    a.min_swap = "".to_string();
    assert_eq!(words(&a), "invalid --min-mem: unknown size unit: x");
    a.min_mem = "5".to_string();
    a.poll = "-1".to_string();
    assert_eq!(words(&a), "invalid --min-swap: size cannot be empty");
    a.min_swap = "1".to_string();
    a.term_grace = "inf".to_string();
    assert_eq!(words(&a), "invalid --poll: duration must be a non-negative finite number");
    a.poll = "1".to_string();
    assert_eq!(words(&a), "invalid --term-grace: duration must be a non-negative finite number");
}

#[test]
fn settings_follow_the_command() {
    let mut a = args(&[]);
    let settings = settings_for(&a, vec!["vllm".to_string()]).ok().unwrap();
    assert_eq!(settings.profile, Profile::Vllm);
    assert!(settings.require_earlyoom);
    assert_eq!(settings.min_mem_bytes, 2 * GIB);
    assert_eq!(settings.min_swap_bytes, GIB);
    assert_eq!(settings.poll, Duration::from_millis(50));
    assert_eq!(settings.term_grace, Duration::from_secs(3));
    assert_eq!(settings.command, vec!["vllm".to_string()]);
    a.allow_no_earlyoom = true;
    assert!(!settings_for(&a, vec!["vllm".to_string()]).ok().unwrap().require_earlyoom);
    a.require_earlyoom = true;
    assert!(settings_for(&a, vec!["echo".to_string()]).ok().unwrap().require_earlyoom);
    let b = args(&[]);
    assert!(!settings_for(&b, vec!["echo".to_string()]).ok().unwrap().require_earlyoom);
    let mut b = args(&[]);
    b.profile = Profile::Tgi;
    assert!(settings_for(&b, vec!["echo".to_string()]).ok().unwrap().require_earlyoom);
}

#[test]
fn a_missing_earlyoom_is_refused_with_3() {
    let mut guard = run_guard(&args(&["/opt/vllm", "serve"])).ok().unwrap();
    guard = give(guard, ok());
    guard = give(guard, ok());
    assert_eq!(*guard.action(), Action::AskEarlyoom);
    guard = give(guard, Reply::Earlyoom(Ok(false)));
    assert_eq!(
        event(guard.action()),
        ("refused".to_string(), "earlyoom".to_string(), Some("earlyoom is required but not active".to_string()))
    );
    if let Action::Log(e) = guard.action() {
        assert_eq!(e.command, vec!["/opt/vllm".to_string(), "serve".to_string()]);
    }
    guard = give(guard, ok());
    assert_eq!(*guard.action(), print("refusing to launch: earlyoom is required for profile Vllm"));
    guard = give(guard, ok());
    assert_eq!(*guard.action(), Action::Finish(Ok(3)));
}

#[test]
fn an_unmet_floor_is_refused_with_4() {
    let mut guard = run_guard(&args(&["echo"])).ok().unwrap();
    guard = give(guard, ok());
    guard = give(guard, ok());
    guard = give(guard, mem(2 * GIB - 1, GIB));
    assert_eq!(event(guard.action()).1, "memory");
    assert_eq!(event(guard.action()).2.unwrap(), "MemAvailable is below the configured floor");
    if let Action::Log(e) = guard.action() {
        assert_eq!(e.mem_available_bytes, Some(2 * GIB - 1));
        assert_eq!(e.swap_free_bytes, Some(GIB));
        assert_eq!((e.pid, e.exit_code), (None, None));
    }
    guard = give(guard, ok());
    assert_eq!(*guard.action(), print("refusing to launch: MemAvailable 2.0GiB is below floor 2.0GiB"));
    guard = give(guard, ok());
    assert_eq!(*guard.action(), Action::Finish(Ok(4)));

    let mut guard = run_guard(&args(&["echo"])).ok().unwrap();
    guard = give(guard, ok());
    guard = give(guard, ok());
    guard = give(guard, mem(2 * GIB, 512 << 20));
    assert_eq!(event(guard.action()).1, "swap");
    assert_eq!(event(guard.action()).2.unwrap(), "SwapFree is below the configured floor");
    guard = give(guard, ok());
    assert_eq!(*guard.action(), print("refusing to launch: SwapFree 512.0MiB is below floor 1.0GiB"));
    guard = give(guard, ok());
    assert_eq!(*guard.action(), Action::Finish(Ok(4)));
}

#[test]
fn failures_before_the_launch_end_the_run() {
    let end = |guard: &Guard, words: &str| {
        assert_eq!(*guard.action(), Action::Finish(Err(words.to_string())));
    };
    let new = || run_guard(&args(&["vllm"])).ok().unwrap();
    end(&give(new(), fault("no log")), "no log");
    end(&give(give(new(), ok()), fault("full")), "full");
    let asked = || give(give(new(), ok()), ok());
    end(&give(asked(), Reply::Earlyoom(Err("no proc".to_string()))), "no proc");
    end(&give(give(asked(), Reply::Earlyoom(Ok(false))), fault("full")), "full");
    let measured = || give(asked(), Reply::Earlyoom(Ok(true)));
    end(&give(measured(), Reply::Memory(Err("no meminfo".to_string()))), "no meminfo");
    let ready = || give(measured(), mem(2 * GIB, GIB));
    end(&give(ready(), fault("no signals")), "no signals");
    end(&give(give(ready(), ok()), Reply::Spawned(Err("not found".to_string()))), "not found");
}

#[test]
fn memory_that_equals_the_floors_is_enough() {
    let guard = launched(&args(&["echo"]), false);
    let guard = quiet_round(guard);
    let guard = give(guard, Reply::Child(Ok(None)));
    quiet_round(guard);
}

#[test]
fn a_child_that_exits_gives_its_code() {
    let guard = launched(&args(&["echo"]), true);
    let guard = give(guard, Reply::Signal(None));
    let guard = give(guard, Reply::Child(Ok(Some(ExitStatus { code: Some(7), signal: None }))));
    if let Action::LogAfterLaunch(e) = guard.action() {
        assert_eq!((e.event.as_str(), e.pid, e.exit_code), ("child_exit", Some(42), Some(7)));
    } else {
        panic!("{:?}", guard.action());
    }
    let guard = give(guard, ok());
    assert_eq!(*guard.action(), Action::CheckGroup { pgid: 42 });
    let guard = give(guard, Reply::Group(true));
    assert_eq!(
        event(guard.action()).2.unwrap(),
        "leader exited while process group still had running members"
    );
    let guard = give(guard, ok());
    assert_eq!(*guard.action(), Action::RestoreTerminal);
    let guard = give(guard, ok());
    assert_eq!(*guard.action(), terminate());
    let guard = give(guard, ok());
    assert_eq!(*guard.action(), Action::Finish(Ok(7)));
}

#[test]
fn a_child_that_ends_by_a_signal_during_the_wait_gives_128_and_the_signal() {
    let guard = quiet_round(launched(&args(&["echo"]), false));
    let guard = give(guard, Reply::Child(Ok(Some(ExitStatus { code: None, signal: Some(15) }))));
    let guard = give(guard, ok());
    let guard = give(guard, Reply::Group(false));
    assert_eq!(*guard.action(), terminate());
    let guard = give(guard, ok());
    assert_eq!(*guard.action(), Action::Finish(Ok(143)));
}

#[test]
fn pressure_stops_the_group_with_137() {
    let guard = launched(&args(&["echo"]), true);
    let guard = give(guard, Reply::Signal(None));
    let guard = give(guard, Reply::Child(Ok(None)));
    let guard = give(guard, mem(GIB, 0));
    assert_eq!(*guard.action(), Action::RestoreTerminal);
    let guard = give(guard, ok());
    assert_eq!(event(guard.action()).0, "memory_pressure_kill");
    assert_eq!(event(guard.action()).2.unwrap(), "MemAvailable 1.0GiB below floor 2.0GiB");
    let guard = give(guard, ok());
    assert_eq!(
        *guard.action(),
        print("memory pressure: MemAvailable 1.0GiB below floor 2.0GiB; terminating process group 42")
    );
    let guard = give(guard, ok());
    assert_eq!(*guard.action(), terminate());
    let guard = give(guard, ok());
    assert_eq!(*guard.action(), Action::Reap);
    let guard = give(guard, ok());
    assert_eq!(*guard.action(), Action::Finish(Ok(137)));
}

#[test]
fn swap_pressure_is_reported_as_such() {
    let guard = launched(&args(&["echo"]), false);
    let guard = give(guard, Reply::Signal(None));
    let guard = give(guard, Reply::Child(Ok(None)));
    let guard = give(guard, mem(2 * GIB, 5));
    assert_eq!(event(guard.action()).2.unwrap(), "SwapFree 5B below floor 1.0GiB");
}

#[test]
fn a_signal_stops_the_group() {
    let guard = launched(&args(&["echo"]), false);
    let guard = give(guard, Reply::Signal(Some(15)));
    assert_eq!(event(guard.action()).0, "parent_signal_kill");
    assert_eq!(event(guard.action()).2.unwrap(), "received signal 15");
    let guard = give(guard, ok());
    assert_eq!(*guard.action(), print("received signal 15; terminating process group 42"));
    let guard = give(give(give(guard, ok()), ok()), ok());
    assert_eq!(*guard.action(), Action::Finish(Ok(143)));
}

#[test]
fn an_error_after_the_launch_cleans_up() {
    let guard = launched(&args(&["echo"]), true);
    let guard = give(guard, Reply::Signal(None));
    let guard = give(guard, Reply::Child(Ok(None)));
    let guard = give(guard, Reply::Memory(Err("failed to read x: gone".to_string())));
    assert_eq!(*guard.action(), Action::RestoreTerminal);
    let guard = give(guard, ok());
    assert_eq!(
        *guard.action(),
        print("guard error after launch: failed to read x: gone; terminating process group 42")
    );
    let guard = give(guard, ok());
    assert_eq!(*guard.action(), terminate());
    let guard = give(give(guard, ok()), ok());
    assert_eq!(*guard.action(), Action::Finish(Err("failed to read x: gone".to_string())));
}

#[test]
fn a_failed_hand_off_cleans_up_without_a_terminal() {
    let mut guard = run_guard(&args(&["echo"])).ok().unwrap();
    for reply in [ok(), ok(), mem(2 * GIB, GIB), ok(), Reply::Spawned(Ok(42))] {
        guard = give(guard, reply);
    }
    guard = give(guard, Reply::HandedOff(Err("tty".to_string())));
    assert_eq!(*guard.action(), print("guard error after launch: tty; terminating process group 42"));
}

#[test]
fn failures_while_stopping_are_warned_of() {
    let guard = launched(&args(&["echo"]), true);
    let guard = give(guard, Reply::Signal(Some(2)));
    let guard = give(guard, fault("no tty"));
    assert_eq!(*guard.action(), print("warning: no tty"));
    let guard = give(guard, ok());
    let guard = give(guard, fault("disk full"));
    assert_eq!(*guard.action(), print("warning: failed to write event log after launch: disk full"));
    let guard = give(guard, ok());
    assert_eq!(*guard.action(), print("received signal 2; terminating process group 42"));
    let guard = give(give(guard, ok()), ok());
    assert_eq!(*guard.action(), Action::Reap);
    let guard = give(guard, fault("ignored"));
    assert_eq!(*guard.action(), Action::ReleaseTerminal);
    let guard = give(guard, fault("no tty"));
    assert_eq!(*guard.action(), print("warning: no tty"));
    let guard = give(guard, ok());
    assert_eq!(*guard.action(), Action::Finish(Ok(130)));
}

#[test]
fn a_stop_on_which_everything_fails_is_over_after_ten_actions() {
    let guard = launched(&args(&["echo"]), true);
    let guard = give(guard, Reply::Signal(None));
    let mut guard = give(guard, Reply::Child(Ok(Some(ExitStatus { code: Some(1), signal: None }))));
    let mut count: usize = 0;
    let mut stops: usize = 0;
    loop {
        let reply = match guard.action() {
            Action::Finish(result) => {
                assert_eq!(*result, Ok(1));
                break;
            }
            Action::CheckGroup { .. } => Reply::Group(true),
            Action::Terminate { .. } => {
                stops += 1;
                fault("failed")
            }
            Action::Spawn => panic!("launched again"),
            _ => fault("failed"),
        };
        count += 1;
        guard = give(guard, reply);
    }
    assert_eq!((count, stops), (10, 1));
}

#[test]
fn replies_that_do_not_fit_are_not_accepted() {
    let guard = run_guard(&args(&["echo"])).ok().unwrap();
    assert!(!guard.accepts(&Reply::Group(true)));
    assert!(guard.accepts(&ok()));
    let guard = launched(&args(&["echo"]), false);
    assert!(!guard.accepts(&Reply::Signal(Some(i32::MAX))));
    assert!(guard.accepts(&Reply::Signal(Some(i32::MAX - 128))));
    let guard = give(guard, Reply::Signal(None));
    let status = ExitStatus { code: None, signal: Some(i32::MAX) };
    assert!(!guard.accepts(&Reply::Child(Ok(Some(status)))));
}

#[test]
fn large_process_numbers_wrap_as_groups() {
    let mut guard = run_guard(&args(&["echo"])).ok().unwrap();
    for reply in [ok(), ok(), mem(2 * GIB, GIB), ok()] {
        guard = give(guard, reply);
    }
    guard = give(guard, Reply::Spawned(Ok(u32::MAX)));
    assert_eq!(*guard.action(), Action::HandOff { pgid: -1 });
}

fn pass(stop: Stop, reply: StopReply) -> Stop {
    stop.step(reply)
}

fn elapsed(millis: u64) -> StopReply {
    StopReply::Elapsed(Duration::from_millis(millis))
}

#[test]
fn a_group_that_follows_the_request_is_not_killed() {
    let stop = terminate_process_group(Duration::from_secs(3));
    assert_eq!(stop.action, StopAction::SendTerm);
    let stop = pass(stop, StopReply::Done);
    assert_eq!(stop.action, StopAction::Look);
    let stop = pass(stop, StopReply::Group(true));
    assert_eq!(stop.action, StopAction::ReadClock);
    let stop = pass(stop, elapsed(1));
    assert_eq!(stop.action, StopAction::Sleep(Duration::from_millis(20)));
    let stop = pass(pass(stop, StopReply::Done), StopReply::Group(false));
    assert_eq!(stop.action, StopAction::Done);
}

#[test]
fn a_group_that_stays_is_killed_after_its_time() {
    let stop = terminate_process_group(Duration::from_millis(30));
    let stop = pass(pass(pass(stop, StopReply::Done), StopReply::Group(true)), elapsed(25));
    assert_eq!(stop.action, StopAction::Sleep(Duration::from_millis(5)));
    let stop = pass(pass(pass(stop, StopReply::Done), StopReply::Group(true)), elapsed(30));
    assert_eq!(stop.action, StopAction::SendKill);
    let stop = pass(stop, StopReply::Done);
    assert_eq!(stop.action, StopAction::ReadClock);
    let stop = pass(pass(stop, elapsed(0)), StopReply::Group(true));
    assert_eq!(stop.action, StopAction::Sleep(Duration::from_millis(20)));
    let stop = pass(pass(stop, StopReply::Done), elapsed(1000));
    assert_eq!(stop.action, StopAction::Reap);
    assert_eq!(pass(stop, StopReply::Done).action, StopAction::Done);
}

#[test]
fn a_killed_group_that_is_gone_is_done() {
    let stop = terminate_process_group(Duration::from_secs(0));
    let stop = pass(pass(pass(stop, StopReply::Done), StopReply::Group(true)), elapsed(0));
    assert_eq!(stop.action, StopAction::SendKill);
    let stop = pass(pass(stop, StopReply::Done), elapsed(999));
    assert_eq!(stop.action, StopAction::Look);
    assert_eq!(pass(stop, StopReply::Group(false)).action, StopAction::Done);
}

#[test]
fn a_group_that_never_appears_is_given_up() {
    let stop = terminate_process_group(Duration::from_secs(3));
    let stop = pass(pass(pass(stop, StopReply::Done), StopReply::Group(false)), elapsed(95));
    assert_eq!(stop.action, StopAction::Sleep(Duration::from_millis(5)));
    let stop = pass(pass(pass(stop, StopReply::Done), StopReply::Group(false)), elapsed(100));
    assert_eq!(stop.action, StopAction::Done);
}

#[test]
fn a_huge_grace_time_is_waited_in_short_pauses() {
    let stop = terminate_process_group(Duration::from_secs(u64::MAX));
    let stop = pass(pass(pass(stop, StopReply::Done), StopReply::Group(true)), elapsed(1));
    assert_eq!(stop.action, StopAction::Sleep(Duration::from_millis(20)));
}

#[test]
fn a_wait_ends_with_the_time_a_signal_or_the_child() {
    let new = || sleep_until_poll_signal_or_child(Duration::from_millis(150));
    assert_eq!(new().action, WaitAction::PollSignal);
    assert_eq!(new().step(WaitReply::Signal(Some(2))).action, WaitAction::Done(Ok(None)));
    let looking = || new().step(WaitReply::Signal(None));
    assert_eq!(looking().action, WaitAction::PollChild);
    let status = ExitStatus { code: Some(0), signal: None };
    assert_eq!(
        looking().step(WaitReply::Child(Ok(Some(status)))).action,
        WaitAction::Done(Ok(Some(status)))
    );
    assert_eq!(
        looking().step(WaitReply::Child(Err("gone".to_string()))).action,
        WaitAction::Done(Err("gone".to_string()))
    );
    let timing = || looking().step(WaitReply::Child(Ok(None)));
    assert_eq!(timing().action, WaitAction::ReadClock);
    let at = |millis: u64| timing().step(WaitReply::Elapsed(Duration::from_millis(millis)));
    assert_eq!(at(0).action, WaitAction::Sleep(Duration::from_millis(100)));
    assert_eq!(at(100).action, WaitAction::Sleep(Duration::from_millis(50)));
    assert_eq!(at(150).action, WaitAction::Done(Ok(None)));
    assert_eq!(at(100).step(WaitReply::Slept).action, WaitAction::PollSignal);
}

fn system_error(kind: ErrorKind) -> SystemError {
    SystemError { kind, text: "words".to_string() }
}

#[test]
fn the_terminal_is_given_by_its_owner_only() {
    let opened = || handoff_to_child().step(42, HandOffReply::Opened(true));
    assert_eq!(handoff_to_child().step(42, HandOffReply::Opened(false)), HandOff::Done(Ok(None)));
    assert_eq!(opened(), HandOff::ReadForeground);
    for kind in [ErrorKind::NotATerminal, ErrorKind::NoDevice] {
        let state = opened().step(42, HandOffReply::Foreground(Err(system_error(kind))));
        assert_eq!(state, HandOff::Done(Ok(None)));
    }
    assert_eq!(
        opened().step(42, HandOffReply::Foreground(Err(system_error(ErrorKind::Other)))),
        HandOff::Done(Err("failed to read terminal foreground process group: words".to_string()))
    );
    let read = |group: i32| opened().step(42, HandOffReply::Foreground(Ok(group)));
    assert_eq!(read(7).step(42, HandOffReply::OwnGroup(8)), HandOff::Done(Ok(None)));
    assert_eq!(read(42).step(42, HandOffReply::OwnGroup(42)), HandOff::Done(Ok(None)));
    assert_eq!(read(7).step(42, HandOffReply::OwnGroup(7)), HandOff::Give { original: 7 });
}

#[test]
fn giving_the_terminal_is_tried_again_for_a_moment() {
    let give = || HandOff::Give { original: 7 };
    assert_eq!(give().step(42, HandOffReply::Given(Ok(()))), HandOff::Done(Ok(Some(7))));
    let words = "failed to hand terminal to child process group: words".to_string();
    assert_eq!(
        give().step(42, HandOffReply::Given(Err(system_error(ErrorKind::Other)))),
        HandOff::Done(Err(words.clone()))
    );
    for (kind, late) in [
        (ErrorKind::NoProcess, HandOff::Done(Ok(None))),
        (ErrorKind::NotPermitted, HandOff::Done(Err(words.clone()))),
    ] {
        let failed = || give().step(42, HandOffReply::Given(Err(system_error(kind))));
        let early = failed().step(42, HandOffReply::Elapsed(Duration::from_millis(99)));
        assert_eq!(early, HandOff::Pause { original: 7 });
        assert_eq!(early.step(42, HandOffReply::Paused), give());
        assert_eq!(failed().step(42, HandOffReply::Elapsed(Duration::from_millis(100))), late);
    }
}

#[test]
fn the_terminal_is_taken_back_once() {
    let mut terminal = TerminalForeground { original_pgrp: 7, restored: false };
    assert_eq!(
        terminal.restore(Err(system_error(ErrorKind::Other))),
        Err("failed to restore terminal foreground process group: words".to_string())
    );
    assert!(!terminal.restored);
    assert_eq!(terminal.restore(Ok(())), Ok(()));
    assert!(terminal.restored);
    assert_eq!(terminal.restore(Err(system_error(ErrorKind::Other))), Ok(()));
}

#[test]
fn the_first_of_two_errors_counts() {
    assert_eq!(with_sigttou_blocked::<u8, &str>(Ok(1), Ok(())), Ok(1));
    assert_eq!(with_sigttou_blocked::<u8, &str>(Ok(1), Err("b")), Err("b"));
    assert_eq!(with_sigttou_blocked::<u8, &str>(Err("a"), Err("b")), Err("a"));
    assert_eq!(with_sigttou_blocked::<u8, &str>(Err("a"), Ok(())), Err("a"));
}

/// The names of the events of a whole run. The last of the memory readings, the signals and the
/// looks at the child stands for all that follow.
fn names(earlyoom: bool, memory: &[u64], signal: Option<i32>, ended: bool, members: bool) -> Vec<String> {
    let mut run = args(&["echo"]);
    run.require_earlyoom = true;
    let mut guard = run_guard(&run).ok().unwrap();
    let mut names = Vec::new();
    let mut readings: usize = 0;
    loop {
        if let Action::Log(e) | Action::LogAfterLaunch(e) = guard.action() {
            names.push(e.event.clone());
        }
        let status = if ended { Some(ExitStatus { code: Some(0), signal: None }) } else { None };
        let reply = match guard.action() {
            Action::Finish(_) => return names,
            Action::AskEarlyoom => Reply::Earlyoom(Ok(earlyoom)),
            Action::ReadMemory => {
                let left = memory[readings.min(memory.len() - 1)];
                readings += 1;
                mem(left, GIB)
            }
            Action::Spawn => Reply::Spawned(Ok(42)),
            Action::HandOff { .. } => Reply::HandedOff(Ok(true)),
            Action::PollSignal => Reply::Signal(signal),
            Action::PollChild | Action::WaitForPoll(_) => Reply::Child(Ok(status)),
            Action::CheckGroup { .. } => Reply::Group(members),
            _ => fault("broken"),
        };
        let reply = match guard.action() {
            Action::OpenLog | Action::Log(_) | Action::WatchSignals => ok(),
            _ => reply,
        };
        guard = give(guard, reply);
    }
}

#[test]
fn the_events_of_a_run_tell_how_it_went() {
    let enough: &[u64] = &[2 * GIB];
    assert_eq!(names(false, enough, None, true, false), ["preflight", "refused"]);
    assert_eq!(names(true, &[GIB], None, true, false), ["preflight", "refused"]);
    assert_eq!(names(true, enough, None, true, false), ["preflight", "launched", "child_exit"]);
    assert_eq!(
        names(true, enough, None, true, true),
        ["preflight", "launched", "child_exit", "process_group_cleanup"]
    );
    assert_eq!(
        names(true, &[2 * GIB, 2 * GIB, GIB], None, false, false),
        ["preflight", "launched", "memory_pressure_kill"]
    );
    assert_eq!(
        names(true, enough, Some(2), true, false),
        ["preflight", "launched", "parent_signal_kill"]
    );
}
