//! What the settings of a run are, and what is done in it step by step.
use crate::guard::{
    self, ActionView, ExitStatus, GuardView, ReplyView, RunArgs, RunFault, SettingsView,
};
use crate::meminfo::MemInfo;
use crate::profile::Profile;
use crate::{duration, profile, safety, size};
use vstd::prelude::*;

verus! {

/// Whether limits of the system are asked for, which the guard cannot set.
pub open spec fn asks_for_scope(args: RunArgs) -> bool {
    args.use_systemd_scope || args.memory_high is Some || args.memory_max is Some
}

/// A run has the floors, the spans of time and the command that its arguments give, each from its
/// own argument, and it can begin exactly where all of them can be read and no limits of the system
/// are asked for.
pub proof fn law_settings_follow_the_arguments(args: RunArgs, command: Seq<Seq<char>>)
    ensures
        guard::settings_from(args, command) is Ok <==> {
            &&& !asks_for_scope(args)
            &&& size::size_from_text(args.min_mem@) is Ok
            &&& size::size_from_text(args.min_swap@) is Ok
            &&& duration::duration_from_text(args.poll@) is Ok
            &&& duration::duration_from_text(args.term_grace@) is Ok
        },
        guard::settings_from(args, command) matches Ok(s) ==> {
            &&& size::size_from_text(args.min_mem@)->Ok_0 == s.min_mem_bytes
            &&& size::size_from_text(args.min_swap@)->Ok_0 == s.min_swap_bytes
            &&& duration::duration_from_text(args.poll@)->Ok_0 == s.poll
            &&& duration::duration_from_text(args.term_grace@)->Ok_0 == s.term_grace
            &&& s.command == command
        },
{
}

/// `earlyoom` is required where that was asked for. Where it was not, it is required for the five
/// inference engines, chosen or detected, unless that was waived, and for nothing else.
pub proof fn law_earlyoom_is_required_for_engines(
    args: RunArgs,
    command: Seq<Seq<char>>,
    s: SettingsView,
)
    requires
        guard::settings_from(args, command) == Ok::<SettingsView, RunFault>(s),
    ensures
        args.require_earlyoom ==> s.require_earlyoom,
        !args.require_earlyoom && args.allow_no_earlyoom ==> !s.require_earlyoom,
        !args.require_earlyoom && !args.allow_no_earlyoom ==> s.require_earlyoom == (s.profile
            == Profile::Vllm || s.profile == Profile::LlamaCpp || s.profile == Profile::Sglang
            || s.profile == Profile::Trtllm || s.profile == Profile::Tgi),
        args.profile != Profile::Auto ==> s.profile == args.profile,
        args.profile == Profile::Auto ==> s.profile == (if profile::detected(command) is Some {
            profile::detected(command)->0
        } else {
            Profile::Generic
        }),
{
}

/// The argument at fault is named: limits of the system first, then the memory floor, the swap floor,
/// the time between looks and the grace time.
pub proof fn law_first_fault_is_told(args: RunArgs, command: Seq<Seq<char>>, e: RunFault)
    requires
        guard::settings_from(args, command) == Err::<SettingsView, RunFault>(e),
    ensures
        asks_for_scope(args) <==> e is Scope,
        e matches RunFault::MinMem(cause) ==> size::size_from_text(args.min_mem@) == Err::<
            nat,
            size::SizeFault,
        >(cause),
        e matches RunFault::MinSwap(cause) ==> size::size_from_text(args.min_mem@) is Ok
            && size::size_from_text(args.min_swap@) == Err::<nat, size::SizeFault>(cause),
        e matches RunFault::Poll(cause) ==> size::size_from_text(args.min_mem@) is Ok
            && size::size_from_text(args.min_swap@) is Ok && duration::duration_from_text(
            args.poll@,
        ) == Err::<nat, duration::DurationFault>(cause),
        e matches RunFault::TermGrace(cause) ==> size::size_from_text(args.min_mem@) is Ok
            && size::size_from_text(args.min_swap@) is Ok && duration::duration_from_text(
            args.poll@,
        ) is Ok && duration::duration_from_text(args.term_grace@) == Err::<
            nat,
            duration::DurationFault,
        >(cause),
{
}

/// A run begins with its event log, then writes down what is to run, asks for `earlyoom` if that is
/// required, and measures the memory.
pub proof fn law_run_begins_with_checks(settings: SettingsView, now: u128)
    ensures
        ({
            let start = GuardView::start(settings);
            let opened = start.next(ReplyView::Done(Ok(())), now);
            &&& start.plan == seq![ActionView::OpenLog]
            &&& start.run.settings == settings
            &&& start.run.child is None
            &&& opened.run == start.run
            &&& opened.plan.len() == if settings.require_earlyoom {
                3nat
            } else {
                2nat
            }
            &&& opened.plan[0] matches ActionView::Log(e) && e.event == "preflight"@ && e.label
                == "run"@ && e.unix_ms == now && e.command == settings.command && e.pid is None
                && e.detail is None && e.exit_code is None && e.mem_available_bytes is None
                && e.swap_free_bytes is None
            &&& settings.require_earlyoom ==> opened.plan[1] is AskEarlyoom
            &&& opened.plan.last() is ReadMemory
        }),
{
}

/// Where `earlyoom` is required and not active, that is written down and the run is to end with 3;
/// where it is active, the run goes on as planned.
pub proof fn law_missing_earlyoom_is_told(guard: GuardView, now: u128)
    ensures
        guard.next(ReplyView::Earlyoom(Ok(true)), now) == (GuardView {
            plan: guard.plan.drop_first(),
            ..guard
        }),
        ({
            let next = guard.next(ReplyView::Earlyoom(Ok(false)), now);
            &&& next.run == guard.run
            &&& next.plan.len() == 3
            &&& next.plan[0] matches ActionView::Log(e) && e.event == "refused"@ && e.label
                == "earlyoom"@ && e.unix_ms == now && e.command == guard.run.settings.command
            &&& next.plan[1] is Print
            &&& next.plan[2] == ActionView::Finish(Ok(3))
        }),
{
}

/// A child that was started gets the terminal, is written down with its number, and is then watched.
pub proof fn law_launched_child_is_watched(
    guard: GuardView,
    pid: u32,
    given: bool,
    now: u128,
    later: u128,
)
    ensures
        ({
            let spawned = guard.next(ReplyView::Spawned(Ok(pid)), now);
            let handed = spawned.next(ReplyView::HandedOff(Ok(given)), later);
            let poll = guard.run.settings.poll;
            &&& spawned.run.child == Some(pid)
            &&& spawned.run.settings == guard.run.settings
            &&& spawned.plan == seq![
                ActionView::HandOff {
                    pgid: if pid <= 0x7fff_ffff {
                        pid as int
                    } else {
                        pid - 0x1_0000_0000
                    },
                },
            ]
            &&& handed.run.child == Some(pid)
            &&& handed.run.settings == guard.run.settings
            &&& handed.run.handed_off == given
            &&& handed.plan.len() == 5
            &&& handed.plan[0] matches ActionView::LogAfterLaunch(e) && e.event == "launched"@
                && e.label == "run"@ && e.pid == Some(pid) && e.unix_ms == later && e.command
                == guard.run.settings.command
            &&& handed.plan.skip(1) == seq![
                ActionView::PollSignal,
                ActionView::PollChild,
                ActionView::ReadMemory,
                ActionView::WaitForPoll(poll),
            ]
        }),
{
    let spawned = guard.next(ReplyView::Spawned(Ok(pid)), now);
    let handed = spawned.next(ReplyView::HandedOff(Ok(given)), later);
    assert(handed.plan.skip(1) =~= seq![
        ActionView::PollSignal,
        ActionView::PollChild,
        ActionView::ReadMemory,
        ActionView::WaitForPoll(guard.run.settings.poll),
    ]);
}

/// After each wait that nothing has cut short, there is another look at signals, the child and the
/// memory, and another wait.
pub proof fn law_watch_goes_round(guard: GuardView, now: u128)
    requires
        guard.action() is WaitForPoll,
    ensures
        guard.next(ReplyView::Child(Ok(None)), now).run == guard.run,
        guard.next(ReplyView::Child(Ok(None)), now).plan == seq![
            ActionView::PollSignal,
            ActionView::PollChild,
            ActionView::ReadMemory,
            ActionView::WaitForPoll(guard.run.settings.poll),
        ],
{
}

/// A look that finds nothing goes on to the next one.
pub proof fn law_quiet_looks_go_on(guard: GuardView, now: u128)
    ensures
        guard.action() is PollSignal ==> guard.next(ReplyView::Signal(None), now) == (GuardView {
            plan: guard.plan.drop_first(),
            ..guard
        }),
        guard.action() is PollChild ==> guard.next(ReplyView::Child(Ok(None)), now) == (GuardView {
            plan: guard.plan.drop_first(),
            ..guard
        }),
{
}

/// A run ends with the exit code of its child; with 128 and the number of the signal where the child
/// was ended by one; and with 1 where neither is known.
pub proof fn law_exit_codes(
    guard: GuardView,
    status: ExitStatus,
    now: u128,
    replies: Seq<(ReplyView, u128)>,
)
    requires
        guard.consistent(),
        guard::answers(guard.action(), ReplyView::Child(Ok(Some(status)))),
        safety::possible(guard.next(ReplyView::Child(Ok(Some(status))), now), replies),
        safety::after(
            guard.next(ReplyView::Child(Ok(Some(status))), now),
            replies,
        ).action() is Finish,
    ensures
        safety::after(guard.next(ReplyView::Child(Ok(Some(status))), now), replies).action()
            == ActionView::Finish(
            Ok(
                if status.code is Some {
                    status.code->0 as int
                } else if status.signal is Some {
                    128 + status.signal->0
                } else {
                    1
                },
            ),
        ),
{
    safety::law_child_exit_returns_its_code(guard, status, now, replies);
}

/// The end of a child is written down with its number and its exit code, and it is seen whether
/// others of its group are left.
pub proof fn law_child_exit_is_told(guard: GuardView, status: ExitStatus, now: u128)
    requires
        status.code is Some,
    ensures
        ({
            let next = guard.next(ReplyView::Child(Ok(Some(status))), now);
            &&& next.run == guard.run
            &&& next.plan.len() >= 2
            &&& next.plan[0] matches ActionView::LogAfterLaunch(e) && e.event == "child_exit"@
                && e.pid == Some(guard.run.child->0) && e.exit_code == status.code && e.unix_ms
                == now
            &&& next.plan[1] is CheckGroup
            &&& next.plan.last() == ActionView::Finish(Ok(status.code->0 as int))
        }),
{
}

/// Before the launch a failure ends the run with the words for it: of the event log, of the look at
/// `earlyoom` or at the memory, of the watch for signals, and of the launch itself.
pub proof fn law_failures_before_the_launch_end_the_run(guard: GuardView, e: Seq<char>, now: u128)
    requires
        guard.run.child is None,
    ensures
        ({
            let end = GuardView { plan: seq![ActionView::Finish(Err(e))], ..guard };
            &&& guard.action() is OpenLog || guard.action() is Log || guard.action()
                is WatchSignals ==> guard.next(ReplyView::Done(Err(e)), now) == end
            &&& guard.next(ReplyView::Earlyoom(Err(e)), now) == end
            &&& guard.next(ReplyView::Memory(Err(e)), now) == end
            &&& guard.next(ReplyView::Spawned(Err(e)), now) == end
        }),
{
}

/// After the launch an event that cannot be written is warned of, and the run goes on as planned; so
/// does it where an action succeeds that decides nothing.
pub proof fn law_lost_events_are_warned_of(guard: GuardView, e: Seq<char>, now: u128)
    requires
        guard.plan.len() > 0,
        guard.action() is LogAfterLaunch,
    ensures
        guard.next(ReplyView::Done(Err(e)), now).run == guard.run,
        guard.next(ReplyView::Done(Err(e)), now).plan.len() == guard.plan.len(),
        guard.next(ReplyView::Done(Err(e)), now).plan[0] == ActionView::Print(
            "warning: failed to write event log after launch: "@ + e,
        ),
        guard.next(ReplyView::Done(Err(e)), now).plan.drop_first() == guard.plan.drop_first(),
        guard.next(ReplyView::Done(Ok(())), now) == (GuardView {
            plan: guard.plan.drop_first(),
            ..guard
        }),
{
    let next = guard.next(ReplyView::Done(Err(e)), now);
    assert(next.plan.drop_first() =~= guard.plan.drop_first());
}

/// What is said of a floor that is not met names what is left and the floor, each in its own place.
pub proof fn law_shortage_is_told_in_numbers(guard: GuardView, mem: MemInfo, now: u128)
    requires
        guard.action() is ReadMemory,
        (mem.mem_available_bytes as nat) < guard.run.settings.min_mem_bytes || (
        mem.swap_free_bytes as nat) < guard.run.settings.min_swap_bytes,
    ensures
        ({
            let next = guard.next(ReplyView::Memory(Ok(mem)), now);
            let low = (mem.mem_available_bytes as nat) < guard.run.settings.min_mem_bytes;
            let what = if low {
                "MemAvailable "@
            } else {
                "SwapFree "@
            };
            let left = size::bytes_text(
                if low {
                    mem.mem_available_bytes as nat
                } else {
                    mem.swap_free_bytes as nat
                },
            );
            let floor = size::bytes_text(
                if low {
                    guard.run.settings.min_mem_bytes
                } else {
                    guard.run.settings.min_swap_bytes
                },
            );
            &&& guard.run.child is None ==> next.plan[1] == ActionView::Print(
                "refusing to launch: "@ + (what + left + " is below floor "@ + floor),
            )
            &&& guard.run.child is Some ==> {
                let k: int = if guard.run.handed_off {
                    1
                } else {
                    0
                };
                &&& next.plan[k] matches ActionView::LogAfterLaunch(e) && e.detail == Some(
                    what + left + " below floor "@ + floor,
                )
                &&& next.plan[k + 1] matches ActionView::Print(line) && crate::text::starts_with(
                    line,
                    "memory pressure: "@ + (what + left + " below floor "@ + floor),
                )
            }
        }),
{
    let next = guard.next(ReplyView::Memory(Ok(mem)), now);
    if guard.run.child is Some {
        let k: int = if guard.run.handed_off {
            1
        } else {
            0
        };
        let line = next.plan[k + 1]->Print_0;
        let what = guard::shortage(guard.run.settings, mem)->0;
        let head = "memory pressure: "@ + guard::shortage_text(
            guard.run.settings,
            mem,
            what,
            " below floor "@,
        );
        assert(line.take(head.len() as int) =~= head);
    }
}

} // verus!
