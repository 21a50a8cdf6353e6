//! What the guard promises of every run, whatever comes of its actions.
use crate::guard::{self, ActionView, ExitStatus, GuardView, ReplyView, SettingsView};
use crate::meminfo::MemInfo;
use crate::process;
use vstd::prelude::*;

verus! {

/// The run after a number of replies, each with the time at which it came.
pub open spec fn after(guard: GuardView, replies: Seq<(ReplyView, u128)>) -> GuardView
    decreases replies.len(),
{
    if replies.len() == 0 {
        guard
    } else {
        after(guard, replies.drop_last()).next(replies.last().0, replies.last().1)
    }
}

/// Whether each reply is one that can come of the action that it is a reply to.
pub open spec fn possible(guard: GuardView, replies: Seq<(ReplyView, u128)>) -> bool
    decreases replies.len(),
{
    replies.len() == 0 || (possible(guard, replies.drop_last()) && guard::answers(
        after(guard, replies.drop_last()).action(),
        replies.last().0,
    ))
}

/// The actions that the replies are replies to.
pub open spec fn performed(guard: GuardView, replies: Seq<(ReplyView, u128)>) -> Seq<ActionView>
    decreases replies.len(),
{
    if replies.len() == 0 {
        Seq::empty()
    } else {
        performed(guard, replies.drop_last()).push(after(guard, replies.drop_last()).action())
    }
}

/// Whether a reply says that there is enough memory and swap.
pub open spec fn shows_enough(settings: SettingsView, reply: ReplyView) -> bool {
    reply matches ReplyView::Memory(Ok(mem)) && guard::shortage(settings, mem) is None
}

/// Whether enough memory and swap has been seen.
pub open spec fn seen_enough(settings: SettingsView, replies: Seq<(ReplyView, u128)>) -> bool {
    exists|i: int| 0 <= i < replies.len() && shows_enough(settings, (#[trigger] replies[i]).0)
}

/// Whether `earlyoom` has been seen to be active.
pub open spec fn seen_earlyoom(replies: Seq<(ReplyView, u128)>) -> bool {
    exists|i: int|
        0 <= i < replies.len() && (#[trigger] replies[i]).0 == ReplyView::Earlyoom(Ok(true))
}

/// A run keeps its settings, and its plan stays consistent.
pub proof fn lemma_consistent(guard: GuardView, replies: Seq<(ReplyView, u128)>)
    requires
        guard.consistent(),
        possible(guard, replies),
    ensures
        after(guard, replies).consistent(),
        after(guard, replies).run.settings == guard.run.settings,
    decreases replies.len(),
{
    if replies.len() > 0 {
        let front = replies.drop_last();
        lemma_consistent(guard, front);
        guard::lemma_next_consistent(after(guard, front), replies.last().0, replies.last().1);
    }
}

pub proof fn lemma_start_consistent(settings: SettingsView)
    ensures
        GuardView::start(settings).consistent(),
{
}

/// What has been seen stays seen.
proof fn lemma_seen_grows(settings: SettingsView, replies: Seq<(ReplyView, u128)>)
    requires
        replies.len() > 0,
    ensures
        seen_enough(settings, replies.drop_last()) ==> seen_enough(settings, replies),
        seen_earlyoom(replies.drop_last()) ==> seen_earlyoom(replies),
        shows_enough(settings, replies.last().0) ==> seen_enough(settings, replies),
        replies.last().0 == ReplyView::Earlyoom(Ok(true)) ==> seen_earlyoom(replies),
{
    let front = replies.drop_last();
    if seen_enough(settings, front) {
        let i = choose|i: int|
            0 <= i < front.len() && shows_enough(settings, (#[trigger] front[i]).0);
        assert(replies[i] == front[i]);
    }
    if seen_earlyoom(front) {
        let i = choose|i: int|
            0 <= i < front.len() && (#[trigger] front[i]).0 == ReplyView::Earlyoom(Ok(true));
        assert(replies[i] == front[i]);
    }
    assert(replies[replies.len() - 1] == replies.last());
}

/// How a plan before the launch stands to what has been seen: a launch is planned only where
/// enough was seen, and memory is measured only where `earlyoom` was seen or is asked for first.
spec fn justified(guard: GuardView, enough: bool, earlyoom: bool) -> bool {
    guard.run.child is None ==> {
        &&& forall|i: int|
            0 <= i < guard.plan.len() && (#[trigger] guard.plan[i]) is Spawn ==> enough && (
            guard.run.settings.require_earlyoom ==> earlyoom)
        &&& forall|i: int|
            0 <= i < guard.plan.len() && (#[trigger] guard.plan[i]) is ReadMemory && !earlyoom
                && guard.run.settings.require_earlyoom ==> exists|j: int|
                0 <= j < i && (#[trigger] guard.plan[j]) is AskEarlyoom
    }
}

proof fn lemma_justified(settings: SettingsView, replies: Seq<(ReplyView, u128)>)
    requires
        possible(GuardView::start(settings), replies),
    ensures
        justified(
            after(GuardView::start(settings), replies),
            seen_enough(settings, replies),
            seen_earlyoom(replies),
        ),
    decreases replies.len(),
{
    let start = GuardView::start(settings);
    if replies.len() > 0 {
        let front = replies.drop_last();
        let guard = after(start, front);
        let next = after(start, replies);
        lemma_start_consistent(settings);
        lemma_consistent(start, front);
        lemma_justified(settings, front);
        lemma_seen_grows(settings, replies);
        let earlyoom = seen_earlyoom(replies);
        if next.run.child is None {
            assert forall|i: int|
                0 <= i < next.plan.len() && (#[trigger] next.plan[i]) is Spawn implies seen_enough(
                settings,
                replies,
            ) && (settings.require_earlyoom ==> earlyoom) by {
                if i < guard.rest().len() {
                    assert(guard.rest()[i] == guard.plan[i + 1]);
                }
                if guard.action() is ReadMemory {
                    assert(guard.plan[0] is ReadMemory);
                }
            }
            assert forall|i: int|
                0 <= i < next.plan.len() && (#[trigger] next.plan[i]) is ReadMemory && !earlyoom
                    && settings.require_earlyoom implies exists|j: int|
                0 <= j < i && (#[trigger] next.plan[j]) is AskEarlyoom by {
                if guard.action() is OpenLog {
                    assert(next.plan[1] is AskEarlyoom);
                } else if i < guard.rest().len() {
                    assert(guard.rest()[i] == guard.plan[i + 1]);
                    let j = choose|j: int|
                        0 <= j < i + 1 && (#[trigger] guard.plan[j]) is AskEarlyoom;
                    assert(j > 0);
                    assert(guard.rest()[j - 1] == guard.plan[j]);
                    assert(next.plan[j - 1] is AskEarlyoom);
                }
            }
        }
    }
}

/// Nothing is launched unless enough memory and swap was seen and, where it is required,
/// `earlyoom` was seen to be active.
pub proof fn law_launch_needs_floors_and_earlyoom(
    settings: SettingsView,
    replies: Seq<(ReplyView, u128)>,
)
    requires
        possible(GuardView::start(settings), replies),
        after(GuardView::start(settings), replies).action() is Spawn,
    ensures
        seen_enough(settings, replies),
        settings.require_earlyoom ==> seen_earlyoom(replies),
{
    lemma_start_consistent(settings);
    lemma_consistent(GuardView::start(settings), replies);
    lemma_justified(settings, replies);
    let guard = after(GuardView::start(settings), replies);
    assert(guard.plan[0] is Spawn);
    if guard.run.child is Some {
        assert(guard::after_launch(guard.plan[0]));
    }
}

/// Whether the run still watches the child.
pub open spec fn watching(guard: GuardView) -> bool {
    guard.plan.last() is HandOff || guard.plan.last() is WaitForPoll
}

/// Whether an action is planned or performed.
spec fn due(plan: Seq<ActionView>, done: Seq<ActionView>, action: ActionView) -> bool {
    plan.contains(action) || done.contains(action)
}

/// What is due stays due where the rest of the plan is kept.
proof fn lemma_due(
    plan: Seq<ActionView>,
    next: Seq<ActionView>,
    done: Seq<ActionView>,
    action: ActionView,
)
    requires
        plan.len() > 0,
        due(plan, done, action),
        forall|i: int| 1 <= i < plan.len() ==> next.contains(#[trigger] plan[i]),
    ensures
        due(next, done.push(plan[0]), action),
{
    if done.contains(action) {
        let i = choose|i: int| 0 <= i < done.len() && done[i] == action;
        assert(done.push(plan[0])[i] == action);
    } else {
        let i = choose|i: int| 0 <= i < plan.len() && plan[i] == action;
        if i == 0 {
            assert(done.push(plan[0])[done.len() as int] == action);
        }
    }
}

/// Once the child is not watched any more, the rest of the plan is kept at every step.
proof fn lemma_rest_is_kept(guard: GuardView, reply: ReplyView, now: u128)
    requires
        guard.consistent(),
        guard::answers(guard.action(), reply),
        reply is Done || reply is Group,
        guard.run.child is Some,
    ensures
        guard.next(reply, now).run == guard.run,
        guard.next(reply, now).plan.last() == guard.plan.last(),
        forall|i: int|
            1 <= i < guard.plan.len() ==> guard.next(reply, now).plan.contains(
                #[trigger] guard.plan[i],
            ),
{
    let next = guard.next(reply, now).plan;
    let rest = guard.rest();
    assert(guard::after_launch(guard.plan[0]));
    assert(rest.last() == guard.plan.last());
    assert forall|i: int| 1 <= i < guard.plan.len() implies next.contains(
        #[trigger] guard.plan[i],
    ) by {
        assert(rest[i - 1] == guard.plan[i]);
        if next.len() == rest.len() {
            assert(next[i - 1] == guard.plan[i]);
        } else if next.len() == rest.len() + 1 {
            assert(next[i] == guard.plan[i]);
        } else if i == guard.plan.len() - 1 {
            assert(next[i + 1] == guard.plan[i]);
        } else {
            assert(next[i] == guard.plan[i]);
        }
    }
}

/// Whether the run is only to be brought to its end.
pub open spec fn stopping(guard: GuardView) -> bool {
    &&& guard.consistent()
    &&& guard.run.child is Some
    &&& guard.plan.last() is Finish
    &&& forall|i: int| 0 <= i < guard.plan.len() ==> winds_up(#[trigger] guard.plan[i])
}

/// Whether an action brings a run nearer to its end: nothing is decided by it.
pub open spec fn winds_up(action: ActionView) -> bool {
    action is LogAfterLaunch || action is CheckGroup || action is RestoreTerminal || action
        is ReleaseTerminal || action is Print || action is Terminate || action is Reap || action
        is Finish
}

/// Where the watch over the child ends, the run is stopped: the group is stopped, and the terminal
/// is taken back.
pub proof fn lemma_watch_ends_in_stop(guard: GuardView, reply: ReplyView, now: u128)
    requires
        guard.consistent(),
        guard::answers(guard.action(), reply),
        guard.run.child is Some,
        watching(guard),
    ensures
        ({
            let next = guard.next(reply, now);
            watching(next) || {
                &&& stopping(next)
                &&& next.run == guard.run
                &&& next.plan.contains(guard.run.terminate())
                &&& guard.run.handed_off ==> next.plan.contains(ActionView::RestoreTerminal)
            }
        }),
{
    let next = guard.next(reply, now);
    guard::lemma_next_consistent(guard, reply, now);
    assert(guard::after_launch(guard.plan[0]));
    if guard.rest().len() > 0 {
        assert(guard.rest().last() == guard.plan.last());
    }
    if !watching(next) {
        let n = next.plan.len() as int;
        assert(next.plan[n - 2] == guard.run.terminate() || next.plan[n - 3]
            == guard.run.terminate());
        if guard.run.handed_off {
            assert(guard.run.restore()[0] == ActionView::RestoreTerminal);
            assert(next.plan[0] == ActionView::RestoreTerminal || next.plan[2]
                == ActionView::RestoreTerminal);
        }
    }
}

/// A run that is stopped stays so, and nothing that is planned is dropped.
pub proof fn lemma_stop_goes_on(guard: GuardView, reply: ReplyView, now: u128)
    requires
        stopping(guard),
        guard::answers(guard.action(), reply),
    ensures
        stopping(guard.next(reply, now)),
        guard.next(reply, now).run == guard.run,
        guard.next(reply, now).plan.last() == guard.plan.last(),
        forall|i: int|
            1 <= i < guard.plan.len() ==> guard.next(reply, now).plan.contains(
                #[trigger] guard.plan[i],
            ),
{
    let next = guard.next(reply, now).plan;
    assert(winds_up(guard.plan[0]));
    guard::lemma_next_consistent(guard, reply, now);
    lemma_rest_is_kept(guard, reply, now);
    assert forall|i: int| 0 <= i < next.len() implies winds_up(#[trigger] next[i]) by {
        if i < guard.rest().len() {
            assert(guard.rest()[i] == guard.plan[i + 1]);
        }
        if 0 < i <= guard.rest().len() {
            assert(guard.rest()[i - 1] == guard.plan[i]);
        }
    }
}

proof fn lemma_cleanup_is_due(settings: SettingsView, replies: Seq<(ReplyView, u128)>)
    requires
        possible(GuardView::start(settings), replies),
    ensures
        ({
            let guard = after(GuardView::start(settings), replies);
            let done = performed(GuardView::start(settings), replies);
            guard.run.child is Some ==> watching(guard) || {
                &&& stopping(guard)
                &&& due(guard.plan, done, guard.run.terminate())
                &&& guard.run.handed_off ==> due(guard.plan, done, ActionView::RestoreTerminal)
            }
        }),
    decreases replies.len(),
{
    let start = GuardView::start(settings);
    if replies.len() > 0 {
        let front = replies.drop_last();
        let guard = after(start, front);
        let next = after(start, replies);
        let done = performed(start, front);
        let (reply, now) = replies.last();
        lemma_start_consistent(settings);
        lemma_consistent(start, front);
        lemma_cleanup_is_due(settings, front);
        if guard.run.child is Some {
            if watching(guard) {
                lemma_watch_ends_in_stop(guard, reply, now);
            } else {
                lemma_stop_goes_on(guard, reply, now);
                lemma_due(guard.plan, next.plan, done, guard.run.terminate());
                if guard.run.handed_off {
                    lemma_due(guard.plan, next.plan, done, ActionView::RestoreTerminal);
                }
            }
        }
    }
}

/// A run that ends after a launch has stopped the process group of the child, and has taken the
/// terminal back if it was given away: after a normal exit, a pressure stop, an interruption and
/// an error alike.
pub proof fn law_every_end_cleans_up(settings: SettingsView, replies: Seq<(ReplyView, u128)>)
    requires
        possible(GuardView::start(settings), replies),
        after(GuardView::start(settings), replies).run.child is Some,
        after(GuardView::start(settings), replies).action() is Finish,
    ensures
        ({
            let guard = after(GuardView::start(settings), replies);
            let done = performed(GuardView::start(settings), replies);
            &&& done.contains(guard.run.terminate())
            &&& guard.run.handed_off ==> done.contains(ActionView::RestoreTerminal)
        }),
{
    let guard = after(GuardView::start(settings), replies);
    lemma_cleanup_is_due(settings, replies);
    lemma_start_consistent(settings);
    lemma_consistent(GuardView::start(settings), replies);
    assert(guard.plan[0] is Finish);
}

/// A run that is being stopped goes on to the end that was decided, whatever comes of its actions.
pub proof fn law_stop_keeps_its_verdict(guard: GuardView, replies: Seq<(ReplyView, u128)>)
    requires
        stopping(guard),
        possible(guard, replies),
    ensures
        stopping(after(guard, replies)),
        after(guard, replies).run == guard.run,
        after(guard, replies).plan.last() == guard.plan.last(),
    decreases replies.len(),
{
    if replies.len() > 0 {
        let front = replies.drop_last();
        law_stop_keeps_its_verdict(guard, front);
        lemma_stop_goes_on(after(guard, front), replies.last().0, replies.last().1);
    }
}

/// Where a floor is not met while the child is watched, the run ends with 137.
pub proof fn law_pressure_stop_returns_137(
    guard: GuardView,
    mem: MemInfo,
    now: u128,
    replies: Seq<(ReplyView, u128)>,
)
    requires
        guard.consistent(),
        guard.run.child is Some,
        guard.action() is ReadMemory,
        guard::shortage(guard.run.settings, mem) is Some,
        possible(guard.next(ReplyView::Memory(Ok(mem)), now), replies),
        after(guard.next(ReplyView::Memory(Ok(mem)), now), replies).action() is Finish,
    ensures
        after(guard.next(ReplyView::Memory(Ok(mem)), now), replies).action()
            == ActionView::Finish(Ok(137)),
{
    let next = guard.next(ReplyView::Memory(Ok(mem)), now);
    guard::lemma_next_consistent(guard, ReplyView::Memory(Ok(mem)), now);
    assert(stopping(next));
    law_stop_keeps_its_verdict(next, replies);
    assert(after(next, replies).plan[0] is Finish);
}

/// Where the child has ended, the run ends with the exit code of the child.
pub proof fn law_child_exit_returns_its_code(
    guard: GuardView,
    status: ExitStatus,
    now: u128,
    replies: Seq<(ReplyView, u128)>,
)
    requires
        guard.consistent(),
        guard::answers(guard.action(), ReplyView::Child(Ok(Some(status)))),
        possible(guard.next(ReplyView::Child(Ok(Some(status))), now), replies),
        after(guard.next(ReplyView::Child(Ok(Some(status))), now), replies).action() is Finish,
    ensures
        after(guard.next(ReplyView::Child(Ok(Some(status))), now), replies).action()
            == ActionView::Finish(Ok(process::exit_code(status.code, status.signal))),
{
    let reply = ReplyView::Child(Ok(Some(status)));
    let next = guard.next(reply, now);
    guard::lemma_next_consistent(guard, reply, now);
    assert(guard.plan[0] is PollChild || guard.plan[0] is WaitForPoll);
    assert(stopping(next));
    law_stop_keeps_its_verdict(next, replies);
    assert(after(next, replies).plan[0] is Finish);
}

/// Where a signal has come, the run ends with 128 and the number of the signal.
pub proof fn law_signal_returns_its_code(
    guard: GuardView,
    signal: i32,
    now: u128,
    replies: Seq<(ReplyView, u128)>,
)
    requires
        guard.consistent(),
        guard::answers(guard.action(), ReplyView::Signal(Some(signal))),
        possible(guard.next(ReplyView::Signal(Some(signal)), now), replies),
        after(guard.next(ReplyView::Signal(Some(signal)), now), replies).action() is Finish,
    ensures
        after(guard.next(ReplyView::Signal(Some(signal)), now), replies).action()
            == ActionView::Finish(Ok(128 + signal)),
{
    let reply = ReplyView::Signal(Some(signal));
    let next = guard.next(reply, now);
    guard::lemma_next_consistent(guard, reply, now);
    assert(guard.plan[0] is PollSignal);
    assert(stopping(next));
    law_stop_keeps_its_verdict(next, replies);
    assert(after(next, replies).plan[0] is Finish);
}

/// Where the memory, the child or the terminal cannot be looked at after the launch, the run ends
/// with that error.
pub proof fn law_error_after_launch_is_returned(
    guard: GuardView,
    reply: ReplyView,
    error: Seq<char>,
    now: u128,
    replies: Seq<(ReplyView, u128)>,
)
    requires
        guard.consistent(),
        guard.run.child is Some,
        guard::answers(guard.action(), reply),
        reply == ReplyView::Memory(Err(error)) || reply == ReplyView::Child(Err(error)) || reply
            == ReplyView::HandedOff(Err(error)),
        possible(guard.next(reply, now), replies),
        after(guard.next(reply, now), replies).action() is Finish,
    ensures
        after(guard.next(reply, now), replies).action() == ActionView::Finish(Err(error)),
{
    let next = guard.next(reply, now);
    guard::lemma_next_consistent(guard, reply, now);
    assert(stopping(next));
    law_stop_keeps_its_verdict(next, replies);
    assert(after(next, replies).plan[0] is Finish);
}

/// Whether a run was turned down: it is to end without a launch.
pub open spec fn refused(guard: GuardView, code: int) -> bool {
    &&& guard.consistent()
    &&& guard.run.child is None
    &&& forall|i: int|
        0 <= i < guard.plan.len() ==> (#[trigger] guard.plan[i]) is Log || guard.plan[i] is Print
            || guard.plan[i] is Finish
    &&& guard.plan.last() == ActionView::Finish(Ok(code)) || guard.plan.last() matches
        ActionView::Finish(Err(_))
}

/// Where a run is turned down, nothing is launched, and the run ends with the code of the refusal
/// unless the event log cannot be written.
pub proof fn law_refusal_stands(
    guard: GuardView,
    code: int,
    replies: Seq<(ReplyView, u128)>,
)
    requires
        refused(guard, code),
        possible(guard, replies),
    ensures
        refused(after(guard, replies), code),
    decreases replies.len(),
{
    if replies.len() > 0 {
        let front = replies.drop_last();
        let before = after(guard, front);
        law_refusal_stands(guard, code, front);
        assert(before.plan[0] is Log || before.plan[0] is Print || before.plan[0] is Finish);
        guard::lemma_next_consistent(before, replies.last().0, replies.last().1);
        let next = after(guard, replies);
        assert forall|i: int| 0 <= i < next.plan.len() implies (#[trigger] next.plan[i]) is Log
            || next.plan[i] is Print || next.plan[i] is Finish by {
            if i < before.rest().len() {
                assert(before.rest()[i] == before.plan[i + 1]);
            }
        }
    }
}

/// Where a floor is not met before the launch, the run is turned down with 4.
pub proof fn law_shortage_is_refused_with_4(guard: GuardView, mem: MemInfo, now: u128)
    requires
        guard.consistent(),
        guard.run.child is None,
        guard.action() is ReadMemory,
        guard::shortage(guard.run.settings, mem) is Some,
    ensures
        refused(guard.next(ReplyView::Memory(Ok(mem)), now), 4),
{
    guard::lemma_next_consistent(guard, ReplyView::Memory(Ok(mem)), now);
}

/// Where `earlyoom` is required and not active, the run is turned down with 3.
pub proof fn law_missing_earlyoom_is_refused_with_3(guard: GuardView, now: u128)
    requires
        guard.consistent(),
        guard.action() is AskEarlyoom,
    ensures
        refused(guard.next(ReplyView::Earlyoom(Ok(false)), now), 3),
{
    assert(guard.plan[0] is AskEarlyoom);
    guard::lemma_next_consistent(guard, ReplyView::Earlyoom(Ok(false)), now);
}

/// Memory and swap that equal their floors are enough: the launch goes on, and the watch too.
pub proof fn law_floors_can_be_met_exactly(guard: GuardView, mem: MemInfo, now: u128)
    requires
        guard.consistent(),
        guard.action() is ReadMemory,
        mem.mem_available_bytes >= guard.run.settings.min_mem_bytes,
        mem.swap_free_bytes >= guard.run.settings.min_swap_bytes,
    ensures
        guard.run.child is None ==> guard.next(ReplyView::Memory(Ok(mem)), now).plan == seq![
            ActionView::WatchSignals,
            ActionView::Spawn,
        ],
        guard.run.child is Some ==> guard.next(ReplyView::Memory(Ok(mem)), now).plan
            == guard.rest(),
{
}

/// How many actions can come of one, itself counted.
pub open spec fn effort(action: ActionView) -> nat {
    match action {
        ActionView::RestoreTerminal => 4,
        ActionView::CheckGroup { .. } => 3,
        ActionView::LogAfterLaunch(_) | ActionView::ReleaseTerminal => 2,
        ActionView::Finish(_) => 0,
        _ => 1,
    }
}

/// How many actions can come of a plan.
pub open spec fn total_effort(plan: Seq<ActionView>) -> nat
    decreases plan.len(),
{
    if plan.len() == 0 {
        0
    } else {
        effort(plan[0]) + total_effort(plan.drop_first())
    }
}

proof fn lemma_total_effort(a: Seq<ActionView>, b: Seq<ActionView>)
    ensures
        total_effort(a + b) == total_effort(a) + total_effort(b),
    decreases a.len(),
{
    if a.len() == 0 {
        assert(a + b =~= b);
    } else {
        lemma_total_effort(a.drop_first(), b);
        assert((a + b).drop_first() =~= a.drop_first() + b);
    }
}

proof fn lemma_single_effort(action: ActionView)
    ensures
        total_effort(seq![action]) == effort(action),
{
    reveal_with_fuel(total_effort, 2);
    assert(seq![action].drop_first() =~= Seq::<ActionView>::empty());
}

proof fn lemma_effort_shrinks(guard: GuardView, reply: ReplyView, now: u128)
    requires
        stopping(guard),
        guard::answers(guard.action(), reply),
    ensures
        total_effort(guard.next(reply, now).plan) < total_effort(guard.plan),
{
    let next = guard.next(reply, now).plan;
    let rest = guard.rest();
    assert(winds_up(guard.plan[0]));
    assert(rest.len() > 0);
    if next.len() == rest.len() + 1 {
        lemma_single_effort(next[0]);
        lemma_total_effort(seq![next[0]], rest);
        assert(next =~= seq![next[0]] + rest);
    } else if next.len() == rest.len() + 2 {
        let print = seq![next[0]];
        let release = seq![ActionView::ReleaseTerminal];
        let last = seq![rest.last()];
        lemma_single_effort(next[0]);
        lemma_single_effort(ActionView::ReleaseTerminal);
        lemma_total_effort(print + rest.drop_last() + release, last);
        lemma_total_effort(print + rest.drop_last(), release);
        lemma_total_effort(print, rest.drop_last());
        lemma_total_effort(rest.drop_last(), last);
        assert(rest =~= rest.drop_last() + last);
        assert(next =~= print + rest.drop_last() + release + last);
    }
}

/// A run that is being stopped comes to its end: no more actions are performed than its plan can
/// lead to.
pub proof fn law_stop_comes_to_an_end(guard: GuardView, replies: Seq<(ReplyView, u128)>)
    requires
        stopping(guard),
        possible(guard, replies),
    ensures
        replies.len() + total_effort(after(guard, replies).plan) <= total_effort(guard.plan),
    decreases replies.len(),
{
    if replies.len() > 0 {
        let front = replies.drop_last();
        law_stop_comes_to_an_end(guard, front);
        law_stop_keeps_its_verdict(guard, front);
        lemma_effort_shrinks(after(guard, front), replies.last().0, replies.last().1);
    }
}

/// From the moment at which the watch over the child ends, at most ten actions are left.
pub proof fn law_stop_is_short(
    guard: GuardView,
    reply: ReplyView,
    now: u128,
    replies: Seq<(ReplyView, u128)>,
)
    requires
        guard.consistent(),
        guard.run.child is Some,
        watching(guard),
        guard::answers(guard.action(), reply),
        !watching(guard.next(reply, now)),
        possible(guard.next(reply, now), replies),
    ensures
        replies.len() <= 10,
{
    let next = guard.next(reply, now);
    lemma_watch_ends_in_stop(guard, reply, now);
    law_stop_comes_to_an_end(next, replies);
    assert(guard::after_launch(guard.plan[0]));
    if guard.rest().len() > 0 {
        assert(guard.rest().last() == guard.plan.last());
    }
    reveal_with_fuel(total_effort, 8);
}

/// Whether an action starts the command.
pub open spec fn launches(action: ActionView) -> bool {
    action is Spawn
}

proof fn lemma_one_launch(settings: SettingsView, replies: Seq<(ReplyView, u128)>)
    requires
        possible(GuardView::start(settings), replies),
    ensures
        ({
            let guard = after(GuardView::start(settings), replies);
            let done = performed(GuardView::start(settings), replies);
            &&& forall|i: int, j: int|
                0 <= i < j < done.len() && launches(#[trigger] done[i]) ==> !launches(
                    #[trigger] done[j],
                )
            &&& forall|i: int|
                0 <= i < done.len() && launches(#[trigger] done[i]) ==> guard.run.child is Some
                    || guard.plan.len() == 1 && guard.plan[0] is Finish
        }),
    decreases replies.len(),
{
    let start = GuardView::start(settings);
    if replies.len() > 0 {
        let front = replies.drop_last();
        let guard = after(start, front);
        lemma_start_consistent(settings);
        lemma_consistent(start, front);
        lemma_one_launch(settings, front);
        let before = performed(start, front);
        let done = performed(start, replies);
        assert(guard.run.child is Some ==> guard::after_launch(guard.plan[0]));
        assert forall|i: int, j: int|
            0 <= i < j < done.len() && launches(#[trigger] done[i]) implies !launches(
            #[trigger] done[j],
        ) by {
            assert(done[i] == before[i]);
            if j < before.len() {
                assert(done[j] == before[j]);
            }
        }
        assert forall|i: int| 0 <= i < done.len() && launches(#[trigger] done[i]) implies after(
            start,
            replies,
        ).run.child is Some || after(start, replies).plan.len() == 1 && after(
            start,
            replies,
        ).plan[0] is Finish by {
            if i < before.len() {
                assert(done[i] == before[i]);
            }
        }
    }
}

/// The command is started at most once.
pub proof fn law_launches_at_most_once(
    settings: SettingsView,
    replies: Seq<(ReplyView, u128)>,
    i: int,
    j: int,
)
    requires
        possible(GuardView::start(settings), replies),
        0 <= i < j < replies.len(),
    ensures
        !(launches(performed(GuardView::start(settings), replies)[i]) && launches(
            performed(GuardView::start(settings), replies)[j],
        )),
{
    lemma_one_launch(settings, replies);
    lemma_performed_len(GuardView::start(settings), replies);
}

/// There is one action for each reply.
proof fn lemma_performed_len(guard: GuardView, replies: Seq<(ReplyView, u128)>)
    ensures
        performed(guard, replies).len() == replies.len(),
    decreases replies.len(),
{
    if replies.len() > 0 {
        lemma_performed_len(guard, replies.drop_last());
    }
}

/// How many of the actions stop the group.
pub open spec fn stops(actions: Seq<ActionView>) -> nat
    decreases actions.len(),
{
    if actions.len() == 0 {
        0
    } else {
        (if actions.last() is Terminate {
            1nat
        } else {
            0
        }) + stops(actions.drop_last())
    }
}

proof fn lemma_stops(a: Seq<ActionView>, b: Seq<ActionView>)
    ensures
        stops(a + b) == stops(a) + stops(b),
    decreases b.len(),
{
    if b.len() == 0 {
        assert(a + b =~= a);
    } else {
        lemma_stops(a, b.drop_last());
        assert((a + b).drop_last() =~= a + b.drop_last());
    }
}

proof fn lemma_single_stop(action: ActionView)
    ensures
        stops(seq![action]) == if action is Terminate {
            1nat
        } else {
            0
        },
{
    reveal_with_fuel(stops, 2);
    assert(seq![action].drop_last() =~= Seq::<ActionView>::empty());
}

proof fn lemma_no_stops(actions: Seq<ActionView>)
    requires
        forall|i: int| 0 <= i < actions.len() ==> !((#[trigger] actions[i]) is Terminate),
    ensures
        stops(actions) == 0,
    decreases actions.len(),
{
    if actions.len() > 0 {
        assert(actions[actions.len() - 1] == actions.last());
        lemma_no_stops(actions.drop_last());
    }
}

/// At a step of a run that is being stopped, the actions that stop the group are carried over.
proof fn lemma_stops_are_carried_over(guard: GuardView, reply: ReplyView, now: u128)
    requires
        stopping(guard),
        guard::answers(guard.action(), reply),
    ensures
        stops(guard.next(reply, now).plan) + stops(seq![guard.action()]) == stops(guard.plan),
{
    let next = guard.next(reply, now).plan;
    let rest = guard.rest();
    assert(winds_up(guard.plan[0]));
    assert(guard.plan =~= seq![guard.action()] + rest);
    lemma_stops(seq![guard.action()], rest);
    if next.len() == rest.len() + 1 {
        lemma_single_stop(next[0]);
        lemma_stops(seq![next[0]], rest);
        assert(next =~= seq![next[0]] + rest);
    } else if next.len() == rest.len() + 2 {
        let print = seq![next[0]];
        let release = seq![ActionView::ReleaseTerminal];
        let last = seq![rest.last()];
        lemma_single_stop(next[0]);
        lemma_single_stop(ActionView::ReleaseTerminal);
        lemma_stops(print + rest.drop_last() + release, last);
        lemma_stops(print + rest.drop_last(), release);
        lemma_stops(print, rest.drop_last());
        lemma_stops(rest.drop_last(), last);
        assert(rest =~= rest.drop_last() + last);
        assert(next =~= print + rest.drop_last() + release + last);
    }
}

/// The plan by which a run is stopped stops the group once.
proof fn lemma_stop_has_one(guard: GuardView, reply: ReplyView, now: u128)
    requires
        guard.consistent(),
        guard::answers(guard.action(), reply),
        guard.run.child is Some,
        watching(guard),
        !watching(guard.next(reply, now)),
    ensures
        stops(guard.next(reply, now).plan) == 1,
{
    assert(guard::after_launch(guard.plan[0]));
    if guard.rest().len() > 0 {
        assert(guard.rest().last() == guard.plan.last());
    }
    reveal_with_fuel(stops, 8);
}

/// A plan by which the child is watched stops nothing.
spec fn only_watches(plan: Seq<ActionView>) -> bool {
    forall|i: int| 0 <= i < plan.len() ==> !((#[trigger] plan[i]) is Terminate)
}

proof fn lemma_stops_once(settings: SettingsView, replies: Seq<(ReplyView, u128)>)
    requires
        possible(GuardView::start(settings), replies),
    ensures
        ({
            let guard = after(GuardView::start(settings), replies);
            let done = performed(GuardView::start(settings), replies);
            if guard.run.child is None || watching(guard) {
                only_watches(guard.plan) && stops(done) == 0
            } else {
                stops(done) + stops(guard.plan) == 1
            }
        }),
    decreases replies.len(),
{
    let start = GuardView::start(settings);
    if replies.len() > 0 {
        let front = replies.drop_last();
        let guard = after(start, front);
        let next = after(start, replies);
        let (reply, now) = replies.last();
        lemma_start_consistent(settings);
        lemma_consistent(start, front);
        lemma_cleanup_is_due(settings, front);
        lemma_stops_once(settings, front);
        let before = performed(start, front);
        assert(performed(start, replies) =~= before + seq![guard.action()]);
        lemma_stops(before, seq![guard.action()]);
        lemma_single_stop(guard.action());
        if guard.run.child is None {
            assert(guard::before_launch(guard.plan[0]));
            assert forall|i: int| 0 <= i < next.plan.len() implies !((
            #[trigger] next.plan[i]) is Terminate) by {
                if i < guard.rest().len() {
                    assert(guard.rest()[i] == guard.plan[i + 1]);
                }
            }
        } else if watching(guard) {
            assert(!(guard.plan[0] is Terminate));
            if watching(next) {
                assert forall|i: int| 0 <= i < next.plan.len() implies !((
                #[trigger] next.plan[i]) is Terminate) by {
                    if i < guard.rest().len() {
                        assert(guard.rest()[i] == guard.plan[i + 1]);
                    }
                    if 0 < i <= guard.rest().len() {
                        assert(guard.rest()[i - 1] == guard.plan[i]);
                    }
                }
            } else {
                lemma_watch_ends_in_stop(guard, reply, now);
                lemma_stop_has_one(guard, reply, now);
            }
        } else {
            lemma_stop_goes_on(guard, reply, now);
            lemma_stops_are_carried_over(guard, reply, now);
        }
    }
}

/// A run that ends after a launch has stopped the process group exactly once.
pub proof fn law_group_is_stopped_once(settings: SettingsView, replies: Seq<(ReplyView, u128)>)
    requires
        possible(GuardView::start(settings), replies),
        after(GuardView::start(settings), replies).run.child is Some,
        after(GuardView::start(settings), replies).action() is Finish,
    ensures
        stops(performed(GuardView::start(settings), replies)) == 1,
{
    let guard = after(GuardView::start(settings), replies);
    lemma_stops_once(settings, replies);
    lemma_start_consistent(settings);
    lemma_consistent(GuardView::start(settings), replies);
    assert(guard.plan[0] is Finish);
    lemma_no_stops(guard.plan);
}

proof fn lemma_planned_is_due(
    guard: GuardView,
    replies: Seq<(ReplyView, u128)>,
    action: ActionView,
)
    requires
        stopping(guard),
        guard.plan.contains(action),
        possible(guard, replies),
    ensures
        due(after(guard, replies).plan, performed(guard, replies), action),
    decreases replies.len(),
{
    if replies.len() > 0 {
        let front = replies.drop_last();
        let before = after(guard, front);
        lemma_planned_is_due(guard, front, action);
        law_stop_keeps_its_verdict(guard, front);
        lemma_stop_goes_on(before, replies.last().0, replies.last().1);
        lemma_due(before.plan, after(guard, replies).plan, performed(guard, front), action);
    }
}

/// Whatever is planned where a run is stopped is done before the run ends: events are written,
/// lines printed, the group stopped and the terminal taken back.
pub proof fn law_stop_does_what_is_planned(
    guard: GuardView,
    replies: Seq<(ReplyView, u128)>,
    action: ActionView,
)
    requires
        stopping(guard),
        guard.plan.contains(action),
        !(action is Finish),
        possible(guard, replies),
        after(guard, replies).action() is Finish,
    ensures
        performed(guard, replies).contains(action),
{
    lemma_planned_is_due(guard, replies, action);
    law_stop_keeps_its_verdict(guard, replies);
    assert(after(guard, replies).plan[0] is Finish);
}

/// Where a run is turned down with its code, the event has been written and the line printed.
pub proof fn law_refusal_does_what_is_planned(
    guard: GuardView,
    code: int,
    replies: Seq<(ReplyView, u128)>,
    action: ActionView,
)
    requires
        refused(guard, code),
        guard.plan.contains(action),
        !(action is Finish),
        possible(guard, replies),
        after(guard, replies).action() == ActionView::Finish(Ok(code)),
    ensures
        performed(guard, replies).contains(action),
{
    lemma_refusal_is_due(guard, code, replies, action);
    law_refusal_stands(guard, code, replies);
    assert(after(guard, replies).plan[0] is Finish);
}

proof fn lemma_refusal_is_due(
    guard: GuardView,
    code: int,
    replies: Seq<(ReplyView, u128)>,
    action: ActionView,
)
    requires
        refused(guard, code),
        guard.plan.contains(action),
        possible(guard, replies),
    ensures
        due(after(guard, replies).plan, performed(guard, replies), action) || after(
            guard,
            replies,
        ).plan.last() matches ActionView::Finish(Err(_)),
    decreases replies.len(),
{
    if replies.len() > 0 {
        let front = replies.drop_last();
        let before = after(guard, front);
        let next = after(guard, replies);
        lemma_refusal_is_due(guard, code, front, action);
        law_refusal_stands(guard, code, front);
        assert(before.plan[0] is Log || before.plan[0] is Print || before.plan[0] is Finish);
        assert(before.rest().last() == before.plan.last());
        if !(next.plan.last() matches ActionView::Finish(Err(_))) {
            assert(next.plan == before.rest());
            assert forall|i: int| 1 <= i < before.plan.len() implies next.plan.contains(
                #[trigger] before.plan[i],
            ) by {
                assert(before.rest()[i - 1] == before.plan[i]);
            }
            lemma_due(before.plan, next.plan, performed(guard, front), action);
        }
    }
}

/// A run whose memory or swap is below its floor before the launch is refused: the event says which
/// floor is not met, memory first, nothing is launched, and the run is to end with 4.
pub proof fn law_memory_below_a_floor_is_refused(guard: GuardView, mem: MemInfo, now: u128)
    requires
        guard.run.child is None,
        guard.action() is ReadMemory,
        (mem.mem_available_bytes as nat) < guard.run.settings.min_mem_bytes || (
        mem.swap_free_bytes as nat) < guard.run.settings.min_swap_bytes,
    ensures
        ({
            let next = guard.next(ReplyView::Memory(Ok(mem)), now);
            &&& next.run == guard.run
            &&& next.plan.len() == 3
            &&& next.plan[0] matches ActionView::Log(e) && e.event == "refused"@ && e.unix_ms == now
                && e.label == (if (mem.mem_available_bytes as nat)
                < guard.run.settings.min_mem_bytes {
                "memory"@
            } else {
                "swap"@
            }) && e.mem_available_bytes == Some(mem.mem_available_bytes) && e.swap_free_bytes
                == Some(mem.swap_free_bytes) && e.command == guard.run.settings.command && e.pid
                is None
            &&& next.plan[1] is Print
            &&& next.plan[2] == ActionView::Finish(Ok(4))
        }),
{
}

/// A run whose memory or swap is below its floor after the launch stops the group of the child,
/// writes that down, and ends with 137, whatever comes of its actions.
pub proof fn law_memory_below_a_floor_stops_the_group(
    guard: GuardView,
    mem: MemInfo,
    now: u128,
    replies: Seq<(ReplyView, u128)>,
)
    requires
        guard.consistent(),
        guard.run.child is Some,
        guard.action() is ReadMemory,
        (mem.mem_available_bytes as nat) < guard.run.settings.min_mem_bytes || (
        mem.swap_free_bytes as nat) < guard.run.settings.min_swap_bytes,
        possible(guard.next(ReplyView::Memory(Ok(mem)), now), replies),
        after(guard.next(ReplyView::Memory(Ok(mem)), now), replies).action() is Finish,
    ensures
        after(guard.next(ReplyView::Memory(Ok(mem)), now), replies).action()
            == ActionView::Finish(Ok(137)),
        performed(guard.next(ReplyView::Memory(Ok(mem)), now), replies).contains(
            ActionView::Terminate {
                pgid: if guard.run.child->0 <= 0x7fff_ffff {
                    guard.run.child->0 as int
                } else {
                    guard.run.child->0 - 0x1_0000_0000
                },
                grace: guard.run.settings.term_grace,
            },
        ),
        exists|i: int|
            0 <= i < performed(guard.next(ReplyView::Memory(Ok(mem)), now), replies).len() && (
            #[trigger] performed(guard.next(ReplyView::Memory(Ok(mem)), now), replies)[i] matches
                ActionView::LogAfterLaunch(e) && e.event == "memory_pressure_kill"@ && e.pid
                == guard.run.child && e.mem_available_bytes == Some(mem.mem_available_bytes)
                && e.swap_free_bytes == Some(mem.swap_free_bytes)),
{
    let reply = ReplyView::Memory(Ok(mem));
    let next = guard.next(reply, now);
    law_pressure_stop_returns_137(guard, mem, now, replies);
    guard::lemma_next_consistent(guard, reply, now);
    assert(stopping(next));
    let k = if guard.run.handed_off {
        1int
    } else {
        0int
    };
    let log = next.plan[k];
    let stop = next.plan[k + 2];
    assert(next.plan.contains(log) && next.plan.contains(stop));
    assert(stop == guard.run.terminate());
    law_stop_does_what_is_planned(next, replies, log);
    law_stop_does_what_is_planned(next, replies, stop);
}

} // verus!
