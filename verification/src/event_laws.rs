//! Which events a run writes down, and in what order.
use crate::guard::{self, ActionView, GuardView, ReplyView, SettingsView};
use crate::safety;
use vstd::prelude::*;

verus! {

/// The name of the event that an action writes down, if it writes one down.
pub open spec fn name_of(action: ActionView) -> Seq<Seq<char>> {
    match action {
        ActionView::Log(e) | ActionView::LogAfterLaunch(e) => seq![e.event],
        _ => Seq::empty(),
    }
}

/// The names of the events that actions write down, in order.
pub open spec fn names_of(actions: Seq<ActionView>) -> Seq<Seq<char>>
    decreases actions.len(),
{
    if actions.len() == 0 {
        Seq::empty()
    } else {
        names_of(actions.drop_last()) + name_of(actions.last())
    }
}

/// What has been learned in a run that its events tell of.
pub struct Learned {
    /// The event log is open, if there is one.
    pub opened: bool,
    /// `earlyoom` is not active.
    pub unguarded: bool,
    /// A floor is not met.
    pub short: bool,
    /// The child runs, and has the terminal if it is to have it.
    pub launched: bool,
    /// The child has ended.
    pub ended: bool,
    /// A signal has come.
    pub signalled: bool,
    /// The child has left others of its group behind.
    pub members: bool,
}

impl Learned {
    /// Nothing.
    pub open spec fn nothing() -> Learned {
        Learned {
            opened: false,
            unguarded: false,
            short: false,
            launched: false,
            ended: false,
            signalled: false,
            members: false,
        }
    }

    /// What is learned from one more reply. The first reply of a run is about the event log.
    pub open spec fn and(self, settings: SettingsView, reply: ReplyView, first: bool) -> Learned {
        Learned {
            opened: self.opened || (first && (reply matches ReplyView::Done(Ok(_)))),
            unguarded: self.unguarded || reply == ReplyView::Earlyoom(Ok(false)),
            short: self.short || (reply matches ReplyView::Memory(Ok(mem)) && guard::shortage(
                settings,
                mem,
            ) is Some),
            launched: self.launched || (reply matches ReplyView::HandedOff(Ok(_))),
            ended: self.ended || (reply matches ReplyView::Child(Ok(Some(_)))),
            signalled: self.signalled || (reply matches ReplyView::Signal(Some(_))),
            members: self.members || reply == ReplyView::Group(true),
        }
    }
}

/// What has been learned from a number of replies.
pub open spec fn learned(settings: SettingsView, replies: Seq<(ReplyView, u128)>) -> Learned
    decreases replies.len(),
{
    if replies.len() == 0 {
        Learned::nothing()
    } else {
        learned(settings, replies.drop_last()).and(
            settings,
            replies.last().0,
            replies.len() == 1,
        )
    }
}

/// How a launched run was brought to its end, in the names of events.
pub open spec fn last_events(l: Learned) -> Seq<Seq<char>> {
    if l.ended && l.members {
        seq!["child_exit"@, "process_group_cleanup"@]
    } else if l.ended {
        seq!["child_exit"@]
    } else if l.signalled {
        seq!["parent_signal_kill"@]
    } else if l.short {
        seq!["memory_pressure_kill"@]
    } else {
        Seq::empty()
    }
}

/// The names of the events of a run, in order: `preflight`, then `refused`, or `launched` and how
/// the run was brought to its end.
pub open spec fn record(l: Learned) -> Seq<Seq<char>> {
    if !l.opened {
        Seq::empty()
    } else if l.launched {
        seq!["preflight"@, "launched"@] + last_events(l)
    } else if l.unguarded || l.short {
        seq!["preflight"@, "refused"@]
    } else {
        seq!["preflight"@]
    }
}

proof fn lemma_names_of_concat(a: Seq<ActionView>, b: Seq<ActionView>)
    ensures
        names_of(a + b) == names_of(a) + names_of(b),
    decreases b.len(),
{
    if b.len() == 0 {
        assert(a + b =~= a);
        assert(names_of(a) + names_of(b) =~= names_of(a));
    } else {
        lemma_names_of_concat(a, b.drop_last());
        assert((a + b).drop_last() =~= a + b.drop_last());
        assert(names_of(a + b) =~= names_of(a) + names_of(b));
    }
}

proof fn lemma_single_name(action: ActionView)
    ensures
        names_of(seq![action]) == name_of(action),
{
    let one = seq![action];
    assert(one.drop_last() =~= Seq::empty());
    assert(names_of(one.drop_last()) =~= Seq::empty());
    assert(names_of(one) =~= name_of(action));
}

/// The names of a plan are that of its first action and those of the rest.
proof fn lemma_first_name(plan: Seq<ActionView>)
    requires
        plan.len() > 0,
    ensures
        names_of(plan) == name_of(plan[0]) + names_of(plan.drop_first()),
{
    assert(plan =~= seq![plan[0]] + plan.drop_first());
    lemma_names_of_concat(seq![plan[0]], plan.drop_first());
    lemma_single_name(plan[0]);
}

/// Whether no action from one on writes an event down.
spec fn quiet_from(plan: Seq<ActionView>, i: int) -> bool {
    forall|j: int| i <= j < plan.len() ==> name_of(#[trigger] plan[j]) == Seq::<Seq<char>>::empty()
}

proof fn lemma_quiet(plan: Seq<ActionView>)
    requires
        quiet_from(plan, 0),
    ensures
        names_of(plan) == Seq::<Seq<char>>::empty(),
    decreases plan.len(),
{
    if plan.len() > 0 {
        let front = plan.drop_last();
        assert forall|j: int| 0 <= j < front.len() implies name_of(#[trigger] front[j]) == Seq::<
            Seq<char>,
        >::empty() by {
            assert(front[j] == plan[j]);
        }
        lemma_quiet(front);
        assert(name_of(plan[plan.len() - 1]) == Seq::<Seq<char>>::empty());
        assert(names_of(plan) =~= Seq::empty());
    }
}

/// Where only the first action of a plan can write an event down, that is all that the plan tells.
proof fn lemma_quiet_rest(plan: Seq<ActionView>)
    requires
        plan.len() > 0,
        quiet_from(plan, 1),
    ensures
        names_of(plan) == name_of(plan[0]),
        names_of(plan.drop_first()) == Seq::<Seq<char>>::empty(),
{
    let rest = plan.drop_first();
    assert forall|j: int| 0 <= j < rest.len() implies name_of(#[trigger] rest[j]) == Seq::<
        Seq<char>,
    >::empty() by {
        assert(rest[j] == plan[j + 1]);
    }
    lemma_quiet(rest);
    lemma_first_name(plan);
    assert(names_of(plan) =~= name_of(plan[0]));
}

/// Whether a plan is that of a run that was turned down, or has failed.
spec fn only_tells(plan: Seq<ActionView>) -> bool {
    forall|i: int|
        0 <= i < plan.len() ==> (#[trigger] plan[i]) is Log || plan[i] is Print || plan[i]
            is Finish
}

/// How a plan stands to what has been learned.
spec fn fits(guard: GuardView, l: Learned, begun: bool) -> bool {
    &&& guard.consistent()
    &&& !begun ==> guard.plan == seq![ActionView::OpenLog] && !l.opened
    &&& begun ==> forall|i: int|
        0 <= i < guard.plan.len() ==> !((#[trigger] guard.plan[i]) is OpenLog)
    &&& guard.run.child is None ==> {
        &&& quiet_from(guard.plan, 1)
        &&& !l.launched && !l.ended && !l.signalled && !l.members
        &&& l.unguarded || l.short ==> l.opened && only_tells(guard.plan)
        &&& begun && !l.opened ==> guard.plan.len() == 1 && guard.plan[0] is Finish
    }
    &&& guard.run.child is Some ==> {
        &&& begun && l.opened && !l.unguarded
        &&& safety::watching(guard) || safety::stopping(guard)
        &&& !l.launched ==> !l.ended && !l.signalled && !l.short && !l.members
        &&& safety::watching(guard) ==> {
            &&& quiet_from(guard.plan, 1)
            &&& !l.ended && !l.signalled && !l.short && !l.members
            &&& l.launched == (guard.plan.last() is WaitForPoll)
            &&& forall|i: int|
                0 <= i < guard.plan.len() && (#[trigger] guard.plan[i]) is HandOff
                    ==> guard.plan.len() == 1
        }
        &&& forall|i: int|
            0 <= i < guard.plan.len() && (#[trigger] guard.plan[i]) is CheckGroup ==> i <= 1
                && l.launched && l.ended && !l.members && quiet_from(guard.plan, i)
        &&& forall|i: int, j: int|
            0 <= i < j < guard.plan.len() && (#[trigger] guard.plan[i]) is CheckGroup ==> !((
            #[trigger] guard.plan[j]) is CheckGroup)
    }
}

/// How the events that a plan adds stand to what one reply has told.
spec fn adds_up(l: Learned, next: GuardView, m: Learned) -> bool {
    record(l) + names_of(next.plan) == record(m)
}

proof fn lemma_tell_before_launch(
    guard: GuardView,
    l: Learned,
    begun: bool,
    reply: ReplyView,
    now: u128,
)
    requires
        fits(guard, l, begun),
        guard.run.child is None,
        guard::answers(guard.action(), reply),
    ensures
        fits(guard.next(reply, now), l.and(guard.run.settings, reply, !begun), true),
        adds_up(l, guard.next(reply, now), l.and(guard.run.settings, reply, !begun)),
{
    let next = guard.next(reply, now);
    let m = l.and(guard.run.settings, reply, !begun);
    let rest = guard.rest();
    guard::lemma_next_consistent(guard, reply, now);
    lemma_quiet_rest(guard.plan);
    assert(guard::before_launch(guard.plan[0]));
    assert(begun ==> !(guard.plan[0] is OpenLog));
    assert forall|i: int| 0 <= i < rest.len() implies #[trigger] rest[i] == guard.plan[i + 1] by {}
    assert(quiet_from(rest, 0)) by {
        assert forall|j: int| 0 <= j < rest.len() implies name_of(#[trigger] rest[j]) == Seq::<
            Seq<char>,
        >::empty() by {
            assert(rest[j] == guard.plan[j + 1]);
        }
    }
    if next.plan.len() > 0 && quiet_from(next.plan, 1) {
        lemma_quiet_rest(next.plan);
    }
    assert(names_of(next.plan) =~= name_of(next.plan[0]));
    assert(record(l) + names_of(next.plan) =~= record(m));
}

proof fn lemma_tell_watch(guard: GuardView, l: Learned, reply: ReplyView, now: u128)
    requires
        fits(guard, l, true),
        guard.run.child is Some,
        safety::watching(guard),
        guard::answers(guard.action(), reply),
    ensures
        fits(guard.next(reply, now), l.and(guard.run.settings, reply, false), true),
        adds_up(l, guard.next(reply, now), l.and(guard.run.settings, reply, false)),
{
    let next = guard.next(reply, now);
    let m = l.and(guard.run.settings, reply, false);
    let rest = guard.rest();
    guard::lemma_next_consistent(guard, reply, now);
    safety::lemma_watch_ends_in_stop(guard, reply, now);
    lemma_quiet_rest(guard.plan);
    assert(guard::after_launch(guard.plan[0]));
    assert(!(guard.plan[0] is CheckGroup));
    assert forall|i: int| 0 <= i < rest.len() implies #[trigger] rest[i] == guard.plan[i + 1] by {}
    assert forall|j: int| 0 <= j < rest.len() implies name_of(#[trigger] rest[j]) == Seq::<
        Seq<char>,
    >::empty() by {
        assert(rest[j] == guard.plan[j + 1]);
    }
    if rest.len() > 0 {
        assert(rest.last() == guard.plan.last());
    }
    if quiet_from(next.plan, 1) {
        lemma_quiet_rest(next.plan);
        assert(names_of(next.plan) == name_of(next.plan[0]));
    } else {
        assert(guard.run.handed_off);
        lemma_first_name(next.plan);
        lemma_quiet_rest(next.plan.drop_first());
        assert(next.plan.drop_first()[0] == next.plan[1]);
        assert(names_of(next.plan) =~= name_of(next.plan[1]));
    }
    if !l.launched {
        assert(guard.plan[0] is HandOff);
        assert(record(l) == seq!["preflight"@]);
        assert(record(l) + names_of(next.plan) =~= record(m));
    } else {
        assert(!(guard.plan[0] is HandOff));
        assert(record(l) =~= seq!["preflight"@, "launched"@]);
        match reply {
            ReplyView::Done(_) => {
                assert(name_of(next.plan[0]) =~= Seq::empty());
                assert(names_of(next.plan) =~= last_events(m));
            },
            ReplyView::Signal(_) => {
                assert(names_of(next.plan) =~= last_events(m));
            },
            ReplyView::Child(_) => {
                assert(names_of(next.plan) =~= last_events(m));
            },
            ReplyView::Memory(_) => {
                assert(names_of(next.plan) =~= last_events(m));
            },
            _ => {
                assert(names_of(next.plan) =~= last_events(m));
            },
        }
        assert(record(l) + names_of(next.plan) =~= record(m));
    }
}

/// While a run is stopped, the events that are planned stay so; one may come in front.
proof fn lemma_tell_stop(guard: GuardView, l: Learned, reply: ReplyView, now: u128)
    requires
        fits(guard, l, true),
        guard.run.child is Some,
        safety::stopping(guard),
        guard::answers(guard.action(), reply),
    ensures
        fits(guard.next(reply, now), l.and(guard.run.settings, reply, false), true),
        reply == ReplyView::Group(true) ==> names_of(guard.rest()) == Seq::<Seq<char>>::empty()
            && name_of(guard.action()) == Seq::<Seq<char>>::empty() && adds_up(
            l,
            guard.next(reply, now),
            l.and(guard.run.settings, reply, false),
        ),
        reply != ReplyView::Group(true) ==> names_of(guard.next(reply, now).plan) == names_of(
            guard.rest(),
        ) && l.and(guard.run.settings, reply, false) == l,
{
    let next = guard.next(reply, now);
    let m = l.and(guard.run.settings, reply, false);
    let rest = guard.rest();
    guard::lemma_next_consistent(guard, reply, now);
    safety::lemma_stop_goes_on(guard, reply, now);
    assert(safety::winds_up(guard.plan[0]));
    assert forall|i: int| 0 <= i < rest.len() implies #[trigger] rest[i] == guard.plan[i + 1] by {}
    assert forall|i: int| 0 <= i < next.plan.len() && (#[trigger] next.plan[i]) is CheckGroup implies i
        <= 1 && m.launched && m.ended && !m.members && quiet_from(next.plan, i) by {
        let k = if next.plan.len() == rest.len() {
            i + 1
        } else {
            i
        };
        assert(guard.plan[k] == next.plan[i]);
        assert forall|j: int| i <= j < next.plan.len() implies name_of(#[trigger] next.plan[j])
            == Seq::<Seq<char>>::empty() by {
            if next.plan.len() == rest.len() {
                assert(next.plan[j] == guard.plan[j + 1]);
            } else if j < guard.plan.len() {
                assert(name_of(guard.plan[j]) == Seq::<Seq<char>>::empty());
            }
        }
    }
    if reply == ReplyView::Group(true) {
        assert(guard.plan[0] is CheckGroup);
        assert(quiet_from(guard.plan, 1));
        lemma_quiet_rest(guard.plan);
        lemma_first_name(next.plan);
        assert(next.plan.drop_first() =~= rest);
        assert(record(l) + names_of(next.plan) =~= record(m));
    } else if next.plan.len() == rest.len() {
    } else if next.plan.len() == rest.len() + 1 {
        lemma_first_name(next.plan);
        assert(next.plan.drop_first() =~= rest);
        assert(names_of(next.plan) =~= names_of(rest));
    } else {
        let front = rest.drop_last();
        let end = seq![ActionView::ReleaseTerminal, rest.last()];
        lemma_first_name(next.plan);
        assert(next.plan.drop_first() =~= front + end);
        lemma_names_of_concat(front, end);
        lemma_first_name(end);
        assert(end.drop_first() =~= seq![rest.last()]);
        lemma_single_name(rest.last());
        assert(names_of(next.plan) =~= names_of(rest));
    }
}

proof fn lemma_tell(settings: SettingsView, replies: Seq<(ReplyView, u128)>)
    requires
        safety::possible(GuardView::start(settings), replies),
    ensures
        ({
            let start = GuardView::start(settings);
            let guard = safety::after(start, replies);
            &&& guard.run.settings == settings
            &&& fits(guard, learned(settings, replies), replies.len() > 0)
            &&& names_of(safety::performed(start, replies)) + names_of(guard.plan) == record(
                learned(settings, replies),
            )
        }),
    decreases replies.len(),
{
    let start = GuardView::start(settings);
    let guard = safety::after(start, replies);
    safety::lemma_start_consistent(settings);
    safety::lemma_consistent(start, replies);
    if replies.len() == 0 {
        lemma_single_name(ActionView::OpenLog);
        assert(names_of(safety::performed(start, replies)) + names_of(guard.plan)
            =~= Seq::empty());
    } else {
        let front = replies.drop_last();
        let before = safety::after(start, front);
        let l = learned(settings, front);
        let (reply, now) = replies.last();
        let done = safety::performed(start, front);
        lemma_tell(settings, front);
        let all = safety::performed(start, replies);
        assert(all =~= done + seq![before.action()]);
        lemma_names_of_concat(done, seq![before.action()]);
        lemma_single_name(before.action());
        lemma_first_name(before.plan);
        if before.run.child is None {
            lemma_tell_before_launch(before, l, front.len() > 0, reply, now);
            lemma_quiet_rest(before.plan);
            assert(names_of(all) =~= record(l));
        } else if safety::watching(before) {
            lemma_tell_watch(before, l, reply, now);
            lemma_quiet_rest(before.plan);
            assert(names_of(all) =~= record(l));
        } else {
            lemma_tell_stop(before, l, reply, now);
            assert(names_of(done) + (name_of(before.action()) + names_of(before.rest())) =~= (
            names_of(done) + name_of(before.action())) + names_of(before.rest()));
            if reply == ReplyView::Group(true) {
                assert(names_of(all) =~= record(l));
            }
        }
    }
}

/// The events of a run that has come to its end tell what was learned in it, in order: `preflight`
/// first; then `refused` where it was not launched because `earlyoom` or memory was missing; else
/// `launched`, and `child_exit`, with `process_group_cleanup` where members of the group were left,
/// or `parent_signal_kill`, or `memory_pressure_kill`.
pub proof fn law_events_tell_the_run(settings: SettingsView, replies: Seq<(ReplyView, u128)>)
    requires
        safety::possible(GuardView::start(settings), replies),
        safety::after(GuardView::start(settings), replies).action() is Finish,
    ensures
        names_of(safety::performed(GuardView::start(settings), replies)) == record(
            learned(settings, replies),
        ),
{
    let start = GuardView::start(settings);
    let guard = safety::after(start, replies);
    lemma_tell(settings, replies);
    assert(guard.plan[0] is Finish);
    assert(guard.plan.len() == 1);
    lemma_quiet_rest(guard.plan);
    assert(names_of(safety::performed(start, replies)) + names_of(guard.plan) =~= names_of(
        safety::performed(start, replies),
    ));
}

/// The events of a run never get ahead of what was learned: those written down so far are the first
/// of those that are due.
pub proof fn law_events_come_in_order(settings: SettingsView, replies: Seq<(ReplyView, u128)>)
    requires
        safety::possible(GuardView::start(settings), replies),
    ensures
        names_of(safety::performed(GuardView::start(settings), replies)).is_prefix_of(
            record(learned(settings, replies)),
        ),
{
    lemma_tell(settings, replies);
}

/// A run that ends with an exit code was refused, with `preflight` and `refused` as its events, or
/// was launched, with `preflight`, `launched`, and then what it was ended by.
pub proof fn law_ended_runs_have_their_events(
    settings: SettingsView,
    replies: Seq<(ReplyView, u128)>,
)
    requires
        safety::possible(GuardView::start(settings), replies),
        safety::after(GuardView::start(settings), replies).action() matches ActionView::Finish(
            Ok(_),
        ),
    ensures
        ({
            let start = GuardView::start(settings);
            let names = names_of(safety::performed(start, replies));
            if safety::after(start, replies).run.child is None {
                names == seq!["preflight"@, "refused"@]
            } else {
                ||| names == seq!["preflight"@, "launched"@, "child_exit"@]
                ||| names == seq![
                    "preflight"@,
                    "launched"@,
                    "child_exit"@,
                    "process_group_cleanup"@,
                ]
                ||| names == seq!["preflight"@, "launched"@, "memory_pressure_kill"@]
                ||| names == seq!["preflight"@, "launched"@, "parent_signal_kill"@]
            }
        }),
{
    lemma_tell(settings, replies);
    lemma_verdict(settings, replies);
    law_events_tell_the_run(settings, replies);
    let start = GuardView::start(settings);
    let l = learned(settings, replies);
    let guard = safety::after(start, replies);
    assert(guard.plan[0] is Finish);
    assert(guard.plan.len() == 1);
    assert(record(l) =~= seq!["preflight"@, "launched"@] + last_events(l) || record(l) =~= seq![
        "preflight"@,
        "refused"@,
    ]);
}

/// A run that is to end with an exit code has learned why.
proof fn lemma_verdict(settings: SettingsView, replies: Seq<(ReplyView, u128)>)
    requires
        safety::possible(GuardView::start(settings), replies),
    ensures
        ({
            let guard = safety::after(GuardView::start(settings), replies);
            let l = learned(settings, replies);
            guard.plan.len() > 0 && (guard.plan.last() matches ActionView::Finish(Ok(_)) ==> l.opened
                && if guard.run.child is None {
                !l.launched && (l.unguarded || l.short)
            } else {
                l.launched && (l.ended || l.signalled || l.short)
            })
        }),
    decreases replies.len(),
{
    let start = GuardView::start(settings);
    lemma_tell(settings, replies);
    if replies.len() > 0 {
        let front = replies.drop_last();
        let before = safety::after(start, front);
        lemma_tell(settings, front);
        lemma_verdict(settings, front);
        let rest = before.rest();
        if rest.len() > 0 {
            assert(rest.last() == before.plan.last());
        }
        if before.run.child is Some && !safety::watching(before) {
            safety::lemma_stop_goes_on(before, replies.last().0, replies.last().1);
        }
    }
}

} // verus!
