//! Stopping a process group: one request to end, time to follow it, then force.
//!
//! The same division of work as in [`crate::guard`]: [`Stop::action`] says what is to be done next,
//! and [`Stop::step`] takes what came of it.
use crate::duration::Duration;
use vstd::prelude::*;

verus! {

/// How long a group may take to appear, in nanoseconds.
pub const SETTLE_NANOS: u64 = 100_000_000;

/// How long a group may take to vanish once it was killed, in nanoseconds.
pub const KILL_WAIT_NANOS: u64 = 1_000_000_000;

/// The longest pause between two looks at the group, in nanoseconds.
pub const PAUSE_NANOS: u64 = 20_000_000;

/// Something to do in order to stop a group.
#[derive(Clone, Copy, Debug, PartialEq, Eq)]
pub enum StopAction {
    /// Send `SIGTERM` to the group.
    SendTerm,
    /// Reap the child if it has ended, and see whether anything is left of the group.
    Look,
    /// Read how long ago the last signal was sent.
    ReadClock,
    /// Do nothing for some time.
    Sleep(Duration),
    /// Send `SIGKILL` to the group.
    SendKill,
    /// Reap the child if it has ended.
    Reap,
    /// Nothing more.
    Done,
}

/// What came of it.
#[derive(Clone, Copy, Debug, PartialEq, Eq)]
pub enum StopReply {
    Done,
    Group(bool),
    Elapsed(Duration),
}

/// What a [`StopAction`] says. Spans of time are in nanoseconds.
pub enum StopActionView {
    SendTerm,
    Look,
    ReadClock,
    Sleep(nat),
    SendKill,
    Reap,
    Done,
}

/// What a [`StopReply`] says.
pub enum StopReplyView {
    Done,
    Group(bool),
    Elapsed(nat),
}

impl View for StopAction {
    type V = StopActionView;

    open spec fn view(&self) -> StopActionView {
        match *self {
            StopAction::SendTerm => StopActionView::SendTerm,
            StopAction::Look => StopActionView::Look,
            StopAction::ReadClock => StopActionView::ReadClock,
            StopAction::Sleep(d) => StopActionView::Sleep(d@),
            StopAction::SendKill => StopActionView::SendKill,
            StopAction::Reap => StopActionView::Reap,
            StopAction::Done => StopActionView::Done,
        }
    }
}

impl View for StopReply {
    type V = StopReplyView;

    open spec fn view(&self) -> StopReplyView {
        match *self {
            StopReply::Done => StopReplyView::Done,
            StopReply::Group(b) => StopReplyView::Group(b),
            StopReply::Elapsed(d) => StopReplyView::Elapsed(d@),
        }
    }
}

/// How far the stopping of a group has come.
#[derive(Clone, Copy, Debug, PartialEq, Eq, Structural)]
pub enum Phase {
    /// Asked to end. Whether anything of the group has been seen since.
    Asked { seen: bool },
    /// Killed.
    Killed,
}

/// The stopping of a group: the time that it has, how far it has come, and what is to be done.
pub struct StopView {
    pub grace: nat,
    pub phase: Phase,
    pub action: StopActionView,
}

/// Whether a reply is one that can come of an action.
pub open spec fn answers(action: StopActionView, reply: StopReplyView) -> bool {
    match action {
        StopActionView::SendTerm
        | StopActionView::Sleep(_)
        | StopActionView::SendKill
        | StopActionView::Reap => reply is Done,
        StopActionView::Look => reply is Group,
        StopActionView::ReadClock => reply is Elapsed,
        StopActionView::Done => false,
    }
}

/// The shorter of two spans.
pub open spec fn shorter(a: nat, b: nat) -> nat {
    if a <= b {
        a
    } else {
        b
    }
}

impl StopView {
    /// At the start, the group is to be asked to end.
    pub open spec fn start(grace: nat) -> StopView {
        StopView { grace, phase: Phase::Asked { seen: false }, action: StopActionView::SendTerm }
    }

    /// The same, with another action.
    pub open spec fn doing(self, action: StopActionView) -> StopView {
        StopView { action, ..self }
    }

    /// After a look at the group.
    ///
    /// A group that is gone is stopped, but one that was asked to end has to have been seen first:
    /// it may not have appeared yet.
    pub open spec fn looked(self, present: bool) -> StopView {
        match self.phase {
            Phase::Asked { seen } => if present {
                StopView {
                    phase: Phase::Asked { seen: true },
                    action: StopActionView::ReadClock,
                    ..self
                }
            } else if seen {
                self.doing(StopActionView::Done)
            } else {
                self.doing(StopActionView::ReadClock)
            },
            Phase::Killed => if present {
                self.doing(StopActionView::Sleep(PAUSE_NANOS as nat))
            } else {
                self.doing(StopActionView::Done)
            },
        }
    }

    /// After a look at the clock.
    ///
    /// A group that was asked to end has the grace time, and one that was not seen has the time to
    /// appear. One that was killed has the time to vanish.
    pub open spec fn timed(self, elapsed: nat) -> StopView {
        match self.phase {
            Phase::Asked { seen: true } => if elapsed >= self.grace {
                self.doing(StopActionView::SendKill)
            } else {
                self.doing(
                    StopActionView::Sleep(
                        shorter((self.grace - elapsed) as nat, PAUSE_NANOS as nat),
                    ),
                )
            },
            Phase::Asked { seen: false } => if elapsed >= SETTLE_NANOS {
                self.doing(StopActionView::Done)
            } else {
                self.doing(
                    StopActionView::Sleep(
                        shorter((SETTLE_NANOS - elapsed) as nat, PAUSE_NANOS as nat),
                    ),
                )
            },
            Phase::Killed => if elapsed >= KILL_WAIT_NANOS {
                self.doing(StopActionView::Reap)
            } else {
                self.doing(StopActionView::Look)
            },
        }
    }

    /// After a reply to the action.
    pub open spec fn next(self, reply: StopReplyView) -> StopView {
        match reply {
            StopReplyView::Group(present) => self.looked(present),
            StopReplyView::Elapsed(elapsed) => self.timed(elapsed),
            StopReplyView::Done => match self.action {
                StopActionView::SendKill => StopView {
                    phase: Phase::Killed,
                    action: StopActionView::ReadClock,
                    ..self
                },
                StopActionView::Reap => self.doing(StopActionView::Done),
                _ => if self.phase is Killed {
                    self.doing(StopActionView::ReadClock)
                } else {
                    self.doing(StopActionView::Look)
                },
            },
        }
    }
}

/// The stopping of a group.
pub struct Stop {
    pub grace: Duration,
    pub phase: Phase,
    pub action: StopAction,
}

impl View for Stop {
    type V = StopView;

    open spec fn view(&self) -> StopView {
        StopView { grace: self.grace@, phase: self.phase, action: self.action@ }
    }
}

/// Begins to stop a group that has the given time to follow the request.
pub fn terminate_process_group(term_grace: Duration) -> (r: Stop)
    ensures
        r@ == StopView::start(term_grace@),
{
    Stop { grace: term_grace, phase: Phase::Asked { seen: false }, action: StopAction::SendTerm }
}

impl Stop {
    /// The same, with another action.
    fn doing(self, action: StopAction) -> (r: Stop)
        ensures
            r@ == self@.doing(action@),
    {
        Stop { action, ..self }
    }

    /// A pause until a deadline, or a shorter one.
    fn pause(self, deadline: Duration, elapsed: Duration) -> (r: Stop)
        requires
            elapsed@ < deadline@,
        ensures
            r@ == self@.doing(
                StopActionView::Sleep(
                    shorter((deadline@ - elapsed@) as nat, PAUSE_NANOS as nat),
                ),
            ),
    {
        let remaining = deadline.saturating_sub(elapsed);
        self.doing(StopAction::Sleep(remaining.min(Duration::from_millis(20))))
    }

    /// After a look at the group.
    fn looked(self, present: bool) -> (r: Stop)
        ensures
            r@ == self@.looked(present),
    {
        match self.phase {
            Phase::Asked { seen } => if present {
                Stop {
                    phase: Phase::Asked { seen: true },
                    action: StopAction::ReadClock,
                    ..self
                }
            } else if seen {
                self.doing(StopAction::Done)
            } else {
                self.doing(StopAction::ReadClock)
            },
            Phase::Killed => if present {
                self.doing(StopAction::Sleep(Duration::from_millis(20)))
            } else {
                self.doing(StopAction::Done)
            },
        }
    }

    /// After a look at the clock.
    fn timed(self, elapsed: Duration) -> (r: Stop)
        ensures
            r@ == self@.timed(elapsed@),
    {
        match self.phase {
            Phase::Asked { seen } => if seen {
                if elapsed.reaches(&self.grace) {
                    self.doing(StopAction::SendKill)
                } else {
                    let grace = self.grace;
                    self.pause(grace, elapsed)
                }
            } else {
                let settle = Duration::from_millis(100);
                if elapsed.reaches(&settle) {
                    self.doing(StopAction::Done)
                } else {
                    self.pause(settle, elapsed)
                }
            },
            Phase::Killed => if elapsed.reaches(&Duration::from_secs(1)) {
                self.doing(StopAction::Reap)
            } else {
                self.doing(StopAction::Look)
            },
        }
    }

    /// After a reply to the action.
    pub fn step(self, reply: StopReply) -> (r: Stop)
        requires
            answers(self@.action, reply@),
        ensures
            r@ == self@.next(reply@),
    {
        match reply {
            StopReply::Group(present) => self.looked(present),
            StopReply::Elapsed(elapsed) => self.timed(elapsed),
            StopReply::Done => match self.action {
                StopAction::SendKill => Stop {
                    phase: Phase::Killed,
                    action: StopAction::ReadClock,
                    ..self
                },
                StopAction::Reap => self.doing(StopAction::Done),
                _ => match self.phase {
                    Phase::Killed => self.doing(StopAction::ReadClock),
                    _ => self.doing(StopAction::Look),
                },
            },
        }
    }
}

/// The state after a number of replies.
pub open spec fn after(stop: StopView, replies: Seq<StopReplyView>) -> StopView
    decreases replies.len(),
{
    if replies.len() == 0 {
        stop
    } else {
        after(stop, replies.drop_last()).next(replies.last())
    }
}

/// Whether each reply is one that can come of the action that it is a reply to.
pub open spec fn possible(stop: StopView, replies: Seq<StopReplyView>) -> bool
    decreases replies.len(),
{
    replies.len() == 0 || (possible(stop, replies.drop_last()) && answers(
        after(stop, replies.drop_last()).action,
        replies.last(),
    ))
}

/// The action that a reply is a reply to.
pub open spec fn action_at(stop: StopView, replies: Seq<StopReplyView>, i: int) -> StopActionView {
    after(stop, replies.take(i)).action
}

/// Whether the group has been seen.
pub open spec fn group_seen(replies: Seq<StopReplyView>) -> bool {
    exists|i: int| 0 <= i < replies.len() && #[trigger] replies[i] == StopReplyView::Group(true)
}

/// The group is asked to end once, and before anything else.
pub proof fn law_one_request_comes_first(grace: nat, replies: Seq<StopReplyView>)
    requires
        possible(StopView::start(grace), replies),
    ensures
        after(StopView::start(grace), replies).action is SendTerm <==> replies.len() == 0,
        after(StopView::start(grace), replies).grace == grace,
    decreases replies.len(),
{
    if replies.len() > 0 {
        law_one_request_comes_first(grace, replies.drop_last());
    }
}

/// How the state stands to the replies that led to it.
proof fn lemma_history(grace: nat, replies: Seq<StopReplyView>)
    requires
        possible(StopView::start(grace), replies),
    ensures
        ({
            let stop = after(StopView::start(grace), replies);
            &&& stop.phase == Phase::Asked { seen: true } || stop.phase is Killed
                ==> group_seen(replies)
            &&& stop.phase == Phase::Asked { seen: false } ==> !group_seen(replies)
            &&& stop.action is SendKill ==> stop.phase == Phase::Asked { seen: true }
            &&& stop.action is Reap ==> stop.phase is Killed
        }),
    decreases replies.len(),
{
    if replies.len() > 0 {
        let front = replies.drop_last();
        lemma_history(grace, front);
        if group_seen(front) {
            let i = choose|i: int|
                0 <= i < front.len() && #[trigger] front[i] == StopReplyView::Group(true);
            assert(replies[i] == front[i]);
        }
        assert(replies[replies.len() - 1] == replies.last());
        if !group_seen(front) && replies.last() != StopReplyView::Group(true) {
            assert forall|i: int| 0 <= i < replies.len() implies #[trigger] replies[i]
                != StopReplyView::Group(true) by {
                if i < front.len() {
                    assert(front[i] == replies[i]);
                }
            }
        }
    }
}

/// The group is killed only where it was seen after the request and the time that it had is over.
pub proof fn law_kill_comes_after_grace(grace: nat, replies: Seq<StopReplyView>)
    requires
        possible(StopView::start(grace), replies),
        after(StopView::start(grace), replies).action is SendKill,
    ensures
        group_seen(replies),
        replies.len() > 0,
        replies.last() matches StopReplyView::Elapsed(elapsed) && elapsed >= grace,
{
    let front = replies.drop_last();
    lemma_history(grace, replies);
    law_one_request_comes_first(grace, front);
    lemma_history(grace, front);
}

/// The group is killed at most once.
pub proof fn law_one_kill(grace: nat, replies: Seq<StopReplyView>, i: int)
    requires
        possible(StopView::start(grace), replies),
        0 <= i < replies.len(),
        action_at(StopView::start(grace), replies, i) is SendKill,
    ensures
        !(after(StopView::start(grace), replies).action is SendKill),
{
    lemma_killed_stays(grace, replies, i);
}

proof fn lemma_killed_stays(grace: nat, replies: Seq<StopReplyView>, i: int)
    requires
        possible(StopView::start(grace), replies),
        0 <= i < replies.len(),
        action_at(StopView::start(grace), replies, i) is SendKill,
    ensures
        after(StopView::start(grace), replies).phase is Killed,
        !(after(StopView::start(grace), replies).action is SendKill),
    decreases replies.len(),
{
    let start = StopView::start(grace);
    let front = replies.drop_last();
    if i == replies.len() - 1 {
        assert(front =~= replies.take(i));
    } else {
        assert(front.take(i) =~= replies.take(i));
        lemma_killed_stays(grace, front, i);
    }
}

/// A pause is never empty, never longer than a fiftieth of a second, and never goes on beyond the
/// time that the group has: the grace time where it was seen, the time to appear where it was not.
pub proof fn law_pauses_are_short(grace: nat, replies: Seq<StopReplyView>, pause: nat)
    requires
        possible(StopView::start(grace), replies),
        after(StopView::start(grace), replies).action == StopActionView::Sleep(pause),
    ensures
        0 < pause <= 20_000_000,
        replies.last() matches StopReplyView::Elapsed(elapsed) ==> elapsed + pause <= (
        if group_seen(replies) {
            grace
        } else {
            100_000_000
        }),
        pause < 20_000_000 ==> (replies.last() matches StopReplyView::Elapsed(elapsed) && elapsed
            + pause == if group_seen(replies) {
            grace
        } else {
            100_000_000
        }),
{
    let front = replies.drop_last();
    lemma_history(grace, replies);
    law_one_request_comes_first(grace, replies);
    law_one_request_comes_first(grace, front);
    lemma_history(grace, front);
}

/// A group is left alone only where it was seen and then was gone, where it was not seen for the
/// time that it may take to appear, or where it was killed and the time to vanish is over.
pub proof fn law_stop_is_justified(grace: nat, replies: Seq<StopReplyView>)
    requires
        possible(StopView::start(grace), replies),
        after(StopView::start(grace), replies).action is Done,
    ensures
        ({
            let stop = after(StopView::start(grace), replies);
            let last = replies.last();
            ||| last == StopReplyView::Group(false) && group_seen(replies)
            ||| !group_seen(replies) && (last matches StopReplyView::Elapsed(elapsed) && elapsed
                >= 100_000_000)
            ||| stop.phase is Killed && replies.len() >= 2 && (replies[replies.len() - 2] matches
                StopReplyView::Elapsed(elapsed) && elapsed >= 1_000_000_000)
        }),
{
    let front = replies.drop_last();
    lemma_history(grace, replies);
    law_one_request_comes_first(grace, replies);
    law_one_request_comes_first(grace, front);
    lemma_history(grace, front);
    if after(StopView::start(grace), front).action is Reap {
        let before = front.drop_last();
        assert(possible(StopView::start(grace), front));
        lemma_history(grace, before);
        law_one_request_comes_first(grace, before);
        assert(front.last() == replies[replies.len() - 2]);
    }
}

/// A group that is still there is killed as soon as its time is over, and not before.
pub proof fn law_stubborn_group_is_killed(stop: StopView, elapsed: nat)
    requires
        stop.phase is Asked,
        stop.action is Look,
    ensures
        stop.next(StopReplyView::Group(true)).next(StopReplyView::Elapsed(elapsed)).action
            is SendKill <==> elapsed >= stop.grace,
{
}

/// A group that was seen and is gone is left alone at once, whatever is left of its time.
pub proof fn law_cooperative_group_is_left_alone(stop: StopView)
    requires
        stop.phase == (Phase::Asked { seen: true }),
        stop.action is Look,
    ensures
        stop.next(StopReplyView::Group(false)).action is Done,
{
}

/// What follows what while a group is stopped: a look follows the request and every pause; the clock
/// is read behind a look that does not end the matter; and a group that does not appear within a
/// tenth of a second is left alone, without force.
pub proof fn law_looks_follow_the_request(grace: nat, elapsed: nat)
    ensures
        StopView::start(grace).action is SendTerm,
        ({
            let looking = StopView::start(grace).next(StopReplyView::Done);
            let unseen = looking.next(StopReplyView::Group(false));
            let timed = unseen.next(StopReplyView::Elapsed(elapsed));
            &&& looking.action is Look
            &&& unseen.action is ReadClock
            &&& timed.action is Done <==> elapsed >= 100_000_000
            &&& timed.action is Sleep <==> elapsed < 100_000_000
            &&& timed.action is Sleep ==> timed.next(StopReplyView::Done).action is Look
        }),
        ({
            let seen = StopView::start(grace).next(StopReplyView::Done).next(
                StopReplyView::Group(true),
            );
            let timed = seen.next(StopReplyView::Elapsed(elapsed));
            &&& seen.action is ReadClock
            &&& timed.action is SendKill <==> elapsed >= grace
            &&& timed.action is Sleep <==> elapsed < grace
            &&& timed.action is Sleep ==> timed.next(StopReplyView::Done).action is Look
        }),
{
}

/// A group that was killed is looked at every fiftieth of a second, until it is gone or a second is
/// over; then the child is reaped, and that is the end.
pub proof fn law_killed_group_is_waited_for(stop: StopView, elapsed: nat)
    requires
        stop.action is SendKill,
    ensures
        ({
            let killed = stop.next(StopReplyView::Done);
            let timed = killed.next(StopReplyView::Elapsed(elapsed));
            &&& killed.action is ReadClock
            &&& elapsed >= 1_000_000_000 ==> timed.action is Reap && timed.next(
                StopReplyView::Done,
            ).action is Done
            &&& elapsed < 1_000_000_000 ==> {
                &&& timed.action is Look
                &&& timed.next(StopReplyView::Group(false)).action is Done
                &&& timed.next(StopReplyView::Group(true)).action == StopActionView::Sleep(
                    20_000_000,
                )
                &&& timed.next(StopReplyView::Group(true)).next(StopReplyView::Done).action
                    is ReadClock
                &&& timed.next(StopReplyView::Group(true)).next(StopReplyView::Done).phase is Killed
            }
        }),
{
}

} // verus!
