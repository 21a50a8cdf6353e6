//! The wait between two looks at the memory: until the time is over, a signal has come or the child
//! has ended.
use crate::duration::Duration;
use crate::guard::ExitStatus;
use crate::{stop, text};
use vstd::prelude::*;

verus! {

/// The longest pause between two looks at signals and the child, in nanoseconds.
pub const SLICE_NANOS: u64 = 100_000_000;

/// Something to do while waiting.
#[derive(Debug, PartialEq, Eq)]
pub enum WaitAction {
    /// See whether a signal has come.
    PollSignal,
    /// See whether the child has ended.
    PollChild,
    /// Read how long the wait has been.
    ReadClock,
    /// Do nothing for some time.
    Sleep(Duration),
    /// The wait is over. How the child ended, if it has.
    Done(Result<Option<ExitStatus>, String>),
}

/// What came of it.
#[derive(Debug, PartialEq, Eq)]
pub enum WaitReply {
    Signal(Option<i32>),
    Child(Result<Option<ExitStatus>, String>),
    Elapsed(Duration),
    Slept,
}

/// What a [`WaitAction`] says. Spans of time are in nanoseconds.
pub enum WaitActionView {
    PollSignal,
    PollChild,
    ReadClock,
    Sleep(nat),
    Done(Result<Option<ExitStatus>, Seq<char>>),
}

/// What a [`WaitReply`] says.
pub enum WaitReplyView {
    Signal(Option<i32>),
    Child(Result<Option<ExitStatus>, Seq<char>>),
    Elapsed(nat),
    Slept,
}

impl View for WaitAction {
    type V = WaitActionView;

    open spec fn view(&self) -> WaitActionView {
        match *self {
            WaitAction::PollSignal => WaitActionView::PollSignal,
            WaitAction::PollChild => WaitActionView::PollChild,
            WaitAction::ReadClock => WaitActionView::ReadClock,
            WaitAction::Sleep(d) => WaitActionView::Sleep(d@),
            WaitAction::Done(r) => WaitActionView::Done(text::in_words(r)),
        }
    }
}

impl View for WaitReply {
    type V = WaitReplyView;

    open spec fn view(&self) -> WaitReplyView {
        match *self {
            WaitReply::Signal(n) => WaitReplyView::Signal(n),
            WaitReply::Child(r) => WaitReplyView::Child(text::in_words(r)),
            WaitReply::Elapsed(d) => WaitReplyView::Elapsed(d@),
            WaitReply::Slept => WaitReplyView::Slept,
        }
    }
}

/// A wait: how long it may be, and what is to be done.
pub struct WaitView {
    pub poll: nat,
    pub action: WaitActionView,
}

/// Whether a reply is one that can come of an action.
pub open spec fn answers(action: WaitActionView, reply: WaitReplyView) -> bool {
    match action {
        WaitActionView::PollSignal => reply is Signal,
        WaitActionView::PollChild => reply is Child,
        WaitActionView::ReadClock => reply is Elapsed,
        WaitActionView::Sleep(_) => reply is Slept,
        WaitActionView::Done(_) => false,
    }
}

impl WaitView {
    /// The start of a wait.
    pub open spec fn start(poll: nat) -> WaitView {
        WaitView { poll, action: WaitActionView::PollSignal }
    }

    /// The wait after a reply to its action. A signal or the end of the child ends it at once.
    pub open spec fn next(self, reply: WaitReplyView) -> WaitView {
        WaitView {
            action: match reply {
                WaitReplyView::Signal(Some(_)) => WaitActionView::Done(Ok(None)),
                WaitReplyView::Signal(None) => WaitActionView::PollChild,
                WaitReplyView::Child(Ok(None)) => WaitActionView::ReadClock,
                WaitReplyView::Child(r) => WaitActionView::Done(r),
                WaitReplyView::Elapsed(elapsed) => if elapsed >= self.poll {
                    WaitActionView::Done(Ok(None))
                } else {
                    WaitActionView::Sleep(
                        stop::shorter((self.poll - elapsed) as nat, SLICE_NANOS as nat),
                    )
                },
                WaitReplyView::Slept => WaitActionView::PollSignal,
            },
            ..self
        }
    }
}

/// A wait.
pub struct Wait {
    pub poll: Duration,
    pub action: WaitAction,
}

impl View for Wait {
    type V = WaitView;

    open spec fn view(&self) -> WaitView {
        WaitView { poll: self.poll@, action: self.action@ }
    }
}

/// Begins a wait of the given length.
pub fn sleep_until_poll_signal_or_child(poll: Duration) -> (r: Wait)
    ensures
        r@ == WaitView::start(poll@),
{
    Wait { poll, action: WaitAction::PollSignal }
}

impl Wait {
    /// The wait after a reply to its action.
    pub fn step(self, reply: WaitReply) -> (r: Wait)
        requires
            answers(self@.action, reply@),
        ensures
            r@ == self@.next(reply@),
    {
        let action = match reply {
            WaitReply::Signal(Some(_)) => WaitAction::Done(Ok(None)),
            WaitReply::Signal(None) => WaitAction::PollChild,
            WaitReply::Child(Ok(None)) => WaitAction::ReadClock,
            WaitReply::Child(r) => WaitAction::Done(r),
            WaitReply::Elapsed(elapsed) => if elapsed.reaches(&self.poll) {
                WaitAction::Done(Ok(None))
            } else {
                let remaining = self.poll.saturating_sub(elapsed);
                WaitAction::Sleep(remaining.min(Duration::from_millis(100)))
            },
            WaitReply::Slept => WaitAction::PollSignal,
        };
        Wait { poll: self.poll, action }
    }
}

/// A pause is never empty, never longer than a tenth of a second, and never goes on beyond the end
/// of the wait.
pub proof fn law_pauses_are_short(wait: WaitView, elapsed: nat, pause: nat)
    requires
        wait.next(WaitReplyView::Elapsed(elapsed)).action == WaitActionView::Sleep(pause),
    ensures
        0 < pause <= 100_000_000,
        elapsed + pause <= wait.poll,
        pause < 100_000_000 ==> elapsed + pause == wait.poll,
{
}

/// A wait ends because a signal has come, the child has ended or cannot be looked at, or the time
/// is over, and for no other reason.
pub proof fn law_wait_ends_for_a_reason(wait: WaitView, reply: WaitReplyView)
    requires
        answers(wait.action, reply),
    ensures
        wait.next(reply).action is Done <==> {
            ||| reply matches WaitReplyView::Signal(Some(_))
            ||| reply matches WaitReplyView::Child(Ok(Some(_)))
            ||| reply matches WaitReplyView::Child(Err(_))
            ||| reply matches WaitReplyView::Elapsed(elapsed) && elapsed >= wait.poll
        },
{
}

/// What follows what in a wait: signals, the child, the clock, a pause, and signals again. Where the
/// child has ended, or cannot be looked at, the wait says so; else it says nothing.
pub proof fn law_wait_looks_in_turn(poll: nat, wait: WaitView, status: ExitStatus, e: Seq<char>)
    ensures
        WaitView::start(poll) == (WaitView { poll, action: WaitActionView::PollSignal }),
        forall|reply: WaitReplyView| (#[trigger] wait.next(reply)).poll == wait.poll,
        wait.next(WaitReplyView::Signal(None)).action is PollChild,
        wait.next(WaitReplyView::Child(Ok(None))).action is ReadClock,
        wait.next(WaitReplyView::Slept).action is PollSignal,
        wait.next(WaitReplyView::Child(Ok(Some(status)))).action == WaitActionView::Done(
            Ok(Some(status)),
        ),
        wait.next(WaitReplyView::Child(Err(e))).action == WaitActionView::Done(Err(e)),
        forall|n: i32| (#[trigger] wait.next(WaitReplyView::Signal(Some(n)))).action
            == WaitActionView::Done(Ok(None)),
        wait.next(WaitReplyView::Elapsed(wait.poll)).action == WaitActionView::Done(Ok(None)),
        wait.poll > 0 ==> wait.next(WaitReplyView::Elapsed(0)).action is Sleep,
{
}

} // verus!
