//! The terminal: giving it to the process group of the child, and taking it back.
use crate::duration::Duration;
use crate::stop::SETTLE_NANOS;
use vstd::prelude::*;
use vstd::string::*;

verus! {

/// The kinds of system errors that make a difference here.
#[derive(Clone, Copy, Debug, PartialEq, Eq, Structural)]
pub enum ErrorKind {
    /// `ENOTTY`
    NotATerminal,
    /// `ENXIO`
    NoDevice,
    /// `ESRCH`
    NoProcess,
    /// `EPERM`
    NotPermitted,
    Other,
}

/// A system error: its kind, and the words for it.
#[derive(Debug, PartialEq, Eq)]
pub struct SystemError {
    pub kind: ErrorKind,
    pub text: String,
}

/// What a [`SystemError`] says.
pub struct SystemFault {
    pub kind: ErrorKind,
    pub text: Seq<char>,
}

impl View for SystemError {
    type V = SystemFault;

    open spec fn view(&self) -> SystemFault {
        SystemFault { kind: self.kind, text: self.text@ }
    }
}

/// A result whose error is taken by what it says.
pub open spec fn in_faults<T>(r: Result<T, SystemError>) -> Result<T, SystemFault> {
    match r {
        Ok(v) => Ok(v),
        Err(e) => Err(e@),
    }
}

/// How far the handing over of the terminal has come.
#[derive(Debug, PartialEq, Eq)]
pub enum HandOff {
    /// The terminal is to be opened.
    Open,
    /// The group that has the terminal is to be read.
    ReadForeground,
    /// The group of the guard is to be read. The terminal belongs to `original`.
    ReadOwnGroup { original: i32 },
    /// The terminal is to be given to the child.
    Give { original: i32 },
    /// That failed. The time since the first try is to be read.
    ReadClock { original: i32, error: SystemError },
    /// A millisecond is to pass.
    Pause { original: i32 },
    /// The terminal was given away by `original`, or was left where it is.
    Done(Result<Option<i32>, String>),
}

/// What came of a step of it.
#[derive(Debug, PartialEq, Eq)]
pub enum HandOffReply {
    Opened(bool),
    Foreground(Result<i32, SystemError>),
    OwnGroup(i32),
    Given(Result<(), SystemError>),
    Elapsed(Duration),
    Paused,
}

/// What a [`HandOff`] says.
pub enum HandOffView {
    Open,
    ReadForeground,
    ReadOwnGroup { original: i32 },
    Give { original: i32 },
    ReadClock { original: i32, error: SystemFault },
    Pause { original: i32 },
    Done(Result<Option<i32>, Seq<char>>),
}

/// What a [`HandOffReply`] says. Spans of time are in nanoseconds.
pub enum HandOffReplyView {
    Opened(bool),
    Foreground(Result<i32, SystemFault>),
    OwnGroup(i32),
    Given(Result<(), SystemFault>),
    Elapsed(nat),
    Paused,
}

impl View for HandOff {
    type V = HandOffView;

    open spec fn view(&self) -> HandOffView {
        match *self {
            HandOff::Open => HandOffView::Open,
            HandOff::ReadForeground => HandOffView::ReadForeground,
            HandOff::ReadOwnGroup { original } => HandOffView::ReadOwnGroup { original },
            HandOff::Give { original } => HandOffView::Give { original },
            HandOff::ReadClock { original, error } => HandOffView::ReadClock {
                original,
                error: error@,
            },
            HandOff::Pause { original } => HandOffView::Pause { original },
            HandOff::Done(r) => HandOffView::Done(
                match r {
                    Ok(given) => Ok(given),
                    Err(e) => Err(e@),
                },
            ),
        }
    }
}

impl View for HandOffReply {
    type V = HandOffReplyView;

    open spec fn view(&self) -> HandOffReplyView {
        match *self {
            HandOffReply::Opened(b) => HandOffReplyView::Opened(b),
            HandOffReply::Foreground(r) => HandOffReplyView::Foreground(in_faults(r)),
            HandOffReply::OwnGroup(g) => HandOffReplyView::OwnGroup(g),
            HandOffReply::Given(r) => HandOffReplyView::Given(in_faults(r)),
            HandOffReply::Elapsed(d) => HandOffReplyView::Elapsed(d@),
            HandOffReply::Paused => HandOffReplyView::Paused,
        }
    }
}

/// Whether a reply is one that can come of a step.
pub open spec fn answers(state: HandOffView, reply: HandOffReplyView) -> bool {
    match state {
        HandOffView::Open => reply is Opened,
        HandOffView::ReadForeground => reply is Foreground,
        HandOffView::ReadOwnGroup { .. } => reply is OwnGroup,
        HandOffView::Give { .. } => reply is Given,
        HandOffView::ReadClock { .. } => reply is Elapsed,
        HandOffView::Pause { .. } => reply is Paused,
        HandOffView::Done(_) => false,
    }
}

/// The terminal cannot be given to the child.
pub open spec fn not_given(error: SystemFault) -> HandOffView {
    HandOffView::Done(Err("failed to hand terminal to child process group: "@ + error.text))
}

/// Whether an error may be over in a moment, because the group of the child is not there yet.
pub open spec fn is_passing(error: SystemFault) -> bool {
    error.kind is NoProcess || error.kind is NotPermitted
}

/// The handing over to group `pgid` after a reply.
///
/// The terminal is left where it is where there is none, where it does not belong to the guard, and
/// where the group of the child does not appear in time.
pub open spec fn next(state: HandOffView, pgid: i32, reply: HandOffReplyView) -> HandOffView {
    match (state, reply) {
        (_, HandOffReplyView::Opened(true)) => HandOffView::ReadForeground,
        (_, HandOffReplyView::Opened(false)) => HandOffView::Done(Ok(None)),
        (_, HandOffReplyView::Foreground(Ok(original))) => HandOffView::ReadOwnGroup { original },
        (_, HandOffReplyView::Foreground(Err(error))) => if error.kind is NotATerminal || error.kind
            is NoDevice {
            HandOffView::Done(Ok(None))
        } else {
            HandOffView::Done(
                Err("failed to read terminal foreground process group: "@ + error.text),
            )
        },
        (HandOffView::ReadOwnGroup { original }, HandOffReplyView::OwnGroup(own)) => if original
            == own && original != pgid {
            HandOffView::Give { original }
        } else {
            HandOffView::Done(Ok(None))
        },
        (HandOffView::Give { original }, HandOffReplyView::Given(Ok(_))) => HandOffView::Done(
            Ok(Some(original)),
        ),
        (HandOffView::Give { original }, HandOffReplyView::Given(Err(error))) => if is_passing(
            error,
        ) {
            HandOffView::ReadClock { original, error }
        } else {
            not_given(error)
        },
        (
            HandOffView::ReadClock { original, error },
            HandOffReplyView::Elapsed(elapsed),
        ) => if elapsed < SETTLE_NANOS {
            HandOffView::Pause { original }
        } else if error.kind is NoProcess {
            HandOffView::Done(Ok(None))
        } else {
            not_given(error)
        },
        (HandOffView::Pause { original }, HandOffReplyView::Paused) => HandOffView::Give {
            original,
        },
        _ => state,
    }
}

/// Begins to hand over the terminal.
pub fn handoff_to_child() -> (r: HandOff)
    ensures
        r@ == HandOffView::Open,
{
    HandOff::Open
}

/// The terminal cannot be given to the child.
fn refused(error: SystemError) -> (r: HandOff)
    ensures
        r@ == not_given(error@),
{
    let mut text = "failed to hand terminal to child process group: ".to_string();
    text.append(error.text.as_str());
    HandOff::Done(Err(text))
}

/// What follows a try to give the terminal to the child.
pub fn set_foreground_pgrp(original: i32, given: Result<(), SystemError>) -> (r: HandOff)
    ensures
        forall|pgid: i32|
            r@ == #[trigger] next(
                HandOffView::Give { original },
                pgid,
                HandOffReplyView::Given(in_faults(given)),
            ),
{
    match given {
        Ok(_) => HandOff::Done(Ok(Some(original))),
        Err(error) => match error.kind {
            ErrorKind::NoProcess | ErrorKind::NotPermitted => HandOff::ReadClock {
                original,
                error,
            },
            _ => refused(error),
        },
    }
}

impl HandOff {
    /// The handing over to group `pgid` after a reply.
    pub fn step(self, pgid: i32, reply: HandOffReply) -> (r: HandOff)
        requires
            answers(self@, reply@),
        ensures
            r@ == next(self@, pgid, reply@),
    {
        match (self, reply) {
            (_, HandOffReply::Opened(opened)) => if opened {
                HandOff::ReadForeground
            } else {
                HandOff::Done(Ok(None))
            },
            (_, HandOffReply::Foreground(Ok(original))) => HandOff::ReadOwnGroup { original },
            (_, HandOffReply::Foreground(Err(error))) => match error.kind {
                ErrorKind::NotATerminal | ErrorKind::NoDevice => HandOff::Done(Ok(None)),
                _ => {
                    let mut text =
                        "failed to read terminal foreground process group: ".to_string();
                    text.append(error.text.as_str());
                    HandOff::Done(Err(text))
                },
            },
            (HandOff::ReadOwnGroup { original }, HandOffReply::OwnGroup(own)) => if original == own
                && original != pgid {
                HandOff::Give { original }
            } else {
                HandOff::Done(Ok(None))
            },
            (HandOff::Give { original }, HandOffReply::Given(given)) => {
                let r = set_foreground_pgrp(original, given);
                assert(r@ == next(
                    HandOffView::Give { original },
                    pgid,
                    HandOffReplyView::Given(in_faults(given)),
                ));
                r
            },
            (
                HandOff::ReadClock { original, error },
                HandOffReply::Elapsed(elapsed),
            ) => if !elapsed.reaches(&Duration::from_millis(100)) {
                HandOff::Pause { original }
            } else {
                match error.kind {
                    ErrorKind::NoProcess => HandOff::Done(Ok(None)),
                    _ => refused(error),
                }
            },
            (HandOff::Pause { original }, HandOffReply::Paused) => HandOff::Give { original },
            (state, _) => state,
        }
    }
}

/// What comes of an operation with a signal blocked: the error of the operation, else that of
/// lifting the block, else what the operation gave.
pub fn with_sigttou_blocked<T, E>(operation: Result<T, E>, lifted: Result<(), E>) -> (r: Result<
    T,
    E,
>)
    ensures
        r == match (operation, lifted) {
            (Ok(_), Err(e)) => Err::<T, E>(e),
            _ => operation,
        },
{
    match (operation, lifted) {
        (Ok(value), Ok(_)) => Ok(value),
        (Err(e), _) => Err(e),
        (_, Err(e)) => Err(e),
    }
}

/// A terminal that was given away.
#[derive(Debug, PartialEq, Eq)]
pub struct TerminalForeground {
    /// The group that it belongs to.
    pub original_pgrp: i32,
    /// Whether it was taken back.
    pub restored: bool,
}

impl TerminalForeground {
    /// Takes the terminal back. `result` is what came of the try; there is none where the terminal
    /// was taken back before.
    pub fn restore(&mut self, result: Result<(), SystemError>) -> (r: Result<(), String>)
        ensures
            final(self).original_pgrp == old(self).original_pgrp,
            final(self).restored == (old(self).restored || result is Ok),
            match r {
                Ok(_) => old(self).restored || result is Ok,
                Err(e) => !old(self).restored && result is Err && e@
                    == "failed to restore terminal foreground process group: "@ + result->Err_0@.text,
            },
    {
        if self.restored {
            return Ok(());
        }
        match result {
            Ok(_) => {
                self.restored = true;
                Ok(())
            },
            Err(error) => {
                let mut text = "failed to restore terminal foreground process group: ".to_string();
                text.append(error.text.as_str());
                Err(text)
            },
        }
    }
}

/// The state after a number of replies.
pub open spec fn after(pgid: i32, replies: Seq<HandOffReplyView>) -> HandOffView
    decreases replies.len(),
{
    if replies.len() == 0 {
        HandOffView::Open
    } else {
        next(after(pgid, replies.drop_last()), pgid, replies.last())
    }
}

/// Whether each reply is one that can come of the step that it is a reply to.
pub open spec fn possible(pgid: i32, replies: Seq<HandOffReplyView>) -> bool
    decreases replies.len(),
{
    replies.len() == 0 || (possible(pgid, replies.drop_last()) && answers(
        after(pgid, replies.drop_last()),
        replies.last(),
    ))
}

/// Whether `original` was told to have the terminal, and to be the group of the guard.
pub open spec fn is_owner(original: i32, pgid: i32, replies: Seq<HandOffReplyView>) -> bool {
    &&& original != pgid
    &&& replies.contains(HandOffReplyView::Foreground(Ok(original)))
    &&& replies.contains(HandOffReplyView::OwnGroup(original))
}

proof fn lemma_reply_stays(replies: Seq<HandOffReplyView>, reply: HandOffReplyView)
    requires
        replies.len() > 0,
        replies.drop_last().contains(reply) || replies.last() == reply,
    ensures
        replies.contains(reply),
{
    if replies.drop_last().contains(reply) {
        let i = choose|i: int| 0 <= i < replies.len() - 1 && replies.drop_last()[i] == reply;
        assert(replies[i] == reply);
    } else {
        assert(replies[replies.len() - 1] == reply);
    }
}

proof fn lemma_owner(pgid: i32, replies: Seq<HandOffReplyView>)
    requires
        possible(pgid, replies),
    ensures
        match after(pgid, replies) {
            HandOffView::ReadOwnGroup { original } => replies.contains(
                HandOffReplyView::Foreground(Ok(original)),
            ),
            HandOffView::Give { original }
            | HandOffView::ReadClock { original, .. }
            | HandOffView::Pause { original }
            | HandOffView::Done(Ok(Some(original))) => is_owner(original, pgid, replies),
            _ => true,
        },
    decreases replies.len(),
{
    if replies.len() > 0 {
        let front = replies.drop_last();
        lemma_owner(pgid, front);
        match after(pgid, replies) {
            HandOffView::ReadOwnGroup { original } => {
                lemma_reply_stays(replies, HandOffReplyView::Foreground(Ok(original)));
            },
            HandOffView::Give { original }
            | HandOffView::ReadClock { original, .. }
            | HandOffView::Pause { original }
            | HandOffView::Done(Ok(Some(original))) => {
                lemma_reply_stays(replies, HandOffReplyView::Foreground(Ok(original)));
                lemma_reply_stays(replies, HandOffReplyView::OwnGroup(original));
            },
            _ => {},
        }
    }
}

/// The terminal is given to the child only where it belongs to the group of the guard, and that
/// group is another one than that of the child.
pub proof fn law_only_the_owner_gives(pgid: i32, replies: Seq<HandOffReplyView>, original: i32)
    requires
        possible(pgid, replies),
        after(pgid, replies) == (HandOffView::Give { original }) || after(pgid, replies)
            == HandOffView::Done(Ok(Some(original))),
    ensures
        is_owner(original, pgid, replies),
{
    lemma_owner(pgid, replies);
}

/// The terminal is left where it is, without an error, where none can be opened and where what was
/// opened is none. Another fault in reading whose it is, is an error.
pub proof fn law_missing_terminal_is_no_error(pgid: i32, error: SystemFault)
    ensures
        next(HandOffView::Open, pgid, HandOffReplyView::Opened(false)) == HandOffView::Done(
            Ok(None),
        ),
        next(HandOffView::Open, pgid, HandOffReplyView::Opened(true)) is ReadForeground,
        ({
            let read = next(
                HandOffView::ReadForeground,
                pgid,
                HandOffReplyView::Foreground(Err(error)),
            );
            if error.kind == ErrorKind::NotATerminal || error.kind == ErrorKind::NoDevice {
                read == HandOffView::Done(Ok(None))
            } else {
                read matches HandOffView::Done(r) && r is Err
            }
        }),
{
}

/// The terminal is given away exactly where it belongs to the group of the guard and not yet to the
/// child; else it is left where it is.
pub proof fn law_terminal_is_given_by_its_owner(pgid: i32, original: i32, own: i32)
    ensures
        next(
            HandOffView::ReadForeground,
            pgid,
            HandOffReplyView::Foreground(Ok(original)),
        ) == (HandOffView::ReadOwnGroup { original }),
        next(
            HandOffView::ReadOwnGroup { original },
            pgid,
            HandOffReplyView::OwnGroup(own),
        ) == if original == own && original != pgid {
            HandOffView::Give { original }
        } else {
            HandOffView::Done(Ok(None))
        },
        next(HandOffView::Give { original }, pgid, HandOffReplyView::Given(Ok(())))
            == HandOffView::Done(Ok(Some(original))),
{
}

/// Where the group of the child is not there yet, giving it the terminal is tried again for a tenth of
/// a second. Then a group that is missing is no error, and one that may not have the terminal is. Any
/// other fault is an error at once.
pub proof fn law_giving_is_tried_again(
    pgid: i32,
    original: i32,
    error: SystemFault,
    elapsed: nat,
)
    ensures
        ({
            let tried = next(
                HandOffView::Give { original },
                pgid,
                HandOffReplyView::Given(Err(error)),
            );
            let timed = next(tried, pgid, HandOffReplyView::Elapsed(elapsed));
            if error.kind == ErrorKind::NoProcess || error.kind == ErrorKind::NotPermitted {
                &&& tried is ReadClock
                &&& elapsed < 100_000_000 ==> timed is Pause && next(
                    timed,
                    pgid,
                    HandOffReplyView::Paused,
                ) == (HandOffView::Give { original })
                &&& elapsed >= 100_000_000 && error.kind == ErrorKind::NoProcess ==> timed
                    == HandOffView::Done(Ok(None))
                &&& elapsed >= 100_000_000 && error.kind == ErrorKind::NotPermitted ==> (
                timed matches HandOffView::Done(r) && r is Err)
            } else {
                tried matches HandOffView::Done(r) && r is Err
            }
        }),
{
}

} // verus!
