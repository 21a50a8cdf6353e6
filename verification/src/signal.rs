//! Sending a signal to a process group: to the group as a whole, or else to each of its members.
//!
//! The same division of work as in [`crate::guard`].
use vstd::prelude::*;

verus! {

/// Something to do in order to signal a process group.
#[derive(Clone, Copy, Debug, PartialEq, Eq, Structural)]
pub enum SignalAction {
    /// Send the signal to the group as a whole.
    SignalGroup,
    /// List the members of the group.
    ListMembers,
    /// Send the signal to a member.
    SignalMember(i32),
    /// Come to an end. The signal has reached something, or it has not.
    Finish(bool),
}

/// What came of an action.
#[derive(Debug, PartialEq, Eq)]
pub enum SignalReply {
    /// Whether the signal was sent.
    Sent(bool),
    /// The members, where they could be listed.
    Listed(Option<Vec<i32>>),
}

/// What a [`SignalReply`] says.
pub enum SignalReplyView {
    Sent(bool),
    Listed(Option<Seq<i32>>),
}

impl View for SignalReply {
    type V = SignalReplyView;

    open spec fn view(&self) -> SignalReplyView {
        match *self {
            SignalReply::Sent(sent) => SignalReplyView::Sent(sent),
            SignalReply::Listed(Some(pids)) => SignalReplyView::Listed(Some(pids@)),
            SignalReply::Listed(None) => SignalReplyView::Listed(None),
        }
    }
}

/// Whether a reply is one that can come of an action.
pub open spec fn answers(action: SignalAction, reply: SignalReplyView) -> bool {
    match action {
        SignalAction::SignalGroup | SignalAction::SignalMember(_) => reply is Sent,
        SignalAction::ListMembers => reply is Listed,
        SignalAction::Finish(_) => false,
    }
}

/// How far the sending has come.
#[derive(Debug, PartialEq, Eq)]
enum SendingStage {
    /// The group is to be signalled.
    Group,
    /// Its members are to be listed.
    List,
    /// The member of that number is to be signalled. `reached` says whether one before it was.
    Member { pids: Vec<i32>, at: usize, reached: bool },
    /// The end.
    End(bool),
}

/// What a [`Sending`] says.
pub enum SendingView {
    Group,
    List,
    Member { pids: Seq<i32>, at: int, reached: bool },
    End(bool),
}

impl SendingView {
    /// Whether the stage is about one of the members.
    pub open spec fn well_formed(self) -> bool {
        self matches SendingView::Member { pids, at, .. } ==> 0 <= at < pids.len()
    }

    /// What is to be done now.
    pub open spec fn action(self) -> SignalAction {
        match self {
            SendingView::Group => SignalAction::SignalGroup,
            SendingView::List => SignalAction::ListMembers,
            SendingView::Member { pids, at, .. } => SignalAction::SignalMember(pids[at]),
            SendingView::End(reached) => SignalAction::Finish(reached),
        }
    }

    /// The turn of a member: the end where there is none left.
    pub open spec fn turn(pids: Seq<i32>, at: int, reached: bool) -> SendingView {
        if at < pids.len() {
            SendingView::Member { pids, at, reached }
        } else {
            SendingView::End(reached)
        }
    }

    /// The state after a reply.
    pub open spec fn next(self, reply: SignalReplyView) -> SendingView {
        match (self, reply) {
            (SendingView::Group, SignalReplyView::Sent(true)) => SendingView::End(true),
            (SendingView::Group, SignalReplyView::Sent(false)) => SendingView::List,
            (SendingView::List, SignalReplyView::Listed(Some(pids))) => SendingView::turn(
                pids,
                0,
                false,
            ),
            (SendingView::List, SignalReplyView::Listed(None)) => SendingView::End(false),
            (
                SendingView::Member { pids, at, reached },
                SignalReplyView::Sent(sent),
            ) => SendingView::turn(pids, at + 1, reached || sent),
            (stage, _) => stage,
        }
    }
}

/// The sending of a signal to a process group.
#[derive(Debug)]
pub struct Sending {
    stage: SendingStage,
}

impl View for Sending {
    type V = SendingView;

    closed spec fn view(&self) -> SendingView {
        match self.stage {
            SendingStage::Group => SendingView::Group,
            SendingStage::List => SendingView::List,
            SendingStage::Member { pids, at, reached } => SendingView::Member {
                pids: pids@,
                at: at as int,
                reached,
            },
            SendingStage::End(reached) => SendingView::End(reached),
        }
    }
}

/// Begins to send a signal to a process group.
pub fn signal_process_group() -> (r: Sending)
    ensures
        r@ == SendingView::Group,
{
    Sending { stage: SendingStage::Group }
}

impl Sending {
    #[verifier::type_invariant]
    spec fn inv(self) -> bool {
        self@.well_formed()
    }

    /// What is to be done now.
    pub fn action(&self) -> (r: SignalAction)
        ensures
            r == self@.action(),
    {
        proof {
            use_type_invariant(self);
        }
        match &self.stage {
            SendingStage::Group => SignalAction::SignalGroup,
            SendingStage::List => SignalAction::ListMembers,
            SendingStage::Member { pids, at, .. } => SignalAction::SignalMember(pids[*at]),
            SendingStage::End(reached) => SignalAction::Finish(*reached),
        }
    }

    /// The turn of a member.
    fn turn(pids: Vec<i32>, at: usize, reached: bool) -> (r: Sending)
        ensures
            r@ == SendingView::turn(pids@, at as int, reached),
    {
        if at < pids.len() {
            Sending { stage: SendingStage::Member { pids, at, reached } }
        } else {
            Sending { stage: SendingStage::End(reached) }
        }
    }

    /// The state after a reply.
    pub fn step(self, reply: SignalReply) -> (r: Sending)
        requires
            answers(self@.action(), reply@),
        ensures
            r@ == self@.next(reply@),
    {
        proof {
            use_type_invariant(&self);
        }
        match (self.stage, reply) {
            (SendingStage::Group, SignalReply::Sent(sent)) => Sending {
                stage: if sent {
                    SendingStage::End(true)
                } else {
                    SendingStage::List
                },
            },
            (SendingStage::List, SignalReply::Listed(Some(pids))) => Sending::turn(pids, 0, false),
            (SendingStage::Member { pids, at, reached }, SignalReply::Sent(sent)) => {
                assert(at < pids.len());
                Sending::turn(pids, at + 1, reached || sent)
            },
            _ => Sending { stage: SendingStage::End(false) },
        }
    }
}

/// The sending after a number of members, each with whether the signal was sent to it.
pub open spec fn after_members(sending: SendingView, sent: Seq<bool>) -> SendingView
    decreases sent.len(),
{
    if sent.len() == 0 {
        sending
    } else {
        after_members(sending, sent.drop_last()).next(SignalReplyView::Sent(sent.last()))
    }
}

/// A group that is reached as a whole is signalled once, and its members are left alone.
pub proof fn law_reached_group_is_signalled_once()
    ensures
        SendingView::Group.next(SignalReplyView::Sent(true)).action() == SignalAction::Finish(true),
{
}

/// Where the group is not reached as a whole, each of its members is signalled, in turn, whatever
/// came of those before it. The signal has then reached something if it has reached one of them.
pub proof fn law_members_are_signalled_in_turn(pids: Seq<i32>, sent: Seq<bool>)
    requires
        sent.len() <= pids.len(),
    ensures
        ({
            let list = SendingView::Group.next(SignalReplyView::Sent(false));
            let sending = after_members(
                list.next(SignalReplyView::Listed(Some(pids))),
                sent,
            );
            &&& list.action() == SignalAction::ListMembers
            &&& sent.len() < pids.len() ==> sending.action() == SignalAction::SignalMember(
                pids[sent.len() as int],
            )
            &&& sent.len() == pids.len() ==> sending.action() == SignalAction::Finish(
                sent.contains(true),
            )
        }),
{
    lemma_members(pids, sent);
}

proof fn lemma_members(pids: Seq<i32>, sent: Seq<bool>)
    requires
        sent.len() <= pids.len(),
    ensures
        after_members(SendingView::turn(pids, 0, false), sent) == SendingView::turn(
            pids,
            sent.len() as int,
            sent.contains(true),
        ),
    decreases sent.len(),
{
    if sent.len() > 0 {
        let front = sent.drop_last();
        lemma_members(pids, front);
        assert(sent.contains(true) == (front.contains(true) || sent.last())) by {
            if front.contains(true) {
                let i = choose|i: int| 0 <= i < front.len() && front[i] == true;
                assert(sent[i] == true);
            }
            if sent.last() {
                assert(sent[sent.len() - 1] == true);
            }
            if sent.contains(true) {
                let i = choose|i: int| 0 <= i < sent.len() && sent[i] == true;
                if i < front.len() {
                    assert(front[i] == true);
                }
            }
        }
    }
}

} // verus!
