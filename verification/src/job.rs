//! The jobs that work on files, under one type.
use crate::files::{self, FileAction, FileActionView, FileReply, FileReplyView};
use crate::install::{Install, InstallView, Uninstall, UninstallView};
use crate::wrap::{Unwrap, UnwrapView, Wrap, WrapView};
use vstd::prelude::*;

verus! {

/// A job that works on files.
#[derive(Debug)]
pub enum Job {
    Install(Install),
    Uninstall(Uninstall),
    Wrap(Wrap),
    Unwrap(Unwrap),
}

/// What a [`Job`] says.
pub enum JobView {
    Install(InstallView),
    Uninstall(UninstallView),
    Wrap(WrapView),
    Unwrap(UnwrapView),
}

impl View for Job {
    type V = JobView;

    open spec fn view(&self) -> JobView {
        match *self {
            Job::Install(job) => JobView::Install(job@),
            Job::Uninstall(job) => JobView::Uninstall(job@),
            Job::Wrap(job) => JobView::Wrap(job@),
            Job::Unwrap(job) => JobView::Unwrap(job@),
        }
    }
}

impl JobView {
    /// What is to be done now.
    pub open spec fn action(self) -> FileActionView {
        match self {
            JobView::Install(job) => job.action(),
            JobView::Uninstall(job) => job.action(),
            JobView::Wrap(job) => job.action(),
            JobView::Unwrap(job) => job.action(),
        }
    }

    /// The job after a reply.
    pub open spec fn next(self, reply: FileReplyView) -> JobView {
        match self {
            JobView::Install(job) => JobView::Install(job.next(reply)),
            JobView::Uninstall(job) => JobView::Uninstall(job.next(reply)),
            JobView::Wrap(job) => JobView::Wrap(job.next(reply)),
            JobView::Unwrap(job) => JobView::Unwrap(job.next(reply)),
        }
    }
}

impl Job {
    /// What is to be done now.
    pub fn action(&self) -> (r: FileAction)
        ensures
            r@ == self@.action(),
    {
        match self {
            Job::Install(job) => job.action(),
            Job::Uninstall(job) => job.action(),
            Job::Wrap(job) => job.action(),
            Job::Unwrap(job) => job.action(),
        }
    }

    /// The job after a reply.
    pub fn step(self, reply: FileReply) -> (r: Job)
        requires
            files::answers(self@.action(), reply@),
        ensures
            r@ == self@.next(reply@),
    {
        match self {
            Job::Install(job) => Job::Install(job.step(reply)),
            Job::Uninstall(job) => Job::Uninstall(job.step(reply)),
            Job::Wrap(job) => Job::Wrap(job.step(reply)),
            Job::Unwrap(job) => Job::Unwrap(job.step(reply)),
        }
    }
}

} // verus!
