//! Plain data shown by the user interface.

use vstd::prelude::*;
use crossbeam::channel::Receiver;
use crate::channel::{try_receive, Polled};

verus! {

/// A modal box with a title and one message.
pub struct MessageBox {
    pub title: String,
    pub message: String,
}

/// What a progress message says: a line of text and how much of the work
/// lies behind, as `done` parts of `total`.
pub struct ProgressView {
    pub info: Seq<char>,
    pub done: int,
    pub total: int,
}

/// Progress report of a long-running task.
pub struct ProgressMsg {
    info: String,
    done: usize,
    total: usize,
}

impl ProgressMsg {
    pub closed spec fn view(&self) -> ProgressView {
        ProgressView { info: self.info@, done: self.done as int, total: self.total as int }
    }

    /// The fraction `done / total` lies between 0 and 1.
    #[verifier::type_invariant]
    pub closed spec fn wf(&self) -> bool {
        self.done <= self.total && self.total > 0
    }

    /// A report that `done` of `total` parts are finished.
    pub fn new(info: String, done: usize, total: usize) -> (msg: ProgressMsg)
        requires
            done <= total,
            total > 0,
        ensures
            msg@ == (ProgressView { info: info@, done: done as int, total: total as int }),
    {
        ProgressMsg { info, done, total }
    }

    pub fn info(&self) -> (info: &str)
        ensures
            info@ == self@.info,
    {
        self.info.as_str()
    }

    /// The text of the report.
    pub fn into_info(self) -> (info: String)
        ensures
            info@ == self@.info,
    {
        self.info
    }

    /// Number of parts finished; no more than `total`.
    pub fn done(&self) -> (done: usize)
        ensures
            done == self@.done,
            done <= self@.total,
    {
        proof {
            use_type_invariant(self);
        }
        self.done
    }

    /// Number of parts in all; not zero.
    pub fn total(&self) -> (total: usize)
        ensures
            total == self@.total,
            total > 0,
    {
        proof {
            use_type_invariant(self);
        }
        self.total
    }
}

/// What a dialog that shows `before` shows once it has taken in `polled`,
/// and whether its task is then still in progress: a report replaces the one
/// on display, and the task is in progress until its channel is
/// disconnected.
pub open spec fn updated(before: ProgressView, polled: Polled<ProgressMsg>) -> (ProgressView, bool) {
    match polled {
        Polled::Message(msg) => (msg@, true),
        Polled::Empty => (before, true),
        Polled::Disconnected => (before, false),
    }
}

/// What the dialog of a long task shows: the last report, and how far the
/// task has come as `done` parts of `total`.
///
/// Note: reports end of task only if `progress_receiver` becomes
/// disconnected; owners of the sender must remember to disconnect one way or
/// another.
pub struct LongTaskDialog {
    title: String,
    info: String,
    done: usize,
    total: usize,
    progress_receiver: Receiver<ProgressMsg>,
}

impl LongTaskDialog {
    pub closed spec fn spec_title(&self) -> Seq<char> {
        self.title@
    }

    /// The last report, as a progress message would hold it.
    pub closed spec fn spec_progress(&self) -> ProgressView {
        ProgressView { info: self.info@, done: self.done as int, total: self.total as int }
    }

    /// A dialog for a task that reports through `progress_receiver` and has
    /// not reported yet: nothing is done.
    pub fn new(title: String, info: String, progress_receiver: Receiver<ProgressMsg>) -> (dialog:
        LongTaskDialog)
        ensures
            dialog.spec_title() == title@,
            dialog.spec_progress() == (ProgressView { info: info@, done: 0, total: 1 }),
    {
        LongTaskDialog { title, info, done: 0, total: 1, progress_receiver }
    }

    pub fn title(&self) -> (title: &str)
        ensures
            title@ == self.spec_title(),
    {
        self.title.as_str()
    }

    pub fn info(&self) -> (info: &str)
        ensures
            info@ == self.spec_progress().info,
    {
        self.info.as_str()
    }

    /// How far the task has come: parts done, and parts in all.
    pub fn progress(&self) -> (progress: (usize, usize))
        ensures
            progress.0 == self.spec_progress().done,
            progress.1 == self.spec_progress().total,
    {
        (self.done, self.total)
    }

    /// Takes in what a look at the progress channel found: a report
    /// replaces the one on display. Returns true if the task is still in
    /// progress, which it is until the channel is disconnected.
    pub fn update(&mut self, polled: Polled<ProgressMsg>) -> (in_progress: bool)
        ensures
            final(self).spec_title() == old(self).spec_title(),
            (final(self).spec_progress(), in_progress) == updated(old(self).spec_progress(), polled),
    {
        match polled {
            Polled::Message(msg) => {
                self.done = msg.done();
                self.total = msg.total();
                self.info = msg.into_info();
                true
            },
            Polled::Empty => true,
            Polled::Disconnected => false,
        }
    }

    /// Looks for a new report, without waiting for one, and takes it in.
    /// Returns true if the task is still in progress. When it is over, the
    /// last report stays on display.
    pub fn handle_long_task(&mut self) -> (in_progress: bool)
        ensures
            final(self).spec_title() == old(self).spec_title(),
            exists|polled: Polled<ProgressMsg>|
                (final(self).spec_progress(), in_progress) == #[trigger] updated(
                    old(self).spec_progress(),
                    polled,
                ),
    {
        let polled = try_receive(&self.progress_receiver);
        let in_progress = self.update(polled);
        assert((self.spec_progress(), in_progress) == updated(old(self).spec_progress(), polled));
        in_progress
    }
}

} // verus!
