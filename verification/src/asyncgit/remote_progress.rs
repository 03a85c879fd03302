//! The progress of a push or a pull.
use crate::asyncgit::progress::{self, ProgressPercent};
use crate::asyncgit::sync::remotes::push::{AsyncProgress, PackBuilderStage, ProgressNotification};
use vstd::prelude::*;

verus! {

/// How often progress is told at most, in milliseconds.
pub const NOTIFICATION_INTERVAL: u64 = 33;

/// What a remote operation is at.
#[derive(Clone, Copy, Debug, PartialEq, Eq, Structural)]
pub enum RemoteProgressState {
    PackingAddingObject,
    PackingDeltafiction,
    Pushing,
    Transfer,
    Done,
}

/// What a remote operation is at, and how far that is.
#[derive(Clone, Copy, Debug, PartialEq, Eq, Structural)]
pub struct RemoteProgress {
    pub state: RemoteProgressState,
    pub progress: ProgressPercent,
}

impl RemoteProgress {
    /// A state, at `current` out of `total`.
    pub fn new(state: RemoteProgressState, current: usize, total: usize) -> (r: RemoteProgress)
        ensures
            r.state == state,
            r.progress.progress == progress::percent(current as int, total as int),
    {
        RemoteProgress { state, progress: ProgressPercent::new(current, total) }
    }

    pub fn get_progress_percent(&self) -> (r: u8)
        ensures
            r == self.progress.progress,
    {
        self.progress.progress
    }

    pub open spec fn state_of(notification: ProgressNotification) -> RemoteProgressState {
        match notification {
            ProgressNotification::Packing { stage, .. } => match stage {
                PackBuilderStage::AddingObjects => RemoteProgressState::PackingAddingObject,
                PackBuilderStage::Deltafication => RemoteProgressState::PackingDeltafiction,
            },
            ProgressNotification::PushTransfer { .. } => RemoteProgressState::Pushing,
            ProgressNotification::Transfer { .. } => RemoteProgressState::Transfer,
            _ => RemoteProgressState::Done,
        }
    }

    pub open spec fn share_of(notification: ProgressNotification) -> int {
        match notification {
            ProgressNotification::Packing { current, total, .. } => progress::percent(
                current as int,
                total as int,
            ),
            ProgressNotification::PushTransfer { current, total, .. } => progress::percent(
                current as int,
                total as int,
            ),
            ProgressNotification::Transfer { objects, total_objects, .. } => progress::percent(
                objects as int,
                total_objects as int,
            ),
            _ => 100,
        }
    }

    /// What a report of a remote operation says of its progress.
    pub fn from(notification: &ProgressNotification) -> (r: RemoteProgress)
        ensures
            r.state == RemoteProgress::state_of(*notification),
            r.progress.progress == RemoteProgress::share_of(*notification),
    {
        match notification {
            ProgressNotification::Packing { stage, current, total } => match stage {
                PackBuilderStage::AddingObjects => RemoteProgress::new(
                    RemoteProgressState::PackingAddingObject,
                    *current,
                    *total,
                ),
                PackBuilderStage::Deltafication => RemoteProgress::new(
                    RemoteProgressState::PackingDeltafiction,
                    *current,
                    *total,
                ),
            },
            ProgressNotification::PushTransfer { current, total, .. } => RemoteProgress::new(
                RemoteProgressState::Pushing,
                *current,
                *total,
            ),
            ProgressNotification::Transfer { objects, total_objects, .. } => RemoteProgress::new(
                RemoteProgressState::Transfer,
                *objects,
                *total_objects,
            ),
            _ => {
                assert(201int / 2 == 100);
                RemoteProgress::new(RemoteProgressState::Done, 1, 1)
            },
        }
    }
}

/// When progress was told last, in milliseconds from an arbitrary start.
#[derive(Clone, Copy, Debug)]
pub struct Notifier {
    pub last: Option<u64>,
}

impl Notifier {
    /// Whether progress is told now: at the end, at first, and then at most once
    /// in an interval.
    pub open spec fn tells(self, force: bool, now: u64) -> bool {
        force || match self.last {
            None => true,
            Some(last) => now - last >= NOTIFICATION_INTERVAL,
        }
    }

    pub fn new() -> (r: Notifier)
        ensures
            r.last is None,
    {
        Notifier { last: None }
    }

    /// Whether progress is told now, which is noted.
    pub fn should_notify(&mut self, force: bool, now: u64) -> (r: bool)
        ensures
            r == old(self).tells(force, now),
            final(self).last == if r {
                Some(now)
            } else {
                old(self).last
            },
    {
        let due = match self.last {
            None => true,
            Some(last) => now >= last && now - last >= NOTIFICATION_INTERVAL,
        };
        if force || due {
            self.last = Some(now);
            true
        } else {
            false
        }
    }
}

/// What was reported of an operation, and when anyone was told last.
#[derive(Debug)]
pub struct ProgressReceiver<T> {
    /// the latest report
    pub progress: Option<T>,
    pub notifier: Notifier,
    /// whether the operation is done, so that no more reports are taken in
    pub stopped: bool,
}

impl<T: AsyncProgress> ProgressReceiver<T> {
    /// Nothing was reported yet.
    pub fn new() -> (r: ProgressReceiver<T>)
        ensures
            r.progress is None,
            r.notifier.last is None,
            !r.stopped,
    {
        ProgressReceiver { progress: None, notifier: Notifier::new(), stopped: false }
    }

    /// Take in the reports that have come in, of which only the latest counts.
    /// Tells whether anyone has to be told.
    pub fn receive(&mut self, updates: Vec<T>, now: u64) -> (notify: bool)
        ensures
            if old(self).stopped || updates@.len() == 0 {
                *final(self) == *old(self) && !notify
            } else {
                &&& notify == old(self).notifier.tells(updates@.last().finished(), now)
                &&& final(self).progress == Some(updates@.last())
                &&& final(self).stopped == updates@.last().finished()
                &&& final(self).notifier.last == if notify {
                    Some(now)
                } else {
                    old(self).notifier.last
                }
            },
    {
        if self.stopped {
            return false;
        }
        let mut updates = updates;
        match updates.pop() {
            Some(latest) => {
                let done = latest.is_done();
                self.progress = Some(latest);
                self.stopped = done;
                self.notifier.should_notify(done, now)
            },
            None => false,
        }
    }
}

/// The end of an operation is always told.
pub proof fn lemma_the_end_is_told(n: Notifier, now: u64)
    ensures
        n.tells(true, now),
{
}

/// Between two tellings, unless the last one is of the end, lies an interval.
pub proof fn lemma_tellings_are_apart(before: Notifier, at: u64, now: u64)
    requires
        before.last == Some(at),
        before.tells(false, now),
    ensures
        now - at >= NOTIFICATION_INTERVAL,
{
}

/// Each report is told as what it is, with the share that is done.
pub proof fn lemma_reports_are_told(current: usize, total: usize, bytes: usize, indexed: usize)
    ensures
        ({
            let adding = ProgressNotification::Packing {
                stage: PackBuilderStage::AddingObjects,
                total,
                current,
            };
            let packing = ProgressNotification::Packing {
                stage: PackBuilderStage::Deltafication,
                total,
                current,
            };
            let pushing = ProgressNotification::PushTransfer { current, total, bytes };
            let transfer = ProgressNotification::Transfer {
                objects: current,
                total_objects: total,
                indexed_objects: indexed,
            };
            let share = progress::percent(current as int, total as int);
            &&& RemoteProgress::state_of(adding) == RemoteProgressState::PackingAddingObject
            &&& RemoteProgress::state_of(packing) == RemoteProgressState::PackingDeltafiction
            &&& RemoteProgress::state_of(pushing) == RemoteProgressState::Pushing
            &&& RemoteProgress::state_of(transfer) == RemoteProgressState::Transfer
            &&& RemoteProgress::state_of(ProgressNotification::Done) == RemoteProgressState::Done
            &&& RemoteProgress::share_of(adding) == share
            &&& RemoteProgress::share_of(packing) == share
            &&& RemoteProgress::share_of(pushing) == share
            &&& RemoteProgress::share_of(transfer) == share
            &&& RemoteProgress::share_of(ProgressNotification::Done) == 100
        }),
{
}

} // verus!
