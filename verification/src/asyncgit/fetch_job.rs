//! The progress of a fetch from all remotes.
use crate::asyncgit::progress::{self, ProgressPercent};
use crate::asyncgit::remote_progress::Notifier;
use crate::asyncgit::sync::remotes::push::{FetchPhase, ProgressNotification};
use crate::text;
use vstd::prelude::*;

verus! {

/// What the fetch from a remote is at.
#[derive(Clone, Copy, Debug, PartialEq, Eq, Structural)]
pub enum FetchProgressStage {
    /// waiting for the first remote
    Preparing,
    Branches,
    IndexingBranches,
    Tags,
    IndexingTags,
    UpdatingRefs,
    /// done with this remote
    Done,
}

impl Default for FetchProgressStage {
    fn default() -> (r: FetchProgressStage)
        ensures
            r == FetchProgressStage::Preparing,
    {
        FetchProgressStage::Preparing
    }
}

/// How far a fetch from all remotes is.
#[derive(Debug, PartialEq, Eq)]
pub struct FetchProgress {
    /// the remote that is fetched from
    pub remote: String,
    /// its number, from one on
    pub current: usize,
    /// the number of remotes
    pub total: usize,
    pub stage: FetchProgressStage,
    /// how far the stage is
    pub percent: u8,
    /// whether tags are fetched
    pub tags: bool,
}

impl Default for FetchProgress {
    fn default() -> (r: FetchProgress)
        ensures
            r.remote@.len() == 0,
            r.current == 0,
            r.total == 0,
            r.stage == FetchProgressStage::Preparing,
            r.percent == 0,
            !r.tags,
    {
        FetchProgress {
            remote: String::new(),
            current: 0,
            total: 0,
            stage: FetchProgressStage::Preparing,
            percent: 0,
            tags: false,
        }
    }
}

impl Clone for FetchProgress {
    fn clone(&self) -> (r: FetchProgress)
        ensures
            r == *self,
    {
        FetchProgress {
            remote: self.remote.clone(),
            current: self.current,
            total: self.total,
            stage: self.stage,
            percent: self.percent,
            tags: self.tags,
        }
    }
}

/// Whether two states of progress show the same.
pub open spec fn same_progress(a: FetchProgress, b: FetchProgress) -> bool {
    &&& a.remote@ == b.remote@
    &&& a.current == b.current
    &&& a.total == b.total
    &&& a.stage == b.stage
    &&& a.percent == b.percent
    &&& a.tags == b.tags
}

impl FetchProgress {
    /// The progress after a report. Once all objects are there, they are
    /// indexed.
    pub open spec fn applied(self, event: ProgressNotification) -> FetchProgress {
        match event {
            ProgressNotification::FetchPhase { remote, current, total, phase } => FetchProgress {
                remote,
                current,
                total,
                tags: phase == FetchPhase::Tags,
                stage: match phase {
                    FetchPhase::Branches => FetchProgressStage::Branches,
                    FetchPhase::Tags => FetchProgressStage::Tags,
                    FetchPhase::Done => FetchProgressStage::Done,
                },
                percent: if phase == FetchPhase::Done {
                    100
                } else {
                    0
                },
            },
            ProgressNotification::Transfer { objects, total_objects, indexed_objects } => {
                let indexing = objects == total_objects && total_objects > 0;
                FetchProgress {
                    stage: if self.tags {
                        if indexing {
                            FetchProgressStage::IndexingTags
                        } else {
                            FetchProgressStage::Tags
                        }
                    } else if indexing {
                        FetchProgressStage::IndexingBranches
                    } else {
                        FetchProgressStage::Branches
                    },
                    percent: progress::percent(
                        if indexing {
                            indexed_objects as int
                        } else {
                            objects as int
                        },
                        total_objects as int,
                    ) as u8,
                    ..self
                }
            },
            ProgressNotification::UpdateTips { .. } => FetchProgress {
                stage: FetchProgressStage::UpdatingRefs,
                percent: 100,
                ..self
            },
            _ => self,
        }
    }

    /// Take in a report.
    pub fn apply(&mut self, event: ProgressNotification)
        ensures
            *final(self) == old(self).applied(event),
    {
        match event {
            ProgressNotification::FetchPhase { remote, current, total, phase } => {
                self.remote = remote;
                self.current = current;
                self.total = total;
                self.tags = phase == FetchPhase::Tags;
                self.stage = match phase {
                    FetchPhase::Branches => FetchProgressStage::Branches,
                    FetchPhase::Tags => FetchProgressStage::Tags,
                    FetchPhase::Done => FetchProgressStage::Done,
                };
                self.percent = if phase == FetchPhase::Done {
                    100
                } else {
                    0
                };
            },
            ProgressNotification::Transfer { objects, total_objects, indexed_objects } => {
                let indexing = objects == total_objects && total_objects > 0;
                self.stage = if self.tags {
                    if indexing {
                        FetchProgressStage::IndexingTags
                    } else {
                        FetchProgressStage::Tags
                    }
                } else if indexing {
                    FetchProgressStage::IndexingBranches
                } else {
                    FetchProgressStage::Branches
                };
                let current: usize = if indexing {
                    indexed_objects
                } else {
                    objects
                };
                self.percent = ProgressPercent::new(current, total_objects).progress;
            },
            ProgressNotification::UpdateTips { .. } => {
                self.stage = FetchProgressStage::UpdatingRefs;
                self.percent = 100;
            },
            _ => {},
        }
    }

    /// The progress after some reports.
    pub open spec fn all_applied(self, events: Seq<ProgressNotification>, n: int) -> FetchProgress
        decreases n,
    {
        if n <= 0 {
            self
        } else {
            self.all_applied(events, n - 1).applied(events[n - 1])
        }
    }

    fn is_same(&self, other: &FetchProgress) -> (r: bool)
        ensures
            r == same_progress(*self, *other),
    {
        text::same(self.remote.as_str(), other.remote.as_str()) && self.current == other.current
            && self.total == other.total && self.stage == other.stage && self.percent
            == other.percent && self.tags == other.tags
    }
}

fn take_first(events: &mut Vec<ProgressNotification>) -> (r: ProgressNotification)
    requires
        old(events)@.len() > 0,
    ensures
        r == old(events)@[0],
        final(events)@ == old(events)@.drop_first(),
{
    let r = events.remove(0);
    assert(events@ =~= old(events)@.drop_first());
    r
}

/// What a fetch reports, and what was shown of it.
#[derive(Debug)]
pub struct FetchReporter {
    pub progress: FetchProgress,
    pub notifier: Notifier,
    pub shown: FetchProgress,
}

impl FetchReporter {
    /// A fetch that has reported nothing.
    pub fn new() -> (r: FetchReporter)
        ensures
            r.progress.stage == FetchProgressStage::Preparing,
            r.shown.stage == FetchProgressStage::Preparing,
            r.progress.remote@.len() == 0,
            r.shown.remote@.len() == 0,
            r.progress.current == 0 && r.progress.total == 0 && r.progress.percent == 0
                && !r.progress.tags,
            r.shown.current == 0 && r.shown.total == 0 && r.shown.percent == 0 && !r.shown.tags,
            r.notifier.last is None,
    {
        FetchReporter {
            progress: FetchProgress::default(),
            notifier: Notifier::new(),
            shown: FetchProgress::default(),
        }
    }

    /// Take in some reports. Tells whether anyone has to be told: another stage
    /// always is, the rest now and then, and only if there is something new.
    pub fn absorb(&mut self, events: Vec<ProgressNotification>, now: u64) -> (notify: bool)
        ensures
            ({
                let after = old(self).progress.all_applied(events@, events@.len() as int);
                let due = old(self).notifier.tells(after.stage != old(self).progress.stage, now);
                &&& final(self).progress == after
                &&& final(self).notifier.last == if due {
                    Some(now)
                } else {
                    old(self).notifier.last
                }
                &&& notify == (due && !same_progress(old(self).shown, after))
                &&& final(self).shown == if notify {
                    after
                } else {
                    old(self).shown
                }
            }),
    {
        let previous = self.progress.stage;
        let ghost all = events@;
        let ghost start = self.progress;
        let mut events = events;
        let n: usize = events.len();
        for i in 0..n
            invariant
                n == all.len(),
                events@ == all.skip(i as int),
                self.progress == start.all_applied(all, i as int),
                self.notifier == old(self).notifier,
                self.shown == old(self).shown,
        {
            let event = take_first(&mut events);
            assert(event == all[i as int]);
            assert(all.skip(i as int).drop_first() =~= all.skip(i + 1));
            self.progress.apply(event);
        }
        let moved = previous != self.progress.stage;
        if self.notifier.should_notify(moved, now) {
            if !self.shown.is_same(&self.progress) {
                self.shown = self.progress.clone();
                return true;
            }
        }
        false
    }
}

/// How far a fetch from all remotes is.
#[derive(Debug)]
pub enum JobState {
    Request,
    Response(Result<(), String>),
}

/// A fetch from all remotes.
#[derive(Debug)]
pub struct AsyncFetchJob {
    pub state: Option<JobState>,
}

impl AsyncFetchJob {
    /// A fetch that was not done yet.
    pub fn new() -> (r: AsyncFetchJob)
        ensures
            r.state == Some(JobState::Request),
    {
        AsyncFetchJob { state: Some(JobState::Request) }
    }

    /// Take in how the fetch ended. `reported` tells whether its reports were
    /// taken in to the end.
    pub fn finish(&mut self, result: Result<(), String>, reported: bool)
        ensures
            match old(self).state {
                Some(JobState::Request) => final(self).state matches Some(JobState::Response(r))
                    && if reported {
                    r == result
                } else {
                    r matches Err(e) && e@ == "fetch progress worker failed"@
                },
                _ => final(self).state == old(self).state,
            },
    {
        match self.state.take() {
            Some(JobState::Request) => {
                self.state = Some(
                    JobState::Response(
                        if reported {
                            result
                        } else {
                            Err("fetch progress worker failed".to_owned())
                        },
                    ),
                );
            },
            other => {
                self.state = other;
            },
        }
    }
}

/// A new remote starts from nothing.
pub proof fn lemma_phases_reset_the_progress(
    p: FetchProgress,
    remote: String,
    current: usize,
    total: usize,
    phase: FetchPhase,
)
    requires
        phase != FetchPhase::Done,
    ensures
        p.applied(
            ProgressNotification::FetchPhase { remote, current, total, phase },
        ).percent == 0,
{
}

/// A phase names its remote and its place among the remotes, stands under its
/// own stage, and only the last one is complete.
pub proof fn lemma_phases_are_told(
    p: FetchProgress,
    remote: String,
    current: usize,
    total: usize,
    phase: FetchPhase,
)
    ensures
        ({
            let after = p.applied(
                ProgressNotification::FetchPhase { remote, current, total, phase },
            );
            &&& after.remote == remote
            &&& after.current == current
            &&& after.total == total
            &&& after.stage == FetchProgressStage::Branches <==> phase == FetchPhase::Branches
            &&& after.stage == FetchProgressStage::Tags <==> phase == FetchPhase::Tags
            &&& after.stage == FetchProgressStage::Done <==> phase == FetchPhase::Done
            &&& after.percent == 100 <==> phase == FetchPhase::Done
            &&& after.tags <==> phase == FetchPhase::Tags
        }),
{
}

/// While objects arrive, their share is told under the phase's own stage; once
/// all are there, the share that is indexed is told under a stage of its own.
/// The remote stays as it was.
pub proof fn lemma_transfers_are_told(
    p: FetchProgress,
    objects: usize,
    total_objects: usize,
    indexed_objects: usize,
)
    requires
        0 < total_objects,
        objects <= total_objects,
        indexed_objects <= total_objects,
    ensures
        ({
            let after = p.applied(
                ProgressNotification::Transfer { objects, total_objects, indexed_objects },
            );
            &&& after.remote == p.remote
            &&& after.current == p.current
            &&& after.total == p.total
            &&& after.tags == p.tags
            &&& after.percent <= 100
            &&& objects < total_objects && p.tags ==> after.stage == FetchProgressStage::Tags
            &&& objects < total_objects && !p.tags ==> after.stage == FetchProgressStage::Branches
            &&& objects == total_objects && p.tags ==> after.stage
                == FetchProgressStage::IndexingTags
            &&& objects == total_objects && !p.tags ==> after.stage
                == FetchProgressStage::IndexingBranches
            &&& objects == total_objects && indexed_objects == total_objects ==> after.percent
                == 100
            &&& objects == total_objects && indexed_objects == 0 ==> after.percent == 0
            &&& objects == 0 ==> after.percent == 0
            &&& objects < total_objects ==> -total_objects <= 2 * (after.percent * total_objects
                - 100 * objects) <= total_objects
            &&& objects == total_objects ==> -total_objects <= 2 * (after.percent * total_objects
                - 100 * indexed_objects) <= total_objects
        }),
{
    let indexing = objects == total_objects;
    let part: int = if indexing {
        indexed_objects as int
    } else {
        objects as int
    };
    progress::lemma_shares(part, total_objects as int);
}

/// References that are moved end a transfer; what tells nothing of a fetch
/// changes nothing.
pub proof fn lemma_moved_references_end_the_transfer(p: FetchProgress, event: ProgressNotification)
    ensures
        event is UpdateTips ==> {
            &&& p.applied(event).stage == FetchProgressStage::UpdatingRefs
            &&& p.applied(event).percent == 100
            &&& p.applied(event).remote == p.remote
            &&& p.applied(event).tags == p.tags
        },
        !(event is UpdateTips) && !(event is Transfer) && !(event is FetchPhase) ==> p.applied(
            event,
        ) == p,
{
}

/// Events count in the order in which they came, whether they are taken in at
/// once or bit by bit.
pub proof fn lemma_events_count_in_turn(
    p: FetchProgress,
    a: Seq<ProgressNotification>,
    b: Seq<ProgressNotification>,
    n: int,
)
    requires
        0 <= n <= b.len(),
    ensures
        p.all_applied(a + b, a.len() + n) == p.all_applied(a, a.len() as int).all_applied(b, n),
    decreases n,
{
    if n > 0 {
        lemma_events_count_in_turn(p, a, b, n - 1);
        assert((a + b)[a.len() + n - 1] == b[n - 1]);
    } else {
        lemma_later_events_do_not_matter(p, a, b, a.len() as int);
    }
}

proof fn lemma_later_events_do_not_matter(
    p: FetchProgress,
    a: Seq<ProgressNotification>,
    b: Seq<ProgressNotification>,
    n: int,
)
    requires
        0 <= n <= a.len(),
    ensures
        p.all_applied(a + b, n) == p.all_applied(a, n),
    decreases n,
{
    if n > 0 {
        lemma_later_events_do_not_matter(p, a, b, n - 1);
        assert((a + b)[n - 1] == a[n - 1]);
    }
}

} // verus!
