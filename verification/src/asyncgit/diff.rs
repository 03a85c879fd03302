//! Diffs in the background: one at a time, and only the latest that was asked
//! for.
use crate::asyncgit::sync::{CommitId, DiffOptions, FileDiff, OldNew};
use crate::shared::share;
use crate::text;
use std::sync::Arc;
use vstd::prelude::*;

verus! {

/// What a diff is taken of.
#[derive(Clone, Copy, Debug, PartialEq, Eq, Hash, Structural)]
pub enum DiffType {
    /// what a commit changed against its parent
    Commit(CommitId),
    /// the difference of two commits
    Commits(OldNew),
    /// what is in the index
    Stage,
    /// what is in the working directory
    WorkDir,
}

/// A diff that is asked for.
#[derive(Debug, PartialEq, Eq, Hash)]
pub struct DiffParams {
    /// path to the file to diff
    pub path: String,
    /// what kind of diff
    pub diff_type: DiffType,
    /// how it is computed
    pub options: DiffOptions,
}

impl Clone for DiffParams {
    fn clone(&self) -> (r: DiffParams)
        ensures
            r == *self,
    {
        DiffParams {
            path: self.path.clone(),
            diff_type: self.diff_type,
            options: self.options,
        }
    }
}

/// Whether two requests ask for the same diff.
pub open spec fn same_params(a: DiffParams, b: DiffParams) -> bool {
    a.path@ == b.path@ && a.diff_type == b.diff_type && a.options == b.options
}

/// Whether two requests ask for the same diff.
pub fn is_same_params(a: &DiffParams, b: &DiffParams) -> (r: bool)
    ensures
        r == same_params(*a, *b),
{
    text::same(a.path.as_str(), b.path.as_str()) && a.diff_type == b.diff_type && a.options
        == b.options
}

/// Diffs in the background.
#[derive(Debug)]
pub struct AsyncDiff {
    /// what was asked for last
    pub current: Option<DiffParams>,
    /// its diff, once it is there
    pub result: Option<Arc<FileDiff>>,
    /// the diff that was finished last, with what it was asked for with
    pub last: Option<(DiffParams, Arc<FileDiff>)>,
    pub queued: Option<DiffParams>,
    /// whether there is a worker, running or about to start
    pub running: bool,
}

/// What a request led to.
#[derive(Debug)]
pub enum DiffStep {
    /// the diff is there already
    Ready(Arc<FileDiff>),
    /// it has to be waited for
    Wait,
    /// a worker has to be started
    Start,
}

/// Which notification follows a diff.
#[derive(Clone, Copy, Debug, PartialEq, Eq, Structural)]
pub enum DiffNotification {
    Diff,
    FinishUnchanged,
}

impl AsyncDiff {
    /// What holds of every state: no request waits without a worker, and what
    /// waits is what was asked for last.
    pub open spec fn wf(self) -> bool {
        &&& self.queued is Some ==> self.running
        &&& self.queued matches Some(q) ==> self.current == Some(q)
        &&& self.result is Some ==> self.current is Some
    }

    /// Nothing was asked for yet.
    pub fn new() -> (r: AsyncDiff)
        ensures
            r.wf(),
            r == (AsyncDiff {
                current: None,
                result: None,
                last: None,
                queued: None,
                running: false,
            }),
    {
        AsyncDiff { current: None, result: None, last: None, queued: None, running: false }
    }

    /// The diff that was finished last, with what it was asked for with.
    pub fn last(&self) -> (r: Option<(DiffParams, Arc<FileDiff>)>)
        ensures
            r == self.last,
    {
        match &self.last {
            Some((params, diff)) => Some((params.clone(), share(diff))),
            None => None,
        }
    }

    /// Whether there is a worker.
    pub fn is_pending(&self) -> (r: bool)
        ensures
            r == self.running,
    {
        self.running
    }

    /// The state after a request that is not answered already.
    pub open spec fn queueing(self, params: DiffParams) -> AsyncDiff {
        AsyncDiff {
            current: Some(params),
            result: None,
            queued: Some(params),
            running: true,
            ..self
        }
    }

    pub open spec fn asks_for(self, params: DiffParams) -> bool {
        self.current matches Some(current) && same_params(current, params)
    }

    fn enqueue(&mut self, params: DiffParams) -> (r: DiffStep)
        requires
            old(self).wf(),
        ensures
            final(self).wf(),
            *final(self) == old(self).queueing(params),
            r == if old(self).running {
                DiffStep::Wait
            } else {
                DiffStep::Start
            },
    {
        self.current = Some(params.clone());
        self.result = None;
        self.queued = Some(params);
        if self.running {
            return DiffStep::Wait;
        }
        self.running = true;
        DiffStep::Start
    }

    /// The state after a diff was asked for.
    pub open spec fn requested(self, params: DiffParams) -> AsyncDiff {
        if self.asks_for(params) {
            self
        } else {
            self.queueing(params)
        }
    }

    /// What a request leads to.
    pub open spec fn request_step(self, params: DiffParams) -> DiffStep {
        if self.asks_for(params) {
            match self.result {
                Some(diff) => DiffStep::Ready(diff),
                None => DiffStep::Wait,
            }
        } else if self.running {
            DiffStep::Wait
        } else {
            DiffStep::Start
        }
    }

    /// The state after the same diff was asked for again.
    pub open spec fn refreshed(self) -> AsyncDiff {
        match self.current {
            Some(params) => self.queueing(params),
            None => self,
        }
    }

    /// What it leads to that the same diff is asked for again.
    pub open spec fn refresh_step(self) -> DiffStep {
        if self.current is None || self.running {
            DiffStep::Wait
        } else {
            DiffStep::Start
        }
    }

    /// The state after the request to work on was taken out.
    pub open spec fn taken(self) -> AsyncDiff {
        AsyncDiff { queued: None, running: self.running && self.queued is Some, ..self }
    }

    /// Ask for a diff. One that was asked for already is not computed again;
    /// another replaces what waits.
    pub fn request(&mut self, params: DiffParams) -> (r: DiffStep)
        requires
            old(self).wf(),
        ensures
            final(self).wf(),
            *final(self) == old(self).requested(params),
            r == old(self).request_step(params),
    {
        let known = match &self.current {
            Some(current) => is_same_params(current, &params),
            None => false,
        };
        if known {
            return match &self.result {
                Some(diff) => DiffStep::Ready(share(diff)),
                None => DiffStep::Wait,
            };
        }
        self.enqueue(params)
    }

    /// Ask again for what was asked for last, since the files may have changed.
    pub fn refresh(&mut self) -> (r: DiffStep)
        requires
            old(self).wf(),
        ensures
            final(self).wf(),
            *final(self) == old(self).refreshed(),
            r == old(self).refresh_step(),
    {
        match &self.current {
            Some(current) => {
                let params = current.clone();
                self.enqueue(params)
            },
            None => DiffStep::Wait,
        }
    }

    /// Take out the request to work on. Without one the worker is done.
    pub fn take_queued(&mut self) -> (r: Option<DiffParams>)
        requires
            old(self).wf(),
        ensures
            final(self).wf(),
            *final(self) == old(self).taken(),
            r == old(self).queued,
    {
        let params = self.queued.take();
        if params.is_none() {
            self.running = false;
        }
        params
    }

    /// The state after a diff was computed, or could not be.
    pub open spec fn completed(
        self,
        params: DiffParams,
        result: Option<Arc<FileDiff>>,
    ) -> AsyncDiff {
        let published = match result {
            Some(diff) => if self.asks_for(params) {
                AsyncDiff { result: Some(diff), last: Some((params, diff)), ..self }
            } else {
                self
            },
            None => self,
        };
        AsyncDiff { running: self.running && self.queued is Some, ..published }
    }

    /// Take in a diff that was computed, or that it could not be. It is only
    /// kept if it is what was asked for last. Tells which notification follows,
    /// and whether the worker is done.
    pub fn complete(&mut self, params: DiffParams, result: Option<FileDiff>) -> (r: (
        DiffNotification,
        bool,
    ))
        requires
            old(self).wf(),
        ensures
            final(self).wf(),
            match result {
                Some(diff) => exists|shared: Arc<FileDiff>|
                    *shared == diff && *final(self) == #[trigger] old(self).completed(
                        params,
                        Some(shared),
                    ),
                None => *final(self) == old(self).completed(params, None),
            },
            r.0 == if old(self).asks_for(params) {
                DiffNotification::Diff
            } else {
                DiffNotification::FinishUnchanged
            },
            r.1 == (old(self).queued is None),
    {
        let notify = match &self.current {
            Some(current) => is_same_params(current, &params),
            None => false,
        };
        let ghost before = *self;
        match result {
            Some(diff) => {
                let shared = Arc::new(diff);
                let ghost wanted = before.completed(params, Some(shared));
                if notify {
                    self.result = Some(share(&shared));
                    self.last = Some((params, shared));
                }
                let done = self.queued.is_none();
                if done {
                    self.running = false;
                }
                assert(*self == wanted);
            },
            None => {
                let done = self.queued.is_none();
                if done {
                    self.running = false;
                }
            },
        }
        let notification = if notify {
            DiffNotification::Diff
        } else {
            DiffNotification::FinishUnchanged
        };
        (notification, self.queued.is_none())
    }
}

/// Of the diffs that are asked for while one is computed, only the last is
/// computed.
pub proof fn lemma_only_the_latest_is_computed(s: AsyncDiff, a: DiffParams, b: DiffParams)
    ensures
        s.queueing(a).queueing(b) == s.queueing(b),
        s.queueing(a).queueing(b).queued == Some(b),
{
}

/// A diff of what is no longer asked for is never shown.
pub proof fn lemma_obsolete_diffs_are_dropped(
    s: AsyncDiff,
    params: DiffParams,
    diff: Arc<FileDiff>,
)
    requires
        !s.asks_for(params),
    ensures
        s.completed(params, Some(diff)).result == s.result,
        s.completed(params, Some(diff)).last == s.last,
{
}

/// What was computed for the latest request answers it from then on.
pub proof fn lemma_finished_diffs_answer(s: AsyncDiff, params: DiffParams, diff: Arc<FileDiff>)
    requires
        s.asks_for(params),
    ensures
        s.completed(params, Some(diff)).asks_for(params),
        s.completed(params, Some(diff)).result == Some(diff),
        s.completed(params, Some(diff)).last == Some((params, diff)),
{
}

/// A diff that failed does not keep the next one from being computed.
pub proof fn lemma_failures_do_not_block(s: AsyncDiff, params: DiffParams)
    requires
        s.wf(),
    ensures
        s.completed(params, None).wf(),
        s.queued is None ==> !s.completed(params, None).running,
        s.completed(params, None).queued == s.queued,
{
}

/// A diff that is there is handed out and not computed again; any other is queued,
/// and a worker is started exactly where none runs.
pub proof fn lemma_diffs_are_asked_for_once(s: AsyncDiff, params: DiffParams, diff: Arc<FileDiff>)
    ensures
        s.requested(params).asks_for(params),
        s.requested(params).requested(params) == s.requested(params),
        s.asks_for(params) ==> s.requested(params) == s,
        s.asks_for(params) && s.result == Some(diff) ==> s.request_step(params)
            == DiffStep::Ready(diff),
        s.asks_for(params) && s.result is None ==> s.request_step(params) == DiffStep::Wait,
        !s.asks_for(params) ==> s.requested(params).queued == Some(params) && s.requested(
            params,
        ).result is None && s.requested(params).running,
        s.request_step(params) == DiffStep::Start <==> !s.asks_for(params) && !s.running,
        s.requested(params).last == s.last,
{
}

/// Files that may have changed are compared again, with the parameters that were
/// asked for last.
pub proof fn lemma_refreshing_computes_again(s: AsyncDiff, params: DiffParams)
    requires
        s.wf(),
    ensures
        s.current == Some(params) ==> s.refreshed().queued == Some(params)
            && s.refreshed().result is None && s.refreshed().current == Some(params)
            && s.refreshed().running,
        s.current is None ==> s.refreshed() == s,
        s.refresh_step() == DiffStep::Start <==> s.current is Some && !s.running,
        s.refreshed().last == s.last,
{
}

/// What is taken out is not worked on again, and a worker without work is gone.
pub proof fn lemma_work_is_taken_once(s: AsyncDiff)
    requires
        s.wf(),
    ensures
        s.taken().queued is None,
        s.taken().running <==> s.queued is Some,
        s.taken().current == s.current,
        s.taken().result == s.result,
        !s.taken().taken().running,
{
}

} // verus!
