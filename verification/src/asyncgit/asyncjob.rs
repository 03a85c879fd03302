//! Work in the background, one job at a time.
use vstd::prelude::*;

verus! {

/// A queue of work that holds at most one job besides the one that runs: the
/// latest that was asked for.
#[derive(Debug)]
pub struct AsyncSingleJob<J> {
    pub next: Option<J>,
    /// whether there is a worker, running or about to start
    pub pending: bool,
    /// the job that finished last
    pub last: Option<J>,
}

impl<J> AsyncSingleJob<J> {
    /// What holds of every queue: no job waits without a worker.
    pub open spec fn wf(self) -> bool {
        self.next is Some ==> self.pending
    }

    /// A queue without work.
    pub fn new() -> (r: AsyncSingleJob<J>)
        ensures
            r.wf(),
            r == (AsyncSingleJob::<J> { next: None, pending: false, last: None }),
    {
        AsyncSingleJob { next: None, pending: false, last: None }
    }

    /// Whether there is a worker.
    pub fn is_pending(&self) -> (r: bool)
        ensures
            r == self.pending,
    {
        self.pending
    }

    /// Drop the job that waits. Tells whether there was one.
    pub fn cancel(&mut self) -> (cancelled: bool)
        requires
            old(self).wf(),
        ensures
            final(self).wf(),
            *final(self) == (AsyncSingleJob { next: None, ..*old(self) }),
            cancelled == (old(self).next is Some),
    {
        self.next.take().is_some()
    }

    /// Take out the job that finished last.
    pub fn take_last(&mut self) -> (r: Option<J>)
        requires
            old(self).wf(),
        ensures
            final(self).wf(),
            *final(self) == (AsyncSingleJob { last: None, ..*old(self) }),
            r == old(self).last,
    {
        self.last.take()
    }

    /// Queue a job in place of the one that waits. Tells whether a worker has
    /// to be started for it.
    pub fn spawn(&mut self, task: J) -> (start: bool)
        requires
            old(self).wf(),
        ensures
            final(self).wf(),
            *final(self) == old(self).after_spawn(task),
            start == !old(self).pending,
    {
        self.next = Some(task);
        if self.pending {
            return false;
        }
        self.pending = true;
        true
    }

    /// Take out the job to run next. Without one the worker is done.
    pub fn take_next(&mut self) -> (r: Option<J>)
        requires
            old(self).wf(),
        ensures
            final(self).wf(),
            *final(self) == old(self).after_take(),
            r == old(self).next,
    {
        let task = self.next.take();
        if task.is_none() {
            self.pending = false;
        }
        task
    }

    /// Note that a job ran, and take out the next one. A job that failed is not
    /// kept. Whoever is told of the end then already finds the job and whether
    /// the worker is done.
    pub fn finish(&mut self, done: Option<J>) -> (next: Option<J>)
        requires
            old(self).wf(),
        ensures
            final(self).wf(),
            next == old(self).next,
            *final(self) == old(self).after_finish(done),
    {
        match done {
            Some(task) => {
                self.last = Some(task);
            },
            None => {},
        }
        self.take_next()
    }

    pub open spec fn after_spawn(self, task: J) -> AsyncSingleJob<J> {
        AsyncSingleJob { next: Some(task), pending: true, ..self }
    }

    /// The queue once its next job was taken out. Without one no worker is left.
    pub open spec fn after_take(self) -> AsyncSingleJob<J> {
        AsyncSingleJob { next: None, pending: self.pending && self.next is Some, ..self }
    }

    /// The queue once a job has ended and the next one was taken out.
    pub open spec fn after_finish(self, done: Option<J>) -> AsyncSingleJob<J> {
        AsyncSingleJob {
            next: None,
            pending: self.pending && self.next is Some,
            last: match done {
                Some(task) => Some(task),
                None => self.last,
            },
        }
    }
}

/// Of the jobs that are queued while one runs, only the latest runs.
pub proof fn lemma_only_the_latest_runs<J>(queue: AsyncSingleJob<J>, first: J, second: J)
    ensures
        queue.after_spawn(first).after_spawn(second) == queue.after_spawn(second),
        queue.after_spawn(first).after_spawn(second).next == Some(second),
{
}

/// A worker stays as long as there is work: one that ends a job goes on with the
/// job that came meanwhile, and is gone where none did.
pub proof fn lemma_workers_stay_while_there_is_work<J>(
    queue: AsyncSingleJob<J>,
    task: J,
    done: Option<J>,
)
    requires
        queue.wf(),
    ensures
        queue.after_spawn(task).next == Some(task),
        queue.after_spawn(task).pending,
        queue.after_spawn(task).last == queue.last,
        queue.after_spawn(task).after_finish(done).pending,
        queue.next is None ==> !queue.after_finish(done).pending && !queue.after_take().pending,
        queue.next is Some ==> queue.after_take().pending,
        queue.after_take().next is None,
        queue.after_finish(done).next is None,
        queue.after_take().last == queue.last,
        queue.after_finish(done).after_take() == (AsyncSingleJob {
            pending: false,
            ..queue.after_finish(done)
        }),
{
}

/// The job that ended is the last one; one that failed leaves the last one as it
/// was.
pub proof fn lemma_ended_jobs_are_kept<J>(queue: AsyncSingleJob<J>, task: J)
    ensures
        queue.after_finish(Some(task)).last == Some(task),
        queue.after_finish(None).last == queue.last,
{
}

} // verus!
