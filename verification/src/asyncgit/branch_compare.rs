//! The comparison of a branch with its upstream in the background.
use crate::asyncgit::sync::BranchCompare;
use vstd::prelude::*;

verus! {

/// How far a comparison is.
#[derive(Debug)]
pub enum JobState {
    /// the branch to compare
    Request(String),
    /// the branch and how it compares, or why that could not be told
    Response(String, Result<BranchCompare, String>),
}

/// The comparison of a branch with its upstream.
#[derive(Debug)]
pub struct AsyncBranchCompareJob {
    pub state: Option<JobState>,
}

impl AsyncBranchCompareJob {
    /// A branch to compare.
    pub fn new(branch: String) -> (r: AsyncBranchCompareJob)
        ensures
            r.state == Some(JobState::Request(branch)),
    {
        AsyncBranchCompareJob { state: Some(JobState::Request(branch)) }
    }

    /// The branch that has to be compared, if it was not yet.
    pub fn requested(&self) -> (r: Option<&str>)
        ensures
            match self.state {
                Some(JobState::Request(branch)) => r matches Some(s) && s@ == branch@,
                _ => r is None,
            },
    {
        match &self.state {
            Some(JobState::Request(branch)) => Some(branch.as_str()),
            _ => None,
        }
    }

    /// The job once it is known how the branch compares.
    pub open spec fn finished(self, result: Result<BranchCompare, String>) -> AsyncBranchCompareJob {
        AsyncBranchCompareJob {
            state: match self.state {
                Some(JobState::Request(branch)) => Some(JobState::Response(branch, result)),
                other => other,
            },
        }
    }

    /// The branch and how it compares, once it was compared.
    pub open spec fn outcome(self) -> Option<(String, Result<BranchCompare, String>)> {
        match self.state {
            Some(JobState::Response(branch, result)) => Some((branch, result)),
            _ => None,
        }
    }

    /// Take in how the branch compares.
    pub fn finish(&mut self, result: Result<BranchCompare, String>)
        ensures
            *final(self) == old(self).finished(result),
    {
        match self.state.take() {
            Some(JobState::Request(branch)) => {
                self.state = Some(JobState::Response(branch, result));
            },
            other => {
                self.state = other;
            },
        }
    }

    /// Take out the branch and how it compares, if it was compared.
    pub fn result(&mut self) -> (r: Option<(String, Result<BranchCompare, String>)>)
        ensures
            final(self).state is None,
            r == old(self).outcome(),
    {
        match self.state.take() {
            Some(JobState::Response(branch, result)) => Some((branch, result)),
            _ => None,
        }
    }
}

/// A job hands out what was found of its own branch, and nothing before that; what
/// it was told first stays.
pub proof fn lemma_branches_get_their_result(
    job: AsyncBranchCompareJob,
    branch: String,
    result: Result<BranchCompare, String>,
    other: Result<BranchCompare, String>,
)
    requires
        job.state == Some(JobState::Request(branch)),
    ensures
        job.outcome() is None,
        job.finished(result).outcome() == Some((branch, result)),
        job.finished(result).finished(other).outcome() == Some((branch, result)),
{
}

} // verus!
