//! The status of files in the background.
use crate::asyncgit::sync::status::{StatusItem, StatusType};
use crate::asyncgit::sync::ShowUntrackedFilesConfig;
use crate::shared::share;
use crate::text;
use std::sync::Arc;
use vstd::prelude::*;

verus! {

/// Whether two lists hold the same files.
pub open spec fn same_items(a: Seq<StatusItem>, b: Seq<StatusItem>) -> bool {
    text::views(a) == text::views(b)
}

fn is_same_items(a: &Vec<StatusItem>, b: &Vec<StatusItem>) -> (r: bool)
    ensures
        r == same_items(a@, b@),
{
    let n: usize = a.len();
    if n != b.len() {
        assert(text::views(a@).len() != text::views(b@).len());
        return false;
    }
    for i in 0..n
        invariant
            n == a@.len(),
            n == b@.len(),
            forall|j: int| 0 <= j < i ==> (#[trigger] a@[j])@ == b@[j]@,
    {
        if !text::same(a[i].path.as_str(), b[i].path.as_str()) || a[i].status != b[i].status {
            assert(text::views(a@)[i as int] != text::views(b@)[i as int]);
            return false;
        }
    }
    assert(text::views(a@) =~= text::views(b@));
    true
}

// ------------------------------------------------------------------ one list

/// The files of one list.
#[derive(Debug)]
pub struct Status {
    pub items: Arc<Vec<StatusItem>>,
}

impl Clone for Status {
    fn clone(&self) -> (r: Status)
        ensures
            r == *self,
    {
        Status { items: share(&self.items) }
    }
}

/// Which status is asked for.
#[derive(Clone, Copy, Debug, PartialEq, Eq, Hash, Structural)]
pub struct StatusParams {
    pub status_type: StatusType,
    pub config: Option<ShowUntrackedFilesConfig>,
}

impl StatusParams {
    pub fn new(status_type: StatusType, config: Option<ShowUntrackedFilesConfig>) -> (r:
        StatusParams)
        ensures
            r.status_type == status_type,
            r.config == config,
    {
        StatusParams { status_type, config }
    }
}

/// A request: what is asked for, and the number of scans that were finished
/// before.
#[derive(Clone, Copy, Debug, PartialEq, Eq, Structural)]
pub struct StatusRequest {
    pub params: StatusParams,
    pub generation: u64,
}

/// What a request led to.
#[derive(Debug)]
pub enum StatusStep {
    /// what is there already, if anything
    Known(Option<Status>),
    /// a scan has to be started
    Start(StatusRequest),
}

/// The status of files, one scan at a time.
#[derive(Debug)]
pub struct AsyncStatus {
    /// what was asked for last
    pub current: Option<StatusRequest>,
    /// its answer
    pub answer: Option<Status>,
    /// the latest status
    pub last: Option<Status>,
    pub pending: bool,
    pub generation: u64,
}

impl AsyncStatus {
    /// Nothing was asked for yet.
    pub fn new() -> (r: AsyncStatus)
        ensures
            r == (AsyncStatus {
                current: None,
                answer: None,
                last: None,
                pending: false,
                generation: 0,
            }),
    {
        AsyncStatus { current: None, answer: None, last: None, pending: false, generation: 0 }
    }

    /// The latest status; empty before the first scan.
    pub fn last(&self) -> (r: Status)
        ensures
            match self.last {
                Some(last) => r == last,
                None => r.items@.len() == 0,
            },
    {
        match &self.last {
            Some(last) => last.clone(),
            None => Status { items: Arc::new(Vec::new()) },
        }
    }

    pub fn is_pending(&self) -> (r: bool)
        ensures
            r == self.pending,
    {
        self.pending
    }

    /// What a request leads to: nothing while a scan runs, the answer that is there,
    /// or a scan.
    pub open spec fn fetch_step(self, params: StatusParams) -> StatusStep {
        let request = StatusRequest { params, generation: self.generation };
        if self.pending {
            StatusStep::Known(None)
        } else if self.current == Some(request) {
            StatusStep::Known(self.answer)
        } else {
            StatusStep::Start(request)
        }
    }

    /// The state after a request.
    pub open spec fn fetched(self, params: StatusParams) -> AsyncStatus {
        match self.fetch_step(params) {
            StatusStep::Known(_) => self,
            StatusStep::Start(request) => AsyncStatus {
                current: Some(request),
                answer: None,
                pending: true,
                ..self
            },
        }
    }

    /// Ask for the status. While a scan runs, nothing else is done.
    pub fn fetch(&mut self, params: StatusParams) -> (r: StatusStep)
        ensures
            r == old(self).fetch_step(params),
            *final(self) == old(self).fetched(params),
    {
        if self.pending {
            return StatusStep::Known(None);
        }
        let request = StatusRequest { params, generation: self.generation };
        if let Some(current) = &self.current {
            if *current == request {
                return StatusStep::Known(
                    match &self.answer {
                        Some(status) => Some(status.clone()),
                        None => None,
                    },
                );
            }
        }
        self.current = Some(request);
        self.answer = None;
        self.pending = true;
        StatusStep::Start(request)
    }

    /// The state after a scan.
    pub open spec fn completed(self, request: StatusRequest, result: Option<Status>) -> AsyncStatus {
        AsyncStatus {
            answer: if result is Some && self.current == Some(request) {
                result
            } else {
                self.answer
            },
            last: if result is Some {
                result
            } else {
                self.last
            },
            pending: false,
            generation: if self.generation < u64::MAX {
                (self.generation + 1) as u64
            } else {
                0
            },
            ..self
        }
    }

    /// Take in what a scan found, if it did not fail. Tells whether it differs
    /// from what was known.
    pub fn complete(&mut self, request: StatusRequest, result: Option<Status>) -> (changed: bool)
        ensures
            *final(self) == old(self).completed(request, result),
            changed == (result matches Some(status) && !(old(self).last matches Some(last)
                && same_items(last.items@, status.items@))),
    {
        let mut changed = false;
        if let Some(status) = result {
            if let Some(current) = &self.current {
                if *current == request {
                    self.answer = Some(status.clone());
                }
            }
            changed = match &self.last {
                Some(last) => !is_same_items(&last.items, &status.items),
                None => true,
            };
            self.last = Some(status);
        }
        self.generation = self.generation.wrapping_add(1);
        self.pending = false;
        changed
    }
}

/// Once a scan is finished, the next request leads to another: what was found
/// is not taken for current.
pub proof fn lemma_every_request_scans_again(
    s: AsyncStatus,
    request: StatusRequest,
    result: Option<Status>,
    params: StatusParams,
)
    requires
        s.current == Some(request),
        request.generation == s.generation,
    ensures
        !s.completed(request, result).pending,
        s.completed(request, result).current != Some(
            StatusRequest { params, generation: s.completed(request, result).generation },
        ),
{
}

// ------------------------------------------------------------------ two lists

/// The files of both lists, from one scan.
#[derive(Debug)]
pub struct StatusPair {
    /// what is in the index
    pub staged: Arc<Vec<StatusItem>>,
    /// what is in the working directory
    pub workdir: Arc<Vec<StatusItem>>,
}

impl Clone for StatusPair {
    fn clone(&self) -> (r: StatusPair)
        ensures
            r == *self,
    {
        StatusPair { staged: share(&self.staged), workdir: share(&self.workdir) }
    }
}

impl Default for StatusPair {
    fn default() -> (r: StatusPair)
        ensures
            r.staged@.len() == 0,
            r.workdir@.len() == 0,
    {
        StatusPair { staged: Arc::new(Vec::new()), workdir: Arc::new(Vec::new()) }
    }
}

/// Whether two scans found the same.
pub open spec fn same_pair(a: StatusPair, b: StatusPair) -> bool {
    same_items(a.staged@, b.staged@) && same_items(a.workdir@, b.workdir@)
}

/// What follows a scan of both lists.
#[derive(Clone, Copy, Debug, PartialEq, Eq, Structural)]
pub enum PairStep {
    /// what was found is not wanted any more: scan again
    Discard,
    /// tell what was found, and scan again if need be
    Publish { changed: bool, rerun: bool },
}

/// The status of both lists, one scan at a time. Requests during a scan lead to
/// one more, with the latest configuration.
#[derive(Debug)]
pub struct AsyncStatusPair {
    pub last: Option<StatusPair>,
    pub pending: bool,
    /// the number of requests
    pub request_generation: u64,
    pub latest_config: Option<ShowUntrackedFilesConfig>,
}

impl AsyncStatusPair {
    /// Nothing was asked for yet.
    pub fn new() -> (r: AsyncStatusPair)
        ensures
            r == (AsyncStatusPair {
                last: None,
                pending: false,
                request_generation: 0,
                latest_config: None,
            }),
    {
        AsyncStatusPair { last: None, pending: false, request_generation: 0, latest_config: None }
    }

    /// What was found last; nothing before the first scan.
    pub fn last(&self) -> (r: StatusPair)
        ensures
            match self.last {
                Some(last) => r == last,
                None => r.staged@.len() == 0 && r.workdir@.len() == 0,
            },
    {
        match &self.last {
            Some(last) => last.clone(),
            None => StatusPair::default(),
        }
    }

    /// Whether a scan runs.
    pub fn is_pending(&self) -> (r: bool)
        ensures
            r == self.pending,
    {
        self.pending
    }

    /// The state after a request.
    pub open spec fn requested(self, config: Option<ShowUntrackedFilesConfig>) -> AsyncStatusPair {
        AsyncStatusPair {
            latest_config: config,
            request_generation: if self.request_generation < u64::MAX {
                (self.request_generation + 1) as u64
            } else {
                0
            },
            pending: true,
            ..self
        }
    }

    /// Ask for the status. Tells whether a scan has to be started; one that runs
    /// notices the request itself.
    pub fn fetch(&mut self, config: Option<ShowUntrackedFilesConfig>) -> (start: bool)
        ensures
            *final(self) == old(self).requested(config),
            start == !old(self).pending,
    {
        self.latest_config = config;
        self.request_generation = self.request_generation.wrapping_add(1);
        if self.pending {
            return false;
        }
        self.pending = true;
        true
    }

    /// What the next scan is for.
    pub fn scan_request(&self) -> (r: (u64, Option<ShowUntrackedFilesConfig>))
        ensures
            r == (self.request_generation, self.latest_config),
    {
        (self.request_generation, self.latest_config)
    }

    /// The state after a scan that was started at a request.
    pub open spec fn published(
        self,
        generation: u64,
        config: Option<ShowUntrackedFilesConfig>,
        result: Option<StatusPair>,
    ) -> AsyncStatusPair {
        if self.latest_config != config {
            self
        } else {
            AsyncStatusPair {
                last: if result is Some {
                    result
                } else {
                    self.last
                },
                pending: self.request_generation != generation,
                ..self
            }
        }
    }

    /// What follows a scan that was started at a request.
    pub open spec fn step(
        self,
        generation: u64,
        config: Option<ShowUntrackedFilesConfig>,
        result: Option<StatusPair>,
    ) -> PairStep {
        if self.latest_config != config {
            PairStep::Discard
        } else {
            PairStep::Publish {
                changed: result matches Some(pair) && !(self.last matches Some(last) && same_pair(
                    last,
                    pair,
                )),
                rerun: self.request_generation != generation,
            }
        }
    }

    /// Take in what a scan found, if it did not fail. Requests can come in faster
    /// than a large repository is scanned, so what was found is shown before the
    /// next scan; only another configuration makes it useless.
    pub fn publish(
        &mut self,
        generation: u64,
        config: Option<ShowUntrackedFilesConfig>,
        result: Option<StatusPair>,
    ) -> (r: PairStep)
        ensures
            *final(self) == old(self).published(generation, config, result),
            r == old(self).step(generation, config, result),
    {
        if !same_config(self.latest_config, config) {
            return PairStep::Discard;
        }
        let mut changed = false;
        if let Some(pair) = result {
            changed = match &self.last {
                Some(last) => !(is_same_items(&last.staged, &pair.staged) && is_same_items(
                    &last.workdir,
                    &pair.workdir,
                )),
                None => true,
            };
            self.last = Some(pair);
        }
        let rerun = self.request_generation != generation;
        self.pending = rerun;
        PairStep::Publish { changed, rerun }
    }
}

fn same_config(
    a: Option<ShowUntrackedFilesConfig>,
    b: Option<ShowUntrackedFilesConfig>,
) -> (r: bool)
    ensures
        r == (a == b),
{
    match (a, b) {
        (Some(a), Some(b)) => a == b,
        (None, None) => true,
        _ => false,
    }
}

/// A request is never lost: if one came in during a scan, another scan follows.
pub proof fn lemma_requests_are_not_lost(
    s: AsyncStatusPair,
    config: Option<ShowUntrackedFilesConfig>,
    result: Option<StatusPair>,
)
    requires
        s.pending,
    ensures
        ({
            let during = s.requested(config);
            let step = during.step(s.request_generation, s.latest_config, result);
            &&& step is Discard || (step matches PairStep::Publish { rerun, .. } && rerun)
            &&& during.published(s.request_generation, s.latest_config, result).pending
        }),
{
}

/// A request with the same configuration does not keep what was found from
/// being shown.
pub proof fn lemma_polling_does_not_hold_back(s: AsyncStatusPair, pair: StatusPair)
    ensures
        s.requested(s.latest_config).published(
            s.request_generation,
            s.latest_config,
            Some(pair),
        ).last == Some(pair),
{
}

/// What was found with an old configuration is not shown.
pub proof fn lemma_old_configurations_are_dropped(
    s: AsyncStatusPair,
    config: Option<ShowUntrackedFilesConfig>,
    result: Option<StatusPair>,
)
    requires
        config != s.latest_config,
    ensures
        s.requested(config).published(s.request_generation, s.latest_config, result).last
            == s.last,
        s.requested(config).step(s.request_generation, s.latest_config, result) is Discard,
{
}

/// What was asked for last is answered by its own result and by no other, and
/// the newest list is kept even where nobody waits for it.
pub proof fn lemma_requests_get_their_own_answer(
    s: AsyncStatus,
    request: StatusRequest,
    status: Status,
)
    ensures
        s.completed(request, Some(status)).last == Some(status),
        s.current == Some(request) ==> s.completed(request, Some(status)).answer == Some(status),
        s.current != Some(request) ==> s.completed(request, Some(status)).answer == s.answer,
        s.completed(request, None).last == s.last,
        s.completed(request, None).answer == s.answer,
        s.completed(request, None).current == s.current,
        !s.completed(request, None).pending,
        s.completed(request, Some(status)).current == s.current,
        !s.completed(request, Some(status)).pending,
{
}

/// A scan that failed leaves the lists as they were, and one that nobody has
/// overtaken is the last one.
pub proof fn lemma_failed_scans_keep_the_lists(
    s: AsyncStatusPair,
    generation: u64,
    config: Option<ShowUntrackedFilesConfig>,
    pair: StatusPair,
)
    requires
        config == s.latest_config,
    ensures
        s.published(generation, config, None).last == s.last,
        s.published(generation, config, Some(pair)).last == Some(pair),
        s.published(generation, config, None).pending <==> generation != s.request_generation,
        s.published(generation, config, Some(pair)).pending <==> generation
            != s.request_generation,
        s.step(generation, config, None) == (PairStep::Publish {
            changed: false,
            rerun: generation != s.request_generation,
        }),
{
}

/// A change is told exactly where a file of either list is another one or has
/// another state than before.
pub proof fn lemma_changes_are_told(
    s: AsyncStatusPair,
    generation: u64,
    before: StatusPair,
    after: StatusPair,
)
    requires
        s.last == Some(before),
    ensures
        s.step(generation, s.latest_config, Some(after)) == (PairStep::Publish {
            changed: text::views(before.staged@) != text::views(after.staged@) || text::views(
                before.workdir@,
            ) != text::views(after.workdir@),
            rerun: generation != s.request_generation,
        }),
{
}

/// The first lists are always news.
pub proof fn lemma_first_lists_are_told(s: AsyncStatusPair, generation: u64, pair: StatusPair)
    requires
        s.last is None,
    ensures
        s.step(generation, s.latest_config, Some(pair)) == (PairStep::Publish {
            changed: true,
            rerun: generation != s.request_generation,
        }),
{
}

/// One scan runs at a time; a scan that is started is for what was asked, and what
/// it finds answers the next request that asks the same.
pub proof fn lemma_scans_answer_what_was_asked(s: AsyncStatus, params: StatusParams, status: Status)
    ensures
        s.pending ==> s.fetched(params) == s && s.fetch_step(params) == StatusStep::Known(None),
        s.fetch_step(params) is Start ==> !s.pending && s.fetch_step(params)->Start_0.params
            == params && s.fetched(params).pending && s.fetched(params).answer is None,
        s.fetch_step(params) is Start ==> s.fetched(params).completed(
            s.fetch_step(params)->Start_0,
            Some(status),
        ).answer == Some(status),
        s.fetched(params).last == s.last,
        s.fetched(params).generation == s.generation,
{
}

} // verus!
