//! The log of commits, read in the background.
use crate::asyncgit::sync::CommitId;
use vstd::prelude::*;

verus! {

/// How many commits are read at once.
pub const LIMIT_COUNT: usize = 3000;

/// The pause between two reads in milliseconds, while the log is shown.
pub const SLEEP_FOREGROUND: u64 = 2;

/// The pause between two reads in milliseconds, while the log is not shown.
pub const SLEEP_BACKGROUND: u64 = 1000;

/// What a request led to.
#[derive(Clone, Copy, Debug, PartialEq, Eq, Structural)]
pub enum FetchStatus {
    /// the previous one still runs
    Pending,
    /// nothing new is expected
    NoChange,
    /// the commits are read
    Started,
}

/// What a reference leads to.
#[derive(Debug, PartialEq, Eq)]
pub enum Lookup {
    Commit(CommitId),
    /// there is no such reference, or no commit on it yet
    Missing(String),
    /// it could not be read
    Failed(String),
}

/// The commits that were read, and how long it took in milliseconds.
#[derive(Debug, PartialEq, Eq)]
pub struct AsyncLogResult {
    pub commits: Vec<CommitId>,
    pub duration: u64,
}

/// Why commits are not handed out.
#[derive(Clone, Copy, Debug, PartialEq, Eq, Structural)]
pub enum LogError {
    /// some were taken out before
    Extracted,
}

impl LogError {
    pub fn message(&self) -> (r: &'static str)
        ensures
            r@
                == "Faulty usage of AsyncLog: Cannot partially extract items and rely on get_items slice to still work!"@,
    {
        match self {
            LogError::Extracted =>
                "Faulty usage of AsyncLog: Cannot partially extract items and rely on get_items slice to still work!",
        }
    }
}

/// What follows a read.
#[derive(Clone, Copy, Debug, PartialEq, Eq, Structural)]
pub enum BatchStep {
    /// there are no more commits
    End,
    /// tell of the commits, pause for some milliseconds and read on
    Pause(u64),
}

/// The log of commits.
#[derive(Debug)]
pub struct AsyncLog {
    pub current: AsyncLogResult,
    /// the commit that the log starts at
    pub current_head: Option<CommitId>,
    pub pending: bool,
    pub background: bool,
    pub cancelled: bool,
    /// the reference whose log it is; otherwise the head's
    pub reference: Option<String>,
    /// whether commits were taken out
    pub partial_extract: bool,
}

pub open spec fn lesser(a: int, b: int) -> int {
    if a < b {
        a
    } else {
        b
    }
}

/// Some commits from a place on, as far as there are so many.
pub open spec fn slice_of(commits: Seq<CommitId>, start: int, amount: int) -> Seq<CommitId> {
    let len = commits.len() as int;
    let min = lesser(start, len);
    commits.subrange(min, lesser(min + amount, len))
}

fn copy_ids(list: &Vec<CommitId>, from: usize, to: usize) -> (r: Vec<CommitId>)
    requires
        from <= to <= list@.len(),
    ensures
        r@ == list@.subrange(from as int, to as int),
{
    let mut out: Vec<CommitId> = Vec::new();
    for i in from..to
        invariant
            from <= to <= list@.len(),
            out@ == list@.subrange(from as int, i as int),
    {
        out.push(list[i]);
        assert(out@ =~= list@.subrange(from as int, i + 1));
    }
    out
}

impl AsyncLog {
    /// A log of the head that was not read yet.
    pub fn new() -> (r: AsyncLog)
        ensures
            r.current.commits@.len() == 0,
            r.current.duration == 0,
            r.current_head is None,
            !r.pending && !r.background && !r.cancelled && !r.partial_extract,
            r.reference is None,
    {
        AsyncLog {
            current: AsyncLogResult { commits: Vec::new(), duration: 0 },
            current_head: None,
            pending: false,
            background: false,
            cancelled: false,
            reference: None,
            partial_extract: false,
        }
    }

    /// A log of a reference that was not read yet, in place of another.
    pub fn with_reference(self, reference: String) -> (r: AsyncLog)
        ensures
            r.current.commits@.len() == 0,
            r.current.duration == 0,
            r.current_head is None,
            !r.pending && !r.background && !r.cancelled && !r.partial_extract,
            r.reference == Some(reference),
    {
        let mut log = AsyncLog::new();
        log.reference = Some(reference);
        log
    }

    /// The number of commits.
    pub fn count(&self) -> (r: usize)
        ensures
            r == self.current.commits@.len(),
    {
        self.current.commits.len()
    }

    /// Some commits, as far as there are so many.
    pub fn get_slice(&self, start_index: usize, amount: usize) -> (r: Result<
        Vec<CommitId>,
        LogError,
    >)
        ensures
            match r {
                Ok(list) => !self.partial_extract && list@ == slice_of(
                    self.current.commits@,
                    start_index as int,
                    amount as int,
                ),
                Err(_) => self.partial_extract,
            },
    {
        if self.partial_extract {
            return Err(LogError::Extracted);
        }
        let len: usize = self.current.commits.len();
        let min: usize = if start_index < len {
            start_index
        } else {
            len
        };
        let max: usize = if amount < len - min {
            min + amount
        } else {
            len
        };
        Ok(copy_ids(&self.current.commits, min, max))
    }

    /// All commits.
    pub fn get_items(&self) -> (r: Result<Vec<CommitId>, LogError>)
        ensures
            match r {
                Ok(list) => !self.partial_extract && list@ == self.current.commits@,
                Err(_) => self.partial_extract,
            },
    {
        if self.partial_extract {
            return Err(LogError::Extracted);
        }
        let list = copy_ids(&self.current.commits, 0, self.current.commits.len());
        assert(list@ =~= self.current.commits@);
        Ok(list)
    }

    /// Take out the commits.
    pub fn extract_items(&mut self) -> (r: Vec<CommitId>)
        ensures
            r@ == old(self).current.commits@,
            final(self).current.commits@.len() == 0,
            *final(self) == (AsyncLog {
                current: AsyncLogResult {
                    commits: final(self).current.commits,
                    ..old(self).current
                },
                partial_extract: true,
                ..*old(self)
            }),
    {
        self.partial_extract = true;
        let list = copy_ids(&self.current.commits, 0, self.current.commits.len());
        assert(list@ =~= self.current.commits@);
        self.current.commits.clear();
        list
    }

    /// How long the last read took.
    pub fn get_last_duration(&self) -> (r: u64)
        ensures
            r == self.current.duration,
    {
        self.current.duration
    }

    pub fn is_pending(&self) -> (r: bool)
        ensures
            r == self.pending,
    {
        self.pending
    }

    /// The log is not shown: read on more slowly.
    pub fn set_background(&mut self)
        ensures
            *final(self) == (AsyncLog { background: true, ..*old(self) }),
    {
        self.background = true;
    }

    /// The log is not needed any more.
    pub fn cancel(&mut self)
        ensures
            *final(self) == (AsyncLog { cancelled: true, ..*old(self) }),
    {
        self.cancelled = true;
    }

    pub open spec fn target(self, lookup: Lookup) -> Result<Option<CommitId>, String> {
        match lookup {
            Lookup::Commit(id) => Ok(Some(id)),
            Lookup::Missing(e) => if self.reference is None {
                Ok(None)
            } else {
                Err(e)
            },
            Lookup::Failed(e) => Err(e),
        }
    }

    /// The commit that the log starts at. A head without a commit is no error,
    /// and there is none to start at.
    pub fn resolve_target(&self, lookup: Lookup) -> (r: Result<Option<CommitId>, String>)
        ensures
            r == self.target(lookup),
    {
        match lookup {
            Lookup::Commit(id) => Ok(Some(id)),
            Lookup::Missing(e) => if self.reference.is_none() {
                Ok(None)
            } else {
                Err(e)
            },
            Lookup::Failed(e) => Err(e),
        }
    }

    /// What a request leads to. `target` is the commit to start at, if there is
    /// one, or why that could not be told.
    pub open spec fn fetch_status(self, target: Result<Option<CommitId>, String>) -> Result<
        FetchStatus,
        String,
    > {
        if self.pending {
            Ok(FetchStatus::Pending)
        } else {
            match target {
                Err(e) => Err(e),
                Ok(start) => if start is None || start == self.current_head {
                    Ok(FetchStatus::NoChange)
                } else {
                    Ok(FetchStatus::Started)
                },
            }
        }
    }

    /// Ask for the log from a commit on.
    pub fn fetch(&mut self, target: Result<Option<CommitId>, String>) -> (r: Result<
        FetchStatus,
        String,
    >)
        ensures
            r == old(self).fetch_status(target),
            if r == Ok::<FetchStatus, String>(FetchStatus::Started) {
                &&& final(self).current.commits@.len() == 0
                &&& *final(self) == (AsyncLog {
                    current: AsyncLogResult {
                        commits: final(self).current.commits,
                        ..old(self).current
                    },
                    current_head: target->Ok_0,
                    pending: true,
                    background: false,
                    partial_extract: false,
                    ..*old(self)
                })
            } else {
                *final(self) == (AsyncLog { background: false, ..*old(self) })
            },
    {
        self.background = false;
        if self.pending {
            return Ok(FetchStatus::Pending);
        }
        match target {
            Err(e) => Err(e),
            Ok(None) => Ok(FetchStatus::NoChange),
            Ok(Some(start)) => {
                if let Some(head) = self.current_head {
                    if head == start {
                        return Ok(FetchStatus::NoChange);
                    }
                }
                self.current.commits.clear();
                self.partial_extract = false;
                self.current_head = Some(start);
                self.pending = true;
                Ok(FetchStatus::Started)
            },
        }
    }

    /// Whether to read on.
    pub fn reads_on(&self) -> (r: bool)
        ensures
            r == !self.cancelled,
    {
        !self.cancelled
    }

    /// What follows a batch of which so many commits were read.
    pub open spec fn batch_step(self, read: usize) -> BatchStep {
        if read == 0 {
            BatchStep::End
        } else if self.background {
            BatchStep::Pause(SLEEP_BACKGROUND)
        } else {
            BatchStep::Pause(SLEEP_FOREGROUND)
        }
    }

    /// Take in commits that were read. `read` is how many there were, and
    /// `elapsed` how long it has taken so far.
    pub fn publish_batch(&mut self, entries: &Vec<CommitId>, read: usize, elapsed: u64) -> (r:
        BatchStep)
        ensures
            final(self).current.commits@ == old(self).current.commits@ + entries@,
            *final(self) == (AsyncLog {
                current: AsyncLogResult {
                    commits: final(self).current.commits,
                    duration: elapsed,
                },
                ..*old(self)
            }),
            r == old(self).batch_step(read),
    {
        let ghost before = *self;
        for i in 0..entries.len()
            invariant
                self.current.commits@ == before.current.commits@ + entries@.take(i as int),
                *self == (AsyncLog {
                    current: AsyncLogResult {
                        commits: self.current.commits,
                        duration: before.current.duration,
                    },
                    ..before
                }),
        {
            self.current.commits.push(entries[i]);
            assert(before.current.commits@ + entries@.take(i + 1) =~= (before.current.commits@
                + entries@.take(i as int)).push(entries@[i as int]));
        }
        assert(entries@.take(entries@.len() as int) =~= entries@);
        self.current.duration = elapsed;
        if read == 0 {
            BatchStep::End
        } else if self.background {
            BatchStep::Pause(SLEEP_BACKGROUND)
        } else {
            BatchStep::Pause(SLEEP_FOREGROUND)
        }
    }

    /// The state after the last read. If one failed, the next request reads
    /// again.
    pub open spec fn finished(self, ok: bool) -> AsyncLog {
        AsyncLog {
            current_head: if ok {
                self.current_head
            } else {
                None
            },
            pending: false,
            ..self
        }
    }

    /// Note that nothing more is read. Tells whether anyone has to be told.
    pub fn finish(&mut self, ok: bool) -> (notify: bool)
        ensures
            *final(self) == old(self).finished(ok),
            notify == !old(self).cancelled,
    {
        if !ok {
            self.current_head = None;
        }
        self.pending = false;
        !self.cancelled
    }
}

/// A log that could not be read is read again at the next request.
pub proof fn lemma_failed_reads_are_retried(log: AsyncLog, start: CommitId)
    ensures
        log.finished(false).fetch_status(Ok(Some(start))) == Ok::<FetchStatus, String>(
            FetchStatus::Started,
        ),
{
}

/// A log that was read is not read again until the reference moves.
pub proof fn lemma_known_logs_are_kept(log: AsyncLog, start: CommitId)
    requires
        log.current_head is Some,
    ensures
        log.finished(true).fetch_status(Ok(Some(start))) == Ok::<FetchStatus, String>(
            if log.current_head == Some(start) {
                FetchStatus::NoChange
            } else {
                FetchStatus::Started
            },
        ),
{
}

/// While a log is read no other is started. Else the log is read anew exactly
/// where it starts at another commit than the one that is known, and an error
/// is handed on.
pub proof fn lemma_when_a_log_is_read(log: AsyncLog, target: Result<Option<CommitId>, String>)
    ensures
        log.fetch_status(target) == Ok::<FetchStatus, String>(FetchStatus::Pending)
            <==> log.pending,
        log.fetch_status(target) == Ok::<FetchStatus, String>(FetchStatus::Started)
            <==> !log.pending && target is Ok && target->Ok_0 is Some && target->Ok_0
            != log.current_head,
        log.fetch_status(target) is Err <==> !log.pending && target is Err,
        log.fetch_status(target) is Err ==> log.fetch_status(target)->Err_0 == target->Err_0,
{
}

/// A log that was read to its end stays as it is, and another can be read.
pub proof fn lemma_the_end_keeps_the_log(log: AsyncLog, ok: bool)
    ensures
        log.finished(ok).current == log.current,
        !log.finished(ok).pending,
        log.finished(ok).cancelled == log.cancelled,
        log.finished(ok).reference == log.reference,
        log.finished(ok).partial_extract == log.partial_extract,
        log.finished(true).current_head == log.current_head,
        log.finished(false).current_head is None,
{
}

/// A slice holds the commits from its start on, one after the other, and ends only
/// where it is full or the log is.
pub proof fn lemma_slices(commits: Seq<CommitId>, start: int, amount: int, k: int)
    requires
        0 <= start,
        0 <= amount,
    ensures
        ({
            let r = slice_of(commits, start, amount);
            &&& r.len() <= amount
            &&& 0 <= k < r.len() ==> r[k] == commits[start + k]
            &&& start + amount <= commits.len() ==> r.len() == amount
            &&& start <= commits.len() < start + amount ==> start + r.len() == commits.len()
            &&& start >= commits.len() ==> r.len() == 0
        }),
{
}

/// Slices that follow each other make up one.
pub proof fn lemma_slices_add_up(commits: Seq<CommitId>, start: int, a: int, b: int)
    requires
        0 <= start,
        0 <= a,
        0 <= b,
    ensures
        slice_of(commits, start, a) + slice_of(commits, start + a, b) == slice_of(
            commits,
            start,
            a + b,
        ),
{
    assert(slice_of(commits, start, a) + slice_of(commits, start + a, b) =~= slice_of(
        commits,
        start,
        a + b,
    ));
}

/// A repository without commits is no error; a reference that is missing is one.
pub proof fn lemma_where_logs_start(log: AsyncLog, lookup: Lookup)
    ensures
        lookup is Commit ==> log.target(lookup) == Ok::<Option<CommitId>, String>(
            Some(lookup->Commit_0),
        ),
        log.target(lookup) == Ok::<Option<CommitId>, String>(None) <==> lookup is Missing
            && log.reference is None,
        log.target(lookup) is Err <==> lookup is Failed || (lookup is Missing
            && log.reference is Some),
{
}

/// A log is at its end once nothing more is read, and in the background it is read
/// more slowly.
pub proof fn lemma_logs_are_read_in_batches(log: AsyncLog, read: usize)
    ensures
        log.batch_step(read) == BatchStep::End <==> read == 0,
        read > 0 ==> log.batch_step(read) is Pause,
        read > 0 && log.background ==> log.batch_step(read)->Pause_0 == 1000,
        read > 0 && !log.background ==> log.batch_step(read)->Pause_0 == 2,
{
}

} // verus!
