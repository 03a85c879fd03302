//! Commits that pass a filter, found by several workers at once.
use crate::asyncgit::sync::CommitId;
use crate::sorting::{self, stable_sort, Ordered};
use vstd::prelude::*;

verus! {

/// How many commits a worker takes at once.
pub const CHUNK: usize = 1000;

/// The commits that pass, and how long it took in milliseconds.
#[derive(Debug, PartialEq, Eq)]
pub struct CommitFilterResult {
    pub result: Vec<CommitId>,
    pub duration: u64,
}

/// What became of a commit.
#[derive(Clone, Copy, Debug, PartialEq, Eq, Structural)]
pub enum Verdict {
    Passes,
    Rejected,
    /// it could not be looked at
    Failed,
    /// the search was stopped before
    Cancelled,
}

/// A commit that passes, with its place among all.
#[derive(Clone, Copy, Debug, PartialEq, Eq, Structural)]
pub struct FilterEntry {
    pub index: usize,
    pub commit: CommitId,
}

impl Ordered for FilterEntry {
    open spec fn before(self, other: Self) -> bool {
        self.index <= other.index
    }

    proof fn lemma_reflexive(a: Self) {
    }

    proof fn lemma_total(a: Self, b: Self) {
    }

    proof fn lemma_transitive(a: Self, b: Self, c: Self) {
    }

    fn is_before(&self, other: &Self) -> (r: bool) {
        self.index <= other.index
    }
}

/// The commits out of the first `n` that pass. `offset` is the place of the
/// first of them among all.
pub open spec fn kept(
    offset: int,
    commits: Seq<CommitId>,
    verdicts: Seq<Verdict>,
    n: int,
) -> Seq<FilterEntry>
    decreases n,
{
    if n <= 0 {
        Seq::empty()
    } else {
        let rest = kept(offset, commits, verdicts, n - 1);
        if verdicts[n - 1] == Verdict::Passes {
            rest.push(FilterEntry { index: (offset + n - 1) as usize, commit: commits[n - 1] })
        } else {
            rest
        }
    }
}

/// The commits of entries.
pub open spec fn commits_of(entries: Seq<FilterEntry>) -> Seq<CommitId> {
    Seq::new(entries.len(), |i: int| entries[i].commit)
}

/// The commits of a chunk that pass, with their places among all.
pub fn chunk_entries(chunk_index: usize, chunk: &Vec<CommitId>, verdicts: &Vec<Verdict>) -> (r: Vec<
    FilterEntry,
>)
    requires
        chunk@.len() <= CHUNK,
        chunk@.len() == verdicts@.len(),
        chunk_index * CHUNK + chunk@.len() <= usize::MAX,
    ensures
        r@ == kept(chunk_index * CHUNK, chunk@, verdicts@, chunk@.len() as int),
{
    let mut out: Vec<FilterEntry> = Vec::new();
    let n: usize = chunk.len();
    for i in 0..n
        invariant
            n == chunk@.len(),
            chunk@.len() == verdicts@.len(),
            chunk_index * CHUNK + chunk@.len() <= usize::MAX,
            out@ == kept(chunk_index * CHUNK, chunk@, verdicts@, i as int),
    {
        if verdicts[i] == Verdict::Passes {
            out.push(FilterEntry { index: chunk_index * CHUNK + i, commit: chunk[i] });
        }
    }
    out
}

/// The commits of all entries, in the order of their places, however the
/// workers finished.
pub fn merge_entries(entries: Vec<FilterEntry>) -> (r: Vec<CommitId>)
    ensures
        exists|sorted: Seq<FilterEntry>| #[trigger]
            sorting::is_stable_sort(entries@, sorted) && r@ == commits_of(sorted),
{
    let sorted = stable_sort(entries);
    let mut out: Vec<CommitId> = Vec::new();
    for i in 0..sorted.len()
        invariant
            out@ == commits_of(sorted@.take(i as int)),
    {
        out.push(sorted[i].commit);
        assert(out@ =~= commits_of(sorted@.take(i + 1)));
    }
    assert(sorted@.take(sorted@.len() as int) =~= sorted@);
    out
}

/// How far a search is.
#[derive(Debug)]
pub enum JobState {
    /// the commits to look at
    Request(Vec<CommitId>),
    Response(Result<CommitFilterResult, String>),
}

/// A search for commits.
#[derive(Debug)]
pub struct AsyncCommitFilterJob {
    pub state: Option<JobState>,
}

impl AsyncCommitFilterJob {
    /// Commits to look at.
    pub fn new(commits: Vec<CommitId>) -> (r: AsyncCommitFilterJob)
        ensures
            r.state == Some(JobState::Request(commits)),
    {
        AsyncCommitFilterJob { state: Some(JobState::Request(commits)) }
    }

    /// Take in what was found. A search that is over keeps what it found.
    pub fn finish(&mut self, result: Result<CommitFilterResult, String>)
        ensures
            final(self).state == match old(self).state {
                Some(JobState::Request(_)) => Some(JobState::Response(result)),
                other => other,
            },
    {
        match self.state.take() {
            Some(JobState::Request(_)) => {
                self.state = Some(JobState::Response(result));
            },
            other => {
                self.state = other;
            },
        }
    }

    /// Take out what was found, if the search is over.
    pub fn result(&mut self) -> (r: Option<Result<CommitFilterResult, String>>)
        ensures
            final(self).state is None,
            r == match old(self).state {
                Some(JobState::Response(result)) => Some(result),
                _ => None,
            },
    {
        match self.state.take() {
            Some(JobState::Response(result)) => Some(result),
            _ => None,
        }
    }
}

// ------------------------------------------------------------------- laws

/// The entries of two neighbouring runs of commits are those of both together.
pub proof fn lemma_chunks_add(
    offset: int,
    a: Seq<CommitId>,
    va: Seq<Verdict>,
    b: Seq<CommitId>,
    vb: Seq<Verdict>,
    n: int,
)
    requires
        a.len() == va.len(),
        b.len() == vb.len(),
        0 <= n <= b.len(),
    ensures
        kept(offset, a + b, va + vb, a.len() + n) == kept(offset, a, va, a.len() as int) + kept(
            offset + a.len(),
            b,
            vb,
            n,
        ),
    decreases n,
{
    if n == 0 {
        lemma_kept_prefix(offset, a, va, a + b, va + vb, a.len() as int);
        assert(kept(offset, a, va, a.len() as int) + kept(offset + a.len(), b, vb, 0) =~= kept(
            offset,
            a,
            va,
            a.len() as int,
        ));
    } else {
        lemma_chunks_add(offset, a, va, b, vb, n - 1);
        assert((va + vb)[a.len() + n - 1] == vb[n - 1]);
        assert((a + b)[a.len() + n - 1] == b[n - 1]);
        assert(kept(offset, a + b, va + vb, a.len() + n) =~= kept(offset, a, va, a.len() as int)
            + kept(offset + a.len(), b, vb, n));
    }
}

proof fn lemma_kept_prefix(
    offset: int,
    a: Seq<CommitId>,
    va: Seq<Verdict>,
    c: Seq<CommitId>,
    vc: Seq<Verdict>,
    n: int,
)
    requires
        n <= a.len(),
        n <= va.len(),
        n <= c.len(),
        n <= vc.len(),
        forall|i: int| 0 <= i < n ==> a[i] == #[trigger] c[i],
        forall|i: int| 0 <= i < n ==> va[i] == #[trigger] vc[i],
    ensures
        kept(offset, a, va, n) == kept(offset, c, vc, n),
    decreases n,
{
    if n > 0 {
        lemma_kept_prefix(offset, a, va, c, vc, n - 1);
    }
}

proof fn lemma_kept_in_order(
    offset: int,
    commits: Seq<CommitId>,
    verdicts: Seq<Verdict>,
    n: int,
)
    requires
        0 <= offset,
        0 <= n,
        offset + n <= usize::MAX + 1,
    ensures
        forall|i: int|
            0 <= i < kept(offset, commits, verdicts, n).len() ==> offset <= (#[trigger] kept(
                offset,
                commits,
                verdicts,
                n,
            )[i]).index < offset + n,
        rising(kept(offset, commits, verdicts, n)),
    decreases n,
{
    if n > 0 {
        lemma_kept_in_order(offset, commits, verdicts, n - 1);
        let rest = kept(offset, commits, verdicts, n - 1);
        let all = kept(offset, commits, verdicts, n);
        assert forall|i: int| 0 <= i < all.len() implies offset <= (#[trigger] all[i]).index
            < offset + n by {
            if i < rest.len() {
                assert(all[i] == rest[i]);
            }
        }
        assert forall|i: int, j: int| 0 <= i < j < all.len() implies (#[trigger] all[i]).index < (
        #[trigger] all[j]).index by {
            assert(all[i] == rest[i]);
            if j < rest.len() {
                assert(all[j] == rest[j]);
            }
        }
    }
}

/// Whether each entry has a later place than those before it.
pub open spec fn rising(s: Seq<FilterEntry>) -> bool {
    forall|i: int, j: int| 0 <= i < j < s.len() ==> (#[trigger] s[i]).index < (#[trigger] s[j]).index
}

proof fn lemma_one_order(a: Seq<FilterEntry>, b: Seq<FilterEntry>)
    requires
        rising(a),
        sorting::is_sorted(b),
        a.to_multiset() == b.to_multiset(),
    ensures
        a == b,
    decreases a.len(),
{
    broadcast use vstd::seq_lib::group_to_multiset_ensures;

    assert(a.len() == a.to_multiset().len());
    assert(b.len() == b.to_multiset().len());
    if a.len() == 0 {
        assert(a =~= b);
    } else {
        let n = a.len() as int;
        assert(b.contains(b[n - 1]));
        assert(a.to_multiset().count(b[n - 1]) > 0);
        assert(a.contains(b[n - 1]));
        let k = choose|k: int| 0 <= k < n && a[k] == b[n - 1];
        assert(a.contains(a[n - 1]));
        assert(b.to_multiset().count(a[n - 1]) > 0);
        assert(b.contains(a[n - 1]));
        let j = choose|j: int| 0 <= j < n && b[j] == a[n - 1];
        assert(b[j].before(b[n - 1]));
        assert(a[n - 1].index <= a[k].index);
        assert(k == n - 1);
        assert(a.drop_last() =~= a.remove(n - 1));
        assert(b.drop_last() =~= b.remove(n - 1));
        assert(a.remove(n - 1).to_multiset() =~= a.to_multiset().remove(a[n - 1]));
        assert(b.remove(n - 1).to_multiset() =~= b.to_multiset().remove(b[n - 1]));
        assert forall|i: int, j: int| 0 <= i < j < a.drop_last().len() implies (
        #[trigger] a.drop_last()[i]).index < (#[trigger] a.drop_last()[j]).index by {
            assert(a[i].index < a[j].index);
        }
        assert forall|i: int, j: int| 0 <= i <= j < b.drop_last().len() implies (
        #[trigger] b.drop_last()[i]).before(#[trigger] b.drop_last()[j]) by {
            assert(b[i].before(b[j]));
        }
        lemma_one_order(a.drop_last(), b.drop_last());
        assert(a =~= a.drop_last().push(a[n - 1]));
        assert(b =~= b.drop_last().push(b[n - 1]));
    }
}

/// In whatever order the entries come in, the commits that pass come out in the
/// order of all commits.
pub proof fn lemma_order_of_arrival_is_irrelevant(
    commits: Seq<CommitId>,
    verdicts: Seq<Verdict>,
    entries: Seq<FilterEntry>,
    sorted: Seq<FilterEntry>,
)
    requires
        commits.len() <= usize::MAX,
        entries.to_multiset() == kept(0, commits, verdicts, commits.len() as int).to_multiset(),
        sorting::is_stable_sort(entries, sorted),
    ensures
        commits_of(sorted) == commits_of(kept(0, commits, verdicts, commits.len() as int)),
{
    lemma_kept_in_order(0, commits, verdicts, commits.len() as int);
    lemma_one_order(kept(0, commits, verdicts, commits.len() as int), sorted);
}

/// A commit is kept if, and only if, it passes, and it is kept with its own
/// place in the log.
pub proof fn lemma_what_passes_is_kept(
    offset: int,
    commits: Seq<CommitId>,
    verdicts: Seq<Verdict>,
    n: int,
    k: int,
)
    requires
        0 <= offset,
        0 <= k < n <= commits.len(),
        offset + n <= usize::MAX,
    ensures
        kept(offset, commits, verdicts, n).contains(
            FilterEntry { index: (offset + k) as usize, commit: commits[k] },
        ) <==> verdicts[k] == Verdict::Passes,
        kept(offset, commits, verdicts, n).len() <= n,
    decreases n,
{
    let all = kept(offset, commits, verdicts, n);
    let rest = kept(offset, commits, verdicts, n - 1);
    let entry = FilterEntry { index: (offset + k) as usize, commit: commits[k] };
    lemma_entries_have_their_place(offset, commits, verdicts, n - 1);
    if n > 1 {
        lemma_what_passes_is_kept(
            offset,
            commits,
            verdicts,
            n - 1,
            if k < n - 1 {
                k
            } else {
                0
            },
        );
    }
    if k == n - 1 {
        assert(!rest.contains(entry)) by {
            if rest.contains(entry) {
                let i = choose|i: int| 0 <= i < rest.len() && rest[i] == entry;
                assert(rest[i].index < offset + n - 1);
            }
        }
        if verdicts[k] == Verdict::Passes {
            assert(all[all.len() - 1] == entry);
        }
    } else if verdicts[n - 1] == Verdict::Passes {
        let last = FilterEntry { index: (offset + n - 1) as usize, commit: commits[n - 1] };
        assert(all == rest.push(last));
        if rest.contains(entry) {
            let i = choose|i: int| 0 <= i < rest.len() && rest[i] == entry;
            assert(all[i] == entry);
        }
        if all.contains(entry) {
            let i = choose|i: int| 0 <= i < all.len() && all[i] == entry;
            assert(i < rest.len());
            assert(rest[i] == entry);
        }
    }
}

/// Every entry that is kept stands for a commit of the list that passed.
pub proof fn lemma_entries_have_their_place(
    offset: int,
    commits: Seq<CommitId>,
    verdicts: Seq<Verdict>,
    n: int,
)
    requires
        0 <= offset,
        n <= commits.len(),
        offset + n <= usize::MAX,
    ensures
        forall|i: int|
            0 <= i < kept(offset, commits, verdicts, n).len() ==> {
                let e = #[trigger] kept(offset, commits, verdicts, n)[i];
                &&& offset <= e.index < offset + n
                &&& e.commit == commits[e.index - offset]
                &&& verdicts[e.index - offset] == Verdict::Passes
            },
    decreases n,
{
    if n > 0 {
        lemma_entries_have_their_place(offset, commits, verdicts, n - 1);
        let rest = kept(offset, commits, verdicts, n - 1);
        let all = kept(offset, commits, verdicts, n);
        assert forall|i: int| 0 <= i < all.len() implies ({
            let e = #[trigger] all[i];
            &&& offset <= e.index < offset + n
            &&& e.commit == commits[e.index - offset]
            &&& verdicts[e.index - offset] == Verdict::Passes
        }) by {
            if i < rest.len() {
                assert(all[i] == rest[i]);
            }
        }
    }
}

} // verus!
