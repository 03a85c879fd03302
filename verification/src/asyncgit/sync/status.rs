//! The status of files: what has changed in the index and in the working
//! directory.
use crate::paths::{self, compare_paths};
use crate::sorting::{self, stable_sort, Ordered};
use crate::text;
use vstd::prelude::*;

verus! {

/// What happened to a file.
#[derive(Clone, Copy, Debug, PartialEq, Eq, Hash, Structural)]
pub enum StatusItemType {
    New,
    Modified,
    Deleted,
    Renamed,
    Typechange,
    Conflicted,
}

/// A file and what happened to it.
#[derive(Debug, PartialEq, Eq, Hash)]
pub struct StatusItem {
    pub path: String,
    pub status: StatusItemType,
}

/// What a [`StatusItem`] holds.
pub struct StatusItemView {
    pub path: Seq<char>,
    pub status: StatusItemType,
}

impl View for StatusItem {
    type V = StatusItemView;

    open spec fn view(&self) -> StatusItemView {
        StatusItemView { path: self.path@, status: self.status }
    }
}

impl Clone for StatusItem {
    fn clone(&self) -> (r: StatusItem)
        ensures
            r == *self,
    {
        StatusItem { path: self.path.clone(), status: self.status }
    }
}

/// Which changes are asked for.
#[derive(Clone, Copy, Debug, PartialEq, Eq, Hash, Structural)]
pub enum StatusType {
    WorkingDir,
    Stage,
    Both,
}

impl Default for StatusType {
    fn default() -> (r: StatusType)
        ensures
            r == StatusType::WorkingDir,
    {
        StatusType::WorkingDir
    }
}

/// What a scan of the working directory says of a file.
#[derive(Clone, Copy, Debug, PartialEq, Eq, Structural)]
pub enum WorktreeSummary {
    Removed,
    Added,
    Modified,
    TypeChange,
    Renamed,
    Copied,
    IntentToAdd,
    Conflict,
}

/// How the index differs from the tree at a file.
#[derive(Clone, Copy, Debug, PartialEq, Eq, Structural)]
pub enum IndexChange {
    Addition,
    Deletion,
    Modification,
    Rewrite,
}

/// How a file differs between two trees.
#[derive(Clone, Copy, Debug, PartialEq, Eq, Structural)]
pub enum DeltaKind {
    Added,
    Deleted,
    Renamed,
    Typechange,
    /// anything else
    Other,
}

/// The state of a file against the index and of the index against the tree.
#[derive(Clone, Copy, Debug, PartialEq, Eq, Structural)]
pub struct StatusFlags {
    pub index_new: bool,
    pub index_modified: bool,
    pub index_deleted: bool,
    pub index_renamed: bool,
    pub index_typechange: bool,
    pub wt_new: bool,
    pub wt_modified: bool,
    pub wt_deleted: bool,
    pub wt_renamed: bool,
    pub wt_typechange: bool,
    pub conflicted: bool,
}

impl StatusItemType {
    pub open spec fn of_summary(summary: WorktreeSummary) -> StatusItemType {
        match summary {
            WorktreeSummary::Removed => StatusItemType::Deleted,
            WorktreeSummary::Added | WorktreeSummary::Copied | WorktreeSummary::IntentToAdd =>
                StatusItemType::New,
            WorktreeSummary::Modified => StatusItemType::Modified,
            WorktreeSummary::TypeChange => StatusItemType::Typechange,
            WorktreeSummary::Renamed => StatusItemType::Renamed,
            WorktreeSummary::Conflict => StatusItemType::Conflicted,
        }
    }

    pub open spec fn of_change(change: IndexChange) -> StatusItemType {
        match change {
            IndexChange::Addition => StatusItemType::New,
            IndexChange::Deletion => StatusItemType::Deleted,
            IndexChange::Modification | IndexChange::Rewrite => StatusItemType::Modified,
        }
    }

    /// What a scan of the working directory says happened to a file.
    pub fn from_summary(summary: WorktreeSummary) -> (r: StatusItemType)
        ensures
            r == StatusItemType::of_summary(summary),
    {
        match summary {
            WorktreeSummary::Removed => StatusItemType::Deleted,
            WorktreeSummary::Added => StatusItemType::New,
            WorktreeSummary::Copied => StatusItemType::New,
            WorktreeSummary::IntentToAdd => StatusItemType::New,
            WorktreeSummary::Modified => StatusItemType::Modified,
            WorktreeSummary::TypeChange => StatusItemType::Typechange,
            WorktreeSummary::Renamed => StatusItemType::Renamed,
            WorktreeSummary::Conflict => StatusItemType::Conflicted,
        }
    }

    /// What a difference of index and tree says happened to a file.
    pub fn from_change(change: IndexChange) -> (r: StatusItemType)
        ensures
            r == StatusItemType::of_change(change),
    {
        match change {
            IndexChange::Addition => StatusItemType::New,
            IndexChange::Deletion => StatusItemType::Deleted,
            IndexChange::Modification => StatusItemType::Modified,
            IndexChange::Rewrite => StatusItemType::Modified,
        }
    }

    pub open spec fn of_delta(delta: DeltaKind) -> StatusItemType {
        match delta {
            DeltaKind::Added => StatusItemType::New,
            DeltaKind::Deleted => StatusItemType::Deleted,
            DeltaKind::Renamed => StatusItemType::Renamed,
            DeltaKind::Typechange => StatusItemType::Typechange,
            DeltaKind::Other => StatusItemType::Modified,
        }
    }

    pub open spec fn of_flags(s: StatusFlags) -> StatusItemType {
        if s.index_new || s.wt_new {
            StatusItemType::New
        } else if s.index_deleted || s.wt_deleted {
            StatusItemType::Deleted
        } else if s.index_renamed || s.wt_renamed {
            StatusItemType::Renamed
        } else if s.index_typechange || s.wt_typechange {
            StatusItemType::Typechange
        } else if s.conflicted {
            StatusItemType::Conflicted
        } else {
            StatusItemType::Modified
        }
    }

    /// What a difference of two trees says happened to a file.
    pub fn from_delta(delta: DeltaKind) -> (r: StatusItemType)
        ensures
            r == StatusItemType::of_delta(delta),
    {
        match delta {
            DeltaKind::Added => StatusItemType::New,
            DeltaKind::Deleted => StatusItemType::Deleted,
            DeltaKind::Renamed => StatusItemType::Renamed,
            DeltaKind::Typechange => StatusItemType::Typechange,
            DeltaKind::Other => StatusItemType::Modified,
        }
    }

    /// What happened to a file in the index or in the working directory.
    pub fn from_flags(s: StatusFlags) -> (r: StatusItemType)
        ensures
            r == StatusItemType::of_flags(s),
    {
        if s.index_new || s.wt_new {
            StatusItemType::New
        } else if s.index_deleted || s.wt_deleted {
            StatusItemType::Deleted
        } else if s.index_renamed || s.wt_renamed {
            StatusItemType::Renamed
        } else if s.index_typechange || s.wt_typechange {
            StatusItemType::Typechange
        } else if s.conflicted {
            StatusItemType::Conflicted
        } else {
            StatusItemType::Modified
        }
    }
}

impl StatusFlags {
    /// What happened to a file in the index. A conflict is not staged.
    pub open spec fn staged(self) -> Option<StatusItemType> {
        if self.conflicted {
            None
        } else if self.index_new {
            Some(StatusItemType::New)
        } else if self.index_deleted {
            Some(StatusItemType::Deleted)
        } else if self.index_renamed {
            Some(StatusItemType::Renamed)
        } else if self.index_typechange {
            Some(StatusItemType::Typechange)
        } else if self.index_modified {
            Some(StatusItemType::Modified)
        } else {
            None
        }
    }

    /// What happened to a file in the working directory.
    pub open spec fn workdir(self) -> Option<StatusItemType> {
        if self.conflicted {
            Some(StatusItemType::Conflicted)
        } else if self.wt_new {
            Some(StatusItemType::New)
        } else if self.wt_deleted {
            Some(StatusItemType::Deleted)
        } else if self.wt_renamed {
            Some(StatusItemType::Renamed)
        } else if self.wt_typechange {
            Some(StatusItemType::Typechange)
        } else if self.wt_modified {
            Some(StatusItemType::Modified)
        } else {
            None
        }
    }
}

/// What happened to a file in the index.
pub fn staged_status_type(status: StatusFlags) -> (r: Option<StatusItemType>)
    ensures
        r == status.staged(),
{
    if status.conflicted {
        None
    } else if status.index_new {
        Some(StatusItemType::New)
    } else if status.index_deleted {
        Some(StatusItemType::Deleted)
    } else if status.index_renamed {
        Some(StatusItemType::Renamed)
    } else if status.index_typechange {
        Some(StatusItemType::Typechange)
    } else if status.index_modified {
        Some(StatusItemType::Modified)
    } else {
        None
    }
}

/// What happened to a file in the working directory.
pub fn workdir_status_type(status: StatusFlags) -> (r: Option<StatusItemType>)
    ensures
        r == status.workdir(),
{
    if status.conflicted {
        Some(StatusItemType::Conflicted)
    } else if status.wt_new {
        Some(StatusItemType::New)
    } else if status.wt_deleted {
        Some(StatusItemType::Deleted)
    } else if status.wt_renamed {
        Some(StatusItemType::Renamed)
    } else if status.wt_typechange {
        Some(StatusItemType::Typechange)
    } else if status.wt_modified {
        Some(StatusItemType::Modified)
    } else {
        None
    }
}

/// Conflicts show up among the changes of the working directory alone.
pub proof fn lemma_conflicts_are_not_staged(status: StatusFlags)
    requires
        status.conflicted,
    ensures
        status.staged() is None,
        status.workdir() == Some(StatusItemType::Conflicted),
{
}

/// Status items stand in the order of their paths.
impl Ordered for StatusItem {
    open spec fn before(self, other: Self) -> bool {
        paths::path_order(self.path@, other.path@) <= 0
    }

    proof fn lemma_reflexive(a: Self) {
        paths::lemma_path_order(a.path@, a.path@, a.path@);
    }

    proof fn lemma_total(a: Self, b: Self) {
        paths::lemma_path_order(a.path@, b.path@, a.path@);
    }

    proof fn lemma_transitive(a: Self, b: Self, c: Self) {
        paths::lemma_path_order(a.path@, b.path@, c.path@);
    }

    fn is_before(&self, other: &Self) -> bool {
        compare_paths(self.path.as_str(), other.path.as_str()) <= 0
    }
}

// --------------------------------------------------------------- whole scans

/// What a status scan reports.
#[derive(Debug, PartialEq, Eq)]
pub enum Scanned {
    /// a file of the working directory; without a summary it has not changed
    Worktree(String, Option<WorktreeSummary>),
    /// a file of the index
    Index(String, IndexChange),
    /// an item that could not be read
    Unreadable,
}

/// The changed file that a scan reports.
pub open spec fn scanned_item(s: Scanned) -> Option<StatusItemView> {
    match s {
        Scanned::Worktree(path, Some(summary)) => Some(
            StatusItemView { path: path@, status: StatusItemType::of_summary(summary) },
        ),
        Scanned::Index(path, change) => Some(
            StatusItemView { path: path@, status: StatusItemType::of_change(change) },
        ),
        _ => None,
    }
}

/// The changed files among the first `n` that a scan reports.
pub open spec fn scanned_items(scan: Seq<Scanned>, n: int) -> Seq<StatusItemView>
    decreases n,
{
    if n <= 0 {
        Seq::empty()
    } else {
        let before = scanned_items(scan, n - 1);
        match scanned_item(scan[n - 1]) {
            Some(item) => before.push(item),
            None => before,
        }
    }
}

/// Whether `out` holds exactly the given items, in the order of their paths,
/// and items with the same path in the order in which they were found.
pub open spec fn lists(out: Seq<StatusItem>, items: Seq<StatusItemView>) -> bool {
    exists|found: Seq<StatusItem>|
        text::views(found) == items && #[trigger] sorting::is_stable_sort(found, out)
}

/// List the changed files that a scan reports, in the order of their paths.
/// An item that cannot be read is passed over in the working directory; among
/// both index and working directory it makes the scan fail, which `None` says.
pub fn get_status(status_type: StatusType, scan: &Vec<Scanned>) -> (r: Option<Vec<StatusItem>>)
    ensures
        match r {
            Some(out) => lists(out@, scanned_items(scan@, scan@.len() as int)) && (status_type
                == StatusType::Both ==> !scan@.contains(Scanned::Unreadable)),
            None => status_type == StatusType::Both && scan@.contains(Scanned::Unreadable),
        },
{
    let mut found: Vec<StatusItem> = Vec::new();
    assert(text::views(found@) =~= Seq::empty());
    for i in 0..scan.len()
        invariant
            text::views(found@) == scanned_items(scan@, i as int),
            status_type == StatusType::Both ==> forall|j: int|
                0 <= j < i ==> #[trigger] scan@[j] != Scanned::Unreadable,
    {
        match &scan[i] {
            Scanned::Worktree(path, summary) => match summary {
                Some(s) => {
                    let item = StatusItem {
                        path: path.clone(),
                        status: StatusItemType::from_summary(*s),
                    };
                    proof {
                        text::lemma_views_push(found@, item);
                    }
                    found.push(item);
                },
                None => {},
            },
            Scanned::Index(path, change) => {
                let item = StatusItem {
                    path: path.clone(),
                    status: StatusItemType::from_change(*change),
                };
                proof {
                    text::lemma_views_push(found@, item);
                }
                found.push(item);
            },
            Scanned::Unreadable => {
                assert(scan@[i as int] == Scanned::Unreadable);
                if status_type == StatusType::Both {
                    return None;
                }
            },
        }
    }
    let ghost unsorted = found@;
    let out = stable_sort(found);
    assert(sorting::is_stable_sort(unsorted, out@));
    Some(out)
}

/// An entry of a combined scan. A path that is no text is `None`.
#[derive(Debug, PartialEq, Eq)]
pub struct StatusEntry {
    pub flags: StatusFlags,
    /// the path of the entry itself
    pub path: Option<String>,
    /// the new path in the index, if the index differs from the tree
    pub staged_path: Option<Option<String>>,
    /// the new path in the working directory, if it differs from the index
    pub workdir_path: Option<Option<String>>,
}

/// Why a combined scan fails.
#[derive(Clone, Copy, Debug, PartialEq, Eq, Structural)]
pub enum StatusError {
    /// the path of a staged file is no text
    StagedPath,
    /// the path of a file in the working directory is no text
    WorktreePath,
    /// the path of an entry is no text
    EntryPath,
}

impl StatusError {
    /// The message for the user; for a bad entry it is the one that git gives.
    pub fn message(&self) -> (r: Option<&'static str>)
        ensures
            match *self {
                StatusError::StagedPath => r is Some && r->0@
                    == "failed to get path to staged file."@,
                StatusError::WorktreePath => r is Some && r->0@
                    == "failed to get path to worktree file."@,
                StatusError::EntryPath => r is None,
            },
    {
        match self {
            StatusError::StagedPath => Some("failed to get path to staged file."),
            StatusError::WorktreePath => Some("failed to get path to worktree file."),
            StatusError::EntryPath => None,
        }
    }
}

/// The path to list: the new one if there is one, else that of the entry.
pub open spec fn listed_path(
    new: Option<Option<String>>,
    entry: Option<String>,
    error: StatusError,
) -> Result<Seq<char>, StatusError> {
    match new {
        Some(Some(path)) => Ok(path@),
        Some(None) => Err(error),
        None => match entry {
            Some(path) => Ok(path@),
            None => Err(StatusError::EntryPath),
        },
    }
}

fn path_to_list(new: &Option<Option<String>>, entry: &Option<String>, error: StatusError) -> (r:
    Result<String, StatusError>)
    ensures
        match r {
            Ok(path) => listed_path(*new, *entry, error) == Ok::<Seq<char>, StatusError>(path@),
            Err(e) => listed_path(*new, *entry, error) == Err::<Seq<char>, StatusError>(e),
        },
{
    match new {
        Some(path) => match path {
            Some(p) => Ok(p.clone()),
            None => Err(error),
        },
        None => match entry {
            Some(p) => Ok(p.clone()),
            None => Err(StatusError::EntryPath),
        },
    }
}

impl StatusEntry {
    /// What the entry adds to the staged files.
    pub open spec fn staged_item(self) -> Result<Option<StatusItemView>, StatusError> {
        match self.flags.staged() {
            None => Ok(None),
            Some(status) => match listed_path(
                self.staged_path,
                self.path,
                StatusError::StagedPath,
            ) {
                Ok(path) => Ok(Some(StatusItemView { path, status })),
                Err(e) => Err(e),
            },
        }
    }

    /// What the entry adds to the files of the working directory.
    pub open spec fn workdir_item(self) -> Result<Option<StatusItemView>, StatusError> {
        match self.flags.workdir() {
            None => Ok(None),
            Some(status) => match listed_path(
                self.workdir_path,
                self.path,
                StatusError::WorktreePath,
            ) {
                Ok(path) => Ok(Some(StatusItemView { path, status })),
                Err(e) => Err(e),
            },
        }
    }
}

pub open spec fn with_item(items: Seq<StatusItemView>, item: Option<StatusItemView>) -> Seq<
    StatusItemView,
> {
    match item {
        Some(i) => items.push(i),
        None => items,
    }
}

/// The staged files and those of the working directory among the first `n`
/// entries, or the first error.
pub open spec fn split_items(entries: Seq<StatusEntry>, n: int) -> Result<
    (Seq<StatusItemView>, Seq<StatusItemView>),
    StatusError,
>
    decreases n,
{
    if n <= 0 {
        Ok((Seq::empty(), Seq::empty()))
    } else {
        match split_items(entries, n - 1) {
            Err(e) => Err(e),
            Ok((staged, workdir)) => match entries[n - 1].staged_item() {
                Err(e) => Err(e),
                Ok(s) => match entries[n - 1].workdir_item() {
                    Err(e) => Err(e),
                    Ok(w) => Ok((with_item(staged, s), with_item(workdir, w))),
                },
            },
        }
    }
}

/// Once an entry fails, the scan has failed, whatever follows.
proof fn lemma_split_error(entries: Seq<StatusEntry>, i: int, n: int)
    requires
        i <= n,
        split_items(entries, i) is Err,
    ensures
        split_items(entries, n) == split_items(entries, i),
    decreases n - i,
{
    if i < n {
        lemma_split_error(entries, i, n - 1);
    }
}

/// Whether a repository has no files to scan: it is bare, and no worktree of
/// another one.
pub fn scans_nothing(bare: bool, worktree: bool) -> (r: bool)
    ensures
        r == (bare && !worktree),
{
    bare && !worktree
}

/// List staged files and files of the working directory from one scan of
/// both, each in the order of paths. Of a repository without files to scan both
/// lists are empty.
pub fn get_status_split(bare: bool, worktree: bool, entries: &Vec<StatusEntry>) -> (r: Result<
    (Vec<StatusItem>, Vec<StatusItem>),
    StatusError,
>)
    ensures
        if bare && !worktree {
            r matches Ok((staged, workdir)) && staged@.len() == 0 && workdir@.len() == 0
        } else {
            match r {
                Ok((staged, workdir)) => split_items(entries@, entries@.len() as int) is Ok
                    && lists(staged@, (split_items(entries@, entries@.len() as int)->Ok_0).0)
                    && lists(workdir@, (split_items(entries@, entries@.len() as int)->Ok_0).1),
                Err(e) => split_items(entries@, entries@.len() as int) == Err::<
                    (Seq<StatusItemView>, Seq<StatusItemView>),
                    StatusError,
                >(e),
            }
        },
{
    if scans_nothing(bare, worktree) {
        return Ok((Vec::new(), Vec::new()));
    }
    let mut staged: Vec<StatusItem> = Vec::new();
    let mut workdir: Vec<StatusItem> = Vec::new();
    assert(text::views(staged@) =~= Seq::empty());
    for i in 0..entries.len()
        invariant
            !(bare && !worktree),
            split_items(entries@, i as int) == Ok::<
                (Seq<StatusItemView>, Seq<StatusItemView>),
                StatusError,
            >((text::views(staged@), text::views(workdir@))),
    {
        let entry = &entries[i];
        match staged_status_type(entry.flags) {
            Some(status) => match path_to_list(
                &entry.staged_path,
                &entry.path,
                StatusError::StagedPath,
            ) {
                Ok(path) => {
                    let item = StatusItem { path, status };
                    proof {
                        text::lemma_views_push(staged@, item);
                    }
                    staged.push(item);
                },
                Err(e) => {
                    proof {
                        lemma_split_error(entries@, i + 1, entries@.len() as int);
                    }
                    return Err(e);
                },
            },
            None => {},
        }
        match workdir_status_type(entry.flags) {
            Some(status) => match path_to_list(
                &entry.workdir_path,
                &entry.path,
                StatusError::WorktreePath,
            ) {
                Ok(path) => {
                    let item = StatusItem { path, status };
                    proof {
                        text::lemma_views_push(workdir@, item);
                    }
                    workdir.push(item);
                },
                Err(e) => {
                    proof {
                        lemma_split_error(entries@, i + 1, entries@.len() as int);
                    }
                    return Err(e);
                },
            },
            None => {},
        }
    }
    let ghost s = staged@;
    let ghost w = workdir@;
    let staged = stable_sort(staged);
    let workdir = stable_sort(workdir);
    assert(sorting::is_stable_sort(s, staged@));
    assert(sorting::is_stable_sort(w, workdir@));
    Ok((staged, workdir))
}

/// A listing is sorted by path.
pub proof fn lemma_listings_are_sorted(
    out: Seq<StatusItem>,
    items: Seq<StatusItemView>,
    i: int,
    j: int,
)
    requires
        lists(out, items),
        0 <= i <= j < out.len(),
    ensures
        paths::path_order(out[i].path@, out[j].path@) <= 0,
        out.len() == items.len(),
{
    let found = choose|found: Seq<StatusItem>|
        text::views(found) == items && #[trigger] sorting::is_stable_sort(found, out);
    assert(out[i].before(out[j]));
    out.to_multiset_ensures();
    found.to_multiset_ensures();
}

proof fn lemma_listed_was_found(out: Seq<StatusItem>, items: Seq<StatusItemView>, i: int)
    requires
        lists(out, items),
        0 <= i < out.len(),
    ensures
        items.contains(out[i]@),
{
    broadcast use vstd::seq_lib::group_to_multiset_ensures;

    let found = choose|found: Seq<StatusItem>|
        text::views(found) == items && #[trigger] sorting::is_stable_sort(found, out);
    assert(out.contains(out[i]));
    assert(found.to_multiset().count(out[i]) > 0);
    let k = choose|k: int| 0 <= k < found.len() && found[k] == out[i];
    assert(items[k] == out[i]@);
}

proof fn lemma_split_statuses(entries: Seq<StatusEntry>, n: int)
    requires
        0 <= n <= entries.len(),
        split_items(entries, n) is Ok,
    ensures
        ({
            let (staged, workdir) = split_items(entries, n)->Ok_0;
            &&& forall|i: int|
                0 <= i < staged.len() ==> (#[trigger] staged[i]).status
                    != StatusItemType::Conflicted
            &&& (forall|k: int| 0 <= k < n ==> !(#[trigger] entries[k]).flags.wt_new) ==> forall|
                i: int,
            |
                0 <= i < workdir.len() ==> (#[trigger] workdir[i]).status != StatusItemType::New
        }),
    decreases n,
{
    if n > 0 {
        lemma_split_statuses(entries, n - 1);
    }
}

/// No staged file is in conflict.
pub proof fn lemma_nothing_staged_is_in_conflict(
    entries: Seq<StatusEntry>,
    staged: Seq<StatusItem>,
    i: int,
)
    requires
        split_items(entries, entries.len() as int) is Ok,
        lists(staged, (split_items(entries, entries.len() as int)->Ok_0).0),
        0 <= i < staged.len(),
    ensures
        staged[i].status != StatusItemType::Conflicted,
{
    lemma_split_statuses(entries, entries.len() as int);
    lemma_listed_was_found(staged, (split_items(entries, entries.len() as int)->Ok_0).0, i);
}

/// Where a scan reports no untracked file, none is listed as new in the working
/// directory.
pub proof fn lemma_untracked_files_are_reported(
    entries: Seq<StatusEntry>,
    workdir: Seq<StatusItem>,
    i: int,
)
    requires
        split_items(entries, entries.len() as int) is Ok,
        lists(workdir, (split_items(entries, entries.len() as int)->Ok_0).1),
        forall|k: int| 0 <= k < entries.len() ==> !(#[trigger] entries[k]).flags.wt_new,
        0 <= i < workdir.len(),
    ensures
        workdir[i].status != StatusItemType::New,
{
    lemma_split_statuses(entries, entries.len() as int);
    lemma_listed_was_found(workdir, (split_items(entries, entries.len() as int)->Ok_0).1, i);
}

/// Whether the working directory has no changes. A repository without one never
/// has; `changes` is the number of files that a scan lists.
pub fn is_workdir_clean(bare: bool, worktree: bool, changes: usize) -> (r: bool)
    ensures
        r == ((bare && !worktree) || changes == 0),
{
    scans_nothing(bare, worktree) || changes == 0
}

/// A file that is not in conflict is staged exactly if one of its flags for the
/// index is set, and if one alone is set, it is staged as what that flag names. The
/// same goes for the working directory and its flags.
pub proof fn lemma_flags_tell_what_happened(s: StatusFlags)
    requires
        !s.conflicted,
    ensures
        s.staged() is Some <==> s.index_new || s.index_modified || s.index_deleted
            || s.index_renamed || s.index_typechange,
        s.workdir() is Some <==> s.wt_new || s.wt_modified || s.wt_deleted || s.wt_renamed
            || s.wt_typechange,
        s.staged() matches Some(StatusItemType::New) ==> s.index_new,
        s.staged() matches Some(StatusItemType::Modified) ==> s.index_modified,
        s.staged() matches Some(StatusItemType::Deleted) ==> s.index_deleted,
        s.staged() matches Some(StatusItemType::Renamed) ==> s.index_renamed,
        s.staged() matches Some(StatusItemType::Typechange) ==> s.index_typechange,
        s.staged() != Some(StatusItemType::Conflicted),
        s.workdir() matches Some(StatusItemType::New) ==> s.wt_new,
        s.workdir() matches Some(StatusItemType::Modified) ==> s.wt_modified,
        s.workdir() matches Some(StatusItemType::Deleted) ==> s.wt_deleted,
        s.workdir() matches Some(StatusItemType::Renamed) ==> s.wt_renamed,
        s.workdir() matches Some(StatusItemType::Typechange) ==> s.wt_typechange,
        s.workdir() != Some(StatusItemType::Conflicted),
{
}

/// Of several changes of a file the greatest is told: that it is new, that it is
/// gone, that it has another name, that it is of another type, and only then that
/// its content changed.
pub proof fn lemma_the_greatest_change_is_told(s: StatusFlags)
    requires
        !s.conflicted,
    ensures
        s.index_new ==> s.staged() == Some(StatusItemType::New),
        s.staged() == Some(StatusItemType::Renamed) ==> !s.index_new && !s.index_deleted,
        s.staged() == Some(StatusItemType::Typechange) ==> !s.index_new && !s.index_deleted
            && !s.index_renamed,
        s.staged() == Some(StatusItemType::Deleted) ==> !s.index_new,
        s.staged() == Some(StatusItemType::Modified) ==> !s.index_new && !s.index_deleted
            && !s.index_renamed && !s.index_typechange,
        s.wt_new ==> s.workdir() == Some(StatusItemType::New),
        s.workdir() == Some(StatusItemType::Renamed) ==> !s.wt_new && !s.wt_deleted,
        s.workdir() == Some(StatusItemType::Typechange) ==> !s.wt_new && !s.wt_deleted
            && !s.wt_renamed,
        s.workdir() == Some(StatusItemType::Deleted) ==> !s.wt_new,
        s.workdir() == Some(StatusItemType::Modified) ==> !s.wt_new && !s.wt_deleted
            && !s.wt_renamed && !s.wt_typechange,
{
}

/// The index is read from the flags for the index alone, and the working directory
/// from its own.
pub proof fn lemma_index_and_working_directory_are_apart(a: StatusFlags, b: StatusFlags)
    requires
        a.conflicted == b.conflicted,
    ensures
        a.index_new == b.index_new && a.index_modified == b.index_modified && a.index_deleted
            == b.index_deleted && a.index_renamed == b.index_renamed && a.index_typechange
            == b.index_typechange ==> a.staged() == b.staged(),
        a.wt_new == b.wt_new && a.wt_modified == b.wt_modified && a.wt_deleted == b.wt_deleted
            && a.wt_renamed == b.wt_renamed && a.wt_typechange == b.wt_typechange ==> a.workdir()
            == b.workdir(),
{
}

/// What a scan says of a file is told as it is: a removed file as deleted, an added
/// or copied one as new, a conflict as a conflict, and so on.
pub proof fn lemma_scans_tell_what_happened()
    ensures
        StatusItemType::of_summary(WorktreeSummary::Removed) == StatusItemType::Deleted,
        StatusItemType::of_summary(WorktreeSummary::Added) == StatusItemType::New,
        StatusItemType::of_summary(WorktreeSummary::Copied) == StatusItemType::New,
        StatusItemType::of_summary(WorktreeSummary::IntentToAdd) == StatusItemType::New,
        StatusItemType::of_summary(WorktreeSummary::Modified) == StatusItemType::Modified,
        StatusItemType::of_summary(WorktreeSummary::TypeChange) == StatusItemType::Typechange,
        StatusItemType::of_summary(WorktreeSummary::Renamed) == StatusItemType::Renamed,
        StatusItemType::of_summary(WorktreeSummary::Conflict) == StatusItemType::Conflicted,
        StatusItemType::of_change(IndexChange::Addition) == StatusItemType::New,
        StatusItemType::of_change(IndexChange::Deletion) == StatusItemType::Deleted,
        StatusItemType::of_change(IndexChange::Modification) == StatusItemType::Modified,
        StatusItemType::of_change(IndexChange::Rewrite) == StatusItemType::Modified,
{
}

/// The path that an entry is listed with: the one behind a rename if there is one,
/// else its own.
spec fn told_path(new: Option<Option<String>>, own: Option<String>) -> Seq<char> {
    match new {
        Some(Some(path)) => path@,
        _ => own->0@,
    }
}

proof fn lemma_split_holds(entries: Seq<StatusEntry>, n: int, i: int)
    requires
        0 <= i < n <= entries.len(),
        split_items(entries, n) is Ok,
    ensures
        ({
            let (staged, workdir) = split_items(entries, n)->Ok_0;
            let e = entries[i];
            &&& e.flags.staged() is Some ==> staged.contains(
                StatusItemView {
                    path: told_path(e.staged_path, e.path),
                    status: e.flags.staged()->0,
                },
            )
            &&& e.flags.workdir() is Some ==> workdir.contains(
                StatusItemView {
                    path: told_path(e.workdir_path, e.path),
                    status: e.flags.workdir()->0,
                },
            )
        }),
    decreases n,
{
    let (staged, workdir) = split_items(entries, n)->Ok_0;
    let (staged_before, workdir_before) = split_items(entries, n - 1)->Ok_0;
    let e = entries[i];
    if i < n - 1 {
        lemma_split_holds(entries, n - 1, i);
        if e.flags.staged() is Some {
            let item = StatusItemView {
                path: told_path(e.staged_path, e.path),
                status: e.flags.staged()->0,
            };
            let k = choose|k: int| 0 <= k < staged_before.len() && staged_before[k] == item;
            assert(staged[k] == item);
        }
        if e.flags.workdir() is Some {
            let item = StatusItemView {
                path: told_path(e.workdir_path, e.path),
                status: e.flags.workdir()->0,
            };
            let k = choose|k: int| 0 <= k < workdir_before.len() && workdir_before[k] == item;
            assert(workdir[k] == item);
        }
    } else {
        if e.flags.staged() is Some {
            assert(staged[staged.len() - 1].status == e.flags.staged()->0);
        }
        if e.flags.workdir() is Some {
            assert(workdir[workdir.len() - 1].status == e.flags.workdir()->0);
        }
    }
}

proof fn lemma_found_is_listed(
    out: Seq<StatusItem>,
    items: Seq<StatusItemView>,
    item: StatusItemView,
)
    requires
        lists(out, items),
        items.contains(item),
    ensures
        exists|k: int| 0 <= k < out.len() && (#[trigger] out[k])@ == item,
{
    broadcast use vstd::seq_lib::group_to_multiset_ensures;

    let found = choose|found: Seq<StatusItem>|
        text::views(found) == items && #[trigger] sorting::is_stable_sort(found, out);
    let k = choose|k: int| 0 <= k < items.len() && items[k] == item;
    assert(found[k]@ == item);
    assert(found.contains(found[k]));
    assert(out.to_multiset().count(found[k]) > 0);
    let m = choose|m: int| 0 <= m < out.len() && out[m] == found[k];
    assert(out[m]@ == item);
}

/// Every entry that is staged, or changed in the working directory, is in the list
/// of those, with what happened to it and the path that it has now.
pub proof fn lemma_every_change_is_listed(
    entries: Seq<StatusEntry>,
    staged: Seq<StatusItem>,
    workdir: Seq<StatusItem>,
    i: int,
)
    requires
        split_items(entries, entries.len() as int) is Ok,
        lists(staged, (split_items(entries, entries.len() as int)->Ok_0).0),
        lists(workdir, (split_items(entries, entries.len() as int)->Ok_0).1),
        0 <= i < entries.len(),
    ensures
        entries[i].flags.staged() is Some ==> exists|k: int|
            0 <= k < staged.len() && (#[trigger] staged[k]).status == entries[i].flags.staged()->0
                && staged[k].path@ == match entries[i].staged_path {
                Some(Some(path)) => path@,
                _ => entries[i].path->0@,
            },
        entries[i].flags.workdir() is Some ==> exists|k: int|
            0 <= k < workdir.len() && (#[trigger] workdir[k]).status
                == entries[i].flags.workdir()->0 && workdir[k].path@ == match entries[i].workdir_path {
                Some(Some(path)) => path@,
                _ => entries[i].path->0@,
            },
{
    let n = entries.len() as int;
    let e = entries[i];
    lemma_split_holds(entries, n, i);
    if e.flags.staged() is Some {
        let item = StatusItemView {
            path: told_path(e.staged_path, e.path),
            status: e.flags.staged()->0,
        };
        lemma_found_is_listed(staged, (split_items(entries, n)->Ok_0).0, item);
        let k = choose|k: int| 0 <= k < staged.len() && (#[trigger] staged[k])@ == item;
        assert(staged[k].status == item.status && staged[k].path@ == item.path);
    }
    if e.flags.workdir() is Some {
        let item = StatusItemView {
            path: told_path(e.workdir_path, e.path),
            status: e.flags.workdir()->0,
        };
        lemma_found_is_listed(workdir, (split_items(entries, n)->Ok_0).1, item);
        let k = choose|k: int| 0 <= k < workdir.len() && (#[trigger] workdir[k])@ == item;
        assert(workdir[k].status == item.status && workdir[k].path@ == item.path);
    }
}

spec fn comes_from_staged(entries: Seq<StatusEntry>, n: int, item: StatusItemView) -> bool {
    exists|i: int|
        0 <= i < n && (#[trigger] entries[i]).flags.staged() == Some(item.status) && item.path
            == told_path(entries[i].staged_path, entries[i].path)
}

spec fn comes_from_workdir(entries: Seq<StatusEntry>, n: int, item: StatusItemView) -> bool {
    exists|i: int|
        0 <= i < n && (#[trigger] entries[i]).flags.workdir() == Some(item.status) && item.path
            == told_path(entries[i].workdir_path, entries[i].path)
}

proof fn lemma_split_comes(entries: Seq<StatusEntry>, n: int)
    requires
        0 <= n <= entries.len(),
        split_items(entries, n) is Ok,
    ensures
        ({
            let (staged, workdir) = split_items(entries, n)->Ok_0;
            &&& staged.len() <= n
            &&& workdir.len() <= n
            &&& forall|k: int|
                0 <= k < staged.len() ==> comes_from_staged(entries, n, #[trigger] staged[k])
            &&& forall|k: int|
                0 <= k < workdir.len() ==> comes_from_workdir(entries, n, #[trigger] workdir[k])
        }),
    decreases n,
{
    if n > 0 {
        lemma_split_comes(entries, n - 1);
        let (staged, workdir) = split_items(entries, n)->Ok_0;
        let (staged_before, workdir_before) = split_items(entries, n - 1)->Ok_0;
        assert forall|k: int| 0 <= k < staged.len() implies comes_from_staged(
            entries,
            n,
            #[trigger] staged[k],
        ) by {
            if k < staged_before.len() {
                assert(comes_from_staged(entries, n - 1, staged_before[k]));
                let i = choose|i: int|
                    0 <= i < n - 1 && (#[trigger] entries[i]).flags.staged() == Some(
                        staged[k].status,
                    ) && staged[k].path == told_path(entries[i].staged_path, entries[i].path);
                assert(entries[i].flags.staged() == Some(staged[k].status));
            } else {
                assert(entries[n - 1].flags.staged() == Some(staged[k].status));
            }
        }
        assert forall|k: int| 0 <= k < workdir.len() implies comes_from_workdir(
            entries,
            n,
            #[trigger] workdir[k],
        ) by {
            if k < workdir_before.len() {
                assert(comes_from_workdir(entries, n - 1, workdir_before[k]));
                let i = choose|i: int|
                    0 <= i < n - 1 && (#[trigger] entries[i]).flags.workdir() == Some(
                        workdir[k].status,
                    ) && workdir[k].path == told_path(entries[i].workdir_path, entries[i].path);
                assert(entries[i].flags.workdir() == Some(workdir[k].status));
            } else {
                assert(entries[n - 1].flags.workdir() == Some(workdir[k].status));
            }
        }
    }
}

/// Nothing is listed that is not an entry: each file in a list is the entry of a
/// change of that kind, and no list is longer than the scan.
pub proof fn lemma_nothing_else_is_listed(
    entries: Seq<StatusEntry>,
    staged: Seq<StatusItem>,
    workdir: Seq<StatusItem>,
    k: int,
)
    requires
        split_items(entries, entries.len() as int) is Ok,
        lists(staged, (split_items(entries, entries.len() as int)->Ok_0).0),
        lists(workdir, (split_items(entries, entries.len() as int)->Ok_0).1),
    ensures
        staged.len() <= entries.len(),
        workdir.len() <= entries.len(),
        0 <= k < staged.len() ==> exists|i: int|
            0 <= i < entries.len() && (#[trigger] entries[i]).flags.staged() == Some(
                staged[k].status,
            ),
        0 <= k < workdir.len() ==> exists|i: int|
            0 <= i < entries.len() && (#[trigger] entries[i]).flags.workdir() == Some(
                workdir[k].status,
            ),
{
    let n = entries.len() as int;
    let (s, w) = split_items(entries, n)->Ok_0;
    lemma_split_comes(entries, n);
    if staged.len() > 0 {
        lemma_listings_are_sorted(staged, s, 0, 0);
    }
    if workdir.len() > 0 {
        lemma_listings_are_sorted(workdir, w, 0, 0);
    }
    if 0 <= k < staged.len() {
        lemma_listed_was_found(staged, s, k);
        let m = choose|m: int| 0 <= m < s.len() && s[m] == staged[k]@;
        assert(comes_from_staged(entries, n, s[m]));
    }
    if 0 <= k < workdir.len() {
        lemma_listed_was_found(workdir, w, k);
        let m = choose|m: int| 0 <= m < w.len() && w[m] == workdir[k]@;
        assert(comes_from_workdir(entries, n, w[m]));
    }
}

proof fn lemma_scanned_holds(scan: Seq<Scanned>, n: int, i: int)
    requires
        0 <= i < n <= scan.len(),
        scanned_item(scan[i]) is Some,
    ensures
        scanned_items(scan, n).contains(scanned_item(scan[i])->0),
    decreases n,
{
    let item = scanned_item(scan[i])->0;
    let all = scanned_items(scan, n);
    if i < n - 1 {
        lemma_scanned_holds(scan, n - 1, i);
        let before = scanned_items(scan, n - 1);
        let k = choose|k: int| 0 <= k < before.len() && before[k] == item;
        assert(all[k] == item);
    } else {
        assert(all[all.len() - 1] == item);
    }
}

/// Every changed file that a scan reports is listed under its path with what
/// happened to it.
pub proof fn lemma_every_scanned_change_is_listed(
    scan: Seq<Scanned>,
    out: Seq<StatusItem>,
    i: int,
)
    requires
        lists(out, scanned_items(scan, scan.len() as int)),
        0 <= i < scan.len(),
    ensures
        scan[i] matches Scanned::Worktree(path, Some(summary)) ==> exists|k: int|
            0 <= k < out.len() && (#[trigger] out[k]).path@ == path@ && out[k].status
                == StatusItemType::of_summary(summary),
        scan[i] matches Scanned::Index(path, change) ==> exists|k: int|
            0 <= k < out.len() && (#[trigger] out[k]).path@ == path@ && out[k].status
                == StatusItemType::of_change(change),
{
    if scanned_item(scan[i]) is Some {
        let item = scanned_item(scan[i])->0;
        lemma_scanned_holds(scan, scan.len() as int, i);
        lemma_found_is_listed(out, scanned_items(scan, scan.len() as int), item);
        let k = choose|k: int| 0 <= k < out.len() && (#[trigger] out[k])@ == item;
        assert(out[k].path@ == item.path && out[k].status == item.status);
    }
}

/// The change that is told of a file did happen to it, in the index or in the
/// working directory; a conflict is told before a modification, and a change that
/// makes more of a difference before either.
pub proof fn lemma_the_told_change_happened(s: StatusFlags)
    ensures
        StatusItemType::of_flags(s) == StatusItemType::New <==> s.index_new || s.wt_new,
        StatusItemType::of_flags(s) == StatusItemType::Deleted ==> s.index_deleted
            || s.wt_deleted,
        StatusItemType::of_flags(s) == StatusItemType::Renamed ==> s.index_renamed
            || s.wt_renamed,
        StatusItemType::of_flags(s) == StatusItemType::Typechange ==> s.index_typechange
            || s.wt_typechange,
        StatusItemType::of_flags(s) == StatusItemType::Conflicted ==> s.conflicted,
        s.conflicted ==> StatusItemType::of_flags(s) != StatusItemType::Modified,
        s.index_deleted || s.wt_deleted ==> StatusItemType::of_flags(s) == StatusItemType::New
            || StatusItemType::of_flags(s) == StatusItemType::Deleted,
        s.index_renamed || s.wt_renamed ==> StatusItemType::of_flags(s)
            != StatusItemType::Typechange && StatusItemType::of_flags(s)
            != StatusItemType::Conflicted && StatusItemType::of_flags(s)
            != StatusItemType::Modified,
        s.index_typechange || s.wt_typechange ==> StatusItemType::of_flags(s)
            != StatusItemType::Conflicted && StatusItemType::of_flags(s)
            != StatusItemType::Modified,
{
}

/// Different changes between two trees are told as different ones, and each by
/// its own name.
pub proof fn lemma_tree_changes_are_told_apart(a: DeltaKind, b: DeltaKind)
    ensures
        a != b ==> StatusItemType::of_delta(a) != StatusItemType::of_delta(b),
        StatusItemType::of_delta(a) == StatusItemType::New <==> a == DeltaKind::Added,
        StatusItemType::of_delta(a) == StatusItemType::Deleted <==> a == DeltaKind::Deleted,
        StatusItemType::of_delta(a) == StatusItemType::Renamed <==> a == DeltaKind::Renamed,
        StatusItemType::of_delta(a) == StatusItemType::Typechange <==> a == DeltaKind::Typechange,
        StatusItemType::of_delta(a) != StatusItemType::Conflicted,
{
}

} // verus!
