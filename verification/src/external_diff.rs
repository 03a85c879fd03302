//! Comparisons in another program: which contents it gets, and how it is
//! started.
use crate::asyncgit::diff::DiffType;
use crate::asyncgit::sync::{CommitId, OldNew};
use crate::options::ExternalDiffCommand;
use crate::paths;
use crate::text;
use vstd::prelude::*;
use vstd::string::*;

verus! {

// -------------------------------------------------------------- comparison

/// A tree that is compared.
#[derive(Clone, Copy, Debug, PartialEq, Eq, Structural)]
pub enum TreeRef {
    /// no tree: everything is new
    Nothing,
    Head,
    Commit(CommitId),
    FirstParent(CommitId),
}

/// What is compared with what.
#[derive(Clone, Copy, Debug, PartialEq, Eq, Structural)]
pub enum Comparison {
    IndexToWorkdir,
    TreeToIndex(TreeRef),
    TreeToTree(TreeRef, TreeRef),
}

/// What a diff compares. `born` tells whether there is a commit at the head, and
/// `parents` how many parents the commit has whose diff it is.
pub open spec fn compared(kind: DiffType, born: bool, parents: int) -> Comparison {
    match kind {
        DiffType::WorkDir => Comparison::IndexToWorkdir,
        DiffType::Stage => Comparison::TreeToIndex(
            if born {
                TreeRef::Head
            } else {
                TreeRef::Nothing
            },
        ),
        DiffType::Commit(id) => Comparison::TreeToTree(
            if parents == 0 {
                TreeRef::Nothing
            } else {
                TreeRef::FirstParent(id)
            },
            TreeRef::Commit(id),
        ),
        DiffType::Commits(ids) => Comparison::TreeToTree(
            TreeRef::Commit(ids.old),
            TreeRef::Commit(ids.new),
        ),
    }
}

/// What a diff compares.
pub fn repository_diff(kind: DiffType, born: bool, parents: usize) -> (r: Comparison)
    ensures
        r == compared(kind, born, parents as int),
{
    match kind {
        DiffType::WorkDir => Comparison::IndexToWorkdir,
        DiffType::Stage => Comparison::TreeToIndex(
            if born {
                TreeRef::Head
            } else {
                TreeRef::Nothing
            },
        ),
        DiffType::Commit(id) => Comparison::TreeToTree(
            if parents == 0 {
                TreeRef::Nothing
            } else {
                TreeRef::FirstParent(id)
            },
            TreeRef::Commit(id),
        ),
        DiffType::Commits(ids) => Comparison::TreeToTree(
            TreeRef::Commit(ids.old),
            TreeRef::Commit(ids.new),
        ),
    }
}

// --------------------------------------------------------------- snapshots

/// What happened to a file.
#[derive(Clone, Copy, Debug, PartialEq, Eq, Structural)]
pub enum DeltaStatus {
    Conflicted,
    Deleted,
    /// anything else
    Other,
}

/// A file that differs. A missing id stands for no contents.
#[derive(Debug)]
pub struct FileDelta {
    pub old_path: Option<String>,
    pub new_path: Option<String>,
    pub old_id: Option<CommitId>,
    pub new_id: Option<CommitId>,
    pub status: DeltaStatus,
}

/// Where contents come from.
#[derive(Debug, PartialEq, Eq)]
pub enum Content {
    Empty,
    Blob(CommitId),
    /// a file of the working directory; of a link, its target
    File(String),
}

/// Why there is nothing to compare.
#[derive(Clone, Copy, Debug, PartialEq, Eq, Structural)]
pub enum SnapshotError {
    NoDifference,
    Conflict,
    NoWorkingDirectory,
    NoFilePath,
    NoFileName,
    NoBlob,
}

impl SnapshotError {
    pub open spec fn text(self) -> Seq<char> {
        match self {
            SnapshotError::NoDifference => "The selected file no longer has a difference"@,
            SnapshotError::Conflict =>
                "Resolve the file's index conflict before opening a two-way external diff"@,
            SnapshotError::NoWorkingDirectory => "Repository has no working directory"@,
            SnapshotError::NoFilePath => "Missing file path"@,
            SnapshotError::NoFileName => "Missing file name"@,
            SnapshotError::NoBlob => "External diff requires a regular file or symlink"@,
        }
    }

    /// What the user is told.
    pub fn message(&self) -> (r: &'static str)
        ensures
            r@ == self.text(),
    {
        match self {
            SnapshotError::NoDifference => "The selected file no longer has a difference",
            SnapshotError::Conflict =>
                "Resolve the file's index conflict before opening a two-way external diff",
            SnapshotError::NoWorkingDirectory => "Repository has no working directory",
            SnapshotError::NoFilePath => "Missing file path",
            SnapshotError::NoFileName => "Missing file name",
            SnapshotError::NoBlob => "External diff requires a regular file or symlink",
        }
    }
}

/// What is compared, in the order in which it is looked up.
#[derive(Debug)]
pub struct SnapshotPlan {
    pub left: Content,
    pub right: Result<Content, SnapshotError>,
    pub file_name: Result<String, SnapshotError>,
}

pub open spec fn is_path(have: Option<String>, path: Seq<char>) -> bool {
    have matches Some(p) && paths::parts(p@) == paths::parts(path)
}

/// Whether a difference is that of a file, under its old name or its new one.
pub open spec fn concerns(delta: FileDelta, path: Seq<char>) -> bool {
    is_path(delta.new_path, path) || is_path(delta.old_path, path)
}

/// The first difference of a file, from the `i`-th on.
pub open spec fn first_delta(deltas: Seq<FileDelta>, path: Seq<char>, i: int) -> int
    decreases deltas.len() - i,
{
    if i < 0 || i >= deltas.len() || concerns(deltas[i], path) {
        i
    } else {
        first_delta(deltas, path, i + 1)
    }
}

fn is_same_path(have: &Option<String>, path: &str) -> (r: bool)
    ensures
        r == is_path(*have, path@),
{
    match have {
        Some(p) => paths::same_path(p.as_str(), path),
        None => false,
    }
}

pub open spec fn blob(id: Option<CommitId>) -> Content {
    match id {
        Some(id) => Content::Blob(id),
        None => Content::Empty,
    }
}

fn blob_content(id: Option<CommitId>) -> (r: Content)
    ensures
        r == blob(id),
{
    match id {
        Some(id) => Content::Blob(id),
        None => Content::Empty,
    }
}

/// Whether the new contents are those of the working directory.
pub open spec fn from_workdir(kind: DiffType, delta: FileDelta) -> bool {
    kind is WorkDir && delta.status != DeltaStatus::Deleted
}

pub open spec fn is_right(
    right: Result<Content, SnapshotError>,
    kind: DiffType,
    delta: FileDelta,
    workdir: Option<Seq<char>>,
) -> bool {
    if !from_workdir(kind, delta) {
        right == Ok::<Content, SnapshotError>(blob(delta.new_id))
    } else if workdir is None {
        right == Err::<Content, SnapshotError>(SnapshotError::NoWorkingDirectory)
    } else {
        match delta.new_path {
            Some(path) => right matches Ok(Content::File(file)) && file@ == paths::joined_path(
                workdir->0,
                path@,
            ),
            None => right == Err::<Content, SnapshotError>(SnapshotError::NoFilePath),
        }
    }
}

/// What is compared for a file: its old contents, and its new ones, which an
/// uncommitted change has in the working directory.
pub fn snapshots(
    path: &str,
    kind: DiffType,
    deltas: &Vec<FileDelta>,
    workdir: Option<&str>,
) -> (r: Result<SnapshotPlan, SnapshotError>)
    ensures
        ({
            let i = first_delta(deltas@, path@, 0);
            if i >= deltas@.len() {
                r == Err::<SnapshotPlan, SnapshotError>(SnapshotError::NoDifference)
            } else if deltas@[i].status == DeltaStatus::Conflicted {
                r == Err::<SnapshotPlan, SnapshotError>(SnapshotError::Conflict)
            } else {
                &&& r matches Ok(plan)
                &&& plan.left == blob(deltas@[i].old_id)
                &&& is_right(
                    plan.right,
                    kind,
                    deltas@[i],
                    match workdir {
                        Some(dir) => Some(dir@),
                        None => None,
                    },
                )
                &&& match paths::name_of(path@) {
                    Some(name) => plan.file_name matches Ok(n) && n@ == name,
                    None => plan.file_name == Err::<String, SnapshotError>(
                        SnapshotError::NoFileName,
                    ),
                }
            }
        }),
{
    let mut i: usize = 0;
    let n: usize = deltas.len();
    while i < n && !is_same_path(&deltas[i].new_path, path) && !is_same_path(
        &deltas[i].old_path,
        path,
    )
        invariant
            n == deltas@.len(),
            i <= n,
            first_delta(deltas@, path@, i as int) == first_delta(deltas@, path@, 0),
        decreases n - i,
    {
        i += 1;
    }
    if i >= n {
        return Err(SnapshotError::NoDifference);
    }
    let delta = &deltas[i];
    if delta.status == DeltaStatus::Conflicted {
        return Err(SnapshotError::Conflict);
    }
    let in_workdir = match kind {
        DiffType::WorkDir => delta.status != DeltaStatus::Deleted,
        _ => false,
    };
    let right = if !in_workdir {
        Ok(blob_content(delta.new_id))
    } else {
        match workdir {
            None => Err(SnapshotError::NoWorkingDirectory),
            Some(dir) => match &delta.new_path {
                Some(file) => Ok(Content::File(paths::join_path(dir, file.as_str()))),
                None => Err(SnapshotError::NoFilePath),
            },
        }
    };
    Ok(
        SnapshotPlan {
            left: blob_content(delta.old_id),
            right,
            file_name: match paths::file_name(path) {
                Some(name) => Ok(name),
                None => Err(SnapshotError::NoFileName),
            },
        },
    )
}

/// Where the snapshots of a file go: in folders of their own, under the file's
/// name, so that a viewer can tell its kind.
pub fn snapshot_paths(dir: &str, name: &str) -> (r: (String, String))
    ensures
        r.0@ == paths::joined_path(paths::joined_path(dir@, "left"@), name@),
        r.1@ == paths::joined_path(paths::joined_path(dir@, "right"@), name@),
{
    let left = paths::join_path(dir, "left");
    let right = paths::join_path(dir, "right");
    (paths::join_path(left.as_str(), name), paths::join_path(right.as_str(), name))
}

// --------------------------------------------------------------- arguments

/// An argument of a viewer. A placeholder alone stands for a path as it is, even
/// if that is no text.
#[derive(Debug, PartialEq, Eq)]
pub enum Argument {
    Left,
    Right,
    Text(String),
}

/// What an [`Argument`] holds.
pub enum ArgumentView {
    Left,
    Right,
    Text(Seq<char>),
}

impl View for Argument {
    type V = ArgumentView;

    open spec fn view(&self) -> ArgumentView {
        match self {
            Argument::Left => ArgumentView::Left,
            Argument::Right => ArgumentView::Right,
            Argument::Text(s) => ArgumentView::Text(s@),
        }
    }
}

/// An argument with the paths of the snapshots in place of the placeholders.
pub open spec fn argument(arg: Seq<char>, left: Seq<char>, right: Seq<char>) -> ArgumentView {
    if arg == "{left}"@ {
        ArgumentView::Left
    } else if arg == "{right}"@ {
        ArgumentView::Right
    } else {
        ArgumentView::Text(
            text::replaced(
                text::replaced(arg, "{left}"@, left, 0),
                "{right}"@,
                right,
                0,
            ),
        )
    }
}

/// The arguments of a viewer.
pub fn arguments(config: &ExternalDiffCommand, left: &str, right: &str) -> (r: Vec<Argument>)
    ensures
        text::views(r@) == Seq::new(
            config.args@.len(),
            |i: int| argument(config.args@[i]@, left@, right@),
        ),
{
    proof {
        reveal_strlit("{left}");
        reveal_strlit("{right}");
    }
    let mut out: Vec<Argument> = Vec::new();
    for i in 0..config.args.len()
        invariant
            out@.len() == i,
            "{left}"@.len() == 6,
            "{right}"@.len() == 7,
            forall|j: int|
                0 <= j < i ==> (#[trigger] out@[j])@ == argument(
                    config.args@[j]@,
                    left@,
                    right@,
                ),
    {
        let arg = config.args[i].as_str();
        if text::same(arg, "{left}") {
            out.push(Argument::Left);
        } else if text::same(arg, "{right}") {
            out.push(Argument::Right);
        } else {
            let half = text::replace(arg, "{left}", left);
            out.push(Argument::Text(text::replace(half.as_str(), "{right}", right)));
        }
    }
    assert(text::views(out@) =~= Seq::new(
        config.args@.len(),
        |i: int| argument(config.args@[i]@, left@, right@),
    ));
    out
}

// --------------------------------------------------------------- processes

/// What is done with the terminal around a viewer that runs in it.
#[derive(Clone, Copy, Debug, PartialEq, Eq, Structural)]
pub enum TerminalStep {
    DisableRawMode,
    LeaveAlternateScreen,
    EnterAlternateScreen,
    EnableRawMode,
}

pub open spec fn before_viewer(raw: bool) -> Seq<TerminalStep> {
    if raw {
        seq![TerminalStep::DisableRawMode, TerminalStep::LeaveAlternateScreen]
    } else {
        seq![TerminalStep::LeaveAlternateScreen]
    }
}

pub open spec fn after_viewer(raw: bool) -> Seq<TerminalStep> {
    if raw {
        seq![TerminalStep::EnterAlternateScreen, TerminalStep::EnableRawMode]
    } else {
        seq![TerminalStep::EnterAlternateScreen]
    }
}

/// How the terminal is handed over to a viewer.
pub fn hand_over(raw: bool) -> (r: Vec<TerminalStep>)
    ensures
        r@ == before_viewer(raw),
{
    let mut out: Vec<TerminalStep> = Vec::new();
    if raw {
        out.push(TerminalStep::DisableRawMode);
    }
    out.push(TerminalStep::LeaveAlternateScreen);
    assert(out@ =~= before_viewer(raw));
    out
}

/// How the terminal is taken back, also if the viewer could not be started.
pub fn take_back(raw: bool) -> (r: Vec<TerminalStep>)
    ensures
        r@ == after_viewer(raw),
{
    let mut out: Vec<TerminalStep> = Vec::new();
    out.push(TerminalStep::EnterAlternateScreen);
    if raw {
        out.push(TerminalStep::EnableRawMode);
    }
    assert(out@ =~= after_viewer(raw));
    out
}

/// What undoes a step.
pub open spec fn undoes(a: TerminalStep, b: TerminalStep) -> bool {
    match a {
        TerminalStep::DisableRawMode => b == TerminalStep::EnableRawMode,
        TerminalStep::LeaveAlternateScreen => b == TerminalStep::EnterAlternateScreen,
        _ => false,
    }
}

/// Every step that hands the terminal over is undone, the last one first.
pub proof fn lemma_the_terminal_is_restored(raw: bool)
    ensures
        before_viewer(raw).len() == after_viewer(raw).len(),
        forall|i: int|
            0 <= i < before_viewer(raw).len() ==> undoes(
                #[trigger] before_viewer(raw)[i],
                after_viewer(raw)[before_viewer(raw).len() - 1 - i],
            ),
{
}

/// How a viewer ended.
#[derive(Clone, Copy, Debug, PartialEq, Eq, Structural)]
pub enum ViewerExit {
    /// it was not started
    NotStarted,
    Success,
    Failure,
    /// it may still run
    Unknown,
}

/// Whether the snapshots of a viewer that runs in the background are removed.
/// They stay if it may still use them.
pub fn removes_snapshots(exit: ViewerExit) -> (r: bool)
    ensures
        r == (exit != ViewerExit::Unknown),
{
    match exit {
        ViewerExit::Unknown => false,
        _ => true,
    }
}

/// What the user is told if there is no such viewer.
pub fn missing_tool(command: &str) -> (r: String)
    ensures
        r@ == "Could not find external diff tool '"@ + command@ + "'"@,
{
    text::join3("Could not find external diff tool '", command, "'")
}

/// What the user is told if a viewer could not be started in the terminal.
pub fn launch_failed(command: &str) -> (r: String)
    ensures
        r@ == "Could not launch external diff tool '"@ + command@ + "'"@,
{
    text::join3("Could not launch external diff tool '", command, "'")
}

/// What the user is told if a viewer in the terminal failed. `status` is how it
/// ended.
pub fn exit_message(command: &str, status: &str) -> (r: String)
    ensures
        r@ == "External diff tool '"@ + command@ + "' exited with "@ + status@,
{
    let start = text::join3("External diff tool '", command, "' exited with ");
    text::join2(start.as_str(), status)
}

/// What is compared: the older state on the left and the newer one on the right. The
/// working directory is compared with the index, the index with the last commit, and
/// a commit with its first parent; where there is nothing older, with nothing.
pub proof fn lemma_the_older_state_is_on_the_left(id: CommitId, ids: OldNew, born: bool, parents: int)
    requires
        parents >= 0,
    ensures
        compared(DiffType::WorkDir, born, parents) == Comparison::IndexToWorkdir,
        compared(DiffType::Stage, true, parents) == Comparison::TreeToIndex(TreeRef::Head),
        compared(DiffType::Stage, false, parents) == Comparison::TreeToIndex(TreeRef::Nothing),
        parents > 0 ==> compared(DiffType::Commit(id), born, parents) == Comparison::TreeToTree(
            TreeRef::FirstParent(id),
            TreeRef::Commit(id),
        ),
        compared(DiffType::Commit(id), born, 0) == Comparison::TreeToTree(
            TreeRef::Nothing,
            TreeRef::Commit(id),
        ),
        compared(DiffType::Commits(ids), born, parents) == Comparison::TreeToTree(
            TreeRef::Commit(ids.old),
            TreeRef::Commit(ids.new),
        ),
{
}

/// The first difference that concerns a file is taken, by its new or its old path.
pub proof fn lemma_the_difference_of_the_file_is_taken(
    deltas: Seq<FileDelta>,
    path: Seq<char>,
    i: int,
    k: int,
)
    requires
        0 <= i <= deltas.len(),
    ensures
        ({
            let at = first_delta(deltas, path, i);
            &&& i <= at <= deltas.len()
            &&& at < deltas.len() ==> concerns(deltas[at], path)
            &&& i <= k < at ==> !concerns(deltas[k], path)
        }),
    decreases deltas.len() - i,
{
    if i < deltas.len() && !concerns(deltas[i], path) {
        lemma_the_difference_of_the_file_is_taken(deltas, path, i + 1, k);
    }
}

/// A file of either side is found under that side's path.
pub proof fn lemma_both_paths_count(delta: FileDelta, path: String)
    ensures
        delta.new_path == Some(path) ==> concerns(delta, path@),
        delta.old_path == Some(path) ==> concerns(delta, path@),
        delta.new_path is None && delta.old_path is None ==> !concerns(delta, path@),
{
}

/// The right side of the working directory is the file itself, unless it is gone;
/// otherwise it is what git has stored.
pub proof fn lemma_the_right_side(
    right: Result<Content, SnapshotError>,
    kind: DiffType,
    delta: FileDelta,
    dir: Seq<char>,
)
    requires
        is_right(right, kind, delta, Some(dir)),
    ensures
        (kind is WorkDir && delta.status != DeltaStatus::Deleted && delta.new_path is Some) ==> (
        right matches Ok(Content::File(file)) && file@ == paths::joined_path(
            dir,
            delta.new_path->0@,
        )),
        (!(kind is WorkDir) || delta.status == DeltaStatus::Deleted) && delta.new_id is Some
            ==> right == Ok::<Content, SnapshotError>(Content::Blob(delta.new_id->0)),
        (!(kind is WorkDir) || delta.status == DeltaStatus::Deleted) && delta.new_id is None
            ==> right == Ok::<Content, SnapshotError>(Content::Empty),
{
}

/// The places for the files are filled by those files, and an argument without a
/// place stays what it is.
pub proof fn lemma_places_are_filled(arg: Seq<char>, left: Seq<char>, right: Seq<char>)
    ensures
        argument("{left}"@, left, right) == ArgumentView::Left,
        argument("{right}"@, left, right) == ArgumentView::Right,
        (forall|i: int| 0 <= i < arg.len() ==> #[trigger] arg[i] != '{') ==> argument(
            arg,
            left,
            right,
        ) == ArgumentView::Text(arg),
{
    reveal_strlit("{left}");
    reveal_strlit("{right}");
    assert("{left}"@.len() == 6 && "{right}"@.len() == 7);
    let (l, r) = ("{left}"@, "{right}"@);
    assert(l[0] == '{' && r[0] == '{');
    if forall|i: int| 0 <= i < arg.len() ==> #[trigger] arg[i] != '{' {
        assert(arg != l && arg != r);
        assert forall|k: int| 0 <= k && k + l.len() <= arg.len() implies #[trigger] arg.subrange(
            k,
            k + l.len(),
        ) != l by {
            assert(arg.subrange(k, k + l.len())[0] == arg[k]);
        }
        assert forall|k: int| 0 <= k && k + r.len() <= arg.len() implies #[trigger] arg.subrange(
            k,
            k + r.len(),
        ) != r by {
            assert(arg.subrange(k, k + r.len())[0] == arg[k]);
        }
        text::lemma_nothing_to_replace(arg, l, left, 0);
        assert(arg.skip(0) =~= arg);
        text::lemma_nothing_to_replace(arg, r, right, 0);
    }
}

} // verus!
