//! The panel with the files of a commit and a preview of the selected one.
use crate::asyncgit::sync::tree::TreeFile;
use crate::asyncgit::sync::CommitId;
use crate::components::statustree::MoveSelection;
use crate::components::utils::scroll_vertical::VerticalScroll;
use crate::components::{
    visibility_blocking, Command, CommandBlocking, CommandInfo, CommandOrder, EventState, Key,
    KeyPress,
};
use crate::paths::{self, compare_paths};
use crate::text;
use crate::unicode;
use vstd::prelude::*;
use vstd::string::*;

verus! {

/// The part of the panel that has the focus.
#[derive(Clone, Copy, Debug, PartialEq, Eq, Structural)]
pub enum Focus {
    Tree,
    File,
}

/// How far the files of the commit are known.
#[derive(Debug, PartialEq, Eq)]
pub enum TreeLoadState {
    Loading,
    Ready,
    Failed(String),
    NoCommits,
}

/// What a [`TreeLoadState`] holds.
pub enum TreeLoadStateView {
    Loading,
    Ready,
    Failed(Seq<char>),
    NoCommits,
}

impl View for TreeLoadState {
    type V = TreeLoadStateView;

    open spec fn view(&self) -> TreeLoadStateView {
        match self {
            TreeLoadState::Loading => TreeLoadStateView::Loading,
            TreeLoadState::Ready => TreeLoadStateView::Ready,
            TreeLoadState::Failed(message) => TreeLoadStateView::Failed(message@),
            TreeLoadState::NoCommits => TreeLoadStateView::NoCommits,
        }
    }
}

/// A commit as the panel names it.
#[derive(Debug, PartialEq, Eq)]
pub struct CommitInfo {
    pub id: CommitId,
    pub message: String,
}

/// The panel with the files of a commit and a preview of the selected one.
#[derive(Debug)]
pub struct RevisionFilesComponent {
    pub files: Option<Vec<TreeFile>>,
    pub load_state: TreeLoadState,
    pub scroll: VerticalScroll,
    pub visible: bool,
    pub revision: Option<CommitInfo>,
    pub requested_commit: Option<CommitId>,
    pub focus: Focus,
    /// the file to select once files are there
    pub select_file: Option<String>,
    /// whether the popup that offers paths for copying is open
    pub copy_popup: bool,
}

/// The selected row of the tree. Paths in a tree start with `./`.
#[derive(Debug)]
pub struct TreeSelection {
    pub full_path: String,
    pub is_file: bool,
}

/// What has to be done outside.
#[derive(Debug)]
pub enum RevisionAction {
    /// have the files of a commit listed
    RequestFiles(CommitId),
    ClearTree,
    ClearPreview,
    /// build the tree of the files, collapsed but for its root
    BuildTree,
    /// collapse the tree and select a file in it
    FindFile(String),
    /// preview a file: its path, and its place among the files
    LoadFile(String, usize),
    /// list a folder of the working directory in the preview
    ListDirectory(String),
    BlameFile(String, Option<CommitId>),
    FileHistory(String),
    /// look for a file among the files
    OpenFinder,
    OpenEditor(String),
    /// offer a path for copying, and the content of a file among the files
    CopyPath(String, Option<usize>),
    FocusPreview(bool),
    /// search in the preview
    StartSearch,
    /// let the preview see the event
    PassToPreview,
    /// let the popup for copying see the event
    PassToPopup,
}

/// What a [`RevisionAction`] holds.
pub enum RevisionActionView {
    RequestFiles(CommitId),
    ClearTree,
    ClearPreview,
    BuildTree,
    FindFile(Seq<char>),
    LoadFile(Seq<char>, usize),
    ListDirectory(Seq<char>),
    BlameFile(Seq<char>, Option<CommitId>),
    FileHistory(Seq<char>),
    OpenFinder,
    OpenEditor(Seq<char>),
    CopyPath(Seq<char>, Option<usize>),
    FocusPreview(bool),
    StartSearch,
    PassToPreview,
    PassToPopup,
}

impl View for RevisionAction {
    type V = RevisionActionView;

    open spec fn view(&self) -> RevisionActionView {
        match self {
            RevisionAction::RequestFiles(id) => RevisionActionView::RequestFiles(*id),
            RevisionAction::ClearTree => RevisionActionView::ClearTree,
            RevisionAction::ClearPreview => RevisionActionView::ClearPreview,
            RevisionAction::BuildTree => RevisionActionView::BuildTree,
            RevisionAction::FindFile(path) => RevisionActionView::FindFile(path@),
            RevisionAction::LoadFile(path, i) => RevisionActionView::LoadFile(path@, *i),
            RevisionAction::ListDirectory(path) => RevisionActionView::ListDirectory(path@),
            RevisionAction::BlameFile(path, id) => RevisionActionView::BlameFile(path@, *id),
            RevisionAction::FileHistory(path) => RevisionActionView::FileHistory(path@),
            RevisionAction::OpenFinder => RevisionActionView::OpenFinder,
            RevisionAction::OpenEditor(path) => RevisionActionView::OpenEditor(path@),
            RevisionAction::CopyPath(path, i) => RevisionActionView::CopyPath(path@, *i),
            RevisionAction::FocusPreview(focus) => RevisionActionView::FocusPreview(*focus),
            RevisionAction::StartSearch => RevisionActionView::StartSearch,
            RevisionAction::PassToPreview => RevisionActionView::PassToPreview,
            RevisionAction::PassToPopup => RevisionActionView::PassToPopup,
        }
    }
}

/// Whether a path starts with `./`.
pub open spec fn is_rooted(path: Seq<char>) -> bool {
    path.len() >= 2 && path[0] == '.' && path[1] == '/'
}

/// A path without the `./` at its start; nothing if it has none.
pub open spec fn relative(path: Seq<char>) -> Seq<char> {
    if is_rooted(path) {
        path.skip(2)
    } else {
        Seq::empty()
    }
}

fn relative_path(path: &str) -> (r: Option<String>)
    ensures
        match r {
            Some(s) => is_rooted(path@) && s@ == path@.skip(2),
            None => !is_rooted(path@),
        },
{
    let chars = text::chars_of(path);
    if chars.len() >= 2 && chars[0] == '.' && chars[1] == '/' {
        let r = text::string_of_range(&chars, 2, chars.len());
        assert(r@ =~= path@.skip(2));
        Some(r)
    } else {
        None
    }
}

fn relative_or_empty(path: &str) -> (r: String)
    ensures
        r@ == relative(path@),
{
    match relative_path(path) {
        Some(s) => s,
        None => String::new(),
    }
}

/// The first of the files, from `i` on, whose path is the given one.
pub open spec fn position_of(files: Seq<TreeFile>, path: Seq<char>, i: int) -> Option<int>
    decreases files.len() - i,
{
    if i < 0 || i >= files.len() {
        None
    } else if paths::parts(files[i].path@) == paths::parts(path) {
        Some(i)
    } else {
        position_of(files, path, i + 1)
    }
}

fn same_path(a: &str, b: &str) -> (r: bool)
    ensures
        r == (paths::parts(a@) == paths::parts(b@)),
{
    let r: i8 = compare_paths(a, b);
    proof {
        paths::lemma_path_order(a@, b@, a@);
        if paths::parts(a@) == paths::parts(b@) {
            paths::lemma_path_order(a@, a@, a@);
        }
    }
    r == 0
}

fn find_position(files: &Vec<TreeFile>, path: &str) -> (r: Option<usize>)
    ensures
        match r {
            Some(i) => position_of(files@, path@, 0) == Some(i as int) && i < files@.len(),
            None => position_of(files@, path@, 0) is None,
        },
{
    let mut i: usize = 0;
    while i < files.len()
        invariant
            i <= files@.len(),
            position_of(files@, path@, i as int) == position_of(files@, path@, 0),
        decreases files@.len() - i,
    {
        if same_path(files[i].path.as_str(), path) {
            return Some(i);
        }
        i += 1;
    }
    None
}

/// A row of the tree, as it is drawn.
#[derive(Debug)]
pub struct TreeRow {
    pub path: String,
    pub indent: u8,
    pub is_path: bool,
    pub collapsed: bool,
}

/// A row as it is drawn: indented, with a sign before a folder, and filled up
/// to the width.
pub open spec fn drawn_row(row: TreeRow, width: int) -> Seq<char> {
    let indent = Seq::new((row.indent * 2) as nat, |i: int| ' ');
    if row.is_path {
        indent + seq![
            if row.collapsed {
                '\u{25b8}'
            } else {
                '\u{25be}'
            },
        ] + text::left_aligned(row.path@, width - indent.len() - 3)
    } else {
        indent + text::left_aligned(row.path@, width - indent.len())
    }
}

/// A row as it is drawn. The sign before a folder is counted by its three
/// bytes.
pub fn tree_item_to_text(row: &TreeRow, width: usize) -> (r: String)
    ensures
        r@ == drawn_row(*row, width as int),
{
    let indent: usize = row.indent as usize * 2;
    let mut out = text::repeat_char(' ', indent);
    let mut available: usize = width.saturating_sub(indent);
    if row.is_path {
        if row.collapsed {
            out.push('\u{25b8}');
        } else {
            out.push('\u{25be}');
        }
        available = available.saturating_sub(3);
    }
    out.append(text::align_left(row.path.as_str(), available).as_str());
    assert(out@ =~= drawn_row(*row, width as int));
    out
}

/// What a key press asks of the tree.
#[derive(Clone, Copy, Debug, PartialEq, Eq, Structural)]
pub enum TreeNav {
    Move(MoveSelection),
    CollapseRecursive,
    ExpandRecursive,
}

/// What a key press asks of the tree; `common` is the move that it stands for
/// in every list.
pub fn tree_nav(common: Option<MoveSelection>, press: &KeyPress) -> (r: Option<TreeNav>)
    ensures
        r == match common {
            Some(how) => Some(TreeNav::Move(how)),
            None => if press.has(Key::TreeCollapseRecursive) {
                Some(TreeNav::CollapseRecursive)
            } else if press.has(Key::TreeExpandRecursive) {
                Some(TreeNav::ExpandRecursive)
            } else {
                None
            },
        },
{
    match common {
        Some(how) => Some(TreeNav::Move(how)),
        None => if press.is(Key::TreeCollapseRecursive) {
            Some(TreeNav::CollapseRecursive)
        } else if press.is(Key::TreeExpandRecursive) {
            Some(TreeNav::ExpandRecursive)
        } else {
            None
        },
    }
}

/// What a key press asks of the panel.
#[derive(Clone, Copy, Debug, PartialEq, Eq, Structural)]
pub enum RevisionIntent {
    /// it is for the popup above the panel
    Popup,
    Ignore,
    Retry,
    SelectionChanged,
    Blame,
    History,
    FocusFile,
    FocusTree,
    Find,
    Edit,
    CopyPath,
    Pass,
}

pub open spec fn failed(prefix: Seq<char>, error: Seq<char>) -> TreeLoadStateView {
    TreeLoadStateView::Failed(prefix + error)
}

impl RevisionFilesComponent {
    /// A hidden panel that waits for files.
    pub fn new(select_file: Option<String>) -> (r: RevisionFilesComponent)
        ensures
            r.files is None,
            r.load_state == TreeLoadState::Loading,
            r.scroll == VerticalScroll::at_start(),
            !r.visible,
            r.revision is None,
            r.requested_commit is None,
            r.focus == Focus::Tree,
            r.select_file == select_file,
            !r.copy_popup,
    {
        RevisionFilesComponent {
            files: None,
            load_state: TreeLoadState::Loading,
            scroll: VerticalScroll::new(),
            visible: false,
            revision: None,
            requested_commit: None,
            focus: Focus::Tree,
            select_file,
            copy_popup: false,
        }
    }

    // -------------------------------------------------------------- loading

    /// The panel after the files of its commit were listed; the file to select
    /// is selected once.
    pub open spec fn applied(self, result: Result<Vec<TreeFile>, String>) -> RevisionFilesComponent {
        match result {
            Ok(files) => RevisionFilesComponent {
                files: Some(files),
                load_state: TreeLoadState::Ready,
                select_file: None,
                ..self
            },
            Err(_) => RevisionFilesComponent { files: None, ..self },
        }
    }

    pub open spec fn applied_state(self, result: Result<Vec<TreeFile>, String>) -> TreeLoadStateView {
        match result {
            Ok(_) => TreeLoadStateView::Ready,
            Err(error) => failed("Unable to load files: "@, error@),
        }
    }

    pub open spec fn applied_actions(self, result: Result<Vec<TreeFile>, String>) -> Seq<
        RevisionActionView,
    > {
        match result {
            Ok(_) => match self.select_file {
                Some(path) => seq![
                    RevisionActionView::BuildTree,
                    RevisionActionView::FindFile(path@),
                ],
                None => seq![RevisionActionView::BuildTree],
            },
            Err(_) => seq![RevisionActionView::ClearTree, RevisionActionView::ClearPreview],
        }
    }

    /// Take in the files of the commit, or why they could not be listed or put
    /// into a tree.
    pub fn apply_tree_result(&mut self, result: Result<Vec<TreeFile>, String>) -> (r: Vec<
        RevisionAction,
    >)
        ensures
            *final(self) == (RevisionFilesComponent {
                load_state: final(self).load_state,
                ..old(self).applied(result)
            }),
            final(self).load_state@ == old(self).applied_state(result),
            text::views(r@) == old(self).applied_actions(result),
    {
        let mut out: Vec<RevisionAction> = Vec::new();
        match result {
            Ok(files) => {
                self.files = Some(files);
                self.load_state = TreeLoadState::Ready;
                out.push(RevisionAction::BuildTree);
                match self.select_file.take() {
                    Some(path) => out.push(RevisionAction::FindFile(path)),
                    None => {},
                }
            },
            Err(error) => {
                self.files = None;
                out.push(RevisionAction::ClearTree);
                out.push(RevisionAction::ClearPreview);
                self.load_state = TreeLoadState::Failed(
                    text::join2("Unable to load files: ", error.as_str()),
                );
            },
        }
        assert(text::views(out@) =~= old(self).applied_actions(result));
        out
    }

    /// Whether a listing is the one that the panel waits for.
    pub open spec fn awaits(self, done: Option<(CommitId, Result<Vec<TreeFile>, String>)>) -> bool {
        done matches Some((commit, _)) && self.revision matches Some(revision) && revision.id
            == commit
    }

    pub open spec fn refreshed(
        self,
        done: Option<(CommitId, Result<Vec<TreeFile>, String>)>,
    ) -> RevisionFilesComponent {
        if self.awaits(done) {
            self.applied((done->0).1)
        } else {
            self
        }
    }

    pub open spec fn refreshed_state(
        self,
        done: Option<(CommitId, Result<Vec<TreeFile>, String>)>,
    ) -> TreeLoadStateView {
        if self.awaits(done) {
            self.applied_state((done->0).1)
        } else {
            self.load_state@
        }
    }

    pub open spec fn refreshed_actions(
        self,
        done: Option<(CommitId, Result<Vec<TreeFile>, String>)>,
    ) -> Seq<RevisionActionView> {
        if self.awaits(done) {
            self.applied_actions((done->0).1)
        } else if done is Some && self.revision is Some {
            seq![RevisionActionView::RequestFiles((self.revision->0).id)]
        } else {
            Seq::empty()
        }
    }

    /// Take in a listing, if one was finished: one of another commit leads to
    /// another request.
    pub fn refresh_files(&mut self, done: Option<(CommitId, Result<Vec<TreeFile>, String>)>) -> (r:
        Vec<RevisionAction>)
        ensures
            *final(self) == (RevisionFilesComponent {
                load_state: final(self).load_state,
                ..old(self).refreshed(done)
            }),
            final(self).load_state@ == old(self).refreshed_state(done),
            text::views(r@) == old(self).refreshed_actions(done),
    {
        let mut out: Vec<RevisionAction> = Vec::new();
        match done {
            Some((commit, result)) => {
                let current: Option<CommitId> = match &self.revision {
                    Some(revision) => Some(revision.id),
                    None => None,
                };
                match current {
                    Some(id) => {
                        if id == commit {
                            return self.apply_tree_result(result);
                        }
                        out.push(RevisionAction::RequestFiles(id));
                    },
                    None => {},
                }
            },
            None => {},
        }
        assert(text::views(out@) =~= old(self).refreshed_actions(done));
        out
    }

    /// Show the panel.
    pub fn show(&mut self, done: Option<(CommitId, Result<Vec<TreeFile>, String>)>) -> (r: Vec<
        RevisionAction,
    >)
        ensures
            *final(self) == (RevisionFilesComponent {
                load_state: final(self).load_state,
                visible: true,
                ..old(self).refreshed(done)
            }),
            final(self).load_state@ == old(self).refreshed_state(done),
            text::views(r@) == old(self).refreshed_actions(done),
    {
        self.visible = true;
        self.refresh_files(done)
    }

    pub open spec fn shows_commit(self, commit: CommitId) -> bool {
        self.revision matches Some(revision) && revision.id == commit
    }

    /// Whether a panel is this one, set to the files of a commit.
    pub open spec fn set_to(
        self,
        commit: CommitId,
        info: Result<CommitInfo, String>,
        done: Option<(CommitId, Result<Vec<TreeFile>, String>)>,
        after: RevisionFilesComponent,
        actions: Seq<RevisionActionView>,
    ) -> bool {
        let shown = RevisionFilesComponent { visible: true, ..self.refreshed(done) };
        if self.shows_commit(commit) {
            &&& after == (RevisionFilesComponent { load_state: after.load_state, ..shown })
            &&& after.load_state@ == self.refreshed_state(done)
            &&& actions == self.refreshed_actions(done)
        } else {
            &&& after == (RevisionFilesComponent {
                load_state: after.load_state,
                files: None,
                revision: match info {
                    Ok(info) => Some(info),
                    Err(_) => None,
                },
                requested_commit: Some(commit),
                ..shown
            })
            &&& after.load_state@ == match info {
                Ok(_) => TreeLoadStateView::Loading,
                Err(error) => failed("Unable to read commit: "@, error@),
            }
            &&& actions == self.refreshed_actions(done) + seq![
                RevisionActionView::ClearTree,
                RevisionActionView::ClearPreview,
            ] + if info is Ok {
                seq![RevisionActionView::RequestFiles(commit)]
            } else {
                Seq::empty()
            }
        }
    }

    /// Show the files of a commit. `info` is the commit itself, or why it could
    /// not be read, and `done` a listing that was finished meanwhile.
    pub fn set_commit(
        &mut self,
        commit: CommitId,
        info: Result<CommitInfo, String>,
        done: Option<(CommitId, Result<Vec<TreeFile>, String>)>,
    ) -> (r: Vec<RevisionAction>)
        ensures
            old(self).set_to(commit, info, done, *final(self), text::views(r@)),
    {
        let mut out = self.show(done);
        let ghost first = text::views(out@);
        let same_id = match &self.revision {
            Some(revision) => revision.id == commit,
            None => false,
        };
        if !same_id {
            self.files = None;
            out.push(RevisionAction::ClearTree);
            out.push(RevisionAction::ClearPreview);
            self.revision = None;
            self.requested_commit = Some(commit);
            match info {
                Ok(revision) => {
                    self.load_state = TreeLoadState::Loading;
                    self.revision = Some(revision);
                    out.push(RevisionAction::RequestFiles(commit));
                },
                Err(error) => {
                    self.load_state = TreeLoadState::Failed(
                        text::join2("Unable to read commit: ", error.as_str()),
                    );
                },
            }
            assert(text::views(out@) =~= first + seq![
                RevisionActionView::ClearTree,
                RevisionActionView::ClearPreview,
            ] + if info is Ok {
                seq![RevisionActionView::RequestFiles(commit)]
            } else {
                Seq::empty()
            });
        }
        out
    }

    fn forget(&mut self) -> (r: Vec<RevisionAction>)
        ensures
            *final(self) == (RevisionFilesComponent {
                revision: None,
                requested_commit: None,
                files: None,
                ..*old(self)
            }),
            text::views(r@) == seq![
                RevisionActionView::ClearTree,
                RevisionActionView::ClearPreview,
            ],
    {
        self.revision = None;
        self.requested_commit = None;
        self.files = None;
        let mut out: Vec<RevisionAction> = Vec::new();
        out.push(RevisionAction::ClearTree);
        out.push(RevisionAction::ClearPreview);
        assert(text::views(out@) =~= seq![
            RevisionActionView::ClearTree,
            RevisionActionView::ClearPreview,
        ]);
        out
    }

    /// Show that the repository has no commits.
    pub fn set_no_commits(&mut self) -> (r: Vec<RevisionAction>)
        ensures
            *final(self) == (RevisionFilesComponent {
                revision: None,
                requested_commit: None,
                files: None,
                load_state: TreeLoadState::NoCommits,
                ..*old(self)
            }),
            text::views(r@) == seq![
                RevisionActionView::ClearTree,
                RevisionActionView::ClearPreview,
            ],
    {
        self.load_state = TreeLoadState::NoCommits;
        self.forget()
    }

    /// Show why the current commit could not be found.
    pub fn set_head_error(&mut self, error: &str) -> (r: Vec<RevisionAction>)
        ensures
            *final(self) == (RevisionFilesComponent {
                revision: None,
                requested_commit: None,
                files: None,
                load_state: final(self).load_state,
                ..*old(self)
            }),
            final(self).load_state@ == failed("Unable to read HEAD: "@, error@),
            text::views(r@) == seq![
                RevisionActionView::ClearTree,
                RevisionActionView::ClearPreview,
            ],
    {
        self.load_state = TreeLoadState::Failed(text::join2("Unable to read HEAD: ", error));
        self.forget()
    }

    pub open spec fn retries(self) -> bool {
        self.load_state is Failed || self.load_state is NoCommits
    }

    /// Whether the files can be asked for again.
    pub fn can_retry(&self) -> (r: bool)
        ensures
            r == self.retries(),
    {
        match self.load_state {
            TreeLoadState::Failed(_) => true,
            TreeLoadState::NoCommits => true,
            _ => false,
        }
    }

    /// The commit that a retry reads again, since it could not be read before.
    pub fn retry_commit(&self) -> (r: Option<CommitId>)
        ensures
            r == if self.revision is Some {
                None
            } else {
                self.requested_commit
            },
    {
        match &self.revision {
            Some(_) => None,
            None => self.requested_commit,
        }
    }

    /// Ask for the files of the commit again, if the commit itself is known.
    pub fn retry_files(&mut self) -> (r: Option<RevisionAction>)
        ensures
            match old(self).revision {
                Some(revision) => {
                    &&& *final(self) == (RevisionFilesComponent {
                        load_state: TreeLoadState::Loading,
                        ..*old(self)
                    })
                    &&& r matches Some(action) && action@ == RevisionActionView::RequestFiles(
                        revision.id,
                    )
                },
                None => *final(self) == *old(self) && r is None,
            },
    {
        match &self.revision {
            Some(revision) => {
                let id = revision.id;
                self.load_state = TreeLoadState::Loading;
                Some(RevisionAction::RequestFiles(id))
            },
            None => None,
        }
    }

    /// The commit whose files are shown.
    pub fn revision(&self) -> (r: Option<&CommitInfo>)
        ensures
            match r {
                Some(info) => self.revision == Some(*info),
                None => self.revision is None,
            },
    {
        self.revision.as_ref()
    }

    // -------------------------------------------------------------- selection

    /// What the preview shows of a selected row: a file, or a list of the files
    /// in a folder.
    pub open spec fn preview(self, selected: Option<TreeSelection>) -> Seq<RevisionActionView> {
        match selected {
            Some(row) => if row.is_file {
                match self.files {
                    Some(files) => match position_of(files@, row.full_path@, 0) {
                        Some(i) => if is_rooted(row.full_path@) {
                            seq![
                                RevisionActionView::LoadFile(
                                    row.full_path@.skip(2),
                                    i as usize,
                                ),
                            ]
                        } else {
                            seq![RevisionActionView::ClearPreview]
                        },
                        None => seq![RevisionActionView::ClearPreview],
                    },
                    None => Seq::empty(),
                }
            } else {
                seq![RevisionActionView::ListDirectory(relative(row.full_path@))]
            },
            None => seq![RevisionActionView::ClearPreview],
        }
    }

    /// Let the preview follow the selected row.
    pub fn selection_changed(&self, selected: &Option<TreeSelection>) -> (r: Vec<RevisionAction>)
        ensures
            text::views(r@) == self.preview(*selected),
    {
        let mut out: Vec<RevisionAction> = Vec::new();
        match selected {
            Some(row) => {
                if row.is_file {
                    match &self.files {
                        Some(files) => {
                            let found = find_position(files, row.full_path.as_str());
                            match (found, relative_path(row.full_path.as_str())) {
                                (Some(i), Some(path)) => out.push(
                                    RevisionAction::LoadFile(path, i),
                                ),
                                _ => out.push(RevisionAction::ClearPreview),
                            }
                        },
                        None => {},
                    }
                } else {
                    out.push(
                        RevisionAction::ListDirectory(
                            relative_or_empty(row.full_path.as_str()),
                        ),
                    );
                }
            },
            None => out.push(RevisionAction::ClearPreview),
        }
        assert(text::views(out@) =~= self.preview(*selected));
        out
    }

    // -------------------------------------------------------------- drawing

    /// The panel after its tree was drawn in a height, borders included, with
    /// the given row selected of those that show.
    pub fn draw_tree(&mut self, selection: Option<(usize, usize)>, height: u16) -> (rows: usize)
        ensures
            rows == if height >= 2 {
                height - 2
            } else {
                0
            },
            *final(self) == (RevisionFilesComponent {
                scroll: match selection {
                    Some((index, count)) => old(self).scroll.fitted(index, count, rows),
                    None => old(self).scroll.to_top(),
                },
                ..*old(self)
            }),
    {
        let rows: usize = height.saturating_sub(2) as usize;
        match selection {
            Some((index, count)) => {
                self.scroll.update(index, count, rows);
            },
            None => self.scroll.reset(),
        }
        rows
    }

    /// What stands in place of the tree if there are no files.
    pub open spec fn notice(self, loading: Seq<char>, retry_hint: Seq<char>) -> Option<Seq<char>> {
        if self.files matches Some(files) && files@.len() > 0 {
            None
        } else {
            Some(
                match self.load_state@ {
                    TreeLoadStateView::Loading => loading,
                    TreeLoadStateView::Ready => "This commit has no files."@,
                    TreeLoadStateView::NoCommits => "No commits yet. Press "@ + retry_hint
                        + " to retry."@,
                    TreeLoadStateView::Failed(error) => error + ". Press "@ + retry_hint
                        + " to retry."@,
                },
            )
        }
    }

    /// What stands in place of the tree if there are no files.
    pub fn list_message(&self, loading: &str, retry_hint: &str) -> (r: Option<String>)
        ensures
            match r {
                Some(s) => self.notice(loading@, retry_hint@) == Some(s@),
                None => self.notice(loading@, retry_hint@) is None,
            },
    {
        let has_files = match &self.files {
            Some(files) => files.len() > 0,
            None => false,
        };
        if has_files {
            return None;
        }
        Some(
            match &self.load_state {
                TreeLoadState::Loading => loading.to_owned(),
                TreeLoadState::Ready => "This commit has no files.".to_owned(),
                TreeLoadState::NoCommits => text::join3(
                    "No commits yet. Press ",
                    retry_hint,
                    " to retry.",
                ),
                TreeLoadState::Failed(error) => {
                    let start = text::join2(error.as_str(), ". Press ");
                    text::join3(start.as_str(), retry_hint, " to retry.")
                },
            },
        )
    }

    /// What the title has room for of a message, after a start that takes up
    /// `used` columns.
    pub open spec fn title_room(width: int, used: int) -> int {
        if width - used >= 5 {
            width - used - 5
        } else {
            0
        }
    }

    /// The title above the tree: the commit and the first line of its message,
    /// which is cut where it does not fit.
    pub open spec fn title(self, width: int) -> Seq<char> {
        match self.revision {
            None => "Files at"@,
            Some(revision) => {
                let start = "Files at"@ + " {"@ + revision.id.hex().take(7) + "}"@;
                let lines = text::lines_of(revision.message@);
                if lines.len() == 0 {
                    start
                } else {
                    let message = lines[0];
                    let room = Self::title_room(width, unicode::str_width(start) as int);
                    if unicode::str_width(message) <= room {
                        start + " ["@ + message + "]"@
                    } else if room > 1 {
                        start + " ["@ + unicode::truncated(message, room - 1) + "\u{2026}]"@
                    } else {
                        start + seq!['\u{2026}']
                    }
                }
            },
        }
    }

    /// The title above the tree, in a given width.
    pub fn title_within(&self, tree_width: usize) -> (r: String)
        ensures
            r@ == self.title(tree_width as int),
    {
        let mut title = "Files at".to_owned();
        match &self.revision {
            None => {},
            Some(revision) => {
                title.append(" {");
                title.append(revision.id.get_short_string().as_str());
                title.append("}");
                let lines = text::lines(revision.message.as_str());
                let ghost all = text::lines_of(revision.message@);
                assert(text::views(lines@) == all);
                if lines.len() > 0 {
                    let message = lines[0].as_str();
                    assert(message@ == all[0]);
                    let room: usize = tree_width.saturating_sub(
                        unicode::display_width(title.as_str()),
                    ).saturating_sub(5);
                    if unicode::display_width(message) <= room {
                        title.append(" [");
                        title.append(message);
                        title.append("]");
                    } else if room > 1 {
                        title.append(" [");
                        title.append(unicode::truncate(message, room - 1).as_str());
                        title.append("\u{2026}]");
                    } else {
                        title.push('\u{2026}');
                    }
                }
            },
        }
        assert(title@ =~= self.title(tree_width as int));
        title
    }

    // -------------------------------------------------------------- commands

    /// The commands that the panel offers. `has_search` tells whether the
    /// preview shows matches of a search.
    pub open spec fn command_list(
        self,
        selected: Option<TreeSelection>,
        tree_empty: bool,
        has_search: bool,
        force_all: bool,
    ) -> Seq<CommandInfo> {
        let on_file = selected matches Some(row) && row.is_file;
        if !self.visible && !force_all {
            Seq::empty()
        } else {
            (if self.retries() {
                seq![CommandInfo::of(Command::RetryFileTree, true, true)]
            } else {
                Seq::empty()
            }) + if self.focus == Focus::Tree || force_all {
                seq![
                    CommandInfo::of(Command::BlameFile, on_file, true).placed(
                        CommandOrder::Navigation,
                    ),
                    CommandInfo::of(Command::EditItem, on_file, true),
                    CommandInfo::of(Command::OpenFileHistory, selected is Some, true).placed(
                        CommandOrder::Rare,
                    ),
                    CommandInfo::of(Command::CopyPath, on_file, true).placed(CommandOrder::Rare),
                    CommandInfo::of(Command::NavigateTree, !tree_empty, true).placed(
                        CommandOrder::Navigation,
                    ),
                ]
            } else {
                seq![
                    CommandInfo::of(Command::PreviewReturn, true, true).placed(
                        CommandOrder::Navigation,
                    ),
                ] + if has_search {
                    seq![
                        CommandInfo::of(Command::SearchPrev, true, true).placed(
                            CommandOrder::Navigation,
                        ),
                        CommandInfo::of(Command::SearchNext, true, true).placed(
                            CommandOrder::Navigation,
                        ),
                    ]
                } else {
                    Seq::empty()
                }
            }
        }
    }

    /// Add the commands that the panel offers. The open popup
    /// adds its own, and then nobody else does.
    pub fn commands(
        &self,
        out: &mut Vec<CommandInfo>,
        selected: &Option<TreeSelection>,
        tree_empty: bool,
        has_search: bool,
        force_all: bool,
    ) -> (r: CommandBlocking)
        ensures
            final(out)@ == old(out)@ + self.command_list(
                *selected,
                tree_empty,
                has_search,
                force_all,
            ),
            r == if self.copy_popup && (self.visible || force_all) {
                CommandBlocking::Blocking
            } else {
                CommandBlocking::PassingOn
            },
    {
        if !self.visible && !force_all {
            assert(out@ =~= old(out)@ + self.command_list(
                *selected,
                tree_empty,
                has_search,
                force_all,
            ));
            return CommandBlocking::PassingOn;
        }
        let on_file = match selected {
            Some(row) => row.is_file,
            None => false,
        };
        if self.can_retry() {
            out.push(CommandInfo::new(Command::RetryFileTree, true, true));
        }
        if self.focus == Focus::Tree || force_all {
            out.push(
                CommandInfo::new(Command::BlameFile, on_file, true).order(
                    CommandOrder::Navigation,
                ),
            );
            out.push(CommandInfo::new(Command::EditItem, on_file, true));
            out.push(
                CommandInfo::new(Command::OpenFileHistory, selected.is_some(), true).order(
                    CommandOrder::Rare,
                ),
            );
            out.push(CommandInfo::new(Command::CopyPath, on_file, true).order(CommandOrder::Rare));
            out.push(
                CommandInfo::new(Command::NavigateTree, !tree_empty, true).order(
                    CommandOrder::Navigation,
                ),
            );
        } else {
            out.push(
                CommandInfo::new(Command::PreviewReturn, true, true).order(
                    CommandOrder::Navigation,
                ),
            );
            if has_search {
                out.push(
                    CommandInfo::new(Command::SearchPrev, true, true).order(
                        CommandOrder::Navigation,
                    ),
                );
                out.push(
                    CommandInfo::new(Command::SearchNext, true, true).order(
                        CommandOrder::Navigation,
                    ),
                );
            }
        }
        assert(out@ =~= old(out)@ + self.command_list(
            *selected,
            tree_empty,
            has_search,
            force_all,
        ));
        visibility_blocking(self.copy_popup)
    }

    // -------------------------------------------------------------- keys

    /// Note whether the popup that offers paths for copying is open.
    pub fn set_copy_popup(&mut self, open: bool)
        ensures
            *final(self) == (RevisionFilesComponent { copy_popup: open, ..*old(self) }),
    {
        self.copy_popup = open;
    }

    /// What a key press asks of the panel. The open popup gets all of them.
    /// `tree_moved` tells whether the tree used it up.
    pub open spec fn intent(self, press: KeyPress, tree_moved: bool) -> RevisionIntent {
        let on_tree = self.focus == Focus::Tree;
        if self.copy_popup {
            RevisionIntent::Popup
        } else if !self.visible {
            RevisionIntent::Ignore
        } else if self.retries() && press.has(Key::Enter) {
            RevisionIntent::Retry
        } else if on_tree && tree_moved {
            RevisionIntent::SelectionChanged
        } else if press.has(Key::Blame) {
            RevisionIntent::Blame
        } else if press.has(Key::FileHistory) {
            RevisionIntent::History
        } else if press.has(Key::MoveRight) {
            if on_tree {
                RevisionIntent::FocusFile
            } else {
                RevisionIntent::Ignore
            }
        } else if press.has(Key::MoveLeft) {
            if on_tree {
                RevisionIntent::Ignore
            } else {
                RevisionIntent::FocusTree
            }
        } else if press.has(Key::FileFind) {
            RevisionIntent::Find
        } else if press.has(Key::EditFile) {
            RevisionIntent::Edit
        } else if press.has(Key::Copy) || press.has(Key::CopyPath) {
            RevisionIntent::CopyPath
        } else if !on_tree {
            RevisionIntent::Pass
        } else {
            RevisionIntent::Ignore
        }
    }

    /// Whether the tree gets to see a key press.
    pub fn asks_tree(&self, press: &KeyPress) -> (r: bool)
        ensures
            r == (!self.copy_popup && self.visible && self.focus == Focus::Tree && !(self.retries()
                && press.has(Key::Enter))),
    {
        !self.copy_popup && self.visible && self.focus == Focus::Tree && !(self.can_retry() && press.is(Key::Enter))
    }

    fn key_intent(&self, press: &KeyPress, tree_moved: bool) -> (r: RevisionIntent)
        ensures
            r == self.intent(*press, tree_moved),
    {
        let on_tree = self.focus == Focus::Tree;
        if self.copy_popup {
            RevisionIntent::Popup
        } else if !self.visible {
            RevisionIntent::Ignore
        } else if self.can_retry() && press.is(Key::Enter) {
            RevisionIntent::Retry
        } else if on_tree && tree_moved {
            RevisionIntent::SelectionChanged
        } else if press.is(Key::Blame) {
            RevisionIntent::Blame
        } else if press.is(Key::FileHistory) {
            RevisionIntent::History
        } else if press.is(Key::MoveRight) {
            if on_tree {
                RevisionIntent::FocusFile
            } else {
                RevisionIntent::Ignore
            }
        } else if press.is(Key::MoveLeft) {
            if on_tree {
                RevisionIntent::Ignore
            } else {
                RevisionIntent::FocusTree
            }
        } else if press.is(Key::FileFind) {
            RevisionIntent::Find
        } else if press.is(Key::EditFile) {
            RevisionIntent::Edit
        } else if press.is(Key::Copy) || press.is(Key::CopyPath) {
            RevisionIntent::CopyPath
        } else if !on_tree {
            RevisionIntent::Pass
        } else {
            RevisionIntent::Ignore
        }
    }

    /// Where the selected file stands among the files.
    pub open spec fn selected_position(self, selected: Option<TreeSelection>) -> Option<usize> {
        match (selected, self.files) {
            (Some(row), Some(files)) => if row.is_file {
                match position_of(files@, row.full_path@, 0) {
                    Some(i) => Some(i as usize),
                    None => None,
                }
            } else {
                None
            },
            _ => None,
        }
    }

    fn find_selected(&self, selected: &Option<TreeSelection>) -> (r: Option<usize>)
        ensures
            r == self.selected_position(*selected),
    {
        match (selected, &self.files) {
            (Some(row), Some(files)) => if row.is_file {
                find_position(files, row.full_path.as_str())
            } else {
                None
            },
            _ => None,
        }
    }

    /// What a key press with the given intent leads to outside.
    pub open spec fn actions(
        self,
        intent: RevisionIntent,
        selected: Option<TreeSelection>,
    ) -> Seq<RevisionActionView> {
        let file = match selected {
            Some(row) => if row.is_file {
                Some(row.full_path@)
            } else {
                None
            },
            None => None,
        };
        match intent {
            RevisionIntent::Ignore => Seq::empty(),
            RevisionIntent::Popup => seq![RevisionActionView::PassToPopup],
            RevisionIntent::Retry => match self.revision {
                Some(revision) => seq![RevisionActionView::RequestFiles(revision.id)],
                None => Seq::empty(),
            },
            RevisionIntent::SelectionChanged => self.preview(selected),
            RevisionIntent::Blame => match file {
                Some(path) => seq![
                    RevisionActionView::BlameFile(
                        relative(path),
                        match self.revision {
                            Some(revision) => Some(revision.id),
                            None => None,
                        },
                    ),
                ],
                None => Seq::empty(),
            },
            RevisionIntent::History => match file {
                Some(path) => seq![RevisionActionView::FileHistory(relative(path))],
                None => Seq::empty(),
            },
            RevisionIntent::FocusFile => seq![RevisionActionView::FocusPreview(true)],
            RevisionIntent::FocusTree => seq![RevisionActionView::FocusPreview(false)],
            RevisionIntent::Find => if self.focus == Focus::File {
                seq![RevisionActionView::StartSearch]
            } else if self.files is Some {
                seq![RevisionActionView::OpenFinder]
            } else {
                Seq::empty()
            },
            RevisionIntent::Edit => match file {
                Some(path) => seq![RevisionActionView::OpenEditor(path)],
                None => Seq::empty(),
            },
            RevisionIntent::CopyPath => match selected {
                Some(row) => seq![
                    RevisionActionView::CopyPath(
                        relative(row.full_path@),
                        self.selected_position(selected),
                    ),
                ],
                None => Seq::empty(),
            },
            RevisionIntent::Pass => seq![RevisionActionView::PassToPreview],
        }
    }

    /// The panel after a key press with the given intent.
    pub open spec fn after(
        self,
        intent: RevisionIntent,
        selected: Option<TreeSelection>,
    ) -> RevisionFilesComponent {
        let on_file = selected matches Some(row) && row.is_file;
        match intent {
            RevisionIntent::Retry => if self.revision is Some {
                RevisionFilesComponent { load_state: TreeLoadState::Loading, ..self }
            } else {
                self
            },
            RevisionIntent::Blame | RevisionIntent::History => RevisionFilesComponent {
                visible: self.visible && !on_file,
                ..self
            },
            RevisionIntent::FocusFile => RevisionFilesComponent { focus: Focus::File, ..self },
            RevisionIntent::FocusTree => RevisionFilesComponent { focus: Focus::Tree, ..self },
            _ => self,
        }
    }

    /// Whether a key press with the given intent is used up.
    pub open spec fn uses(self, intent: RevisionIntent, selected: Option<TreeSelection>) -> EventState {
        EventState::of(
            match intent {
                RevisionIntent::Ignore | RevisionIntent::Pass => false,
                RevisionIntent::Blame | RevisionIntent::History | RevisionIntent::Edit => selected
                    matches Some(row) && row.is_file,
                _ => true,
            },
        )
    }

    /// React to a key press that the tree has seen already. A retry of a commit
    /// that could not be read has to be followed by `set_commit`; what is
    /// passed to the preview is used up if the preview uses it up.
    pub fn event(
        &mut self,
        press: &KeyPress,
        tree_moved: bool,
        selected: &Option<TreeSelection>,
    ) -> (r: (EventState, Vec<RevisionAction>))
        ensures
            ({
                let intent = old(self).intent(*press, tree_moved);
                &&& *final(self) == old(self).after(intent, *selected)
                &&& text::views(r.1@) == old(self).actions(intent, *selected)
                &&& r.0 == old(self).uses(intent, *selected)
            }),
    {
        let mut out: Vec<RevisionAction> = Vec::new();
        let intent = self.key_intent(press, tree_moved);
        let ghost wanted = self.actions(intent, *selected);
        let on_file = match selected {
            Some(row) => row.is_file,
            None => false,
        };
        let mut used = true;
        match intent {
            RevisionIntent::Ignore => {
                used = false;
            },
            RevisionIntent::Popup => {
                out.push(RevisionAction::PassToPopup);
            },
            RevisionIntent::Retry => match self.retry_files() {
                Some(action) => out.push(action),
                None => {},
            },
            RevisionIntent::SelectionChanged => {
                out = self.selection_changed(selected);
            },
            RevisionIntent::Blame => {
                used = on_file;
                match selected {
                    Some(row) => {
                        if row.is_file {
                            let id: Option<CommitId> = match &self.revision {
                                Some(revision) => Some(revision.id),
                                None => None,
                            };
                            out.push(
                                RevisionAction::BlameFile(
                                    relative_or_empty(row.full_path.as_str()),
                                    id,
                                ),
                            );
                            self.visible = false;
                        }
                    },
                    None => {},
                }
            },
            RevisionIntent::History => {
                used = on_file;
                match selected {
                    Some(row) => {
                        if row.is_file {
                            out.push(
                                RevisionAction::FileHistory(
                                    relative_or_empty(row.full_path.as_str()),
                                ),
                            );
                            self.visible = false;
                        }
                    },
                    None => {},
                }
            },
            RevisionIntent::FocusFile => {
                self.focus = Focus::File;
                out.push(RevisionAction::FocusPreview(true));
            },
            RevisionIntent::FocusTree => {
                self.focus = Focus::Tree;
                out.push(RevisionAction::FocusPreview(false));
            },
            RevisionIntent::Find => {
                if self.focus == Focus::File {
                    out.push(RevisionAction::StartSearch);
                } else if self.files.is_some() {
                    out.push(RevisionAction::OpenFinder);
                }
            },
            RevisionIntent::Edit => {
                used = on_file;
                match selected {
                    Some(row) => {
                        if row.is_file {
                            out.push(RevisionAction::OpenEditor(row.full_path.clone()));
                        }
                    },
                    None => {},
                }
            },
            RevisionIntent::CopyPath => {
                let position = self.find_selected(selected);
                match selected {
                    Some(row) => out.push(
                        RevisionAction::CopyPath(
                            relative_or_empty(row.full_path.as_str()),
                            position,
                        ),
                    ),
                    None => {},
                }
            },
            RevisionIntent::Pass => {
                used = false;
                out.push(RevisionAction::PassToPreview);
            },
        }
        assert(text::views(out@) =~= wanted);
        (EventState::from_bool(used), out)
    }
}

/// An open popup hides the panel from the keys: the panel does nothing but pass
/// them on.
pub proof fn lemma_the_popup_comes_first(
    c: RevisionFilesComponent,
    press: KeyPress,
    tree_moved: bool,
    selected: Option<TreeSelection>,
)
    requires
        c.copy_popup,
    ensures
        ({
            let intent = c.intent(press, tree_moved);
            &&& c.after(intent, selected) == c
            &&& c.uses(intent, selected) == EventState::Consumed
            &&& c.actions(intent, selected) == seq![RevisionActionView::PassToPopup]
        }),
{
}

/// A listing that failed can be asked for again, and then the panel waits.
pub proof fn lemma_failures_can_be_retried(
    c: RevisionFilesComponent,
    error: String,
    after: RevisionFilesComponent,
)
    requires
        after.load_state@ == c.applied_state(Err(error)),
    ensures
        after.retries(),
{
}

/// A listing of another commit than the shown one is never shown.
pub proof fn lemma_stale_listings_are_dropped(
    c: RevisionFilesComponent,
    commit: CommitId,
    result: Result<Vec<TreeFile>, String>,
)
    requires
        !c.shows_commit(commit),
    ensures
        c.refreshed(Some((commit, result))) == c,
        c.refreshed_state(Some((commit, result))) == c.load_state@,
{
}

proof fn lemma_position_of(files: Seq<TreeFile>, path: Seq<char>, i: int)
    requires
        0 <= i,
    ensures
        position_of(files, path, i) matches Some(k) ==> i <= k < files.len() && paths::parts(
            files[k].path@,
        ) == paths::parts(path),
        position_of(files, path, i) is None ==> forall|k: int|
            i <= k < files.len() ==> paths::parts((#[trigger] files[k]).path@) != paths::parts(
                path,
            ),
    decreases files.len() - i,
{
    if i < files.len() && paths::parts(files[i].path@) != paths::parts(path) {
        lemma_position_of(files, path, i + 1);
    }
}

/// A selected file is previewed from its place among the files, by its path in the
/// repository; a folder is listed; and without a selection nothing is shown.
pub proof fn lemma_the_selected_row_is_previewed(
    c: RevisionFilesComponent,
    row: TreeSelection,
    path: Seq<char>,
    k: int,
)
    requires
        row.full_path@ == seq!['.', '/'] + path,
        c.files is Some,
        0 <= k < c.files->0@.len() <= usize::MAX,
        paths::parts(c.files->0@[k].path@) == paths::parts(row.full_path@),
    ensures
        row.is_file ==> exists|i: usize|
            i < c.files->0@.len() && #[trigger] c.preview(Some(row)) == seq![
                RevisionActionView::LoadFile(path, i),
            ] && paths::parts(c.files->0@[i as int].path@) == paths::parts(row.full_path@),
        !row.is_file ==> c.preview(Some(row)) == seq![RevisionActionView::ListDirectory(path)],
        c.preview(None) == seq![RevisionActionView::ClearPreview],
{
    lemma_position_of(c.files->0@, row.full_path@, 0);
    assert(row.full_path@.skip(2) =~= path);
    if row.is_file {
        let i = position_of(c.files->0@, row.full_path@, 0)->0 as usize;
        assert(c.preview(Some(row)) == seq![RevisionActionView::LoadFile(path, i)]);
    }
}

/// Each key does what it is bound to, with the file that is selected.
pub proof fn lemma_keys_act_on_the_selected_row(
    c: RevisionFilesComponent,
    press: KeyPress,
    row: TreeSelection,
    path: Seq<char>,
)
    requires
        c.visible,
        !c.copy_popup,
        row.full_path@ == seq!['.', '/'] + path,
        row.is_file,
    ensures
        ({
            let selected = Some(row);
            let actions = c.actions(c.intent(press, false), selected);
            let after = c.after(c.intent(press, false), selected);
            &&& press.is_only(Key::Blame) ==> actions == seq![
                RevisionActionView::BlameFile(
                    path,
                    match c.revision {
                        Some(revision) => Some(revision.id),
                        None => None,
                    },
                ),
            ]
            &&& press.is_only(Key::FileHistory) ==> actions == seq![
                RevisionActionView::FileHistory(path),
            ]
            &&& press.is_only(Key::EditFile) ==> actions == seq![
                RevisionActionView::OpenEditor(row.full_path@),
            ]
            &&& press.is_only(Key::CopyPath) ==> actions == seq![
                RevisionActionView::CopyPath(path, c.selected_position(selected)),
            ]
            &&& press.is_only(Key::FileFind) && c.focus == Focus::File ==> actions == seq![
                RevisionActionView::StartSearch,
            ]
            &&& press.is_only(Key::FileFind) && c.focus == Focus::Tree && c.files is Some
                ==> actions == seq![RevisionActionView::OpenFinder]
            &&& press.is_only(Key::MoveRight) && c.focus == Focus::Tree ==> after.focus
                == Focus::File && actions == seq![RevisionActionView::FocusPreview(true)]
            &&& press.is_only(Key::MoveLeft) && c.focus == Focus::File ==> after.focus
                == Focus::Tree && actions == seq![RevisionActionView::FocusPreview(false)]
            &&& press.is_only(Key::Blame) || press.is_only(Key::FileHistory) ==> !after.visible
        }),
{
    assert(row.full_path@.skip(2) =~= path);
}

/// Another commit is asked for anew, and what was shown is gone; the one that is
/// shown already is not asked for again.
pub proof fn lemma_commits_are_asked_for(
    c: RevisionFilesComponent,
    commit: CommitId,
    info: CommitInfo,
    after: RevisionFilesComponent,
    actions: Seq<RevisionActionView>,
)
    requires
        c.set_to(commit, Ok(info), None, after, actions),
    ensures
        (c.revision is None || c.revision->0.id != commit) ==> {
            &&& actions.contains(RevisionActionView::RequestFiles(commit))
            &&& actions.contains(RevisionActionView::ClearTree)
            &&& actions.contains(RevisionActionView::ClearPreview)
            &&& after.load_state@ == TreeLoadStateView::Loading
            &&& after.files is None
            &&& after.revision == Some(info)
        },
        (c.revision is Some && c.revision->0.id == commit) ==> !actions.contains(
            RevisionActionView::RequestFiles(commit),
        ) && after.files == c.files && after.revision == c.revision,
        after.visible,
{
    if c.revision is None || c.revision->0.id != commit {
        assert(actions[0] == RevisionActionView::ClearTree);
        assert(actions[1] == RevisionActionView::ClearPreview);
        assert(actions[2] == RevisionActionView::RequestFiles(commit));
    }
}

/// The files of the commit that is shown are taken in, and the file that was to be
/// found is looked for; a failure is told and leaves nothing.
pub proof fn lemma_listings_are_taken_in(
    c: RevisionFilesComponent,
    files: Vec<TreeFile>,
    error: String,
)
    ensures
        c.applied(Ok(files)).files == Some(files),
        c.applied_state(Ok(files)) == TreeLoadStateView::Ready,
        c.applied_actions(Ok(files)).len() > 0 && c.applied_actions(Ok(files))[0]
            == RevisionActionView::BuildTree,
        c.select_file matches Some(path) ==> c.applied_actions(Ok(files)).contains(
            RevisionActionView::FindFile(path@),
        ),
        c.select_file is None ==> c.applied_actions(Ok(files)).len() == 1,
        c.applied(Ok(files)).select_file is None,
        c.applied(Err(error)).files is None,
        c.applied_state(Err(error)) is Failed,
        c.applied_actions(Err(error)) == seq![
            RevisionActionView::ClearTree,
            RevisionActionView::ClearPreview,
        ],
{
    if c.select_file is Some {
        assert(c.applied_actions(Ok(files))[1] == RevisionActionView::FindFile(
            c.select_file->0@,
        ));
    }
}

/// A row is indented by its level, a folder has its sign, and the row fills the
/// width where its name is not too long.
pub proof fn lemma_rows_of_files(row: TreeRow, width: int)
    requires
        row.indent * 2 + row.path@.len() + 3 <= width,
    ensures
        ({
            let drawn = drawn_row(row, width);
            let indent = row.indent * 2;
            &&& forall|i: int| 0 <= i < indent ==> #[trigger] drawn[i] == ' '
            &&& row.is_path ==> {
                &&& drawn.len() == width - 2
                &&& drawn[indent] == if row.collapsed {
                    '\u{25b8}'
                } else {
                    '\u{25be}'
                }
                &&& drawn.subrange(indent + 1, indent + 1 + row.path@.len()) == row.path@
            }
            &&& !row.is_path ==> {
                &&& drawn.len() == width
                &&& drawn.subrange(indent, indent + row.path@.len()) == row.path@
            }
        }),
{
    let drawn = drawn_row(row, width);
    let indent = row.indent * 2;
    if row.is_path {
        assert(drawn.subrange(indent + 1, indent + 1 + row.path@.len()) =~= row.path@);
    } else {
        assert(drawn.subrange(indent, indent + row.path@.len()) =~= row.path@);
    }
}

/// The first file at a path is found.
pub proof fn lemma_files_are_found_by_their_path(
    files: Seq<TreeFile>,
    path: Seq<char>,
    i: int,
    k: int,
)
    requires
        0 <= i <= k < files.len(),
    ensures
        ({
            let r = position_of(files, path, i);
            &&& r is Some ==> i <= r->0 < files.len() && paths::parts(files[r->0].path@)
                == paths::parts(path)
            &&& paths::parts(files[k].path@) == paths::parts(path) ==> r is Some && r->0 <= k
        }),
    decreases files.len() - i,
{
    if paths::parts(files[i].path@) != paths::parts(path) {
        if i < k {
            lemma_files_are_found_by_their_path(files, path, i + 1, k);
        } else if i + 1 < files.len() {
            lemma_files_are_found_by_their_path(files, path, i + 1, i + 1);
        }
    }
}

/// Files are drawn where there are some; else it is told why there are none.
pub proof fn lemma_why_there_are_no_files(
    c: RevisionFilesComponent,
    loading: Seq<char>,
    hint: Seq<char>,
)
    ensures
        c.notice(loading, hint) is None <==> c.files is Some && c.files->0@.len() > 0,
        c.notice(loading, hint) is Some ==> {
            let told = c.notice(loading, hint)->0;
            &&& c.load_state is Loading ==> told == loading
            &&& c.load_state is Ready ==> told == "This commit has no files."@
            &&& c.load_state is NoCommits ==> told == "No commits yet. Press "@ + hint
                + " to retry."@
            &&& c.load_state is Failed ==> told == c.load_state->Failed_0@ + ". Press "@ + hint
                + " to retry."@
        },
{
}

/// The title names the commit by the start of its id, and its message by the
/// first line, whole where there is room.
pub proof fn lemma_the_title_names_the_commit(c: RevisionFilesComponent, width: int)
    ensures
        c.revision is None ==> c.title(width) == "Files at"@,
        c.revision is Some ==> {
            let start = "Files at"@ + " {"@ + c.revision->0.id.hex().take(7) + "}"@;
            let lines = text::lines_of(c.revision->0.message@);
            let title = c.title(width);
            let used = unicode::str_width(start) as int;
            &&& text::starts(title, start)
            &&& lines.len() == 0 ==> title == start
            &&& lines.len() > 0 && used + unicode::str_width(lines[0]) + 5 <= width ==> title
                == start + " ["@ + lines[0] + "]"@
            &&& lines.len() > 0 && unicode::str_width(lines[0]) > 0 && used + unicode::str_width(
                lines[0],
            ) + 5 > width ==> title.len() > start.len() && title.contains('\u{2026}')
        },
{
    if c.revision is Some {
        let start = "Files at"@ + " {"@ + c.revision->0.id.hex().take(7) + "}"@;
        let title = c.title(width);
        assert(title.take(start.len() as int) =~= start);
        reveal_strlit("\u{2026}]");
        let lines = text::lines_of(c.revision->0.message@);
        let used = unicode::str_width(start) as int;
        if lines.len() > 0 && used + unicode::str_width(lines[0]) + 5 > width {
            let room = RevisionFilesComponent::title_room(width, used);
            if unicode::str_width(lines[0]) > room {
                if room > 1 {
                    assert(title[title.len() - 2] == '\u{2026}');
                } else {
                    assert(title[title.len() - 1] == '\u{2026}');
                }
            }
        }
    }
}

/// Only the start `./` is taken from a path.
pub proof fn lemma_relative_paths(path: Seq<char>)
    ensures
        relative(seq!['.', '/'] + path) == path,
        path.len() < 2 || path[0] != '.' || path[1] != '/' ==> relative(path).len() == 0,
{
    assert((seq!['.', '/'] + path).skip(2) =~= path);
}

/// A listing of the commit that is shown is taken in; where one of another commit
/// came, the files of the one that is shown are asked for.
pub proof fn lemma_listings_of_other_commits(
    c: RevisionFilesComponent,
    commit: CommitId,
    result: Result<Vec<TreeFile>, String>,
    revision: CommitInfo,
)
    requires
        c.revision == Some(revision),
    ensures
        commit == revision.id ==> c.refreshed_actions(Some((commit, result)))
            == c.applied_actions(result),
        commit != revision.id ==> c.refreshed_actions(Some((commit, result))) == seq![
            RevisionActionView::RequestFiles(revision.id),
        ],
        c.refreshed_actions(None).len() == 0,
{
}

} // verus!
