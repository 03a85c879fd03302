//! The tab with the changes in the index and in the working directory.
pub mod file_preview;

use crate::asyncgit::diff::{self, is_same_params, DiffParams, DiffType};
use crate::asyncgit::sync::status::{StatusItem, StatusItemType};
use crate::asyncgit::sync::{BranchCompare, CommitId, DiffOptions, ShowUntrackedFilesConfig};
use crate::components::{
    visibility_blocking, Command, CommandBlocking, CommandInfo, CommandOrder, EventState, Key,
    KeyPress,
};
use crate::text;
use vstd::prelude::*;
use vstd::string::*;

verus! {

/// The part of the tab that has the focus.
#[derive(Clone, Copy, Debug, PartialEq, Eq, Structural)]
pub enum Focus {
    WorkDir,
    Diff,
    Stage,
}

impl Focus {
    pub open spec fn toggled(self) -> Focus {
        match self {
            Focus::WorkDir => Focus::Stage,
            Focus::Stage => Focus::WorkDir,
            Focus::Diff => Focus::Diff,
        }
    }

    /// The other list of files; the diff stays.
    pub fn toggled_focus(&self) -> (r: Focus)
        ensures
            r == self.toggled(),
    {
        match self {
            Focus::WorkDir => Focus::Stage,
            Focus::Stage => Focus::WorkDir,
            Focus::Diff => Focus::Diff,
        }
    }
}

/// What the shown diff is taken of.
#[derive(Clone, Copy, Debug, PartialEq, Eq, Structural)]
pub enum DiffTarget {
    Stage,
    WorkingDir,
}

impl DiffTarget {
    /// The list that holds the files of this target.
    pub open spec fn home(self) -> Focus {
        match self {
            DiffTarget::Stage => Focus::Stage,
            DiffTarget::WorkingDir => Focus::WorkDir,
        }
    }
}

/// What the right side of the tab shows.
#[derive(Clone, Copy, Debug, PartialEq, Eq, Structural)]
pub enum RightPane {
    Diff,
    File,
}

/// What a repository is in the middle of.
#[derive(Clone, Copy, Debug, PartialEq, Eq, Structural)]
pub enum RepoState {
    Clean,
    Merge,
    Rebase,
    Revert,
    Other,
}

impl RepoState {
    pub open spec fn title(self) -> Seq<char> {
        match self {
            RepoState::Clean => "Clean"@,
            RepoState::Merge => "Merge"@,
            RepoState::Rebase => "Rebase"@,
            RepoState::Revert => "Revert"@,
            RepoState::Other => "Other"@,
        }
    }

    /// The name of the state.
    pub fn name(&self) -> (r: &'static str)
        ensures
            r@ == self.title(),
    {
        match self {
            RepoState::Clean => "Clean",
            RepoState::Merge => "Merge",
            RepoState::Rebase => "Rebase",
            RepoState::Revert => "Revert",
            RepoState::Other => "Other",
        }
    }
}

/// Which remotes there are.
#[derive(Clone, Copy, Debug, PartialEq, Eq, Structural)]
pub struct RemoteStatus {
    pub has_remote_for_fetch: bool,
    pub has_remote_for_push: bool,
}

/// Added and deleted lines, in the index and in the working directory.
#[derive(Clone, Copy, Debug, PartialEq, Eq)]
pub struct LineStats {
    pub staged: (usize, usize),
    pub unstaged: (usize, usize),
}

/// Which panes of the tab have the focus, and which list shows its selection.
#[derive(Clone, Copy, Debug, PartialEq, Eq, Structural)]
pub struct Panes {
    pub index: bool,
    pub workdir: bool,
    pub diff: bool,
    pub preview: bool,
    pub index_selection: bool,
    pub workdir_selection: bool,
}

/// A list of files as it stands.
#[derive(Debug)]
pub struct Panel {
    /// the selected file, if a file is selected
    pub file: Option<StatusItem>,
    pub empty: bool,
}

/// What the panes of the tab show.
#[derive(Debug)]
pub struct Panels {
    pub index: Panel,
    pub workdir: Panel,
    /// the file that the diff is of, and whether it is the one in the index
    pub diff: (String, bool),
    /// what the last finished diff was asked for with
    pub last_diff: Option<DiffParams>,
}

/// The tab with the changes in the index and in the working directory.
#[derive(Debug)]
pub struct Status {
    pub visible: bool,
    pub focus: Focus,
    pub diff_target: DiffTarget,
    pub right_pane: RightPane,
    /// the file that is previewed, and whether it is the one in the index
    pub preview_key: Option<(String, bool)>,
    pub panes: Panes,
    pub remotes: RemoteStatus,
    pub git_state: RepoState,
    pub git_branch_name: Option<String>,
    pub git_branch_state: Option<BranchCompare>,
    /// the branch that `git_branch_state` is of
    pub git_branch_state_branch: Option<String>,
    pub line_stats_dirty: bool,
    pub line_stats_options: DiffOptions,
    pub staged_line_stats: (usize, usize),
    pub unstaged_line_stats: (usize, usize),
    pub git_action_executed: bool,
}

/// What has to be done outside.
#[derive(Debug)]
pub enum StatusAction {
    OpenCommit,
    SelectBranch,
    /// ask whether to push a branch, by force or not
    ConfirmPush(String, bool),
    FetchRemotes,
    Pull(String),
    ConfirmUndoCommit,
    UpdateAll,
    ConfirmAbortMerge,
    ConfirmAbortRebase,
    ConfirmAbortRevert,
    ContinueRebase,
    ViewSubmodules,
    OpenEditor(String),
    ToggleDiffMode,
    /// preview a file, as it is in the index or in the working directory
    LoadPreview(String, bool),
    ClearPreview,
    /// ask for a diff, and show it or clear the diff until it is there
    ShowDiff(DiffParams),
    /// ask for a diff only in order to hear of changes
    PollDiff(DiffParams),
    /// show the last finished diff
    ShowLastDiff(String, DiffType),
    /// clear the diff; it may be on its way
    ClearDiff(bool),
    ApplyDelta,
    RefreshDiff,
    FetchStatus(ShowUntrackedFilesConfig),
    /// show the files of the last finished status
    SetItems,
    CheckRemotes,
    CompareBranch(String),
    FetchLineStats(DiffOptions),
}

/// What git work reports.
#[derive(Debug)]
pub enum GitEvent {
    Diff,
    Delta,
    StatusPairChanged,
    StatusPairUnchanged,
    /// line counts, if any are there
    LineStats(Option<LineStats>),
    Branches,
    Push,
    Pull,
    CommitFiles,
    /// the branch that was compared and how it compares, if that could be told
    BranchCompare(Option<(String, Option<BranchCompare>)>),
    /// anything else
    Other,
}

pub open spec fn same_text(a: Option<String>, b: Option<String>) -> bool {
    match (a, b) {
        (Some(a), Some(b)) => a@ == b@,
        (None, None) => true,
        _ => false,
    }
}

fn is_same_text(a: &Option<String>, b: &Option<String>) -> (r: bool)
    ensures
        r == same_text(*a, *b),
{
    match (a, b) {
        (Some(a), Some(b)) => text::same(a.as_str(), b.as_str()),
        (None, None) => true,
        _ => false,
    }
}

/// Only files that are new are previewed as a whole.
pub fn uses_full_file_preview(status: StatusItemType) -> (r: bool)
    ensures
        r == (status == StatusItemType::New),
{
    status == StatusItemType::New
}

pub open spec fn params_of(item: StatusItem, staged: bool, options: DiffOptions) -> DiffParams {
    DiffParams {
        path: item.path,
        diff_type: if staged {
            DiffType::Stage
        } else {
            DiffType::WorkDir
        },
        options,
    }
}

/// A branch is compared with its upstream, if its name is known.
pub open spec fn compare_actions(name: Option<String>) -> Seq<StatusAction> {
    match name {
        Some(branch) => seq![StatusAction::CompareBranch(branch)],
        None => Seq::empty(),
    }
}

/// Lines are counted, unless they are being counted.
pub open spec fn stats_actions(options: DiffOptions, counting: bool) -> Seq<StatusAction> {
    if counting {
        Seq::empty()
    } else {
        seq![StatusAction::FetchLineStats(options)]
    }
}

impl Status {
    /// What holds of every tab: the focus is with one pane, and a list that has
    /// it holds the files that the diff is taken of.
    pub open spec fn wf(self) -> bool {
        &&& self.panes.index == (self.focus == Focus::Stage)
        &&& self.panes.workdir == (self.focus == Focus::WorkDir)
        &&& self.panes.diff == (self.focus == Focus::Diff && self.right_pane == RightPane::Diff)
        &&& self.panes.preview == (self.focus == Focus::Diff && self.right_pane == RightPane::File)
        &&& self.panes.index_selection == (self.diff_target == DiffTarget::Stage)
        &&& self.panes.workdir_selection == (self.diff_target == DiffTarget::WorkingDir)
        &&& self.focus != Focus::Diff ==> self.focus == self.diff_target.home()
    }

    /// A tab that has seen nothing yet, with the focus on the working directory.
    pub fn new() -> (r: Status)
        ensures
            r.wf(),
            r.visible,
            r.focus == Focus::WorkDir,
            r.diff_target == DiffTarget::WorkingDir,
            r.right_pane == RightPane::Diff,
            r.preview_key is None,
            r.remotes == (RemoteStatus {
                has_remote_for_fetch: false,
                has_remote_for_push: false,
            }),
            r.git_state == RepoState::Clean,
            r.git_branch_name is None,
            r.git_branch_state is None,
            r.git_branch_state_branch is None,
            !r.line_stats_dirty,
            r.line_stats_options == DiffOptions::standard(),
            r.staged_line_stats == (0usize, 0usize),
            r.unstaged_line_stats == (0usize, 0usize),
            !r.git_action_executed,
    {
        Status {
            visible: true,
            focus: Focus::WorkDir,
            diff_target: DiffTarget::WorkingDir,
            right_pane: RightPane::Diff,
            preview_key: None,
            panes: Panes {
                index: false,
                workdir: true,
                diff: false,
                preview: false,
                index_selection: false,
                workdir_selection: true,
            },
            remotes: RemoteStatus { has_remote_for_fetch: false, has_remote_for_push: false },
            git_state: RepoState::Clean,
            git_branch_name: None,
            git_branch_state: None,
            git_branch_state_branch: None,
            line_stats_dirty: false,
            line_stats_options: DiffOptions::default(),
            staged_line_stats: (0, 0),
            unstaged_line_stats: (0, 0),
            git_action_executed: false,
        }
    }

    // -------------------------------------------------------------- diffs

    pub open spec fn right_synced(self) -> Status {
        Status {
            panes: Panes {
                diff: self.focus == Focus::Diff && self.right_pane == RightPane::Diff,
                preview: self.focus == Focus::Diff && self.right_pane == RightPane::File,
                ..self.panes
            },
            ..self
        }
    }

    fn sync_right_focus(&mut self)
        ensures
            *final(self) == old(self).right_synced(),
    {
        let focused = self.focus == Focus::Diff;
        self.panes.diff = focused && self.right_pane == RightPane::Diff;
        self.panes.preview = focused && self.right_pane == RightPane::File;
    }

    /// The selected file of the list that the diff is taken of.
    pub open spec fn selected(self, panels: Panels) -> Option<StatusItem> {
        match self.diff_target {
            DiffTarget::Stage => panels.index.file,
            DiffTarget::WorkingDir => panels.workdir.file,
        }
    }

    /// The selected file, and whether it is the one in the index.
    pub fn selected_status_item(&self, panels: &Panels) -> (r: Option<(StatusItem, bool)>)
        ensures
            r == match self.selected(*panels) {
                Some(item) => Some((item, self.diff_target == DiffTarget::Stage)),
                None => None,
            },
    {
        let (panel, staged) = match self.diff_target {
            DiffTarget::Stage => (&panels.index, true),
            DiffTarget::WorkingDir => (&panels.workdir, false),
        };
        match &panel.file {
            Some(item) => Some((item.clone(), staged)),
            None => None,
        }
    }

    pub open spec fn previews(self, item: StatusItem) -> bool {
        self.preview_key matches Some((path, staged)) && path@ == item.path@ && staged == (
        self.diff_target == DiffTarget::Stage)
    }

    /// The tab after the diff was brought up to date.
    pub open spec fn diff_updated(self, panels: Panels, refresh_preview: bool) -> Status {
        match self.selected(panels) {
            Some(item) => if item.status == StatusItemType::New {
                Status {
                    right_pane: RightPane::File,
                    preview_key: if refresh_preview || !self.previews(item) {
                        Some((item.path, self.diff_target == DiffTarget::Stage))
                    } else {
                        self.preview_key
                    },
                    ..self
                }.right_synced()
            } else if self.right_pane == RightPane::File {
                Status { right_pane: RightPane::Diff, preview_key: None, ..self }.right_synced()
            } else {
                self
            },
            None => Status {
                right_pane: RightPane::Diff,
                preview_key: None,
                ..self
            }.right_synced(),
        }
    }

    /// What has to be done to bring the diff up to date: a new file is
    /// previewed, unless it is already, and another gets its diff shown.
    pub open spec fn diff_actions(
        self,
        panels: Panels,
        options: DiffOptions,
        refresh_preview: bool,
    ) -> Seq<StatusAction> {
        let staged = self.diff_target == DiffTarget::Stage;
        match self.selected(panels) {
            Some(item) => {
                let params = params_of(item, staged, options);
                if item.status == StatusItemType::New {
                    (if refresh_preview || !self.previews(item) {
                        seq![StatusAction::LoadPreview(item.path, staged)]
                    } else {
                        Seq::empty()
                    }).push(StatusAction::PollDiff(params))
                } else {
                    (if self.right_pane == RightPane::File {
                        seq![StatusAction::ClearPreview]
                    } else {
                        Seq::empty()
                    }) + if panels.diff.0@ == item.path@ && panels.diff.1 == staged {
                        match panels.last_diff {
                            Some(last) => if diff::same_params(last, params) {
                                seq![StatusAction::ShowLastDiff(item.path, params.diff_type)]
                            } else {
                                seq![StatusAction::ShowDiff(params)]
                            },
                            None => Seq::empty(),
                        }
                    } else {
                        seq![StatusAction::ShowDiff(params)]
                    }
                }
            },
            None => seq![StatusAction::ClearPreview, StatusAction::ClearDiff(false)],
        }
    }

    fn update_diff_inner(
        &mut self,
        panels: &Panels,
        options: DiffOptions,
        refresh_preview: bool,
        out: &mut Vec<StatusAction>,
    )
        ensures
            *final(self) == old(self).diff_updated(*panels, refresh_preview),
            final(out)@ == old(out)@ + old(self).diff_actions(*panels, options, refresh_preview),
    {
        let ghost wanted = self.diff_actions(*panels, options, refresh_preview);
        match self.selected_status_item(panels) {
            Some((item, staged)) => {
                let diff_type = if staged {
                    DiffType::Stage
                } else {
                    DiffType::WorkDir
                };
                let params = DiffParams { path: item.path.clone(), diff_type, options };
                if uses_full_file_preview(item.status) {
                    let previewed = match &self.preview_key {
                        Some((path, s)) => text::same(path.as_str(), item.path.as_str()) && *s
                            == staged,
                        None => false,
                    };
                    self.right_pane = RightPane::File;
                    self.sync_right_focus();
                    if refresh_preview || !previewed {
                        out.push(StatusAction::LoadPreview(item.path.clone(), staged));
                        self.preview_key = Some((item.path, staged));
                    }
                    out.push(StatusAction::PollDiff(params));
                } else {
                    if self.right_pane == RightPane::File {
                        self.right_pane = RightPane::Diff;
                        self.preview_key = None;
                        out.push(StatusAction::ClearPreview);
                        self.sync_right_focus();
                    }
                    if text::same(panels.diff.0.as_str(), item.path.as_str()) && panels.diff.1
                        == staged {
                        match &panels.last_diff {
                            Some(last) => {
                                if is_same_params(last, &params) {
                                    out.push(StatusAction::ShowLastDiff(item.path, diff_type));
                                } else {
                                    out.push(StatusAction::ShowDiff(params));
                                }
                            },
                            None => {},
                        }
                    } else {
                        out.push(StatusAction::ShowDiff(params));
                    }
                }
            },
            None => {
                self.right_pane = RightPane::Diff;
                self.preview_key = None;
                out.push(StatusAction::ClearPreview);
                self.sync_right_focus();
                out.push(StatusAction::ClearDiff(false));
            },
        }
        assert(out@ =~= old(out)@ + wanted);
    }

    /// Bring the diff up to date with the selected file.
    pub fn update_diff(&mut self, panels: &Panels, options: DiffOptions) -> (r: Vec<StatusAction>)
        requires
            old(self).wf(),
        ensures
            final(self).wf(),
            *final(self) == old(self).diff_updated(*panels, false),
            r@ == old(self).diff_actions(*panels, options, false),
    {
        let mut out: Vec<StatusAction> = Vec::new();
        self.update_diff_inner(panels, options, false, &mut out);
        assert(out@ =~= old(self).diff_actions(*panels, options, false));
        out
    }

    // -------------------------------------------------------------- focus

    /// The tab with its focus elsewhere, before the diff follows.
    pub open spec fn turned_to(self, focus: Focus) -> Status {
        match focus {
            Focus::Diff => Status {
                focus,
                panes: Panes { index: false, workdir: false, ..self.panes },
                ..self
            },
            _ => Status {
                focus,
                diff_target: if focus == Focus::Stage {
                    DiffTarget::Stage
                } else {
                    DiffTarget::WorkingDir
                },
                panes: Panes {
                    index: focus == Focus::Stage,
                    workdir: focus == Focus::WorkDir,
                    index_selection: focus == Focus::Stage,
                    workdir_selection: focus == Focus::WorkDir,
                    ..self.panes
                },
                ..self
            },
        }
    }

    /// The tab with its focus elsewhere.
    pub open spec fn focused_on(self, focus: Focus, panels: Panels) -> Status {
        if self.focus == focus {
            self
        } else {
            self.turned_to(focus).diff_updated(panels, false).right_synced()
        }
    }

    pub open spec fn focus_actions(
        self,
        focus: Focus,
        panels: Panels,
        options: DiffOptions,
    ) -> Seq<StatusAction> {
        if self.focus == focus {
            Seq::empty()
        } else {
            self.turned_to(focus).diff_actions(panels, options, false)
        }
    }

    fn set_diff_target(&mut self, target: DiffTarget)
        ensures
            *final(self) == (Status {
                diff_target: target,
                panes: Panes {
                    index: target == DiffTarget::Stage,
                    workdir: target == DiffTarget::WorkingDir,
                    index_selection: target == DiffTarget::Stage,
                    workdir_selection: target == DiffTarget::WorkingDir,
                    ..old(self).panes
                },
                ..*old(self)
            }),
    {
        self.diff_target = target;
        let is_stage = target == DiffTarget::Stage;
        self.panes.workdir = !is_stage;
        self.panes.workdir_selection = !is_stage;
        self.panes.index = is_stage;
        self.panes.index_selection = is_stage;
    }

    /// Move the focus. The diff follows the selection of the list that gets it.
    pub fn switch_focus(
        &mut self,
        focus: Focus,
        panels: &Panels,
        options: DiffOptions,
        out: &mut Vec<StatusAction>,
    ) -> (moved: bool)
        requires
            old(self).wf(),
        ensures
            final(self).wf(),
            *final(self) == old(self).focused_on(focus, *panels),
            final(out)@ == old(out)@ + old(self).focus_actions(focus, *panels, options),
            moved == (old(self).focus != focus),
    {
        if self.focus != focus {
            self.focus = focus;
            match focus {
                Focus::WorkDir => self.set_diff_target(DiffTarget::WorkingDir),
                Focus::Stage => self.set_diff_target(DiffTarget::Stage),
                Focus::Diff => {
                    self.panes.index = false;
                    self.panes.workdir = false;
                },
            }
            assert(*self == old(self).turned_to(focus));
            self.update_diff_inner(panels, options, false, out);
            self.sync_right_focus();
            true
        } else {
            assert(out@ =~= old(out)@ + old(self).focus_actions(focus, *panels, options));
            false
        }
    }

    /// Move the focus to the other list after the last file left this one.
    pub fn last_file_moved(&mut self, panels: &Panels, options: DiffOptions) -> (r: Vec<
        StatusAction,
    >)
        requires
            old(self).wf(),
        ensures
            final(self).wf(),
            if old(self).visible && old(self).focus != Focus::Diff {
                &&& *final(self) == old(self).focused_on(old(self).focus.toggled(), *panels)
                &&& r@ == old(self).focus_actions(old(self).focus.toggled(), *panels, options)
            } else {
                *final(self) == *old(self) && r@.len() == 0
            },
    {
        let mut out: Vec<StatusAction> = Vec::new();
        if self.focus != Focus::Diff && self.visible {
            let target = self.focus.toggled_focus();
            let ghost wanted = self.focus_actions(target, *panels, options);
            self.switch_focus(target, panels, options, &mut out);
            assert(out@ =~= wanted);
        }
        out
    }

    // -------------------------------------------------------------- state

    pub open spec fn pushes(self) -> bool {
        &&& self.git_branch_name matches Some(branch)
        &&& self.git_branch_state_branch matches Some(compared)
        &&& branch@ == compared@
        &&& self.git_branch_state matches Some(state) ==> state.ahead > 0
        &&& self.remotes.has_remote_for_push
    }

    /// Whether there may be something to push: the current branch was compared
    /// with its upstream and is ahead of it, or has none.
    pub fn can_push(&self) -> (r: bool)
        ensures
            r == self.pushes(),
    {
        let compared = match (&self.git_branch_name, &self.git_branch_state_branch) {
            (Some(branch), Some(compared)) => text::same(branch.as_str(), compared.as_str()),
            _ => false,
        };
        let is_ahead = match &self.git_branch_state {
            Some(state) => state.ahead > 0,
            None => true,
        };
        compared && is_ahead && self.remotes.has_remote_for_push
    }

    pub open spec fn fetches(self) -> bool {
        &&& self.remotes.has_remote_for_fetch
        &&& self.git_branch_state is Some
        &&& self.git_branch_name matches Some(branch)
        &&& self.git_branch_state_branch matches Some(compared)
        &&& branch@ == compared@
    }

    /// Whether there is something to fetch from for the current branch.
    pub fn can_fetch(&self) -> (r: bool)
        ensures
            r == self.fetches(),
    {
        let compared = match (&self.git_branch_name, &self.git_branch_state_branch) {
            (Some(branch), Some(compared)) => text::same(branch.as_str(), compared.as_str()),
            _ => false,
        };
        self.remotes.has_remote_for_fetch && self.git_branch_state.is_some() && compared
    }

    pub open spec fn commits(self, panels: Panels) -> bool {
        !panels.index.empty && self.git_state != RepoState::Rebase
    }

    pub open spec fn can_look(self, panels: Panels) -> bool {
        match self.focus {
            Focus::WorkDir => panels.workdir.file is Some,
            Focus::Stage => panels.index.file is Some,
            Focus::Diff => false,
        }
    }

    /// Whether the list with the focus has a file whose diff can get it.
    pub fn can_focus_diff(&self, panels: &Panels) -> (r: bool)
        ensures
            r == self.can_look(*panels),
    {
        match self.focus {
            Focus::WorkDir => panels.workdir.file.is_some(),
            Focus::Stage => panels.index.file.is_some(),
            Focus::Diff => false,
        }
    }

    /// Whether there is something to commit.
    pub fn can_commit(&self, panels: &Panels) -> (r: bool)
        ensures
            r == self.commits(*panels),
    {
        !panels.index.empty && self.git_state != RepoState::Rebase
    }

    /// Take in which remotes there are.
    pub fn set_remotes(&mut self, remotes: RemoteStatus)
        ensures
            *final(self) == (Status { remotes, ..*old(self) }),
    {
        self.remotes = remotes;
    }

    // -------------------------------------------------------------- updates

    fn request_branch_compare(&self, out: &mut Vec<StatusAction>)
        ensures
            final(out)@ == old(out)@ + compare_actions(self.git_branch_name),
    {
        match &self.git_branch_name {
            Some(branch) => out.push(StatusAction::CompareBranch(branch.clone())),
            None => {},
        }
        assert(out@ =~= old(out)@ + compare_actions(self.git_branch_name));
    }

    /// The tab after line counts were asked for: while they are being counted
    /// it notes that they have to be counted again.
    pub open spec fn stats_requested(self, counting: bool) -> Status {
        Status { line_stats_dirty: self.line_stats_dirty || counting, ..self }
    }

    fn request_line_stats(&mut self, counting: bool, out: &mut Vec<StatusAction>)
        ensures
            *final(self) == old(self).stats_requested(counting),
            final(out)@ == old(out)@ + stats_actions(old(self).line_stats_options, counting),
    {
        if counting {
            self.line_stats_dirty = true;
        } else {
            out.push(StatusAction::FetchLineStats(self.line_stats_options));
        }
        assert(out@ =~= old(out)@ + stats_actions(old(self).line_stats_options, counting));
    }

    pub open spec fn polled(
        self,
        looked_up: Option<String>,
        options: DiffOptions,
        counting: bool,
        state: RepoState,
    ) -> Status {
        let named = Status {
            git_branch_name: match looked_up {
                Some(branch) => Some(branch),
                None => self.git_branch_name,
            },
            ..self
        };
        Status {
            line_stats_options: options,
            line_stats_dirty: self.line_stats_dirty || (options != self.line_stats_options
                && counting),
            git_state: state,
            ..named
        }
    }

    pub open spec fn poll_actions(
        self,
        looked_up: Option<String>,
        untracked: ShowUntrackedFilesConfig,
        options: DiffOptions,
        counting: bool,
    ) -> Seq<StatusAction> {
        let name = match looked_up {
            Some(branch) => Some(branch),
            None => self.git_branch_name,
        };
        (if !same_text(looked_up, self.git_branch_name) {
            compare_actions(name)
        } else {
            Seq::empty()
        }) + seq![StatusAction::RefreshDiff, StatusAction::FetchStatus(untracked)] + if options
            != self.line_stats_options {
            stats_actions(options, counting)
        } else {
            Seq::empty()
        }
    }

    /// Look at the repository again. A branch whose name cannot be told keeps
    /// the one it had; a branch that changed is compared with its upstream.
    pub fn update(
        &mut self,
        looked_up: Option<String>,
        untracked: ShowUntrackedFilesConfig,
        options: DiffOptions,
        counting: bool,
        state: RepoState,
    ) -> (r: Vec<StatusAction>)
        requires
            old(self).wf(),
        ensures
            final(self).wf(),
            if old(self).visible {
                &&& *final(self) == old(self).polled(looked_up, options, counting, state)
                &&& r@ == old(self).poll_actions(looked_up, untracked, options, counting)
            } else {
                *final(self) == *old(self) && r@.len() == 0
            },
    {
        let mut out: Vec<StatusAction> = Vec::new();
        if self.visible {
            let changed = !is_same_text(&looked_up, &self.git_branch_name);
            if looked_up.is_some() {
                self.git_branch_name = looked_up;
            }
            if changed {
                self.request_branch_compare(&mut out);
            }
            out.push(StatusAction::RefreshDiff);
            out.push(StatusAction::FetchStatus(untracked));
            if options != self.line_stats_options {
                self.line_stats_options = options;
                self.request_line_stats(counting, &mut out);
            }
            self.git_state = state;
            assert(out@ =~= old(self).poll_actions(looked_up, untracked, options, counting));
        }
        out
    }

    /// The tab after git work reported something.
    pub open spec fn told(self, ev: GitEvent, panels: Panels, counting: bool) -> Status {
        match ev {
            GitEvent::Diff => self.diff_updated(panels, true),
            GitEvent::StatusPairChanged | GitEvent::StatusPairUnchanged => self.stats_requested(
                counting,
            ),
            GitEvent::LineStats(stats) => {
                let counted = match stats {
                    Some(stats) => Status {
                        staged_line_stats: stats.staged,
                        unstaged_line_stats: stats.unstaged,
                        ..self
                    },
                    None => self,
                };
                if self.line_stats_dirty {
                    Status { line_stats_dirty: false, ..counted }.stats_requested(counting)
                } else {
                    counted
                }
            },
            GitEvent::BranchCompare(Some((branch, state))) => if self.git_branch_name matches Some(
                current,
            ) && current@ == branch@ {
                Status { git_branch_state: state, git_branch_state_branch: Some(branch), ..self }
            } else {
                self
            },
            _ => self,
        }
    }

    pub open spec fn told_actions(
        self,
        ev: GitEvent,
        panels: Panels,
        options: DiffOptions,
        counting: bool,
    ) -> Seq<StatusAction> {
        match ev {
            GitEvent::Diff => self.diff_actions(panels, options, true),
            GitEvent::Delta => seq![StatusAction::ApplyDelta],
            GitEvent::StatusPairChanged => stats_actions(self.line_stats_options, counting).push(
                StatusAction::SetItems,
            ),
            GitEvent::StatusPairUnchanged => stats_actions(self.line_stats_options, counting),
            GitEvent::LineStats(_) => if self.line_stats_dirty {
                stats_actions(self.line_stats_options, counting)
            } else {
                Seq::empty()
            },
            GitEvent::Branches => seq![StatusAction::CheckRemotes],
            GitEvent::Push | GitEvent::Pull | GitEvent::CommitFiles => compare_actions(self.git_branch_name),
            GitEvent::BranchCompare(_) | GitEvent::Other => Seq::empty(),
        }
    }

    /// Take in what git work reports; a hidden tab ignores it. After `SetItems`
    /// the tab has to be told that the files are shown.
    pub fn update_git(
        &mut self,
        ev: GitEvent,
        panels: &Panels,
        options: DiffOptions,
        counting: bool,
    ) -> (r: Vec<StatusAction>)
        requires
            old(self).wf(),
        ensures
            final(self).wf(),
            if old(self).visible {
                &&& *final(self) == old(self).told(ev, *panels, counting)
                &&& r@ == old(self).told_actions(ev, *panels, options, counting)
            } else {
                *final(self) == *old(self) && r@.len() == 0
            },
    {
        let mut out: Vec<StatusAction> = Vec::new();
        if !self.visible {
            return out;
        }
        let ghost wanted = self.told_actions(ev, *panels, options, counting);
        match ev {
            GitEvent::Diff => self.update_diff_inner(panels, options, true, &mut out),
            GitEvent::Delta => out.push(StatusAction::ApplyDelta),
            GitEvent::StatusPairChanged => {
                self.request_line_stats(counting, &mut out);
                out.push(StatusAction::SetItems);
            },
            GitEvent::StatusPairUnchanged => self.request_line_stats(counting, &mut out),
            GitEvent::LineStats(stats) => {
                match stats {
                    Some(stats) => {
                        self.staged_line_stats = stats.staged;
                        self.unstaged_line_stats = stats.unstaged;
                    },
                    None => {},
                }
                if self.line_stats_dirty {
                    self.line_stats_dirty = false;
                    self.request_line_stats(counting, &mut out);
                }
            },
            GitEvent::Branches => out.push(StatusAction::CheckRemotes),
            GitEvent::Push | GitEvent::Pull | GitEvent::CommitFiles => {
                self.request_branch_compare(&mut out);
            },
            GitEvent::BranchCompare(result) => match result {
                Some((branch, state)) => {
                    let current = match &self.git_branch_name {
                        Some(name) => text::same(name.as_str(), branch.as_str()),
                        None => false,
                    };
                    if current {
                        self.git_branch_state = state;
                        self.git_branch_state_branch = Some(branch);
                    }
                },
                None => {},
            },
            GitEvent::Other => {},
        }
        assert(out@ =~= wanted);
        out
    }

    /// Follow the files that are shown now: the diff is brought up to date and
    /// the branch is compared with its upstream.
    pub fn items_set(&mut self, panels: &Panels, options: DiffOptions) -> (r: Vec<StatusAction>)
        requires
            old(self).wf(),
        ensures
            final(self).wf(),
            *final(self) == old(self).diff_updated(*panels, false),
            r@ == old(self).diff_actions(*panels, options, false) + compare_actions(old(self).git_branch_name),
    {
        let mut out: Vec<StatusAction> = Vec::new();
        self.update_diff_inner(panels, options, false, &mut out);
        assert(self.git_branch_name == old(self).git_branch_name);
        self.request_branch_compare(&mut out);
        assert(out@ =~= old(self).diff_actions(*panels, options, false) + compare_actions(old(self).git_branch_name));
        out
    }

    /// Where the focus goes after an action emptied the list that had it.
    pub open spec fn next_focus(self, staged_empty: bool, workdir_empty: bool) -> Option<Focus> {
        if !self.git_action_executed {
            None
        } else if self.focus == Focus::WorkDir && workdir_empty && !staged_empty {
            Some(Focus::Stage)
        } else if self.focus == Focus::Stage && staged_empty {
            Some(Focus::WorkDir)
        } else {
            None
        }
    }

    /// Where the focus goes, now that the files are shown; the tab no longer
    /// waits for an action.
    pub fn focus_after_action(&mut self, staged_empty: bool, workdir_empty: bool) -> (r: Option<
        Focus,
    >)
        requires
            old(self).wf(),
        ensures
            final(self).wf(),
            *final(self) == (Status { git_action_executed: false, ..*old(self) }),
            r == old(self).next_focus(staged_empty, workdir_empty),
    {
        if self.git_action_executed {
            self.git_action_executed = false;
            if self.focus == Focus::WorkDir && workdir_empty && !staged_empty {
                return Some(Focus::Stage);
            } else if self.focus == Focus::Stage && staged_empty {
                return Some(Focus::WorkDir);
            }
        }
        None
    }
}

// ------------------------------------------------------------------- keys

/// What a key press asks of the tab.
#[derive(Clone, Copy, Debug, PartialEq, Eq, Structural)]
pub enum StatusIntent {
    Ignore,
    OpenCommit,
    Focus(Focus),
    SelectBranch,
    ForcePush,
    Push,
    Fetch,
    Pull,
    UndoCommit,
    Abort,
    ContinueRebase,
    ViewSubmodules,
    Edit,
    ToggleDiffMode,
}

impl Status {
    /// What a key press asks of the tab.
    pub open spec fn intent(self, press: KeyPress, panels: Panels) -> StatusIntent {
        let on_lists = self.focus != Focus::Diff;
        if press.has(Key::OpenCommit) && self.commits(panels) {
            StatusIntent::OpenCommit
        } else if press.has(Key::ToggleWorkarea) && on_lists {
            StatusIntent::Focus(self.focus.toggled())
        } else if press.has(Key::MoveRight) && self.can_look(panels) {
            StatusIntent::Focus(Focus::Diff)
        } else if press.has(Key::ExitPopup) {
            StatusIntent::Focus(self.diff_target.home())
        } else if (press.has(Key::MoveDown) || press.has(Key::PopupDown)) && self.focus
            == Focus::WorkDir && !panels.index.empty {
            StatusIntent::Focus(Focus::Stage)
        } else if (press.has(Key::MoveUp) || press.has(Key::PopupUp)) && self.focus == Focus::Stage
            && !panels.workdir.empty {
            StatusIntent::Focus(Focus::WorkDir)
        } else if press.has(Key::SelectBranch) && on_lists {
            StatusIntent::SelectBranch
        } else if press.has(Key::ForcePush) && on_lists && self.pushes() {
            StatusIntent::ForcePush
        } else if press.has(Key::Push) && on_lists {
            StatusIntent::Push
        } else if press.has(Key::Fetch) && on_lists && self.fetches() {
            StatusIntent::Fetch
        } else if press.has(Key::Pull) && on_lists && self.fetches() {
            StatusIntent::Pull
        } else if press.has(Key::UndoCommit) && on_lists {
            StatusIntent::UndoCommit
        } else if press.has(Key::AbortMerge) {
            StatusIntent::Abort
        } else if press.has(Key::RebaseBranch) && self.git_state == RepoState::Rebase {
            StatusIntent::ContinueRebase
        } else if press.has(Key::ViewSubmodules) {
            StatusIntent::ViewSubmodules
        } else if self.right_pane == RightPane::File && self.focus == Focus::Diff && press.has(
            Key::EditFile,
        ) {
            StatusIntent::Edit
        } else if press.has(Key::DiffModeToggle) {
            StatusIntent::ToggleDiffMode
        } else {
            StatusIntent::Ignore
        }
    }

    fn key_intent(&self, press: &KeyPress, panels: &Panels) -> (r: StatusIntent)
        ensures
            r == self.intent(*press, *panels),
    {
        let on_lists = self.focus != Focus::Diff;
        if press.is(Key::OpenCommit) && self.can_commit(panels) {
            StatusIntent::OpenCommit
        } else if press.is(Key::ToggleWorkarea) && on_lists {
            StatusIntent::Focus(self.focus.toggled_focus())
        } else if press.is(Key::MoveRight) && self.can_focus_diff(panels) {
            StatusIntent::Focus(Focus::Diff)
        } else if press.is(Key::ExitPopup) {
            StatusIntent::Focus(
                match self.diff_target {
                    DiffTarget::Stage => Focus::Stage,
                    DiffTarget::WorkingDir => Focus::WorkDir,
                },
            )
        } else if (press.is(Key::MoveDown) || press.is(Key::PopupDown)) && self.focus
            == Focus::WorkDir && !panels.index.empty {
            StatusIntent::Focus(Focus::Stage)
        } else if (press.is(Key::MoveUp) || press.is(Key::PopupUp)) && self.focus == Focus::Stage
            && !panels.workdir.empty {
            StatusIntent::Focus(Focus::WorkDir)
        } else if press.is(Key::SelectBranch) && on_lists {
            StatusIntent::SelectBranch
        } else if press.is(Key::ForcePush) && on_lists && self.can_push() {
            StatusIntent::ForcePush
        } else if press.is(Key::Push) && on_lists {
            StatusIntent::Push
        } else if press.is(Key::Fetch) && on_lists && self.can_fetch() {
            StatusIntent::Fetch
        } else if press.is(Key::Pull) && on_lists && self.can_fetch() {
            StatusIntent::Pull
        } else if press.is(Key::UndoCommit) && on_lists {
            StatusIntent::UndoCommit
        } else if press.is(Key::AbortMerge) {
            StatusIntent::Abort
        } else if press.is(Key::RebaseBranch) && self.git_state == RepoState::Rebase {
            StatusIntent::ContinueRebase
        } else if press.is(Key::ViewSubmodules) {
            StatusIntent::ViewSubmodules
        } else if self.right_pane == RightPane::File && self.focus == Focus::Diff && press.is(
            Key::EditFile,
        ) {
            StatusIntent::Edit
        } else if press.is(Key::DiffModeToggle) {
            StatusIntent::ToggleDiffMode
        } else {
            StatusIntent::Ignore
        }
    }

    pub open spec fn push_actions(self, force: bool) -> Seq<StatusAction> {
        if self.pushes() {
            seq![StatusAction::ConfirmPush(self.git_branch_name->0, force)]
        } else {
            Seq::empty()
        }
    }

    /// Ask whether to push the branch, if it can be.
    fn push(&self, force: bool, out: &mut Vec<StatusAction>)
        ensures
            final(out)@ == old(out)@ + self.push_actions(force),
    {
        if self.can_push() {
            match &self.git_branch_name {
                Some(branch) => out.push(StatusAction::ConfirmPush(branch.clone(), force)),
                None => {},
            }
        }
        assert(out@ =~= old(out)@ + self.push_actions(force));
    }

    /// What a key press with the given intent leads to outside.
    pub open spec fn actions(
        self,
        intent: StatusIntent,
        panels: Panels,
        options: DiffOptions,
    ) -> Seq<StatusAction> {
        match intent {
            StatusIntent::Ignore => Seq::empty(),
            StatusIntent::OpenCommit => seq![StatusAction::OpenCommit],
            StatusIntent::Focus(focus) => self.focus_actions(focus, panels, options),
            StatusIntent::SelectBranch => seq![StatusAction::SelectBranch],
            StatusIntent::ForcePush => self.push_actions(true),
            StatusIntent::Push => self.push_actions(false),
            StatusIntent::Fetch => seq![StatusAction::FetchRemotes],
            StatusIntent::Pull => match self.git_branch_name {
                Some(branch) => seq![StatusAction::Pull(branch)],
                None => Seq::empty(),
            },
            StatusIntent::UndoCommit => seq![
                StatusAction::ConfirmUndoCommit,
                StatusAction::UpdateAll,
            ],
            StatusIntent::Abort => match self.git_state {
                RepoState::Merge => seq![StatusAction::ConfirmAbortMerge],
                RepoState::Rebase => seq![StatusAction::ConfirmAbortRebase],
                RepoState::Revert => seq![StatusAction::ConfirmAbortRevert],
                _ => Seq::empty(),
            },
            StatusIntent::ContinueRebase => seq![
                StatusAction::ContinueRebase,
                StatusAction::UpdateAll,
            ],
            StatusIntent::ViewSubmodules => seq![StatusAction::ViewSubmodules],
            StatusIntent::Edit => match self.preview_key {
                Some((path, _)) => seq![StatusAction::OpenEditor(path)],
                None => Seq::empty(),
            },
            StatusIntent::ToggleDiffMode => seq![StatusAction::ToggleDiffMode],
        }
    }

    /// React to a key press that the panes have seen already; one that they
    /// used up counts as an action of the user on the repository.
    pub fn event(
        &mut self,
        press: &KeyPress,
        used_by_panes: bool,
        panels: &Panels,
        options: DiffOptions,
    ) -> (r: (EventState, Vec<StatusAction>))
        requires
            old(self).wf(),
        ensures
            final(self).wf(),
            if !old(self).visible {
                &&& *final(self) == *old(self)
                &&& r.0 == EventState::NotConsumed
                &&& r.1@.len() == 0
            } else if used_by_panes {
                &&& *final(self) == (Status { git_action_executed: true, ..*old(self) })
                &&& r.0 == EventState::Consumed
                &&& r.1@.len() == 0
            } else {
                let intent = old(self).intent(*press, *panels);
                &&& r.1@ == old(self).actions(intent, *panels, options)
                &&& match intent {
                    StatusIntent::Focus(focus) => *final(self) == old(self).focused_on(
                        focus,
                        *panels,
                    ) && r.0 == EventState::of(old(self).focus != focus),
                    StatusIntent::Ignore => *final(self) == *old(self) && r.0
                        == EventState::NotConsumed,
                    _ => *final(self) == *old(self) && r.0 == EventState::Consumed,
                }
            },
    {
        let mut out: Vec<StatusAction> = Vec::new();
        if !self.visible {
            return (EventState::NotConsumed, out);
        }
        if used_by_panes {
            self.git_action_executed = true;
            return (EventState::Consumed, out);
        }
        let intent = self.key_intent(press, panels);
        let ghost wanted = self.actions(intent, *panels, options);
        let mut state = EventState::Consumed;
        match intent {
            StatusIntent::Ignore => {
                state = EventState::NotConsumed;
            },
            StatusIntent::OpenCommit => out.push(StatusAction::OpenCommit),
            StatusIntent::Focus(focus) => {
                let moved = self.switch_focus(focus, panels, options, &mut out);
                state = EventState::from_bool(moved);
            },
            StatusIntent::SelectBranch => out.push(StatusAction::SelectBranch),
            StatusIntent::ForcePush => self.push(true, &mut out),
            StatusIntent::Push => self.push(false, &mut out),
            StatusIntent::Fetch => out.push(StatusAction::FetchRemotes),
            StatusIntent::Pull => match &self.git_branch_name {
                Some(branch) => out.push(StatusAction::Pull(branch.clone())),
                None => {},
            },
            StatusIntent::UndoCommit => {
                out.push(StatusAction::ConfirmUndoCommit);
                out.push(StatusAction::UpdateAll);
            },
            StatusIntent::Abort => match self.git_state {
                RepoState::Merge => out.push(StatusAction::ConfirmAbortMerge),
                RepoState::Rebase => out.push(StatusAction::ConfirmAbortRebase),
                RepoState::Revert => out.push(StatusAction::ConfirmAbortRevert),
                _ => {},
            },
            StatusIntent::ContinueRebase => {
                out.push(StatusAction::ContinueRebase);
                out.push(StatusAction::UpdateAll);
            },
            StatusIntent::ViewSubmodules => out.push(StatusAction::ViewSubmodules),
            StatusIntent::Edit => match &self.preview_key {
                Some((path, _)) => out.push(StatusAction::OpenEditor(path.clone())),
                None => {},
            },
            StatusIntent::ToggleDiffMode => out.push(StatusAction::ToggleDiffMode),
        }
        assert(out@ =~= wanted);
        (state, out)
    }

    // -------------------------------------------------------------- commands

    /// The commands that move the focus.
    pub open spec fn nav_commands(self, panels: Panels, force_all: bool) -> Seq<CommandInfo> {
        let on_diff = self.focus == Focus::Diff;
        seq![
            CommandInfo::of(
                Command::ClosePopup,
                true,
                (self.visible && on_diff) || force_all,
            ).placed(CommandOrder::Navigation),
            CommandInfo::of(
                Command::DiffFocusRight,
                self.can_look(panels),
                (self.visible && !on_diff) || force_all,
            ).placed(CommandOrder::Navigation),
            CommandInfo::of(
                Command::SelectStaging,
                !on_diff,
                (self.visible && self.focus == Focus::WorkDir) || force_all,
            ).placed(CommandOrder::Navigation),
            CommandInfo::of(
                Command::SelectUnstaged,
                !on_diff,
                (self.visible && self.focus == Focus::Stage) || force_all,
            ).placed(CommandOrder::Navigation),
        ]
    }

    /// The commands that work on the repository.
    pub open spec fn repo_commands(self, panels: Panels, force_all: bool) -> Seq<CommandInfo> {
        let on_diff = self.focus == Focus::Diff;
        let rebasing = self.git_state == RepoState::Rebase;
        seq![
            CommandInfo::of(
                Command::CommitOpen,
                true,
                self.commits(panels) || force_all,
            ).placed(CommandOrder::Ahead),
            CommandInfo::of(Command::OpenBranchSelectPopup, true, !on_diff),
            CommandInfo::of(Command::StatusPush, self.pushes(), !on_diff),
            CommandInfo::of(Command::StatusForcePush, true, self.pushes() && !on_diff),
            CommandInfo::of(Command::StatusFetch, self.fetches(), !on_diff),
            CommandInfo::of(Command::StatusPull, self.fetches(), !on_diff),
            CommandInfo::of(Command::UndoCommit, true, (!rebasing && !on_diff) || force_all),
            CommandInfo::of(
                Command::AbortMerge,
                true,
                self.git_state == RepoState::Merge || force_all,
            ),
            CommandInfo::of(Command::ContinueRebase, true, rebasing || force_all),
            CommandInfo::of(Command::AbortRebase, true, rebasing || force_all),
            CommandInfo::of(
                Command::AbortRevert,
                true,
                self.git_state == RepoState::Revert || force_all,
            ),
            CommandInfo::of(Command::ViewSubmodules, true, true),
            CommandInfo::of(Command::DiffToggleMode, true, true).concealed(),
        ]
    }

    /// The commands that the tab offers besides those of its panes.
    pub open spec fn command_list(self, panels: Panels, force_all: bool) -> Seq<CommandInfo> {
        (if self.visible || force_all {
            (if self.right_pane == RightPane::File {
                seq![
                    CommandInfo::of(
                        Command::EditItem,
                        self.preview_key is Some,
                        self.focus == Focus::Diff || force_all,
                    ),
                ]
            } else {
                Seq::empty()
            }) + self.repo_commands(panels, force_all)
        } else {
            Seq::empty()
        }) + self.nav_commands(panels, force_all)
    }

    /// Whether the panes get to add their commands.
    pub fn pumps_commands(&self, force_all: bool) -> (r: bool)
        ensures
            r == (self.visible || force_all),
    {
        self.visible || force_all
    }

    fn commands_nav(&self, out: &mut Vec<CommandInfo>, panels: &Panels, force_all: bool)
        ensures
            final(out)@ == old(out)@ + self.nav_commands(*panels, force_all),
    {
        let on_diff = self.focus == Focus::Diff;
        out.push(
            CommandInfo::new(
                Command::ClosePopup,
                true,
                (self.visible && on_diff) || force_all,
            ).order(CommandOrder::Navigation),
        );
        out.push(
            CommandInfo::new(
                Command::DiffFocusRight,
                self.can_focus_diff(panels),
                (self.visible && !on_diff) || force_all,
            ).order(CommandOrder::Navigation),
        );
        out.push(
            CommandInfo::new(
                Command::SelectStaging,
                !on_diff,
                (self.visible && self.focus == Focus::WorkDir) || force_all,
            ).order(CommandOrder::Navigation),
        );
        out.push(
            CommandInfo::new(
                Command::SelectUnstaged,
                !on_diff,
                (self.visible && self.focus == Focus::Stage) || force_all,
            ).order(CommandOrder::Navigation),
        );
        assert(out@ =~= old(out)@ + self.nav_commands(*panels, force_all));
    }

    /// Add the commands that the tab offers, behind those of its panes.
    pub fn commands(&self, out: &mut Vec<CommandInfo>, panels: &Panels, force_all: bool) -> (r:
        CommandBlocking)
        ensures
            final(out)@ == old(out)@ + self.command_list(*panels, force_all),
            r == if self.visible {
                CommandBlocking::Blocking
            } else {
                CommandBlocking::PassingOn
            },
    {
        let on_diff = self.focus == Focus::Diff;
        let rebasing = self.git_state == RepoState::Rebase;
        if self.visible || force_all {
            if self.right_pane == RightPane::File {
                out.push(
                    CommandInfo::new(
                        Command::EditItem,
                        self.preview_key.is_some(),
                        on_diff || force_all,
                    ),
                );
            }
            let ghost before = out@;
            out.push(
                CommandInfo::new(
                    Command::CommitOpen,
                    true,
                    self.can_commit(panels) || force_all,
                ).order(CommandOrder::Ahead),
            );
            out.push(CommandInfo::new(Command::OpenBranchSelectPopup, true, !on_diff));
            out.push(CommandInfo::new(Command::StatusPush, self.can_push(), !on_diff));
            out.push(
                CommandInfo::new(Command::StatusForcePush, true, self.can_push() && !on_diff),
            );
            out.push(CommandInfo::new(Command::StatusFetch, self.can_fetch(), !on_diff));
            out.push(CommandInfo::new(Command::StatusPull, self.can_fetch(), !on_diff));
            out.push(
                CommandInfo::new(
                    Command::UndoCommit,
                    true,
                    (!rebasing && !on_diff) || force_all,
                ),
            );
            out.push(
                CommandInfo::new(
                    Command::AbortMerge,
                    true,
                    self.git_state == RepoState::Merge || force_all,
                ),
            );
            out.push(CommandInfo::new(Command::ContinueRebase, true, rebasing || force_all));
            out.push(CommandInfo::new(Command::AbortRebase, true, rebasing || force_all));
            out.push(
                CommandInfo::new(
                    Command::AbortRevert,
                    true,
                    self.git_state == RepoState::Revert || force_all,
                ),
            );
            out.push(CommandInfo::new(Command::ViewSubmodules, true, true));
            out.push(CommandInfo::new(Command::DiffToggleMode, true, true).hidden());
            assert(out@ =~= before + self.repo_commands(*panels, force_all));
        }
        self.commands_nav(out, panels, force_all);
        assert(out@ =~= old(out)@ + self.command_list(*panels, force_all));
        visibility_blocking(self.visible)
    }

    // -------------------------------------------------------------- layout

    /// Whether the repository is in the middle of something, which a pane at
    /// the bottom then tells.
    pub fn repo_state_unclean(&self) -> (r: bool)
        ensures
            r == (self.git_state != RepoState::Clean),
    {
        self.git_state != RepoState::Clean
    }

    /// The shares of the left and the right side, in percent: the diff takes
    /// all while it has the focus.
    pub fn columns(&self, left_ratio: u16) -> (r: (u16, u16))
        requires
            left_ratio <= 100,
        ensures
            r.0 + r.1 == 100,
            r.0 == if self.focus == Focus::Diff {
                0
            } else {
                left_ratio
            },
    {
        if self.focus == Focus::Diff {
            (0, 100)
        } else {
            (left_ratio, 100 - left_ratio)
        }
    }

    /// The shares of the working directory and of the index, in percent: the
    /// one that the diff is taken of gets more.
    pub fn rows(&self) -> (r: (u16, u16))
        ensures
            r == if self.diff_target == DiffTarget::WorkingDir {
                (60u16, 40u16)
            } else {
                (40u16, 60u16)
            },
    {
        if self.diff_target == DiffTarget::WorkingDir {
            (60, 40)
        } else {
            (40, 60)
        }
    }

    pub fn is_visible(&self) -> (r: bool)
        ensures
            r == self.visible,
    {
        self.visible
    }

    /// Show the tab or hide it.
    pub fn set_visible(&mut self, visible: bool)
        ensures
            *final(self) == (Status { visible, ..*old(self) }),
    {
        self.visible = visible;
    }
}

// ------------------------------------------------------------------- texts

/// Line counts as they are shown, such as `(+3 -1)`; nothing if all are zero.
pub open spec fn stats_text(stats: (usize, usize)) -> Seq<char> {
    if stats.0 > 0 || stats.1 > 0 {
        "(+"@ + text::digits(stats.0 as nat) + " -"@ + text::digits(stats.1 as nat) + ")"@
    } else {
        Seq::empty()
    }
}

fn line_stats_text(stats: (usize, usize)) -> (r: String)
    ensures
        r@ == stats_text(stats),
{
    let mut out = String::new();
    if stats.0 > 0 || stats.1 > 0 {
        out.append("(+");
        out.append(text::number(stats.0 as u64).as_str());
        out.append(" -");
        out.append(text::number(stats.1 as u64).as_str());
        out.append(")");
        assert(out@ =~= stats_text(stats));
    }
    out
}

/// A branch as it is shown, with how it compares to its upstream.
pub open spec fn branch_text(name: Option<String>, state: Option<BranchCompare>) -> Seq<char> {
    match name {
        Some(name) => "("@ + name@ + match state {
            Some(state) => " \u{2191}"@ + text::digits(state.ahead as nat) + " \u{2193}"@
                + text::digits(state.behind as nat),
            None => Seq::empty(),
        } + ")"@,
        None => Seq::empty(),
    }
}

/// Two texts with a space between them, if there are two.
pub open spec fn spaced(a: Seq<char>, b: Seq<char>) -> Seq<char> {
    if a.len() > 0 && b.len() > 0 {
        a + " "@ + b
    } else {
        a + b
    }
}

/// What the repository is in the middle of, in detail.
#[derive(Debug)]
pub enum RepoStateInfo {
    /// a merge of these commits
    Merge(Vec<CommitId>),
    /// a rebase at a step of many, with the commit that it is at
    Rebase(Option<(usize, usize, Option<CommitId>)>),
    /// a revert of a commit
    Revert(Option<CommitId>),
    /// another state
    Other(RepoState),
}

/// The first seven digits of an id; nothing without one.
pub open spec fn short_text(id: Option<CommitId>) -> Seq<char> {
    match id {
        Some(id) => id.hex().take(7),
        None => Seq::empty(),
    }
}

fn short_string(id: Option<CommitId>) -> (r: String)
    ensures
        r@ == short_text(id),
{
    match id {
        Some(id) => id.get_short_string(),
        None => String::new(),
    }
}

pub open spec fn short_texts(ids: Seq<CommitId>) -> Seq<Seq<char>> {
    Seq::new(ids.len(), |i: int| ids[i].hex().take(7))
}

/// What is told of a repository that is in the middle of something.
pub open spec fn state_text(info: RepoStateInfo) -> Seq<char> {
    match info {
        RepoStateInfo::Merge(ids) => "Commits: "@ + text::joined(short_texts(ids@), ","@),
        RepoStateInfo::Rebase(Some((current, steps, commit))) => "Step: "@ + text::digits(
            (current + 1) as nat,
        ) + "/"@ + text::digits(steps as nat) + " Current Commit: "@ + short_text(commit),
        RepoStateInfo::Rebase(None) => Seq::empty(),
        RepoStateInfo::Revert(head) => "Revert "@ + short_text(head),
        RepoStateInfo::Other(state) => state.title(),
    }
}

/// What is told of a repository that is in the middle of something.
pub fn repo_state_text(info: &RepoStateInfo) -> (r: String)
    requires
        info matches RepoStateInfo::Rebase(Some((current, _, _))) ==> current < usize::MAX,
    ensures
        r@ == state_text(*info),
{
    let mut out = String::new();
    match info {
        RepoStateInfo::Merge(ids) => {
            let mut list = String::new();
            for i in 0..ids.len()
                invariant
                    list@ == text::joined(short_texts(ids@.take(i as int)), ","@),
            {
                proof {
                    let before = short_texts(ids@.take(i as int));
                    let part = ids@[i as int].hex().take(7);
                    assert(short_texts(ids@.take(i + 1)) =~= before.push(part));
                    text::lemma_joined_push(before, ","@, part);
                }
                if i > 0 {
                    list.append(",");
                }
                list.append(ids[i].get_short_string().as_str());
                assert(list@ =~= text::joined(short_texts(ids@.take(i + 1)), ","@));
            }
            assert(ids@.take(ids@.len() as int) =~= ids@);
            out.append("Commits: ");
            out.append(list.as_str());
        },
        RepoStateInfo::Rebase(progress) => match progress {
            Some((current, steps, commit)) => {
                out.append("Step: ");
                out.append(text::number((*current + 1) as u64).as_str());
                out.append("/");
                out.append(text::number(*steps as u64).as_str());
                out.append(" Current Commit: ");
                out.append(short_string(*commit).as_str());
            },
            None => {},
        },
        RepoStateInfo::Revert(head) => {
            out.append("Revert ");
            out.append(short_string(*head).as_str());
        },
        RepoStateInfo::Other(state) => {
            out.append(state.name());
        },
    }
    assert(out@ =~= state_text(*info));
    out
}

impl Status {
    /// What the top border of the working directory shows.
    pub fn branch_line(&self) -> (r: String)
        ensures
            r@ == spaced(
                stats_text(self.unstaged_line_stats),
                branch_text(self.git_branch_name, self.git_branch_state),
            ),
    {
        let stats = line_stats_text(self.unstaged_line_stats);
        let mut branch = String::new();
        match &self.git_branch_name {
            Some(name) => {
                branch.append("(");
                branch.append(name.as_str());
                match &self.git_branch_state {
                    Some(state) => {
                        branch.append(" \u{2191}");
                        branch.append(text::number(state.ahead as u64).as_str());
                        branch.append(" \u{2193}");
                        branch.append(text::number(state.behind as u64).as_str());
                    },
                    None => {},
                }
                branch.append(")");
            },
            None => {},
        }
        assert(branch@ =~= branch_text(self.git_branch_name, self.git_branch_state));
        let mut out = stats.clone();
        if stats.as_str().unicode_len() > 0 && branch.as_str().unicode_len() > 0 {
            out.append(" ");
        }
        out.append(branch.as_str());
        assert(out@ =~= spaced(stats@, branch@));
        out
    }

    /// What the top border of the index shows.
    pub fn staged_line(&self) -> (r: String)
        ensures
            r@ == stats_text(self.staged_line_stats),
    {
        line_stats_text(self.staged_line_stats)
    }

    /// The title of the pane that tells what the repository is in the middle of.
    pub fn state_title(&self) -> (r: String)
        ensures
            r@ == "Pending "@ + self.git_state.title(),
    {
        text::join2("Pending ", self.git_state.name())
    }
}

// ------------------------------------------------------------------- laws

/// Turning to the diff and leaving it again leads back to the list that the
/// selected file is in.
pub proof fn lemma_leaving_the_diff_leads_back(s: Status, a: Panels, b: Panels)
    requires
        s.wf(),
        s.focus != Focus::Diff,
    ensures
        s.focused_on(Focus::Diff, a).focused_on(s.diff_target.home(), b).focus == s.focus,
        s.focused_on(Focus::Diff, a).focused_on(s.diff_target.home(), b).diff_target
            == s.diff_target,
{
}

/// Toggling between the lists twice leads back.
pub proof fn lemma_lists_toggle_back(s: Status, a: Panels, b: Panels)
    requires
        s.wf(),
    ensures
        ({
            let t = s.focused_on(s.focus.toggled(), a);
            t.focused_on(t.focus.toggled(), b).focus == s.focus
        }),
{
}

/// A comparison that is not of the current branch changes nothing.
pub proof fn lemma_stale_comparisons_are_dropped(
    s: Status,
    branch: String,
    state: Option<BranchCompare>,
    panels: Panels,
    counting: bool,
)
    requires
        s.git_branch_name matches Some(current) ==> current@ != branch@,
    ensures
        s.told(GitEvent::BranchCompare(Some((branch, state))), panels, counting) == s,
{
}

/// Nothing can be pushed or fetched on a branch that was not compared yet, such
/// as one that was just switched to.
pub proof fn lemma_nothing_moves_before_the_comparison(
    s: Status,
    branch: String,
    options: DiffOptions,
    counting: bool,
    state: RepoState,
)
    requires
        s.git_branch_state_branch matches Some(compared) ==> compared@ != branch@,
    ensures
        !s.polled(Some(branch), options, counting, state).pushes(),
        !s.polled(Some(branch), options, counting, state).fetches(),
        s.polled(Some(branch), options, counting, state).push_actions(true).len() == 0,
        s.polled(Some(branch), options, counting, state).push_actions(false).len() == 0,
{
}

/// Line counts that are asked for while others are being counted are counted
/// once those are there.
pub proof fn lemma_line_counts_are_not_lost(
    s: Status,
    panels: Panels,
    options: DiffOptions,
    stats: Option<LineStats>,
)
    ensures
        s.stats_requested(true).told_actions(GitEvent::LineStats(stats), panels, options, false)
            == seq![StatusAction::FetchLineStats(s.line_stats_options)],
        !s.stats_requested(true).told(
            GitEvent::LineStats(stats),
            panels,
            false,
        ).line_stats_dirty,
{
}

/// A preview that is there is not loaded again, unless the file may have
/// changed.
pub proof fn lemma_previews_are_loaded_once(s: Status, panels: Panels, options: DiffOptions)
    requires
        s.selected(panels) matches Some(item) && item.status == StatusItemType::New,
    ensures
        ({
            let item = s.selected(panels)->0;
            let staged = s.diff_target == DiffTarget::Stage;
            s.diff_updated(panels, true).diff_actions(panels, options, false)
                == seq![StatusAction::PollDiff(params_of(item, staged, options))]
        }),
{
    let item = s.selected(panels)->0;
    let staged = s.diff_target == DiffTarget::Stage;
    assert(s.diff_updated(panels, true).diff_actions(panels, options, false)
        =~= seq![StatusAction::PollDiff(params_of(item, staged, options))]);
}

/// Each key of the lists does what it is bound to, where that can be done.
pub proof fn lemma_keys_on_the_lists(
    s: Status,
    press: KeyPress,
    panels: Panels,
    options: DiffOptions,
)
    requires
        s.focus != Focus::Diff,
    ensures
        ({
            let actions = s.actions(s.intent(press, panels), panels, options);
            &&& press.is_only(Key::OpenCommit) ==> actions == if !panels.index.empty && s.git_state
                != RepoState::Rebase {
                seq![StatusAction::OpenCommit]
            } else {
                Seq::empty()
            }
            &&& press.is_only(Key::SelectBranch) ==> actions == seq![StatusAction::SelectBranch]
            &&& press.is_only(Key::Push) ==> actions == if s.pushes() {
                seq![StatusAction::ConfirmPush(s.git_branch_name->0, false)]
            } else {
                Seq::empty()
            }
            &&& press.is_only(Key::ForcePush) ==> actions == if s.pushes() {
                seq![StatusAction::ConfirmPush(s.git_branch_name->0, true)]
            } else {
                Seq::empty()
            }
            &&& press.is_only(Key::Fetch) && s.fetches() ==> actions == seq![
                StatusAction::FetchRemotes,
            ]
            &&& press.is_only(Key::Pull) && s.fetches() ==> actions == seq![
                StatusAction::Pull(s.git_branch_name->0),
            ]
            &&& press.is_only(Key::UndoCommit) ==> actions == seq![
                StatusAction::ConfirmUndoCommit,
                StatusAction::UpdateAll,
            ]
            &&& press.is_only(Key::ViewSubmodules) ==> actions == seq![
                StatusAction::ViewSubmodules,
            ]
            &&& press.is_only(Key::DiffModeToggle) ==> actions == seq![
                StatusAction::ToggleDiffMode,
            ]
        }),
{
}

/// What is aborted is what the repository is at, and nothing is where it is at
/// nothing; a rebase can be continued while there is one.
pub proof fn lemma_what_is_aborted(
    s: Status,
    press: KeyPress,
    panels: Panels,
    options: DiffOptions,
)
    ensures
        ({
            let actions = s.actions(s.intent(press, panels), panels, options);
            &&& press.is_only(Key::AbortMerge) && s.git_state == RepoState::Merge ==> actions
                == seq![StatusAction::ConfirmAbortMerge]
            &&& press.is_only(Key::AbortMerge) && s.git_state == RepoState::Rebase ==> actions
                == seq![StatusAction::ConfirmAbortRebase]
            &&& press.is_only(Key::AbortMerge) && s.git_state == RepoState::Revert ==> actions
                == seq![StatusAction::ConfirmAbortRevert]
            &&& press.is_only(Key::AbortMerge) && (s.git_state == RepoState::Clean || s.git_state
                == RepoState::Other) ==> actions.len() == 0
            &&& press.is_only(Key::RebaseBranch) && s.git_state == RepoState::Rebase ==> actions
                == seq![StatusAction::ContinueRebase, StatusAction::UpdateAll]
            &&& press.is_only(Key::RebaseBranch) && s.git_state != RepoState::Rebase
                ==> actions.len() == 0
        }),
{
}

/// Nothing is pushed, pulled, undone or aborted without the key for it, nor from
/// the diff; a push is that of the branch that is checked out, and is forced only
/// by its own key.
pub proof fn lemma_the_repository_changes_by_its_keys(
    s: Status,
    press: KeyPress,
    panels: Panels,
    options: DiffOptions,
    i: int,
)
    requires
        0 <= i < s.actions(s.intent(press, panels), panels, options).len(),
    ensures
        ({
            let action = s.actions(s.intent(press, panels), panels, options)[i];
            &&& action matches StatusAction::ConfirmPush(branch, force) ==> s.focus != Focus::Diff
                && s.git_branch_name == Some(branch) && s.pushes() && if force {
                press.has(Key::ForcePush)
            } else {
                press.has(Key::Push)
            }
            &&& action matches StatusAction::Pull(branch) ==> s.focus != Focus::Diff
                && s.git_branch_name == Some(branch) && s.fetches() && press.has(Key::Pull)
            &&& action is FetchRemotes ==> s.focus != Focus::Diff && s.fetches() && press.has(
                Key::Fetch,
            )
            &&& action is ConfirmUndoCommit ==> s.focus != Focus::Diff && press.has(Key::UndoCommit)
            &&& action is ConfirmAbortMerge ==> s.git_state == RepoState::Merge && press.has(
                Key::AbortMerge,
            )
            &&& action is ConfirmAbortRebase ==> s.git_state == RepoState::Rebase && press.has(
                Key::AbortMerge,
            )
            &&& action is ConfirmAbortRevert ==> s.git_state == RepoState::Revert && press.has(
                Key::AbortMerge,
            )
            &&& action is ContinueRebase ==> s.git_state == RepoState::Rebase && press.has(
                Key::RebaseBranch,
            )
            &&& action is OpenCommit ==> !panels.index.empty && press.has(Key::OpenCommit)
        }),
{
}

/// A branch can be pushed if there is somewhere to push it to and it has been
/// compared with its upstream: if it is ahead of it, or has none.
pub proof fn lemma_when_there_is_something_to_push(s: Status)
    ensures
        s.pushes() ==> s.remotes.has_remote_for_push && s.git_branch_name is Some
            && s.git_branch_state_branch is Some && s.git_branch_name->0@
            == s.git_branch_state_branch->0@,
        s.pushes() && s.git_branch_state is Some ==> s.git_branch_state->0.ahead > 0,
        s.remotes.has_remote_for_push && s.git_branch_name is Some && s.git_branch_state_branch
            is Some && s.git_branch_name->0@ == s.git_branch_state_branch->0@ && (
        s.git_branch_state is None || s.git_branch_state->0.ahead > 0) ==> s.pushes(),
        s.fetches() ==> s.remotes.has_remote_for_fetch && s.git_branch_state is Some,
        s.remotes.has_remote_for_fetch && s.git_branch_state is Some && s.git_branch_name is Some
            && s.git_branch_state_branch is Some && s.git_branch_name->0@
            == s.git_branch_state_branch->0@ ==> s.fetches(),
{
}

/// What is shown beside the lists is the file that is selected in the list that has
/// been looked at last, with its staged changes if that is the index.
pub proof fn lemma_the_selected_file_is_shown(
    s: Status,
    panels: Panels,
    options: DiffOptions,
    refresh: bool,
    item: StatusItem,
    i: int,
)
    requires
        (if s.diff_target == DiffTarget::Stage {
            panels.index.file
        } else {
            panels.workdir.file
        }) == Some(item),
        0 <= i < s.diff_actions(panels, options, refresh).len(),
    ensures
        ({
            let staged = s.diff_target == DiffTarget::Stage;
            let kind = if staged {
                DiffType::Stage
            } else {
                DiffType::WorkDir
            };
            let action = s.diff_actions(panels, options, refresh)[i];
            &&& action matches StatusAction::ShowDiff(params) ==> params.path == item.path
                && params.diff_type == kind && params.options == options
            &&& action matches StatusAction::PollDiff(params) ==> params.path == item.path
                && params.diff_type == kind && params.options == options && item.status
                == StatusItemType::New
            &&& action matches StatusAction::ShowLastDiff(path, shown) ==> path == item.path
                && shown == kind
            &&& action matches StatusAction::LoadPreview(path, from_index) ==> path == item.path
                && from_index == staged && item.status == StatusItemType::New
            &&& !(action is ClearDiff)
        }),
        s.diff_updated(panels, refresh).right_pane == if item.status == StatusItemType::New {
            RightPane::File
        } else {
            RightPane::Diff
        },
{
}

/// A file that is not shown yet is shown: a new one as a whole, another by its
/// diff. Without a file nothing is shown.
pub proof fn lemma_another_file_is_shown(
    s: Status,
    panels: Panels,
    options: DiffOptions,
    refresh: bool,
)
    ensures
        ({
            let staged = s.diff_target == DiffTarget::Stage;
            let file = if staged {
                panels.index.file
            } else {
                panels.workdir.file
            };
            let (shown_path, shown_staged) = (panels.diff.0@, panels.diff.1);
            let actions = s.diff_actions(panels, options, refresh);
            let after = s.diff_updated(panels, refresh);
            &&& (file is Some && file->0.status != StatusItemType::New && !(shown_path
                == file->0.path@ && shown_staged == staged)) ==> (actions.len() > 0
                && actions.last() is ShowDiff)
            &&& (file is Some && file->0.status == StatusItemType::New && refresh) ==> (
            actions.len() > 0 && actions[0] is LoadPreview)
            &&& (file is Some && file->0.status == StatusItemType::New) ==> (
            after.preview_key matches Some((path, from_index)) && path@ == file->0.path@
                && from_index == staged)
            &&& file is None ==> after.right_pane == RightPane::Diff && after.preview_key is None
                && actions == seq![StatusAction::ClearPreview, StatusAction::ClearDiff(false)]
        }),
{
}

/// The focus goes where it is sent, and looking at a list makes it the one whose
/// files are shown; looking at the diff keeps that.
pub proof fn lemma_the_focus_goes_where_it_is_sent(s: Status, focus: Focus, panels: Panels)
    requires
        s.wf(),
    ensures
        ({
            let after = s.focused_on(focus, panels);
            &&& after.focus == focus
            &&& focus == Focus::Stage ==> after.diff_target == DiffTarget::Stage
            &&& focus == Focus::WorkDir ==> after.diff_target == DiffTarget::WorkingDir
            &&& focus == Focus::Diff ==> after.diff_target == s.diff_target
        }),
{
}

/// The keys for the focus: from list to list, to the diff of a file, and back to
/// the list that the file is in.
pub proof fn lemma_keys_move_the_focus(s: Status, press: KeyPress, panels: Panels)
    requires
        s.wf(),
    ensures
        ({
            let intent = s.intent(press, panels);
            &&& press.is_only(Key::ToggleWorkarea) && s.focus == Focus::WorkDir ==> intent
                == StatusIntent::Focus(Focus::Stage)
            &&& press.is_only(Key::ToggleWorkarea) && s.focus == Focus::Stage ==> intent
                == StatusIntent::Focus(Focus::WorkDir)
            &&& press.is_only(Key::ToggleWorkarea) && s.focus == Focus::Diff ==> intent
                == StatusIntent::Ignore
            &&& press.is_only(Key::MoveRight) && s.focus == Focus::WorkDir ==> intent == (
            if panels.workdir.file is Some {
                StatusIntent::Focus(Focus::Diff)
            } else {
                StatusIntent::Ignore
            })
            &&& press.is_only(Key::MoveRight) && s.focus == Focus::Stage ==> intent == (
            if panels.index.file is Some {
                StatusIntent::Focus(Focus::Diff)
            } else {
                StatusIntent::Ignore
            })
            &&& press.is_only(Key::ExitPopup) && s.diff_target == DiffTarget::Stage ==> intent
                == StatusIntent::Focus(Focus::Stage)
            &&& press.is_only(Key::ExitPopup) && s.diff_target == DiffTarget::WorkingDir ==> intent
                == StatusIntent::Focus(Focus::WorkDir)
            &&& press.is_only(Key::MoveDown) && s.focus == Focus::WorkDir && !panels.index.empty
                ==> intent == StatusIntent::Focus(Focus::Stage)
            &&& press.is_only(Key::MoveUp) && s.focus == Focus::Stage && !panels.workdir.empty
                ==> intent == StatusIntent::Focus(Focus::WorkDir)
        }),
{
}

/// What git work reports is taken in: line counts as they are, and a comparison if
/// it is that of the branch that is checked out.
pub proof fn lemma_reports_are_taken_in(
    s: Status,
    stats: LineStats,
    branch: String,
    compared: Option<BranchCompare>,
    panels: Panels,
    counting: bool,
)
    ensures
        ({
            let counted = s.told(GitEvent::LineStats(Some(stats)), panels, counting);
            let known = s.told(GitEvent::BranchCompare(Some((branch, compared))), panels, counting);
            &&& counted.staged_line_stats == stats.staged
            &&& counted.unstaged_line_stats == stats.unstaged
            &&& (s.git_branch_name is Some && s.git_branch_name->0@ == branch@) ==> (
            known.git_branch_state == compared && known.git_branch_state_branch == Some(branch))
        }),
{
}

/// After files were staged or unstaged, the focus leaves a list that has become
/// empty, for one that has files where there is one.
pub proof fn lemma_the_focus_leaves_an_empty_list(
    s: Status,
    staged_empty: bool,
    workdir_empty: bool,
)
    ensures
        ({
            let next = s.next_focus(staged_empty, workdir_empty);
            &&& next is Some ==> s.git_action_executed
            &&& next == Some(Focus::Stage) ==> s.focus == Focus::WorkDir && workdir_empty
                && !staged_empty
            &&& next == Some(Focus::WorkDir) ==> s.focus == Focus::Stage && staged_empty
            &&& next != Some(Focus::Diff)
            &&& s.git_action_executed && s.focus == Focus::WorkDir && workdir_empty
                && !staged_empty ==> next is Some
            &&& s.git_action_executed && s.focus == Focus::Stage && staged_empty ==> next is Some
        }),
{
}

/// A poll looks at everything again: the diff and the status; the branch is
/// compared if another one is checked out, and lines are counted anew if other
/// options apply.
pub proof fn lemma_polls_look_at_everything(
    s: Status,
    looked_up: Option<String>,
    untracked: ShowUntrackedFilesConfig,
    options: DiffOptions,
    counting: bool,
    state: RepoState,
)
    ensures
        ({
            let actions = s.poll_actions(looked_up, untracked, options, counting);
            let after = s.polled(looked_up, options, counting, state);
            &&& actions.contains(StatusAction::RefreshDiff)
            &&& actions.contains(StatusAction::FetchStatus(untracked))
            &&& (looked_up is Some && (s.git_branch_name is None || s.git_branch_name->0@
                != looked_up->0@)) ==> actions.contains(
                StatusAction::CompareBranch(looked_up->0),
            )
            &&& options != s.line_stats_options && !counting ==> actions.contains(
                StatusAction::FetchLineStats(options),
            )
            &&& options != s.line_stats_options && counting ==> after.line_stats_dirty
            &&& after.git_state == state
            &&& after.line_stats_options == options
            &&& looked_up is Some ==> after.git_branch_name == looked_up
            &&& looked_up is None ==> after.git_branch_name == s.git_branch_name
        }),
{
    let actions = s.poll_actions(looked_up, untracked, options, counting);
    let name = match looked_up {
        Some(branch) => Some(branch),
        None => s.git_branch_name,
    };
    let head = if !same_text(looked_up, s.git_branch_name) {
        compare_actions(name)
    } else {
        Seq::empty()
    };
    let n = head.len() as int;
    assert(actions[n] == StatusAction::RefreshDiff);
    assert(actions[n + 1] == StatusAction::FetchStatus(untracked));
    if looked_up is Some && (s.git_branch_name is None || s.git_branch_name->0@
        != looked_up->0@) {
        assert(actions[0] == StatusAction::CompareBranch(looked_up->0));
    }
    if options != s.line_stats_options && !counting {
        assert(actions[n + 2] == StatusAction::FetchLineStats(options));
    }
}

/// The counts of lines are told with their signs, and not at all where nothing
/// was changed.
pub proof fn lemma_line_counts_are_told(added: usize, deleted: usize)
    ensures
        added == 0 && deleted == 0 <==> stats_text((added, deleted)).len() == 0,
        added > 0 || deleted > 0 ==> stats_text((added, deleted)) == "(+"@ + text::digits(
            added as nat,
        ) + " -"@ + text::digits(deleted as nat) + ")"@,
{
    reveal_strlit("(+");
}

/// A branch is told by its name; how far it is ahead comes before how far it is
/// behind.
pub proof fn lemma_branches_are_told(name: String, state: BranchCompare)
    ensures
        branch_text(None, Some(state)).len() == 0,
        branch_text(Some(name), None) == "("@ + name@ + ")"@,
        branch_text(Some(name), Some(state)) == "("@ + name@ + (" \u{2191}"@ + text::digits(
            state.ahead as nat,
        ) + " \u{2193}"@ + text::digits(state.behind as nat)) + ")"@,
{
    assert("("@ + name@ + Seq::<char>::empty() =~= "("@ + name@);
}

/// Two texts are parted by a blank, one stands alone.
pub proof fn lemma_texts_are_parted(a: Seq<char>, b: Seq<char>)
    ensures
        b.len() == 0 ==> spaced(a, b) == a,
        a.len() == 0 ==> spaced(a, b) == b,
        a.len() > 0 && b.len() > 0 ==> spaced(a, b).len() == a.len() + 1 + b.len() && spaced(
            a,
            b,
        ).take(a.len() as int) == a && spaced(a, b).skip(a.len() as int + 1) == b && spaced(
            a,
            b,
        )[a.len() as int] == ' ',
{
    reveal_strlit(" ");
    assert(b.len() == 0 ==> spaced(a, b) =~= a);
    assert(a.len() == 0 ==> spaced(a, b) =~= b);
    if a.len() > 0 && b.len() > 0 {
        assert(spaced(a, b).take(a.len() as int) =~= a);
        assert(spaced(a, b).skip(a.len() as int + 1) =~= b);
    }
}

/// What the repository is in the middle of is told by what it is and by the
/// commits it is about, each by the start of its id; the steps of a rebase are
/// counted from one on.
pub proof fn lemma_states_are_told(
    ids: Vec<CommitId>,
    current: usize,
    steps: usize,
    id: CommitId,
)
    ensures
        state_text(RepoStateInfo::Merge(ids)) == "Commits: "@ + text::joined(
            Seq::new(ids@.len(), |i: int| ids@[i].hex().take(7)),
            ","@,
        ),
        state_text(RepoStateInfo::Rebase(Some((current, steps, Some(id))))) == "Step: "@
            + text::digits((current + 1) as nat) + "/"@ + text::digits(steps as nat)
            + " Current Commit: "@ + id.hex().take(7),
        state_text(RepoStateInfo::Rebase(None)).len() == 0,
        state_text(RepoStateInfo::Revert(Some(id))) == "Revert "@ + id.hex().take(7),
        state_text(RepoStateInfo::Other(RepoState::Other)) == "Other"@,
        RepoState::Clean.title() == "Clean"@,
        RepoState::Merge.title() == "Merge"@,
        RepoState::Rebase.title() == "Rebase"@,
        RepoState::Revert.title() == "Revert"@,
{
    assert(Seq::new(ids@.len(), |i: int| ids@[i].hex().take(7)) =~= short_texts(ids@));
}

/// Of the two panes at the right the one that is shown has the focus, where the
/// right side has it.
pub proof fn lemma_the_right_pane_has_the_focus(tab: Status)
    ensures
        ({
            let after = tab.right_synced();
            &&& after.panes.diff <==> tab.focus == Focus::Diff && tab.right_pane
                == RightPane::Diff
            &&& after.panes.preview <==> tab.focus == Focus::Diff && tab.right_pane
                == RightPane::File
            &&& after.panes.index == tab.panes.index
            &&& after.panes.workdir == tab.panes.workdir
            &&& after.focus == tab.focus
        }),
{
}

/// What the repository is in the middle of decides what is offered: a merge, a
/// rebase or a revert can be aborted only while it runs, and nothing is committed
/// in the middle of a rebase.
pub proof fn lemma_offered_commands_of_the_tab(tab: Status, panels: Panels, i: int)
    requires
        0 <= i < tab.repo_commands(panels, false).len(),
    ensures
        ({
            let c = tab.repo_commands(panels, false)[i];
            &&& c.command == Command::AbortMerge ==> (c.available <==> tab.git_state
                == RepoState::Merge)
            &&& c.command == Command::AbortRebase ==> (c.available <==> tab.git_state
                == RepoState::Rebase)
            &&& c.command == Command::ContinueRebase ==> (c.available <==> tab.git_state
                == RepoState::Rebase)
            &&& c.command == Command::AbortRevert ==> (c.available <==> tab.git_state
                == RepoState::Revert)
            &&& c.command == Command::CommitOpen ==> (c.available <==> !panels.index.empty
                && tab.git_state != RepoState::Rebase)
            &&& c.command == Command::UndoCommit ==> (c.available <==> tab.git_state
                != RepoState::Rebase && tab.focus != Focus::Diff)
            &&& c.command == Command::StatusPush ==> (c.enabled <==> tab.pushes())
            &&& c.command == Command::StatusForcePush ==> (c.available <==> tab.pushes()
                && tab.focus != Focus::Diff)
            &&& c.command == Command::StatusFetch || c.command == Command::StatusPull ==> (
            c.enabled <==> tab.fetches())
        }),
{
}

/// The diff is offered from the list that has the focus, where a file is selected
/// there.
pub proof fn lemma_offered_moves_of_the_tab(tab: Status, panels: Panels, i: int)
    requires
        tab.visible,
        0 <= i < tab.nav_commands(panels, false).len(),
    ensures
        ({
            let c = tab.nav_commands(panels, false)[i];
            &&& c.command == Command::DiffFocusRight ==> (c.available <==> tab.focus
                != Focus::Diff)
            &&& c.command == Command::DiffFocusRight && tab.focus == Focus::WorkDir ==> (c.enabled
                <==> panels.workdir.file is Some)
            &&& c.command == Command::DiffFocusRight && tab.focus == Focus::Stage ==> (c.enabled
                <==> panels.index.file is Some)
            &&& c.command == Command::ClosePopup ==> (c.available <==> tab.focus == Focus::Diff)
            &&& c.command == Command::SelectStaging ==> (c.available <==> tab.focus
                == Focus::WorkDir)
            &&& c.command == Command::SelectUnstaged ==> (c.available <==> tab.focus
                == Focus::Stage)
        }),
{
}

/// The list that gets the focus shows its selection and the other one does not;
/// the diff leaves that as it was.
pub proof fn lemma_the_focused_list_shows_its_selection(tab: Status)
    ensures
        ({
            let stage = tab.turned_to(Focus::Stage);
            let workdir = tab.turned_to(Focus::WorkDir);
            let diff = tab.turned_to(Focus::Diff);
            &&& stage.panes.index && stage.panes.index_selection && !stage.panes.workdir
                && !stage.panes.workdir_selection
            &&& workdir.panes.workdir && workdir.panes.workdir_selection && !workdir.panes.index
                && !workdir.panes.index_selection
            &&& !diff.panes.index && !diff.panes.workdir
            &&& diff.panes.index_selection == tab.panes.index_selection
            &&& diff.panes.workdir_selection == tab.panes.workdir_selection
        }),
{
}

} // verus!
