//! The popup that shows a commit.
use crate::asyncgit::diff::{self, is_same_params, DiffParams, DiffType};
use crate::asyncgit::sync::status::{StatusItem, StatusItemType};
use crate::asyncgit::sync::{CommitId, DiffOptions};
use crate::components::{
    visibility_blocking, Command, CommandBlocking, CommandInfo, CommandOrder, EventState, Key,
    KeyPress,
};
use crate::text;
use vstd::prelude::*;
use vstd::string::*;

verus! {

/// A commit to be shown.
#[derive(Debug, PartialEq, Eq)]
pub struct InspectCommitOpen {
    pub commit_id: CommitId,
    /// the commit that it is compared with, if it is
    pub compare_id: Option<CommitId>,
    pub tags: Option<Vec<String>>,
}

impl InspectCommitOpen {
    /// A commit without tags.
    pub fn new(commit_id: CommitId) -> (r: InspectCommitOpen)
        ensures
            r == (InspectCommitOpen { commit_id, compare_id: None, tags: None }),
    {
        InspectCommitOpen { commit_id, compare_id: None, tags: None }
    }

    /// A commit with its tags.
    pub fn new_with_tags(commit_id: CommitId, tags: Option<Vec<String>>) -> (r: InspectCommitOpen)
        ensures
            r == (InspectCommitOpen { commit_id, compare_id: None, tags }),
    {
        InspectCommitOpen { commit_id, compare_id: None, tags }
    }
}

/// The names of tags, if they are known.
pub open spec fn tag_names(tags: Option<Vec<String>>) -> Option<Seq<String>> {
    match tags {
        Some(tags) => Some(tags@),
        None => None,
    }
}

fn clone_tags(tags: &Option<Vec<String>>) -> (r: Option<Vec<String>>)
    ensures
        tag_names(r) == tag_names(*tags),
{
    match tags {
        Some(tags) => Some(text::clone_strings(tags)),
        None => None,
    }
}

/// Whether a file is shown as a whole: one that was added has nothing to be
/// compared with.
pub fn uses_full_file_preview(status: StatusItemType) -> (r: bool)
    ensures
        r == (status == StatusItemType::New),
{
    match status {
        StatusItemType::New => true,
        _ => false,
    }
}

/// What the right side of the popup shows.
#[derive(Clone, Copy, Debug, PartialEq, Eq, Structural)]
pub enum RightPane {
    Diff,
    File,
}

/// What happens outside of the popup, in this order.
#[derive(Debug)]
pub enum InspectAction {
    ShowDetails,
    FocusDetails(bool),
    /// show the details of the commit that is open, with its tags
    SetCommit(CommitId, Option<Vec<String>>),
    /// look at the selected file again
    UpdateDiff,
    ClearPreview,
    LoadPreview(String, CommitId),
    /// show the diff that was computed last
    ShowLastDiff(String),
    RequestDiff(DiffParams),
    /// show no diff; it may still be on its way
    ClearDiff(bool),
    ToggleDiffMode,
    ApplyDelta,
    /// open the popup again when another one is closed
    PushStack(InspectCommitOpen),
    PopStack,
    OpenExternalDiff(String, CommitId),
    OpenEditor(String),
    OpenFileTree(CommitId),
}

/// What a notification tells.
#[derive(Clone, Copy, Debug, PartialEq, Eq, Structural)]
pub enum InspectNotification {
    CommitFiles,
    Diff,
    Delta,
    Other,
}

/// What a key press asks for.
#[derive(Clone, Copy, Debug, PartialEq, Eq, Structural)]
pub enum InspectIntent {
    Back,
    FocusRight,
    Leave,
    ExternalDiff,
    Edit,
    ToggleMode,
    FileTree,
    Nothing,
}

/// The popup that shows a commit.
#[derive(Debug)]
pub struct InspectCommitPopup {
    pub open_request: Option<InspectCommitOpen>,
    pub right_pane: RightPane,
    /// the file whose contents are shown
    pub preview_key: Option<(CommitId, String)>,
    pub visible: bool,
    pub diff_focused: bool,
    pub preview_focused: bool,
}

impl InspectCommitPopup {
    /// What holds of every popup: only the pane that is shown has the focus.
    pub open spec fn wf(self) -> bool {
        &&& self.diff_focused ==> self.right_pane == RightPane::Diff
        &&& self.preview_focused ==> self.right_pane == RightPane::File
    }

    /// A popup that is not open.
    pub fn new() -> (r: InspectCommitPopup)
        ensures
            r.wf(),
            r == (InspectCommitPopup {
                open_request: None,
                right_pane: RightPane::Diff,
                preview_key: None,
                visible: false,
                diff_focused: false,
                preview_focused: false,
            }),
    {
        InspectCommitPopup {
            open_request: None,
            right_pane: RightPane::Diff,
            preview_key: None,
            visible: false,
            diff_focused: false,
            preview_focused: false,
        }
    }

    /// Whether the right side has the focus.
    pub open spec fn on_right(self) -> bool {
        match self.right_pane {
            RightPane::Diff => self.diff_focused,
            RightPane::File => self.preview_focused,
        }
    }

    /// Whether the right side has the focus.
    pub fn right_focused(&self) -> (r: bool)
        ensures
            r == self.on_right(),
    {
        match self.right_pane {
            RightPane::Diff => self.diff_focused,
            RightPane::File => self.preview_focused,
        }
    }

    pub open spec fn with_right_focus(self, focused: bool) -> InspectCommitPopup {
        InspectCommitPopup {
            diff_focused: focused && self.right_pane == RightPane::Diff,
            preview_focused: focused && self.right_pane == RightPane::File,
            ..self
        }
    }

    fn set_right_focus(&mut self, focused: bool)
        ensures
            *final(self) == old(self).with_right_focus(focused),
    {
        self.diff_focused = focused && self.right_pane == RightPane::Diff;
        self.preview_focused = focused && self.right_pane == RightPane::File;
    }

    /// Another pane on the right takes over the focus.
    pub open spec fn with_pane(self, pane: RightPane) -> InspectCommitPopup {
        InspectCommitPopup { right_pane: pane, ..self }.with_right_focus(self.on_right())
    }

    fn set_right_pane(&mut self, pane: RightPane)
        ensures
            *final(self) == old(self).with_pane(pane),
    {
        let focused = self.right_focused();
        self.right_pane = pane;
        self.set_right_focus(focused);
    }

    /// Whether actions bring the popup up to date: the details show the commit
    /// with its tags, and the selected file is looked at again.
    pub open spec fn is_refresh(self, actions: Seq<InspectAction>) -> bool {
        match self.open_request {
            Some(request) => {
                &&& actions.len() == 2
                &&& actions[0] matches InspectAction::SetCommit(id, tags) && id
                    == request.commit_id && tag_names(tags) == tag_names(request.tags)
                &&& actions[1] == InspectAction::UpdateDiff
            },
            None => actions.len() == 0,
        }
    }

    fn update(&self) -> (r: Vec<InspectAction>)
        ensures
            self.is_refresh(r@),
    {
        let mut out: Vec<InspectAction> = Vec::new();
        match &self.open_request {
            Some(request) => {
                out.push(InspectAction::SetCommit(request.commit_id, clone_tags(&request.tags)));
                out.push(InspectAction::UpdateDiff);
            },
            None => {},
        }
        out
    }

    pub open spec fn shown(self) -> InspectCommitPopup {
        InspectCommitPopup { visible: true, ..self }.with_right_focus(false)
    }

    /// Show the popup, with the focus on the left.
    pub fn show(&mut self) -> (r: Vec<InspectAction>)
        ensures
            final(self).wf(),
            *final(self) == old(self).shown(),
            r@.len() >= 2,
            r@.take(2) == seq![InspectAction::ShowDetails, InspectAction::FocusDetails(true)],
            old(self).is_refresh(r@.skip(2)),
    {
        self.visible = true;
        self.set_right_focus(false);
        let mut out: Vec<InspectAction> = Vec::new();
        out.push(InspectAction::ShowDetails);
        out.push(InspectAction::FocusDetails(true));
        let mut rest = self.update();
        let ghost more = rest@;
        out.append(&mut rest);
        assert(out@.take(2) =~= seq![
            InspectAction::ShowDetails,
            InspectAction::FocusDetails(true),
        ]);
        assert(out@.skip(2) =~= more);
        out
    }

    /// Show a commit.
    pub fn open(&mut self, open: InspectCommitOpen) -> (r: Vec<InspectAction>)
        ensures
            final(self).wf(),
            *final(self) == (InspectCommitPopup {
                open_request: Some(open),
                ..*old(self)
            }).shown(),
            r@.len() >= 2,
            r@.take(2) == seq![InspectAction::ShowDetails, InspectAction::FocusDetails(true)],
            final(self).is_refresh(r@.skip(2)),
    {
        self.open_request = Some(open);
        self.show()
    }

    /// What follows a notification.
    pub fn update_git(&self, ev: InspectNotification) -> (r: Vec<InspectAction>)
        ensures
            if !self.visible {
                r@.len() == 0
            } else {
                match ev {
                    InspectNotification::CommitFiles => self.is_refresh(r@),
                    InspectNotification::Diff => r@ == seq![InspectAction::UpdateDiff],
                    InspectNotification::Delta => r@ == seq![InspectAction::ApplyDelta],
                    InspectNotification::Other => r@.len() == 0,
                }
            },
    {
        let mut out: Vec<InspectAction> = Vec::new();
        if self.visible {
            match ev {
                InspectNotification::CommitFiles => {
                    return self.update();
                },
                InspectNotification::Diff => out.push(InspectAction::UpdateDiff),
                InspectNotification::Delta => out.push(InspectAction::ApplyDelta),
                InspectNotification::Other => {},
            }
        }
        assert(self.visible && ev == InspectNotification::Diff ==> out@ =~= seq![
            InspectAction::UpdateDiff,
        ]);
        assert(self.visible && ev == InspectNotification::Delta ==> out@ =~= seq![
            InspectAction::ApplyDelta,
        ]);
        out
    }

    pub open spec fn previews(self, commit: CommitId, path: Seq<char>) -> bool {
        self.preview_key matches Some((id, p)) && id == commit && p@ == path
    }

    /// Whether the selected file is looked at: there is one, and a commit.
    pub open spec fn looks_at(self, file: Option<StatusItem>) -> bool {
        self.open_request is Some && file is Some
    }

    /// The popup after another file was selected.
    pub open spec fn on_file(self, file: Option<StatusItem>) -> InspectCommitPopup {
        if !self.visible {
            self
        } else if self.looks_at(file) && file->0.status == StatusItemType::New {
            let id = self.open_request->0.commit_id;
            InspectCommitPopup {
                preview_key: if self.previews(id, file->0.path@) {
                    self.preview_key
                } else {
                    Some((id, file->0.path))
                },
                ..self.with_pane(RightPane::File)
            }
        } else {
            InspectCommitPopup { preview_key: None, ..self.with_pane(RightPane::Diff) }
        }
    }

    /// What follows the selection of another file. A diff that was computed last
    /// is shown at once.
    pub open spec fn file_actions(
        self,
        file: Option<StatusItem>,
        options: DiffOptions,
        last: Option<DiffParams>,
    ) -> Seq<InspectAction> {
        if !self.visible {
            Seq::empty()
        } else if !self.looks_at(file) {
            seq![InspectAction::ClearPreview, InspectAction::ClearDiff(false)]
        } else {
            let id = self.open_request->0.commit_id;
            let path = file->0.path;
            let params = DiffParams { path, diff_type: DiffType::Commit(id), options };
            if file->0.status == StatusItemType::New {
                if self.previews(id, path@) {
                    Seq::empty()
                } else {
                    seq![InspectAction::ClearPreview, InspectAction::LoadPreview(path, id)]
                }
            } else if last is Some && diff::same_params(last->0, params) {
                seq![InspectAction::ClearPreview, InspectAction::ShowLastDiff(path)]
            } else {
                seq![
                    InspectAction::ClearPreview,
                    InspectAction::RequestDiff(params),
                    InspectAction::ClearDiff(true),
                ]
            }
        }
    }

    /// Show the selected file. `last` is what the last diff was computed for.
    pub fn update_diff(
        &mut self,
        file: &Option<StatusItem>,
        options: DiffOptions,
        last: &Option<DiffParams>,
    ) -> (r: Vec<InspectAction>)
        requires
            old(self).wf(),
        ensures
            final(self).wf(),
            *final(self) == old(self).on_file(*file),
            r@ == old(self).file_actions(*file, options, *last),
    {
        let mut out: Vec<InspectAction> = Vec::new();
        let ghost wanted = self.file_actions(*file, options, *last);
        if !self.visible {
            assert(out@ =~= wanted);
            return out;
        }
        let commit: Option<CommitId> = match &self.open_request {
            Some(request) => Some(request.commit_id),
            None => None,
        };
        match (commit, file) {
            (Some(id), Some(file)) => {
                if uses_full_file_preview(file.status) {
                    let known = match &self.preview_key {
                        Some((old_id, path)) => *old_id == id && text::same(
                            path.as_str(),
                            file.path.as_str(),
                        ),
                        None => false,
                    };
                    self.set_right_pane(RightPane::File);
                    if !known {
                        out.push(InspectAction::ClearPreview);
                        out.push(InspectAction::LoadPreview(file.path.clone(), id));
                        self.preview_key = Some((id, file.path.clone()));
                    }
                } else {
                    self.set_right_pane(RightPane::Diff);
                    self.preview_key = None;
                    out.push(InspectAction::ClearPreview);
                    let params = DiffParams {
                        path: file.path.clone(),
                        diff_type: DiffType::Commit(id),
                        options,
                    };
                    let computed = match last {
                        Some(last) => is_same_params(last, &params),
                        None => false,
                    };
                    if computed {
                        out.push(InspectAction::ShowLastDiff(file.path.clone()));
                    } else {
                        out.push(InspectAction::RequestDiff(params));
                        out.push(InspectAction::ClearDiff(true));
                    }
                }
            },
            _ => {
                self.set_right_pane(RightPane::Diff);
                self.preview_key = None;
                out.push(InspectAction::ClearPreview);
                out.push(InspectAction::ClearDiff(false));
            },
        }
        assert(out@ =~= wanted);
        out
    }

    /// The popup after it was hidden, for good or until it is needed again.
    pub open spec fn hidden_stacked(self, stack: bool) -> InspectCommitPopup {
        InspectCommitPopup {
            visible: false,
            open_request: if stack {
                None
            } else {
                self.open_request
            },
            ..self
        }
    }

    pub open spec fn stack_actions(self, stack: bool) -> Seq<InspectAction> {
        if stack {
            match self.open_request {
                Some(request) => seq![InspectAction::PushStack(request)],
                None => Seq::empty(),
            }
        } else {
            seq![InspectAction::PopStack]
        }
    }

    fn hide_stacked(&mut self, stack: bool) -> (r: Vec<InspectAction>)
        ensures
            *final(self) == old(self).hidden_stacked(stack),
            r@ == old(self).stack_actions(stack),
    {
        let mut out: Vec<InspectAction> = Vec::new();
        self.visible = false;
        if stack {
            match self.open_request.take() {
                Some(request) => out.push(InspectAction::PushStack(request)),
                None => {},
            }
        } else {
            out.push(InspectAction::PopStack);
        }
        assert(out@ =~= old(self).stack_actions(stack));
        out
    }

    /// What a key press asks for.
    pub open spec fn intent(
        self,
        press: KeyPress,
        file: Option<StatusItem>,
        files_focused: bool,
    ) -> InspectIntent {
        if press.has(Key::ExitPopup) {
            if self.on_right() {
                InspectIntent::Back
            } else {
                InspectIntent::Leave
            }
        } else if press.has(Key::MoveRight) && file is Some {
            InspectIntent::FocusRight
        } else if press.has(Key::MoveLeft) {
            if self.on_right() {
                InspectIntent::Back
            } else {
                InspectIntent::Leave
            }
        } else if files_focused && press.has(Key::ExternalDiff) {
            InspectIntent::ExternalDiff
        } else if self.right_pane == RightPane::File && self.on_right() && press.has(Key::EditFile) {
            InspectIntent::Edit
        } else if press.has(Key::DiffModeToggle) {
            InspectIntent::ToggleMode
        } else if press.has(Key::OpenFileTree) {
            InspectIntent::FileTree
        } else {
            InspectIntent::Nothing
        }
    }

    fn key_intent(
        &self,
        press: &KeyPress,
        file: &Option<StatusItem>,
        files_focused: bool,
    ) -> (r: InspectIntent)
        ensures
            r == self.intent(*press, *file, files_focused),
    {
        if press.is(Key::ExitPopup) {
            if self.right_focused() {
                InspectIntent::Back
            } else {
                InspectIntent::Leave
            }
        } else if press.is(Key::MoveRight) && file.is_some() {
            InspectIntent::FocusRight
        } else if press.is(Key::MoveLeft) {
            if self.right_focused() {
                InspectIntent::Back
            } else {
                InspectIntent::Leave
            }
        } else if files_focused && press.is(Key::ExternalDiff) {
            InspectIntent::ExternalDiff
        } else if self.right_pane == RightPane::File && self.right_focused() && press.is(
            Key::EditFile,
        ) {
            InspectIntent::Edit
        } else if press.is(Key::DiffModeToggle) {
            InspectIntent::ToggleMode
        } else if press.is(Key::OpenFileTree) {
            InspectIntent::FileTree
        } else {
            InspectIntent::Nothing
        }
    }

    /// The popup after a key press.
    pub open spec fn after(self, intent: InspectIntent) -> InspectCommitPopup {
        match intent {
            InspectIntent::Back => self.with_right_focus(false),
            InspectIntent::Leave => self.hidden_stacked(false),
            InspectIntent::FocusRight => self.with_right_focus(true),
            InspectIntent::FileTree => if self.open_request is Some {
                self.hidden_stacked(true)
            } else {
                self
            },
            _ => self,
        }
    }

    /// What follows a key press.
    pub open spec fn actions(self, intent: InspectIntent, file: Option<StatusItem>) -> Seq<
        InspectAction,
    > {
        match intent {
            InspectIntent::Back => seq![InspectAction::FocusDetails(true)],
            InspectIntent::Leave => self.stack_actions(false),
            InspectIntent::FocusRight => seq![InspectAction::FocusDetails(false)],
            InspectIntent::ExternalDiff => match (self.open_request, file) {
                (Some(request), Some(file)) => seq![
                    InspectAction::OpenExternalDiff(file.path, request.commit_id),
                ],
                _ => Seq::empty(),
            },
            InspectIntent::Edit => match self.preview_key {
                Some((_, path)) => seq![InspectAction::OpenEditor(path)],
                None => Seq::empty(),
            },
            InspectIntent::ToggleMode => seq![InspectAction::ToggleDiffMode],
            InspectIntent::FileTree => match self.open_request {
                Some(request) => seq![
                    InspectAction::PushStack(request),
                    InspectAction::OpenFileTree(request.commit_id),
                ],
                None => Seq::empty(),
            },
            InspectIntent::Nothing => Seq::empty(),
        }
    }

    /// React to an event. `pumped` tells whether a part of the popup has used it
    /// up, and `details_visible` whether the details are still shown then;
    /// `press` is the key, if it is one.
    pub fn event(
        &mut self,
        pumped: bool,
        details_visible: bool,
        press: Option<&KeyPress>,
        file: &Option<StatusItem>,
        files_focused: bool,
    ) -> (r: (EventState, Vec<InspectAction>))
        requires
            old(self).wf(),
        ensures
            final(self).wf(),
            if !old(self).visible {
                &&& *final(self) == *old(self)
                &&& r.0 == EventState::NotConsumed
                &&& r.1@.len() == 0
            } else if pumped {
                &&& r.0 == EventState::Consumed
                &&& if details_visible {
                    *final(self) == *old(self) && r.1@.len() == 0
                } else {
                    &&& *final(self) == old(self).hidden_stacked(true)
                    &&& r.1@ == old(self).stack_actions(true)
                }
            } else {
                match press {
                    Some(press) => {
                        let intent = old(self).intent(*press, *file, files_focused);
                        &&& *final(self) == old(self).after(intent)
                        &&& r.1@ == old(self).actions(intent, *file)
                        &&& r.0 == EventState::of(
                            intent != InspectIntent::FileTree || old(self).open_request is Some,
                        )
                    },
                    None => {
                        &&& *final(self) == *old(self)
                        &&& r.0 == EventState::NotConsumed
                        &&& r.1@.len() == 0
                    },
                }
            },
    {
        let mut out: Vec<InspectAction> = Vec::new();
        if !self.visible {
            return (EventState::NotConsumed, out);
        }
        if pumped {
            if !details_visible {
                out = self.hide_stacked(true);
            }
            return (EventState::Consumed, out);
        }
        let press = match press {
            Some(press) => press,
            None => {
                return (EventState::NotConsumed, out);
            },
        };
        let intent = self.key_intent(press, file, files_focused);
        let ghost wanted = self.actions(intent, *file);
        let mut used = true;
        match intent {
            InspectIntent::Back => {
                out.push(InspectAction::FocusDetails(true));
                self.set_right_focus(false);
            },
            InspectIntent::Leave => {
                out = self.hide_stacked(false);
            },
            InspectIntent::FocusRight => {
                out.push(InspectAction::FocusDetails(false));
                self.set_right_focus(true);
            },
            InspectIntent::ExternalDiff => match (&self.open_request, file) {
                (Some(request), Some(file)) => {
                    out.push(
                        InspectAction::OpenExternalDiff(file.path.clone(), request.commit_id),
                    );
                },
                _ => {},
            },
            InspectIntent::Edit => match &self.preview_key {
                Some((_, path)) => out.push(InspectAction::OpenEditor(path.clone())),
                None => {},
            },
            InspectIntent::ToggleMode => out.push(InspectAction::ToggleDiffMode),
            InspectIntent::FileTree => {
                let commit: Option<CommitId> = match &self.open_request {
                    Some(request) => Some(request.commit_id),
                    None => None,
                };
                match commit {
                    Some(id) => {
                        out = self.hide_stacked(true);
                        out.push(InspectAction::OpenFileTree(id));
                    },
                    None => {
                        used = false;
                    },
                }
            },
            InspectIntent::Nothing => {},
        }
        assert(out@ =~= wanted);
        (EventState::from_bool(used), out)
    }

    /// The commands that the popup offers behind those of its parts.
    pub open spec fn command_list(
        self,
        has_file: bool,
        files_focused: bool,
        force_all: bool,
    ) -> Seq<CommandInfo> {
        if self.visible || force_all {
            let left = !self.on_right() || force_all;
            let right = self.on_right() || force_all;
            seq![
                CommandInfo::of(Command::ClosePopup, true, true).placed(CommandOrder::Behind),
                CommandInfo::of(Command::DiffFocusRight, has_file, left),
                CommandInfo::of(Command::ExternalDiff, has_file && files_focused, left),
                CommandInfo::of(Command::DiffFocusLeft, true, right),
            ] + if self.right_pane == RightPane::File {
                seq![CommandInfo::of(Command::EditItem, self.preview_key is Some, right)]
            } else {
                Seq::empty()
            } + seq![
                CommandInfo::of(Command::InspectFileTree, true, true),
                CommandInfo::of(Command::DiffToggleMode, true, true).concealed(),
            ]
        } else {
            Seq::empty()
        }
    }

    /// Add the commands that the popup offers behind those of its parts.
    /// `has_file` tells whether a file is selected.
    pub fn commands(
        &self,
        out: &mut Vec<CommandInfo>,
        has_file: bool,
        files_focused: bool,
        force_all: bool,
    ) -> (r: CommandBlocking)
        ensures
            final(out)@ == old(out)@ + self.command_list(has_file, files_focused, force_all),
            r == if self.visible {
                CommandBlocking::Blocking
            } else {
                CommandBlocking::PassingOn
            },
    {
        if self.visible || force_all {
            let left = !self.right_focused() || force_all;
            let right = self.right_focused() || force_all;
            out.push(
                CommandInfo::new(Command::ClosePopup, true, true).order(CommandOrder::Behind),
            );
            out.push(CommandInfo::new(Command::DiffFocusRight, has_file, left));
            out.push(CommandInfo::new(Command::ExternalDiff, has_file && files_focused, left));
            out.push(CommandInfo::new(Command::DiffFocusLeft, true, right));
            if self.right_pane == RightPane::File {
                out.push(CommandInfo::new(Command::EditItem, self.preview_key.is_some(), right));
            }
            out.push(CommandInfo::new(Command::InspectFileTree, true, true));
            out.push(CommandInfo::new(Command::DiffToggleMode, true, true).hidden());
        }
        assert(out@ =~= old(out)@ + self.command_list(has_file, files_focused, force_all));
        visibility_blocking(self.visible)
    }

    /// The shares of both sides, in percent. The side with the focus takes all.
    pub fn columns(&self, left_ratio: u16) -> (r: (u16, u16))
        requires
            left_ratio <= 100,
        ensures
            r == if self.on_right() {
                (0u16, 100u16)
            } else {
                (left_ratio, (100 - left_ratio) as u16)
            },
    {
        if self.right_focused() {
            (0, 100)
        } else {
            (left_ratio, 100 - left_ratio)
        }
    }
}

// ----------------------------------------------------------------------- laws

/// Whatever file is selected, the right side keeps the focus, or stays without.
pub proof fn lemma_files_keep_the_focus(popup: InspectCommitPopup, file: Option<StatusItem>)
    ensures
        popup.on_file(file).on_right() == popup.on_right(),
{
}

/// Going to the right and back leads to where it started.
pub proof fn lemma_focus_comes_back(popup: InspectCommitPopup)
    requires
        popup.wf(),
        !popup.on_right(),
    ensures
        popup.after(InspectIntent::FocusRight).on_right(),
        popup.after(InspectIntent::FocusRight).after(InspectIntent::Back) == popup,
{
}

/// The contents of a file are loaded once, however often it is looked at.
pub proof fn lemma_files_are_loaded_once(
    popup: InspectCommitPopup,
    file: StatusItem,
    options: DiffOptions,
    last: Option<DiffParams>,
)
    requires
        popup.visible,
        popup.open_request is Some,
        file.status == StatusItemType::New,
    ensures
        popup.on_file(Some(file)).file_actions(Some(file), options, last).len() == 0,
{
}

/// Each key has its own effect.
pub proof fn lemma_keys_of_the_popup(
    popup: InspectCommitPopup,
    press: KeyPress,
    file: Option<StatusItem>,
    files_focused: bool,
)
    ensures
        ({
            let intent = popup.intent(press, file, files_focused);
            &&& (press.is_only(Key::ExitPopup) || press.is_only(Key::MoveLeft)) && popup.on_right()
                ==> intent == InspectIntent::Back
            &&& (press.is_only(Key::ExitPopup) || press.is_only(Key::MoveLeft))
                && !popup.on_right() ==> intent == InspectIntent::Leave
            &&& press.is_only(Key::MoveRight) && file is Some ==> intent
                == InspectIntent::FocusRight
            &&& press.is_only(Key::MoveRight) && file is None ==> intent == InspectIntent::Nothing
            &&& press.is_only(Key::ExternalDiff) && files_focused ==> intent
                == InspectIntent::ExternalDiff
            &&& press.is_only(Key::ExternalDiff) && !files_focused ==> intent
                == InspectIntent::Nothing
            &&& press.is_only(Key::EditFile) ==> (intent == InspectIntent::Edit <==> (
            popup.right_pane == RightPane::File && popup.preview_focused))
            &&& press.is_only(Key::DiffModeToggle) ==> intent == InspectIntent::ToggleMode
            &&& press.is_only(Key::OpenFileTree) ==> intent == InspectIntent::FileTree
            &&& intent == InspectIntent::Edit ==> press.has(Key::EditFile)
            &&& intent == InspectIntent::Leave ==> press.has(Key::ExitPopup) || press.has(
                Key::MoveLeft,
            )
        }),
{
}

/// The popup is left by going back to what was shown before; it makes room for
/// the files of the commit only by remembering the commit.
pub proof fn lemma_the_popup_is_left(
    popup: InspectCommitPopup,
    intent: InspectIntent,
    file: Option<StatusItem>,
)
    ensures
        popup.visible && !popup.after(intent).visible ==> intent == InspectIntent::Leave || intent
            == InspectIntent::FileTree,
        !popup.after(InspectIntent::Leave).visible,
        popup.actions(InspectIntent::Leave, file) == seq![InspectAction::PopStack],
        popup.open_request is Some ==> {
            &&& !popup.after(InspectIntent::FileTree).visible
            &&& popup.actions(InspectIntent::FileTree, file) == seq![
                InspectAction::PushStack(popup.open_request->0),
                InspectAction::OpenFileTree(popup.open_request->0.commit_id),
            ]
        },
        popup.open_request is None ==> popup.after(InspectIntent::FileTree) == popup
            && popup.actions(InspectIntent::FileTree, file).len() == 0,
{
}

/// What is asked for outside of the popup speaks of the commit that is shown
/// and of the file that is selected.
pub proof fn lemma_the_shown_commit_is_meant(popup: InspectCommitPopup, file: StatusItem)
    requires
        popup.open_request is Some,
    ensures
        popup.actions(InspectIntent::ExternalDiff, Some(file)) == seq![
            InspectAction::OpenExternalDiff(file.path, popup.open_request->0.commit_id),
        ],
        popup.actions(InspectIntent::ExternalDiff, None).len() == 0,
        popup.preview_key is Some ==> popup.actions(InspectIntent::Edit, Some(file)) == seq![
            InspectAction::OpenEditor((popup.preview_key->0).1),
        ],
        popup.preview_key is None ==> popup.actions(InspectIntent::Edit, Some(file)).len() == 0,
        popup.actions(InspectIntent::ToggleMode, Some(file)) == seq![
            InspectAction::ToggleDiffMode,
        ],
        popup.actions(InspectIntent::Nothing, Some(file)).len() == 0,
        popup.after(InspectIntent::Nothing) == popup,
{
}

/// A file that was added is shown as a whole, any other by its difference to
/// the commit before.
pub proof fn lemma_the_selected_file_is_looked_at(
    popup: InspectCommitPopup,
    file: StatusItem,
    options: DiffOptions,
    last: Option<DiffParams>,
)
    requires
        popup.visible,
        popup.open_request is Some,
    ensures
        ({
            let id = popup.open_request->0.commit_id;
            let after = popup.on_file(Some(file));
            let actions = popup.file_actions(Some(file), options, last);
            &&& after.right_pane == RightPane::File <==> file.status == StatusItemType::New
            &&& file.status == StatusItemType::New ==> after.previews(id, file.path@)
            &&& file.status != StatusItemType::New ==> after.preview_key is None
            &&& file.status == StatusItemType::New && !popup.previews(id, file.path@) ==> actions
                == seq![InspectAction::ClearPreview, InspectAction::LoadPreview(file.path, id)]
            &&& file.status != StatusItemType::New ==> actions.len() > 0 && actions[0]
                == InspectAction::ClearPreview
            &&& file.status != StatusItemType::New && last is None ==> actions.contains(
                InspectAction::RequestDiff(
                    DiffParams { path: file.path, diff_type: DiffType::Commit(id), options },
                ),
            )
            &&& after.visible
            &&& after.open_request == popup.open_request
        }),
{
    let id = popup.open_request->0.commit_id;
    let actions = popup.file_actions(Some(file), options, last);
    if file.status != StatusItemType::New && last is None {
        assert(actions[1] == InspectAction::RequestDiff(
            DiffParams { path: file.path, diff_type: DiffType::Commit(id), options },
        ));
    }
}

/// A difference that is there already is drawn and not asked for again; one
/// with other options, of another file or of another commit is asked for.
pub proof fn lemma_known_differences_are_drawn(
    popup: InspectCommitPopup,
    file: StatusItem,
    options: DiffOptions,
    last: DiffParams,
)
    requires
        popup.visible,
        popup.open_request is Some,
        file.status != StatusItemType::New,
    ensures
        ({
            let id = popup.open_request->0.commit_id;
            let actions = popup.file_actions(Some(file), options, Some(last));
            let known = last.path@ == file.path@ && last.diff_type == DiffType::Commit(id)
                && last.options == options;
            &&& known ==> actions == seq![
                InspectAction::ClearPreview,
                InspectAction::ShowLastDiff(file.path),
            ]
            &&& !known ==> actions.len() == 3 && actions[1] is RequestDiff
                && actions[1]->RequestDiff_0.path@ == file.path@
                && actions[1]->RequestDiff_0.diff_type == DiffType::Commit(id)
                && actions[1]->RequestDiff_0.options == options
        }),
{
}

/// Without a commit or a file nothing is shown, and a popup that is not
/// visible does nothing.
pub proof fn lemma_nothing_to_look_at(
    popup: InspectCommitPopup,
    file: Option<StatusItem>,
    options: DiffOptions,
    last: Option<DiffParams>,
)
    ensures
        !popup.visible ==> popup.on_file(file) == popup && popup.file_actions(
            file,
            options,
            last,
        ).len() == 0,
        popup.visible && (file is None || popup.open_request is None) ==> {
            &&& popup.file_actions(file, options, last) == seq![
                InspectAction::ClearPreview,
                InspectAction::ClearDiff(false),
            ]
            &&& popup.on_file(file).preview_key is None
            &&& popup.on_file(file).right_pane == RightPane::Diff
        },
{
}

/// A popup that is shown has the focus on its left side, and one that makes
/// room remembers its commit by the stack alone.
pub proof fn lemma_where_the_popup_starts(popup: InspectCommitPopup)
    ensures
        popup.shown().visible,
        !popup.shown().on_right(),
        popup.shown().open_request == popup.open_request,
        popup.hidden_stacked(true).open_request is None,
        popup.hidden_stacked(false).open_request == popup.open_request,
        !popup.hidden_stacked(true).visible && !popup.hidden_stacked(false).visible,
        popup.open_request is Some ==> popup.stack_actions(true) == seq![
            InspectAction::PushStack(popup.open_request->0),
        ],
        popup.open_request is None ==> popup.stack_actions(true).len() == 0,
        popup.stack_actions(false) == seq![InspectAction::PopStack],
{
}

} // verus!
