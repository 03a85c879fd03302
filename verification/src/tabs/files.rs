//! The tab with the files of the current commit.
use crate::asyncgit::sync::tree::TreeFile;
use crate::asyncgit::sync::CommitId;
use crate::components::revision_files::{
    self, CommitInfo, RevisionAction, RevisionActionView, RevisionFilesComponent, TreeLoadState,
    TreeSelection,
};
use crate::components::{
    visibility_blocking, CommandBlocking, CommandInfo, EventState, Key, KeyPress,
};
use crate::text;
use vstd::prelude::*;

verus! {

/// What the head of the repository is.
#[derive(Debug)]
pub enum Head {
    /// a commit: itself, or why it could not be read, and a listing of files that
    /// was finished meanwhile
    Commit(
        CommitId,
        Result<CommitInfo, String>,
        Option<(CommitId, Result<Vec<TreeFile>, String>)>,
    ),
    /// there is none
    NoHead,
    /// a branch without commits
    Unborn,
    Failed(String),
}

/// The tab with the files of the current commit.
pub struct FilesTab {
    pub visible: bool,
    pub files: RevisionFilesComponent,
}

/// What an event led to.
#[derive(Debug)]
pub enum FilesStep {
    /// look for the head again
    ReadHead,
    Actions(Vec<RevisionAction>),
}

impl FilesTab {
    /// A hidden tab.
    pub fn new(select_file: Option<String>) -> (r: FilesTab)
        ensures
            !r.visible,
            r.files.files is None,
            r.files.load_state == TreeLoadState::Loading,
            !r.files.visible,
            r.files.revision is None,
            r.files.requested_commit is None,
            r.files.select_file == select_file,
    {
        FilesTab { visible: false, files: RevisionFilesComponent::new(select_file) }
    }

    /// Show the tab; the head has to be looked for then.
    pub fn show(&mut self)
        ensures
            *final(self) == (FilesTab { visible: true, ..*old(self) }),
    {
        self.visible = true;
    }

    /// Take in the head.
    pub fn update(&mut self, head: Head) -> (r: Vec<RevisionAction>)
        ensures
            final(self).visible == old(self).visible,
            if !old(self).visible {
                *final(self) == *old(self) && r@.len() == 0
            } else {
                let before = old(self).files;
                let after = final(self).files;
                match head {
                    Head::Commit(id, info, done) => before.set_to(
                        id,
                        info,
                        done,
                        after,
                        text::views(r@),
                    ),
                    Head::NoHead | Head::Unborn => {
                        &&& after == (RevisionFilesComponent {
                            revision: None,
                            requested_commit: None,
                            files: None,
                            load_state: TreeLoadState::NoCommits,
                            ..before
                        })
                        &&& text::views(r@) == seq![
                            RevisionActionView::ClearTree,
                            RevisionActionView::ClearPreview,
                        ]
                    },
                    Head::Failed(error) => {
                        &&& after == (RevisionFilesComponent {
                            revision: None,
                            requested_commit: None,
                            files: None,
                            load_state: after.load_state,
                            ..before
                        })
                        &&& after.load_state@ == revision_files::failed(
                            "Unable to read HEAD: "@,
                            error@,
                        )
                        &&& text::views(r@) == seq![
                            RevisionActionView::ClearTree,
                            RevisionActionView::ClearPreview,
                        ]
                    },
                }
            },
    {
        if !self.visible {
            return Vec::new();
        }
        match head {
            Head::Commit(id, info, done) => self.files.set_commit(id, info, done),
            Head::NoHead | Head::Unborn => self.files.set_no_commits(),
            Head::Failed(error) => self.files.set_head_error(error.as_str()),
        }
    }

    /// Whether a key press asks for the head again.
    pub open spec fn retries_head(self, press: KeyPress) -> bool {
        self.files.retries() && self.files.revision is None && press.has(Key::Enter)
    }

    /// React to a key press that the tree has seen already.
    pub fn event(
        &mut self,
        press: &KeyPress,
        tree_moved: bool,
        selected: &Option<TreeSelection>,
    ) -> (r: (EventState, FilesStep))
        ensures
            final(self).visible == old(self).visible,
            if !old(self).visible {
                &&& *final(self) == *old(self)
                &&& r.0 == EventState::NotConsumed
                &&& r.1 matches FilesStep::Actions(a) && a@.len() == 0
            } else if old(self).retries_head(*press) {
                *final(self) == *old(self) && r.0 == EventState::Consumed && r.1 is ReadHead
            } else {
                let intent = old(self).files.intent(*press, tree_moved);
                &&& final(self).files == old(self).files.after(intent, *selected)
                &&& r.1 matches FilesStep::Actions(a) && text::views(a@)
                    == old(self).files.actions(intent, *selected)
                &&& r.0 == old(self).files.uses(intent, *selected)
            },
    {
        if !self.visible {
            return (EventState::NotConsumed, FilesStep::Actions(Vec::new()));
        }
        if self.files.can_retry() && self.files.revision().is_none() && press.is(Key::Enter) {
            return (EventState::Consumed, FilesStep::ReadHead);
        }
        let (state, actions) = self.files.event(press, tree_moved, selected);
        (state, FilesStep::Actions(actions))
    }

    /// Add the commands that the tab offers.
    pub fn commands(
        &self,
        out: &mut Vec<CommandInfo>,
        selected: &Option<TreeSelection>,
        tree_empty: bool,
        has_search: bool,
        force_all: bool,
    ) -> (r: CommandBlocking)
        ensures
            final(out)@ == old(out)@ + if self.visible || force_all {
                self.files.command_list(*selected, tree_empty, has_search, force_all)
            } else {
                Seq::empty()
            },
            r == if self.files.copy_popup && (force_all || self.visible && self.files.visible) {
                CommandBlocking::Blocking
            } else {
                CommandBlocking::PassingOn
            },
    {
        if self.visible || force_all {
            return self.files.commands(out, selected, tree_empty, has_search, force_all);
        }
        assert(out@ =~= old(out)@ + Seq::<CommandInfo>::empty());
        visibility_blocking(false)
    }
}

/// A repository without commits can be looked at again, and shows the files of
/// its first commit then.
pub proof fn lemma_first_commits_are_found(
    tab: FilesTab,
    press: KeyPress,
    commit: CommitId,
    info: CommitInfo,
    after: RevisionFilesComponent,
    actions: Seq<RevisionActionView>,
)
    requires
        tab.files.load_state == TreeLoadState::NoCommits,
        tab.files.revision is None,
        press.has(Key::Enter),
        tab.files.set_to(commit, Ok(info), None, after, actions),
    ensures
        tab.retries_head(press),
        after.revision == Some(info),
        !after.retries(),
{
}

/// The commit is looked for again only where the key is pressed, no commit is
/// shown and what was tried has come to its end.
pub proof fn lemma_when_the_commit_is_looked_for_again(tab: FilesTab, press: KeyPress)
    ensures
        tab.retries_head(press) ==> press.has(Key::Enter) && tab.files.revision is None,
        tab.retries_head(press) ==> tab.files.load_state != TreeLoadState::Loading,
        tab.files.revision is Some ==> !tab.retries_head(press),
        press.has(Key::Enter) && tab.files.revision is None && (tab.files.load_state
            == TreeLoadState::NoCommits || tab.files.load_state is Failed) ==> tab.retries_head(
            press,
        ),
{
}

} // verus!
