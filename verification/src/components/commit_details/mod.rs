//! The panel with the details of a commit and its files.
pub mod details;

use crate::asyncgit::sync::status::StatusItem;
use crate::asyncgit::sync::{CommitId, OldNew};
use crate::components::commit_details::details::{
    CommitDetails, DetailsComponent, DetailsFocus, DetailsIntent, InfoLabels,
};
use crate::components::status_tree::{StatusTreeComponent, TreeAction};
use crate::components::statustree::{self, TreeError};
use crate::components::{CommandBlocking, CommandInfo, EventState, Key, KeyPress};
use crate::text;
use vstd::prelude::*;
use vstd::string::*;

verus! {

/// The part of the panel that has the focus.
#[derive(Clone, Copy, Debug, PartialEq, Eq, Structural)]
pub enum Focus {
    Nothing,
    Info,
    Message,
    Files,
}

/// Whose files are shown: those of a commit, or those that differ from another.
#[derive(Clone, Copy, Debug, PartialEq, Eq, Hash, Structural)]
pub struct CommitFilesParams {
    pub id: CommitId,
    pub other: Option<CommitId>,
}

/// The panel with the details of a commit and its files.
pub struct CommitDetailsComponent {
    pub commit: Option<CommitFilesParams>,
    pub single_details: DetailsComponent,
    /// the commits whose comparison is shown
    pub compared: Option<OldNew>,
    /// whether the comparison has the focus
    pub compare_focused: bool,
    pub file_tree: StatusTreeComponent,
    /// whether files are being fetched
    pub fetching: bool,
    pub visible: bool,
    pub focus: Focus,
}

/// The title above the files.
pub open spec fn files_title(title: Seq<char>, count: usize) -> Seq<char> {
    title + " "@ + text::digits(count as nat)
}

impl CommitDetailsComponent {
    /// What holds of every panel: the focus is with the part that the panel
    /// says it is with.
    pub open spec fn wf(self) -> bool {
        &&& self.file_tree.wf()
        &&& self.file_tree.focused == (self.focus == Focus::Files)
        &&& !(self.single_details.details_focused && self.compare_focused)
        &&& (self.single_details.details_focused || self.compare_focused) == (self.focus
            == Focus::Info || self.focus == Focus::Message)
        &&& self.focus == Focus::Info ==> self.single_details.on_info()
        &&& self.focus == Focus::Message ==> self.compare_focused
            || self.single_details.on_message()
    }

    /// A hidden panel without a commit.
    pub fn new() -> (r: CommitDetailsComponent)
        ensures
            r.wf(),
            r.commit is None,
            r.single_details.data is None,
            r.single_details.tags@.len() == 0,
            r.compared is None,
            !r.compare_focused,
            r.file_tree.tree.items@.len() == 0,
            r.file_tree.title@.len() == 0,
            r.file_tree.pending,
            r.file_tree.current_hash == 0,
            !r.file_tree.visible,
            !r.fetching,
            !r.visible,
            r.focus == Focus::Nothing,
    {
        proof {
            reveal_strlit("");
        }
        CommitDetailsComponent {
            commit: None,
            single_details: DetailsComponent::new(false),
            compared: None,
            compare_focused: false,
            file_tree: StatusTreeComponent::new("", false),
            fetching: false,
            visible: false,
            focus: Focus::Nothing,
        }
    }

    pub open spec fn compares(self) -> bool {
        self.commit matches Some(params) && params.other is Some
    }

    /// Whether two commits are compared.
    pub fn is_compare(&self) -> (r: bool)
        ensures
            r == self.compares(),
    {
        match self.commit {
            Some(params) => params.other.is_some(),
            None => false,
        }
    }

    fn get_files_title(&self, title: &str) -> (r: String)
        ensures
            r@ == files_title(title@, self.file_tree.tree.files),
    {
        let count = text::number(self.file_tree.file_count() as u64);
        text::join3(title, " ", count.as_str())
    }

    /// Whether the details after `self` show a commit from its start.
    pub open spec fn single_shows(
        before: DetailsComponent,
        data: Option<CommitDetails>,
        tags: Seq<String>,
        after: DetailsComponent,
    ) -> bool {
        &&& after.tags@ == tags
        &&& after == (DetailsComponent {
            data,
            tags: after.tags,
            scroll: before.scroll.to_top(),
            info_scroll: before.info_scroll.to_top(),
            ..before
        })
    }

    /// Whether the files that were asked for are those that were fetched.
    pub open spec fn is_fetched(
        params: CommitFilesParams,
        fetched: Option<(CommitFilesParams, Vec<StatusItem>, u64)>,
    ) -> bool {
        fetched matches Some((id, _, _)) && id == params
    }

    /// Show a commit or a comparison. The data of the commit is what could be
    /// read of it; `fetched` are the files that were fetched last, with their
    /// hash. Tells whether files have to be fetched.
    pub fn set_commits(
        &mut self,
        params: Option<CommitFilesParams>,
        data: Option<CommitDetails>,
        tags: Option<Vec<String>>,
        fetched: Option<(CommitFilesParams, Vec<StatusItem>, u64)>,
        title: &str,
    ) -> (r: Result<bool, TreeError>)
        requires
            old(self).wf(),
        ensures
            final(self).wf(),
            final(self).commit == params,
            final(self).compare_focused == old(self).compare_focused,
            final(self).visible == old(self).visible,
            final(self).focus == old(self).focus,
            final(self).fetching == (old(self).fetching || r == Ok::<bool, TreeError>(true)),
            final(self).compared == match params {
                Some(params) => match params.other {
                    Some(other) => Some(OldNew { new: params.id, old: other }),
                    None => old(self).compared,
                },
                None => None,
            },
            match params {
                Some(params) => if params.other is None {
                    Self::single_shows(
                        old(self).single_details,
                        data,
                        match tags {
                            Some(tags) => tags@,
                            None => Seq::empty(),
                        },
                        final(self).single_details,
                    )
                } else {
                    final(self).single_details == old(self).single_details
                },
                None => Self::single_shows(
                    old(self).single_details,
                    None,
                    Seq::empty(),
                    final(self).single_details,
                ),
            },
            match params {
                Some(params) => {
                    let tree = StatusTreeComponent {
                        revision: Some(params.id),
                        ..old(self).file_tree
                    };
                    let shown = StatusTreeComponent {
                        title: tree.title,
                        ..final(self).file_tree
                    };
                    if Self::is_fetched(params, fetched) {
                        let list = (fetched->0).1@;
                        let hash = (fetched->0).2;
                        &&& r is Err <==> tree.current_hash != hash && statustree::list_refusal(
                            list,
                        ) is Some
                        &&& r matches Err(error) ==> statustree::list_refusal(list) == Some(error)
                            && final(self).file_tree == (StatusTreeComponent {
                            pending: false,
                            ..tree
                        })
                        &&& r matches Ok(fetch) ==> !fetch && tree.shows(list, hash, shown)
                    } else {
                        r == Ok::<bool, TreeError>(true) && tree.clears(shown)
                    }
                },
                None => {
                    &&& r == Ok::<bool, TreeError>(false)
                    &&& final(self).file_tree == (StatusTreeComponent {
                        title: final(self).file_tree.title,
                        ..old(self).file_tree
                    })
                },
            },
            r is Ok ==> final(self).file_tree.title@ == files_title(
                title@,
                final(self).file_tree.tree.files,
            ),
    {
        self.commit = params;
        let mut fetch = false;
        match params {
            None => {
                self.single_details.set_commit(None, None);
                self.compared = None;
            },
            Some(id) => {
                self.file_tree.set_commit(Some(id.id));
                match id.other {
                    Some(other) => {
                        self.compared = Some(OldNew { new: id.id, old: other });
                    },
                    None => self.single_details.set_commit(data, tags),
                }
                let mut known = false;
                match &fetched {
                    Some((fetched_id, list, hash)) => {
                        if *fetched_id == id {
                            known = true;
                            match self.file_tree.update(list, *hash) {
                                Ok(_) => {},
                                Err(e) => {
                                    return Err(e);
                                },
                            }
                        }
                    },
                    None => {},
                }
                if !known {
                    let _cleared = self.file_tree.clear();
                    fetch = true;
                    self.fetching = true;
                }
            },
        }
        let title = self.get_files_title(title);
        self.file_tree.set_title(title);
        Ok(fetch)
    }

    /// Whether files are being fetched.
    pub fn any_work_pending(&self) -> (r: bool)
        ensures
            r == self.fetching,
    {
        self.fetching
    }

    /// Note that the files that were being fetched are there.
    pub fn files_fetched(&mut self)
        ensures
            *final(self) == (CommitDetailsComponent { fetching: false, ..*old(self) }),
    {
        self.fetching = false;
    }

    /// The files of the commit.
    pub fn files(&self) -> (r: &StatusTreeComponent)
        ensures
            *r == self.file_tree,
    {
        &self.file_tree
    }

    // -------------------------------------------------------------- focus

    /// The panel with the focus on one of its parts. A comparison has no data
    /// to look at; its message takes the focus instead.
    pub open spec fn focused_on(self, focus: Focus) -> CommitDetailsComponent {
        let cleared = CommitDetailsComponent {
            single_details: self.single_details.unfocused(),
            compare_focused: false,
            file_tree: StatusTreeComponent {
                focused: false,
                show_selection: false,
                ..self.file_tree
            },
            ..self
        };
        match focus {
            Focus::Nothing => CommitDetailsComponent { focus, ..cleared },
            Focus::Info => if self.compares() {
                CommitDetailsComponent { compare_focused: true, focus: Focus::Message, ..cleared }
            } else {
                CommitDetailsComponent {
                    single_details: cleared.single_details.focused_on(DetailsFocus::Info),
                    focus,
                    ..cleared
                }
            },
            Focus::Message => if self.compares() {
                CommitDetailsComponent { compare_focused: true, focus, ..cleared }
            } else {
                CommitDetailsComponent {
                    single_details: cleared.single_details.focused_on(DetailsFocus::Message),
                    focus,
                    ..cleared
                }
            },
            Focus::Files => CommitDetailsComponent {
                file_tree: StatusTreeComponent {
                    focused: true,
                    show_selection: true,
                    ..self.file_tree
                },
                focus,
                ..cleared
            },
        }
    }

    /// Give the focus to one of the parts.
    pub fn set_focus(&mut self, focus: Focus)
        requires
            old(self).wf(),
        ensures
            final(self).wf(),
            *final(self) == old(self).focused_on(focus),
    {
        self.single_details.set_focused(false);
        self.compare_focused = false;
        self.file_tree.focus(false);
        let compare = self.is_compare();
        match focus {
            Focus::Nothing => {},
            Focus::Info => {
                if compare {
                    self.compare_focused = true;
                    self.focus = Focus::Message;
                    return;
                }
                self.single_details.set_focus(DetailsFocus::Info);
            },
            Focus::Message => {
                if compare {
                    self.compare_focused = true;
                } else {
                    self.single_details.set_focus(DetailsFocus::Message);
                }
            },
            Focus::Files => {
                self.file_tree.focus(true);
                self.file_tree.show_selection(true);
            },
        }
        self.focus = focus;
    }

    /// Take the focus from every part, so that it stays with the commit list.
    pub fn focus_details(&mut self)
        requires
            old(self).wf(),
        ensures
            final(self).wf(),
            *final(self) == old(self).focused_on(Focus::Nothing),
    {
        self.set_focus(Focus::Nothing);
    }

    /// Give the focus to the files, or take it from the panel.
    pub fn set_focused(&mut self, focus: bool)
        requires
            old(self).wf(),
        ensures
            final(self).wf(),
            *final(self) == old(self).focused_on(
                if focus {
                    Focus::Files
                } else {
                    Focus::Nothing
                },
            ),
    {
        if focus {
            self.set_focus(Focus::Files);
        } else {
            self.set_focus(Focus::Nothing);
        }
    }

    pub fn focused(&self) -> (r: bool)
        ensures
            r == (self.focus != Focus::Nothing),
    {
        self.focus != Focus::Nothing
    }

    pub fn is_visible(&self) -> (r: bool)
        ensures
            r == self.visible,
    {
        self.visible
    }

    /// Show the panel, and its files with it.
    pub fn show(&mut self)
        ensures
            *final(self) == (CommitDetailsComponent {
                visible: true,
                file_tree: StatusTreeComponent { visible: true, ..old(self).file_tree },
                ..*old(self)
            }),
    {
        self.visible = true;
        self.file_tree.set_visible(true);
    }

    /// The heights of the details and of the files: a number of rows for a
    /// comparison, else shares in percent, of which the part with the focus
    /// gets more.
    pub fn heights(&self) -> (r: (bool, u16, u16))
        ensures
            r == if self.compares() {
                (true, 10u16, 0u16)
            } else if self.focus == Focus::Info || self.focus == Focus::Message {
                (false, 60u16, 40u16)
            } else {
                (false, 40u16, 60u16)
            },
    {
        if self.is_compare() {
            (true, 10, 0)
        } else if self.focus == Focus::Info || self.focus == Focus::Message {
            (false, 60, 40)
        } else {
            (false, 40, 60)
        }
    }

    // -------------------------------------------------------------- keys

    /// Where a key press moves the focus to, from part to part.
    pub open spec fn next_focus(self, press: KeyPress) -> Option<Focus> {
        if self.focus == Focus::Nothing || self.compares() {
            None
        } else if press.has(Key::MoveDown) || press.has(Key::PopupDown) {
            match self.focus {
                Focus::Info => Some(Focus::Message),
                Focus::Message => Some(Focus::Files),
                _ => None,
            }
        } else if press.has(Key::MoveUp) || press.has(Key::PopupUp) {
            match self.focus {
                Focus::Files => Some(Focus::Message),
                Focus::Message => Some(Focus::Info),
                _ => None,
            }
        } else {
            None
        }
    }

    fn focus_step(&self, press: &KeyPress) -> (r: Option<Focus>)
        ensures
            r == self.next_focus(*press),
    {
        if self.focus == Focus::Nothing || self.is_compare() {
            return None;
        }
        let down = press.is(Key::MoveDown) || press.is(Key::PopupDown);
        let up = press.is(Key::MoveUp) || press.is(Key::PopupUp);
        if down {
            match self.focus {
                Focus::Info => Some(Focus::Message),
                Focus::Message => Some(Focus::Files),
                _ => None,
            }
        } else if up {
            match self.focus {
                Focus::Files => Some(Focus::Message),
                Focus::Message => Some(Focus::Info),
                _ => None,
            }
        } else {
            None
        }
    }

    /// The commands that the parts of the panel offer. `compare` are those of the
    /// comparison.
    pub open spec fn command_list(self, compare: Seq<CommandInfo>, force_all: bool) -> Seq<
        CommandInfo,
    > {
        if self.visible || force_all {
            self.single_details.command_list(force_all) + compare + self.file_tree.command_list(
                force_all,
            )
        } else {
            Seq::empty()
        }
    }

    /// Add the commands that the parts of the panel offer.
    pub fn commands(
        &self,
        out: &mut Vec<CommandInfo>,
        compare: &Vec<CommandInfo>,
        force_all: bool,
    ) -> (r: CommandBlocking)
        requires
            self.wf(),
        ensures
            final(out)@ == old(out)@ + self.command_list(compare@, force_all),
            r == CommandBlocking::PassingOn,
    {
        if self.visible || force_all {
            let ghost before = out@;
            self.single_details.commands(out, force_all);
            let ghost single = out@;
            for i in 0..compare.len()
                invariant
                    out@ == single + compare@.take(i as int),
            {
                out.push(compare[i]);
                assert(out@ =~= single + compare@.take(i + 1));
            }
            assert(compare@.take(compare@.len() as int) =~= compare@);
            self.file_tree.commands(out, force_all);
            assert(out@ =~= before + self.command_list(compare@, force_all));
        } else {
            assert(out@ =~= old(out)@ + self.command_list(compare@, force_all));
        }
        CommandBlocking::PassingOn
    }

    /// Whether the details of a single commit use a key press up.
    pub open spec fn used_by_single(self, press: KeyPress) -> bool {
        match self.single_details.intent(press) {
            DetailsIntent::Ignore => false,
            DetailsIntent::Copy => true,
            DetailsIntent::Scroll(how) => self.single_details.scrolled(how)
                != self.single_details,
        }
    }

    /// The details of a single commit after a key press.
    pub open spec fn single_after(self, press: KeyPress) -> DetailsComponent {
        match self.single_details.intent(press) {
            DetailsIntent::Scroll(how) => self.single_details.scrolled(how),
            _ => self.single_details,
        }
    }

    /// React to a key press; `used_by_compare` tells whether the comparison
    /// used it up. What no part uses up may move the focus from part to part.
    /// The text is what has to be copied, the actions are those of the files.
    pub fn event(&mut self, press: &KeyPress, used_by_compare: bool, labels: &InfoLabels) -> (r: (
        EventState,
        Option<String>,
        Vec<TreeAction>,
    ))
        requires
            old(self).wf(),
        ensures
            final(self).wf(),
            if old(self).used_by_single(*press) {
                &&& r.0 == EventState::Consumed
                &&& r.2@.len() == 0
                &&& match r.1 {
                    Some(s) => old(self).single_details.intent(*press) == DetailsIntent::Copy
                        && old(self).single_details.copied(*labels) == Some(s@),
                    None => old(self).single_details.intent(*press) == DetailsIntent::Copy ==> old(self).single_details.copied(*labels) is None,
                }
                &&& *final(self) == (CommitDetailsComponent {
                    single_details: old(self).single_after(*press),
                    visible: old(self).visible && old(self).file_tree.visible,
                    ..*old(self)
                })
            } else if used_by_compare {
                &&& r.0 == EventState::Consumed
                &&& r.1 is None
                &&& r.2@.len() == 0
                &&& *final(self) == (CommitDetailsComponent {
                    visible: old(self).visible && old(self).file_tree.visible,
                    ..*old(self)
                })
            } else if old(self).file_tree.uses(*press) {
                &&& r.0 == EventState::Consumed
                &&& r.1 is None
                &&& old(self).file_tree.reacts(
                    *press,
                    final(self).file_tree,
                    EventState::Consumed,
                    text::views(r.2@),
                )
                &&& *final(self) == (CommitDetailsComponent {
                    file_tree: final(self).file_tree,
                    visible: old(self).visible && final(self).file_tree.visible,
                    ..*old(self)
                })
            } else {
                &&& r.1 is None
                &&& r.2@.len() == 0
                &&& match old(self).next_focus(*press) {
                    Some(focus) => r.0 == EventState::Consumed && *final(self) == old(
                        self).focused_on(focus),
                    None => r.0 == EventState::NotConsumed && *final(self) == *old(self),
                }
            },
    {
        let (single, copied) = self.single_details.event(press, labels);
        if single.is_consumed() {
            if !self.file_tree.visible {
                self.visible = false;
            }
            return (EventState::Consumed, copied, Vec::new());
        }
        if used_by_compare {
            if !self.file_tree.visible {
                self.visible = false;
            }
            return (EventState::Consumed, None, Vec::new());
        }
        let (state, actions) = self.file_tree.event(press);
        if state.is_consumed() {
            if !self.file_tree.visible {
                self.visible = false;
            }
            return (EventState::Consumed, None, actions);
        }
        assert(text::views(actions@).len() == actions@.len());
        assert(self.file_tree == old(self).file_tree);
        match self.focus_step(press) {
            Some(focus) => {
                self.set_focus(focus);
                (EventState::Consumed, None, actions)
            },
            None => (EventState::NotConsumed, None, actions),
        }
    }
}

/// Moving the focus up leads back to the part that moving it down has left.
pub proof fn lemma_focus_moves_back(details: CommitDetailsComponent, down: KeyPress, up: KeyPress)
    requires
        !details.compares(),
        details.focus == Focus::Info || details.focus == Focus::Message,
        down.has(Key::MoveDown) || down.has(Key::PopupDown),
        up.has(Key::MoveUp) || up.has(Key::PopupUp),
        !up.has(Key::MoveDown) && !up.has(Key::PopupDown),
    ensures
        details.next_focus(down) matches Some(below) && details.focused_on(below).next_focus(up)
            == Some(details.focus),
{
}

/// The part that is chosen has the focus and no other has; where two commits
/// are compared there is one part above the files. What is shown stays.
pub proof fn lemma_the_chosen_part_has_the_focus(c: CommitDetailsComponent, focus: Focus)
    ensures
        ({
            let after = c.focused_on(focus);
            &&& after.file_tree.focused <==> focus == Focus::Files
            &&& after.file_tree.show_selection <==> focus == Focus::Files
            &&& after.single_details.on_info() <==> focus == Focus::Info && !c.compares()
            &&& after.single_details.on_message() <==> focus == Focus::Message && !c.compares()
            &&& after.compare_focused <==> c.compares() && (focus == Focus::Info || focus
                == Focus::Message)
            &&& after.focus == if c.compares() && focus == Focus::Info {
                Focus::Message
            } else {
                focus
            }
            &&& after.commit == c.commit
            &&& after.compared == c.compared
            &&& after.fetching == c.fetching
            &&& after.visible == c.visible
            &&& after.file_tree.tree == c.file_tree.tree
            &&& after.single_details.data == c.single_details.data
            &&& after.single_details.tags == c.single_details.tags
        }),
{
}

/// The parts stand one below the other: the data, the message, the files.
pub proof fn lemma_keys_move_the_focus_by_one_part(c: CommitDetailsComponent, press: KeyPress)
    requires
        !c.compares(),
    ensures
        press.is_only(Key::MoveDown) || press.is_only(Key::PopupDown) ==> {
            &&& c.focus == Focus::Info ==> c.next_focus(press) == Some(Focus::Message)
            &&& c.focus == Focus::Message ==> c.next_focus(press) == Some(Focus::Files)
            &&& c.focus == Focus::Files ==> c.next_focus(press) is None
        },
        press.is_only(Key::MoveUp) || press.is_only(Key::PopupUp) ==> {
            &&& c.focus == Focus::Files ==> c.next_focus(press) == Some(Focus::Message)
            &&& c.focus == Focus::Message ==> c.next_focus(press) == Some(Focus::Info)
            &&& c.focus == Focus::Info ==> c.next_focus(press) is None
        },
        c.focus == Focus::Nothing ==> c.next_focus(press) is None,
        c.next_focus(press) is Some ==> press.has(Key::MoveDown) || press.has(Key::PopupDown)
            || press.has(Key::MoveUp) || press.has(Key::PopupUp),
{
}

/// Two commits are compared exactly where a second one is given, and the focus
/// then does not move by these keys.
pub proof fn lemma_compared_commits(c: CommitDetailsComponent, press: KeyPress)
    ensures
        c.compares() <==> c.commit is Some && c.commit->0.other is Some,
        c.compares() ==> c.next_focus(press) is None,
{
}

/// The title is the given one and the number of files.
pub proof fn lemma_titles_count_the_files(title: Seq<char>, count: usize)
    ensures
        ({
            let r = files_title(title, count);
            &&& r.len() > title.len() + 1
            &&& r.take(title.len() as int) == title
            &&& r[title.len() as int] == ' '
            &&& text::decimal(r.skip(title.len() as int + 1)) == count
        }),
{
    reveal_strlit(" ");
    let r = files_title(title, count);
    text::lemma_digits_read_back(count as nat);
    assert(r.take(title.len() as int) =~= title);
    assert(r.skip(title.len() as int + 1) =~= text::digits(count as nat));
}

/// A panel without the focus, or without a commit, leaves keys to others, and
/// a key that is used scrolls or copies without changing what is shown.
pub proof fn lemma_the_panes_keep_their_data(c: CommitDetailsComponent, press: KeyPress)
    ensures
        !c.single_details.details_focused ==> !c.used_by_single(press),
        c.single_after(press).data == c.single_details.data,
        c.single_after(press).tags == c.single_details.tags,
        c.single_after(press).focus == c.single_details.focus,
        c.single_after(press).details_focused == c.single_details.details_focused,
        !c.used_by_single(press) ==> c.single_after(press) == c.single_details,
        c.single_details.details_focused && press.has(Key::Copy) ==> c.used_by_single(press),
{
}

} // verus!
