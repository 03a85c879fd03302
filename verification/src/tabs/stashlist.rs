//! The tab with the stashes.
use crate::asyncgit::sync::CommitId;
use crate::components::{
    visibility_blocking, Command, CommandBlocking, CommandInfo, EventState, Key, KeyPress,
};
use vstd::prelude::*;

verus! {

/// Something to be done with stashes.
#[derive(Debug, PartialEq, Eq)]
pub enum Action {
    StashDrop(Vec<CommitId>),
    StashPop(CommitId),
    StashApply(CommitId),
}

/// What happens outside of the tab. A step that fails ends what follows it.
#[derive(Clone, Copy, Debug, PartialEq, Eq, Structural)]
pub enum StashStep {
    /// read the stashes into the list
    ReadStashes,
    /// show the details of the stash that is selected then
    ShowSelected,
    Drop(CommitId),
    Pop(CommitId),
    Apply(CommitId),
    ClearMarked,
    SwitchToStatus,
}

/// What an event led to.
#[derive(Debug, PartialEq, Eq)]
pub enum StashOutcome {
    Nothing,
    /// look at the stashes again
    Update(Vec<StashStep>),
    /// ask the user first
    Confirm(Action),
    Inspect(CommitId),
}

/// What a key press asks for.
#[derive(Clone, Copy, Debug, PartialEq, Eq, Structural)]
pub enum StashIntent {
    ToggleDetails,
    Pop,
    Apply,
    Drop,
    Inspect,
    Nothing,
}

/// The tab with the stashes.
#[derive(Clone, Copy, Debug, PartialEq, Eq, Structural)]
pub struct StashList {
    pub visible: bool,
    /// whether the details of a stash are shown
    pub details_visible: bool,
}

/// The list of stashes as it stands.
#[derive(Debug)]
pub struct ListState {
    pub selected: Option<CommitId>,
    pub marked: Vec<CommitId>,
}

/// The first `n` stashes are dropped, one after the other.
pub open spec fn drops(ids: Seq<CommitId>, n: int) -> Seq<StashStep>
    decreases n,
{
    if n <= 0 {
        Seq::empty()
    } else {
        drops(ids, n - 1).push(StashStep::Drop(ids[n - 1]))
    }
}

impl StashList {
    /// A hidden tab without details.
    pub fn new() -> (r: StashList)
        ensures
            r == (StashList { visible: false, details_visible: false }),
    {
        StashList { visible: false, details_visible: false }
    }

    pub open spec fn refresh(self) -> Seq<StashStep> {
        if !self.visible {
            Seq::empty()
        } else if self.details_visible {
            seq![StashStep::ReadStashes, StashStep::ShowSelected]
        } else {
            seq![StashStep::ReadStashes]
        }
    }

    /// How the tab is brought up to date.
    pub fn update(&self) -> (r: Vec<StashStep>)
        ensures
            r@ == self.refresh(),
    {
        let mut out: Vec<StashStep> = Vec::new();
        if self.visible {
            out.push(StashStep::ReadStashes);
            if self.details_visible {
                out.push(StashStep::ShowSelected);
            }
        }
        assert(out@ =~= self.refresh());
        out
    }

    /// How the tab is brought up to date after a notification. Only the files of a
    /// commit concern it.
    pub fn update_git(&self, commit_files: bool) -> (r: Vec<StashStep>)
        ensures
            r@ == if commit_files {
                self.refresh()
            } else {
                Seq::empty()
            },
    {
        if commit_files {
            self.update()
        } else {
            Vec::new()
        }
    }

    /// Show the tab.
    pub fn show(&mut self) -> (r: Vec<StashStep>)
        ensures
            *final(self) == (StashList { visible: true, ..*old(self) }),
            r@ == final(self).refresh(),
    {
        self.visible = true;
        self.update()
    }

    /// What follows an action that the user has confirmed. Dropping and popping
    /// change the list, so that its marks go; applying keeps them.
    pub open spec fn confirmed(self, action: Action) -> Seq<StashStep> {
        match action {
            Action::StashDrop(ids) => drops(ids@, ids@.len() as int) + seq![StashStep::ClearMarked]
                + self.refresh(),
            Action::StashPop(id) => seq![StashStep::Pop(id), StashStep::ClearMarked]
                + self.refresh() + seq![StashStep::SwitchToStatus],
            Action::StashApply(id) => seq![StashStep::Apply(id)] + self.refresh() + seq![
                StashStep::SwitchToStatus,
            ],
        }
    }

    /// What follows an action that the user has confirmed.
    pub fn action_confirmed(&self, action: &Action) -> (r: Vec<StashStep>)
        ensures
            r@ == self.confirmed(*action),
    {
        let mut out: Vec<StashStep> = Vec::new();
        match action {
            Action::StashDrop(ids) => {
                for i in 0..ids.len()
                    invariant
                        out@ == drops(ids@, i as int),
                {
                    out.push(StashStep::Drop(ids[i]));
                }
                out.push(StashStep::ClearMarked);
                let mut rest = self.update();
                out.append(&mut rest);
            },
            Action::StashPop(id) => {
                out.push(StashStep::Pop(*id));
                out.push(StashStep::ClearMarked);
                let mut rest = self.update();
                out.append(&mut rest);
                out.push(StashStep::SwitchToStatus);
            },
            Action::StashApply(id) => {
                out.push(StashStep::Apply(*id));
                let mut rest = self.update();
                out.append(&mut rest);
                out.push(StashStep::SwitchToStatus);
            },
        }
        assert(out@ =~= self.confirmed(*action));
        out
    }

    pub open spec fn intent(self, press: KeyPress) -> StashIntent {
        if press.has(Key::Enter) {
            StashIntent::ToggleDetails
        } else if press.has(Key::StashPop) {
            StashIntent::Pop
        } else if press.has(Key::StashApply) {
            StashIntent::Apply
        } else if press.has(Key::StashDrop) {
            StashIntent::Drop
        } else if press.has(Key::MoveRight) && self.details_visible {
            StashIntent::Inspect
        } else {
            StashIntent::Nothing
        }
    }

    fn key_intent(&self, press: &KeyPress) -> (r: StashIntent)
        ensures
            r == self.intent(*press),
    {
        if press.is(Key::Enter) {
            StashIntent::ToggleDetails
        } else if press.is(Key::StashPop) {
            StashIntent::Pop
        } else if press.is(Key::StashApply) {
            StashIntent::Apply
        } else if press.is(Key::StashDrop) {
            StashIntent::Drop
        } else if press.is(Key::MoveRight) && self.details_visible {
            StashIntent::Inspect
        } else {
            StashIntent::Nothing
        }
    }

    /// Whether an outcome is that of a key press. Marked stashes are dropped
    /// before the selected one.
    pub open spec fn leads_to(self, intent: StashIntent, list: ListState, r: StashOutcome) -> bool {
        match intent {
            StashIntent::Nothing => r is Nothing,
            StashIntent::ToggleDetails => r matches StashOutcome::Update(steps) && steps@
                == StashList { details_visible: !self.details_visible, ..self }.refresh(),
            StashIntent::Pop => match list.selected {
                Some(id) => r == StashOutcome::Confirm(Action::StashPop(id)),
                None => r is Nothing,
            },
            StashIntent::Apply => match list.selected {
                Some(id) => r == StashOutcome::Confirm(Action::StashApply(id)),
                None => r is Nothing,
            },
            StashIntent::Drop => if list.marked@.len() > 0 {
                r matches StashOutcome::Confirm(Action::StashDrop(ids)) && ids@ == list.marked@
            } else {
                match list.selected {
                    Some(id) => r matches StashOutcome::Confirm(Action::StashDrop(ids)) && ids@
                        == seq![id],
                    None => r is Nothing,
                }
            },
            StashIntent::Inspect => match list.selected {
                Some(id) => r == StashOutcome::Inspect(id),
                None => r is Nothing,
            },
        }
    }

    /// React to an event. `list_used` tells whether the list has used it up, and
    /// `press` is the key, if it is one.
    pub fn event(&mut self, list_used: bool, press: Option<&KeyPress>, list: &ListState) -> (r: (
        EventState,
        StashOutcome,
    ))
        ensures
            if !old(self).visible {
                &&& *final(self) == *old(self)
                &&& r.0 == EventState::NotConsumed
                &&& r.1 is Nothing
            } else if list_used {
                &&& *final(self) == *old(self)
                &&& r.0 == EventState::Consumed
                &&& r.1 matches StashOutcome::Update(steps) && steps@ == old(self).refresh()
            } else {
                let intent = match press {
                    Some(press) => old(self).intent(*press),
                    None => StashIntent::Nothing,
                };
                &&& *final(self) == (StashList {
                    details_visible: if intent == StashIntent::ToggleDetails {
                        !old(self).details_visible
                    } else {
                        old(self).details_visible
                    },
                    ..*old(self)
                })
                &&& r.0 == EventState::of(
                    intent == StashIntent::ToggleDetails || intent == StashIntent::Inspect,
                )
                &&& old(self).leads_to(intent, *list, r.1)
            },
    {
        if !self.visible {
            return (EventState::NotConsumed, StashOutcome::Nothing);
        }
        if list_used {
            return (EventState::Consumed, StashOutcome::Update(self.update()));
        }
        let intent = match press {
            Some(press) => self.key_intent(press),
            None => StashIntent::Nothing,
        };
        match intent {
            StashIntent::Nothing => (EventState::NotConsumed, StashOutcome::Nothing),
            StashIntent::ToggleDetails => {
                self.details_visible = !self.details_visible;
                (EventState::Consumed, StashOutcome::Update(self.update()))
            },
            StashIntent::Pop => match list.selected {
                Some(id) => (
                    EventState::NotConsumed,
                    StashOutcome::Confirm(Action::StashPop(id)),
                ),
                None => (EventState::NotConsumed, StashOutcome::Nothing),
            },
            StashIntent::Apply => match list.selected {
                Some(id) => (
                    EventState::NotConsumed,
                    StashOutcome::Confirm(Action::StashApply(id)),
                ),
                None => (EventState::NotConsumed, StashOutcome::Nothing),
            },
            StashIntent::Drop => (EventState::NotConsumed, drop_stash(list)),
            StashIntent::Inspect => match list.selected {
                Some(id) => (EventState::Consumed, StashOutcome::Inspect(id)),
                None => (EventState::Consumed, StashOutcome::Nothing),
            },
        }
    }

    /// The commands that the tab offers behind those of its list.
    pub open spec fn command_list(self, selected: bool, force_all: bool) -> Seq<CommandInfo> {
        if self.visible || force_all {
            seq![
                CommandInfo::of(Command::StashlistPop, selected, true),
                CommandInfo::of(Command::StashlistApply, selected, true),
                CommandInfo::of(Command::StashlistDrop, selected, true),
                CommandInfo::of(Command::StashlistDetailsToggle, selected, true),
                CommandInfo::of(Command::StashlistInspect, selected, self.details_visible),
            ]
        } else {
            Seq::empty()
        }
    }

    /// Add the commands that the tab offers behind those of its list. `selected`
    /// tells whether there is a selection.
    pub fn commands(&self, out: &mut Vec<CommandInfo>, selected: bool, force_all: bool) -> (r:
        CommandBlocking)
        ensures
            final(out)@ == old(out)@ + self.command_list(selected, force_all),
            r == if self.visible {
                CommandBlocking::Blocking
            } else {
                CommandBlocking::PassingOn
            },
    {
        if self.visible || force_all {
            out.push(CommandInfo::new(Command::StashlistPop, selected, true));
            out.push(CommandInfo::new(Command::StashlistApply, selected, true));
            out.push(CommandInfo::new(Command::StashlistDrop, selected, true));
            out.push(CommandInfo::new(Command::StashlistDetailsToggle, selected, true));
            out.push(
                CommandInfo::new(Command::StashlistInspect, selected, self.details_visible),
            );
        }
        assert(out@ =~= old(out)@ + self.command_list(selected, force_all));
        visibility_blocking(self.visible)
    }

    /// The shares of the list and of the details, in percent.
    pub fn columns(&self, left_ratio: u16) -> (r: (u16, u16))
        requires
            left_ratio <= 100,
        ensures
            r == if self.details_visible {
                (left_ratio, (100 - left_ratio) as u16)
            } else {
                (100u16, 0u16)
            },
    {
        if self.details_visible {
            (left_ratio, 100 - left_ratio)
        } else {
            (100, 0)
        }
    }
}

fn drop_stash(list: &ListState) -> (r: StashOutcome)
    ensures
        if list.marked@.len() > 0 {
            r matches StashOutcome::Confirm(Action::StashDrop(ids)) && ids@ == list.marked@
        } else {
            match list.selected {
                Some(id) => r matches StashOutcome::Confirm(Action::StashDrop(ids)) && ids@
                    == seq![id],
                None => r is Nothing,
            }
        },
{
    let mut ids: Vec<CommitId> = Vec::new();
    if list.marked.len() > 0 {
        for i in 0..list.marked.len()
            invariant
                ids@ == list.marked@.take(i as int),
        {
            ids.push(list.marked[i]);
            assert(ids@ =~= list.marked@.take(i + 1));
        }
        assert(ids@ =~= list.marked@);
        return StashOutcome::Confirm(Action::StashDrop(ids));
    }
    match list.selected {
        Some(id) => {
            ids.push(id);
            assert(ids@ =~= seq![id]);
            StashOutcome::Confirm(Action::StashDrop(ids))
        },
        None => StashOutcome::Nothing,
    }
}

/// A key press alone never changes a stash: each change is asked for first.
pub proof fn lemma_changes_are_confirmed(
    tab: StashList,
    intent: StashIntent,
    list: ListState,
    r: StashOutcome,
)
    requires
        tab.leads_to(intent, list, r),
    ensures
        r matches StashOutcome::Update(steps) ==> forall|i: int|
            0 <= i < steps@.len() ==> !((#[trigger] steps@[i]) is Drop || steps@[i] is Pop
                || steps@[i] is Apply),
{
}

/// Whether a step changes a stash.
pub open spec fn changes_stash(step: StashStep) -> bool {
    step is Drop || step is Pop || step is Apply
}

proof fn lemma_drops(ids: Seq<CommitId>, n: int)
    requires
        0 <= n <= ids.len(),
    ensures
        drops(ids, n).len() == n,
        forall|k: int| 0 <= k < n ==> #[trigger] drops(ids, n)[k] == StashStep::Drop(ids[k]),
    decreases n,
{
    if n > 0 {
        lemma_drops(ids, n - 1);
    }
}

/// A confirmed apply applies the stash, once, and leaves it and all others in the
/// list.
pub proof fn lemma_applying_keeps_the_stash(tab: StashList, id: CommitId, k: int)
    ensures
        ({
            let steps = tab.confirmed(Action::StashApply(id));
            &&& steps.len() > 0
            &&& steps[0] == StashStep::Apply(id)
            &&& 0 < k < steps.len() ==> !changes_stash(steps[k])
        }),
{
}

/// A confirmed pop pops the stash, once, and touches no other.
pub proof fn lemma_popping_takes_one_stash(tab: StashList, id: CommitId, k: int)
    ensures
        ({
            let steps = tab.confirmed(Action::StashPop(id));
            &&& steps.len() > 0
            &&& steps[0] == StashStep::Pop(id)
            &&& 0 < k < steps.len() ==> !changes_stash(steps[k])
        }),
{
}

/// A confirmed drop drops each of the given stashes, in their order, and does
/// nothing else to any stash.
pub proof fn lemma_dropping_drops_each(tab: StashList, ids: Vec<CommitId>, k: int)
    ensures
        ({
            let steps = tab.confirmed(Action::StashDrop(ids));
            &&& steps.len() >= ids@.len()
            &&& 0 <= k < ids@.len() ==> steps[k] == StashStep::Drop(ids@[k])
            &&& ids@.len() <= k < steps.len() ==> !changes_stash(steps[k])
        }),
{
    lemma_drops(ids@, ids@.len() as int);
}

/// Once stashes have changed, a visible tab reads them again; the marks go if
/// stashes are gone, and the files are shown if they have changed.
pub proof fn lemma_the_list_follows_the_stashes(tab: StashList, action: Action)
    ensures
        ({
            let steps = tab.confirmed(action);
            &&& tab.visible ==> steps.contains(StashStep::ReadStashes)
            &&& steps.contains(StashStep::ClearMarked) <==> !(action is StashApply)
            &&& steps.contains(StashStep::SwitchToStatus) <==> !(action is StashDrop)
            &&& action is StashPop || action is StashApply ==> steps.last()
                == StashStep::SwitchToStatus
        }),
{
    let steps = tab.confirmed(action);
    match action {
        Action::StashDrop(ids) => {
            lemma_drops(ids@, ids@.len() as int);
            assert(steps[ids@.len() as int] == StashStep::ClearMarked);
            if tab.visible {
                assert(steps[ids@.len() as int + 1] == StashStep::ReadStashes);
            }
            assert forall|k: int| 0 <= k < steps.len() implies steps[k]
                != StashStep::SwitchToStatus by {
                if k < ids@.len() {
                    assert(steps[k] == StashStep::Drop(ids@[k]));
                }
            }
        },
        Action::StashPop(id) => {
            assert(steps[1] == StashStep::ClearMarked);
            assert(steps[steps.len() - 1] == StashStep::SwitchToStatus);
            if tab.visible {
                assert(steps[2] == StashStep::ReadStashes);
            }
        },
        Action::StashApply(id) => {
            assert(steps[steps.len() - 1] == StashStep::SwitchToStatus);
            if tab.visible {
                assert(steps[1] == StashStep::ReadStashes);
            }
        },
    }
}

/// Each key asks for what it is bound to, of the stash that is selected; only
/// marked stashes are dropped in its place.
pub proof fn lemma_keys_ask_for_the_selected_stash(
    tab: StashList,
    press: KeyPress,
    list: ListState,
    id: CommitId,
    r: StashOutcome,
)
    requires
        list.selected == Some(id),
        tab.leads_to(tab.intent(press), list, r),
    ensures
        press.is_only(Key::StashPop) ==> r == StashOutcome::Confirm(Action::StashPop(id)),
        press.is_only(Key::StashApply) ==> r == StashOutcome::Confirm(Action::StashApply(id)),
        press.is_only(Key::StashDrop) ==> (r matches StashOutcome::Confirm(Action::StashDrop(ids))
            && ids@ == if list.marked@.len() > 0 {
            list.marked@
        } else {
            seq![id]
        }),
        press.is_only(Key::MoveRight) && tab.details_visible ==> r == StashOutcome::Inspect(id),
        press.is_only(Key::Enter) ==> r is Update,
        r matches StashOutcome::Confirm(Action::StashPop(asked)) ==> asked == id && press.has(
            Key::StashPop,
        ),
        r matches StashOutcome::Confirm(Action::StashApply(asked)) ==> asked == id && press.has(
            Key::StashApply,
        ),
        r matches StashOutcome::Confirm(Action::StashDrop(_)) ==> press.has(Key::StashDrop),
{
}

/// Without a selected and a marked stash no key asks for anything to be done.
pub proof fn lemma_nothing_is_asked_without_a_stash(
    tab: StashList,
    press: KeyPress,
    list: ListState,
    r: StashOutcome,
)
    requires
        list.selected is None,
        list.marked@.len() == 0,
        tab.leads_to(tab.intent(press), list, r),
    ensures
        !(r is Confirm) && !(r is Inspect),
{
}

/// What works on a stash is offered where one is selected, and nothing while the
/// tab is hidden.
pub proof fn lemma_offered_commands_of_the_stashes(tab: StashList, selected: bool, i: int)
    ensures
        !tab.visible ==> tab.command_list(selected, false).len() == 0,
        0 <= i < tab.command_list(selected, false).len() ==> {
            let c = tab.command_list(selected, false)[i];
            &&& c.enabled == selected
            &&& c.available <==> c.command != Command::StashlistInspect || tab.details_visible
        },
{
}

} // verus!
