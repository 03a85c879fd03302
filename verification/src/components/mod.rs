//! The parts of the screen: their state, what they show and how they react.
pub mod async_delta;
pub mod commit_details;
pub mod diff;
pub mod revision_files;
pub mod status_tree;
pub mod statustree;
pub mod syntax_text;
pub mod utils;

use vstd::prelude::*;

verus! {

/// A move of a selection or of a text.
#[derive(Clone, Copy, Debug, PartialEq, Eq, Structural)]
pub enum ScrollType {
    Up,
    Down,
    Home,
    End,
    PageUp,
    PageDown,
}

/// A sideways move of a text.
#[derive(Clone, Copy, Debug, PartialEq, Eq, Structural)]
pub enum HorizontalScrollType {
    Left,
    Right,
    Home,
    End,
}

/// The direction in which a selection is extended.
#[derive(Clone, Copy, Debug, PartialEq, Eq, Structural)]
pub enum Direction {
    Up,
    Down,
}

/// Whether an event was used up.
#[derive(Clone, Copy, Debug, PartialEq, Eq, Structural)]
pub enum EventState {
    Consumed,
    NotConsumed,
}

impl EventState {
    pub open spec fn of(consumed: bool) -> EventState {
        if consumed {
            EventState::Consumed
        } else {
            EventState::NotConsumed
        }
    }

    /// Whether the event was used up.
    pub fn is_consumed(&self) -> (r: bool)
        ensures
            r == (*self == EventState::Consumed),
    {
        *self == EventState::Consumed
    }

    /// `Consumed` if `consumed` holds.
    pub fn from_bool(consumed: bool) -> (r: EventState)
        ensures
            r == EventState::of(consumed),
    {
        if consumed {
            EventState::Consumed
        } else {
            EventState::NotConsumed
        }
    }
}

/// Whether components below get to add their commands and to see events.
#[derive(Clone, Copy, Debug, PartialEq, Eq, Structural)]
pub enum CommandBlocking {
    Blocking,
    PassingOn,
}

/// A visible component blocks what is below it.
pub fn visibility_blocking(visible: bool) -> (r: CommandBlocking)
    ensures
        r == if visible {
            CommandBlocking::Blocking
        } else {
            CommandBlocking::PassingOn
        },
{
    if visible {
        CommandBlocking::Blocking
    } else {
        CommandBlocking::PassingOn
    }
}

/// The key bindings that components react to.
#[derive(Clone, Copy, Debug, PartialEq, Eq, Structural)]
pub enum Key {
    AbortMerge,
    Blame,
    Copy,
    CopyPath,
    DiffHunkNext,
    DiffHunkPrev,
    DiffLineEnd,
    DiffLineStart,
    DiffModeToggle,
    DiffResetLines,
    DiffStageLines,
    EditFile,
    End,
    Enter,
    ExitPopup,
    ExternalDiff,
    Fetch,
    FileFind,
    FileHistory,
    ForcePush,
    Home,
    MoveDown,
    MoveLeft,
    MoveRight,
    MoveUp,
    OpenCommit,
    OpenFileTree,
    PageDown,
    PageUp,
    PopupDown,
    PopupUp,
    Pull,
    Push,
    RebaseBranch,
    SelectBranch,
    ShiftDown,
    ShiftUp,
    StageUnstageItem,
    StashApply,
    StashDrop,
    StashPop,
    StatusResetItem,
    ToggleWorkarea,
    TreeCollapseRecursive,
    TreeExpandRecursive,
    Underscore,
    UndoCommit,
    ViewSubmodules,
}

/// A key press: the bindings that it matches.
#[derive(Debug, PartialEq, Eq)]
pub struct KeyPress {
    pub matched: Vec<Key>,
}

impl KeyPress {
    /// Whether a press matches one binding and no other.
    pub open spec fn is_only(self, key: Key) -> bool {
        forall|k: Key| #[trigger] self.has(k) <==> k == key
    }

    pub open spec fn has(self, key: Key) -> bool {
        self.matched@.contains(key)
    }

    /// Whether the press matches a binding.
    pub fn is(&self, key: Key) -> (r: bool)
        ensures
            r == self.has(key),
    {
        for i in 0..self.matched.len()
            invariant
                forall|j: int| 0 <= j < i ==> self.matched@[j] != key,
        {
            if self.matched[i] == key {
                assert(self.matched@[i as int] == key);
                return true;
            }
        }
        false
    }
}

/// The commands that the command bar offers.
#[derive(Clone, Copy, Debug, PartialEq, Eq, Structural)]
pub enum Command {
    AbortMerge,
    AbortRebase,
    AbortRevert,
    BlameFile,
    CloseFuzzyFinder,
    CloseMsg,
    ClosePopup,
    CommitOpen,
    ContinueRebase,
    Copy,
    CopyInfo,
    CopyMessage,
    CopyPath,
    DiffFocusLeft,
    DiffFocusRight,
    DiffHomeEnd,
    DiffHunkAdd,
    DiffHunkNext,
    DiffHunkPrev,
    DiffHunkRemove,
    DiffHunkRevert,
    DiffLinesRevert,
    DiffLinesStage,
    DiffLinesUnstage,
    DiffToggleMode,
    EditItem,
    ExternalDiff,
    InspectFileTree,
    NavigateCommitMessage,
    NavigateTree,
    OpenBranchSelectPopup,
    OpenFileHistory,
    PreviewReturn,
    RetryFileTree,
    Scroll,
    ScrollPopup,
    SearchNext,
    SearchPrev,
    SelectStaging,
    SelectUnstaged,
    StashlistApply,
    StashlistDetailsToggle,
    StashlistDrop,
    StashlistInspect,
    StashlistPop,
    StatusFetch,
    StatusForcePush,
    StatusPull,
    StatusPush,
    UndoCommit,
    ViewSubmodules,
}

/// Where in the command bar a command stands.
#[derive(Clone, Copy, Debug, PartialEq, Eq, Structural)]
pub enum CommandOrder {
    Standard,
    /// ahead of the standard commands
    Ahead,
    /// right behind the standard commands
    Behind,
    /// among the commands that move the focus
    Navigation,
    /// among the commands that are rarely used
    Rare,
}

/// An entry of the command bar.
#[derive(Clone, Copy, Debug, PartialEq, Eq, Structural)]
pub struct CommandInfo {
    pub command: Command,
    /// whether it can be used right now
    pub enabled: bool,
    /// whether it is offered at all
    pub available: bool,
    /// whether the bar shows it, not only the help
    pub quick_bar: bool,
    pub order: CommandOrder,
}

impl CommandInfo {
    pub open spec fn of(command: Command, enabled: bool, available: bool) -> CommandInfo {
        CommandInfo {
            command,
            enabled,
            available,
            quick_bar: true,
            order: CommandOrder::Standard,
        }
    }

    pub open spec fn concealed(self) -> CommandInfo {
        CommandInfo { quick_bar: false, ..self }
    }

    pub open spec fn placed(self, order: CommandOrder) -> CommandInfo {
        CommandInfo { order, ..self }
    }

    /// A command in its standard place.
    pub fn new(command: Command, enabled: bool, available: bool) -> (r: CommandInfo)
        ensures
            r == CommandInfo::of(command, enabled, available),
    {
        CommandInfo {
            command,
            enabled,
            available,
            quick_bar: true,
            order: CommandOrder::Standard,
        }
    }

    /// Show the command in the help only.
    pub fn hidden(self) -> (r: CommandInfo)
        ensures
            r == self.concealed(),
    {
        CommandInfo { quick_bar: false, ..self }
    }

    /// Give the command another place.
    pub fn order(self, order: CommandOrder) -> (r: CommandInfo)
        ensures
            r == self.placed(order),
    {
        CommandInfo { order, ..self }
    }
}

/// What is used up is not passed on.
pub proof fn lemma_used_events_are_not_passed_on(consumed: bool)
    ensures
        EventState::of(consumed) == EventState::Consumed <==> consumed,
        EventState::of(consumed) == EventState::NotConsumed <==> !consumed,
{
}

/// A command is shown in the bar and stands in its place unless it is said
/// otherwise; neither changes whether it can be used.
pub proof fn lemma_commands_keep_their_state(
    command: Command,
    enabled: bool,
    available: bool,
    order: CommandOrder,
)
    ensures
        ({
            let c = CommandInfo::of(command, enabled, available);
            &&& c.command == command && c.enabled == enabled && c.available == available
            &&& c.quick_bar && c.order == CommandOrder::Standard
            &&& !c.concealed().quick_bar && c.concealed().enabled == enabled
                && c.concealed().available == available && c.concealed().command == command
                && c.concealed().order == c.order
            &&& c.placed(order).order == order && c.placed(order).enabled == enabled && c.placed(
                order,
            ).available == available && c.placed(order).command == command && c.placed(
                order,
            ).quick_bar
        }),
{
}

} // verus!
