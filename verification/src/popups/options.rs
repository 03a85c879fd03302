//! The popup with the options.
use crate::asyncgit::sync::{DiffOptions, ShowUntrackedFilesConfig};
use crate::components::diff::DiffMode;
use crate::components::{
    visibility_blocking, Command, CommandBlocking, CommandInfo, CommandOrder, EventState, Key,
    KeyPress,
};
use crate::options::{Options, OptionsData};
use crate::text;
use vstd::prelude::*;
use vstd::string::*;

verus! {

/// The size of the popup in columns and rows.
pub const WIDTH: u16 = 50;

pub const HEIGHT: u16 = 10;

/// An option that can be changed.
#[derive(Clone, Copy, Debug, PartialEq, Eq, Structural)]
pub enum AppOption {
    StatusShowUntracked,
    DiffMode,
    DiffIgnoreWhitespaces,
    DiffContextLines,
    DiffInterhunkLines,
}

impl AppOption {
    /// The option above, from the first to the last.
    pub open spec fn above(self) -> AppOption {
        match self {
            AppOption::StatusShowUntracked => AppOption::DiffInterhunkLines,
            AppOption::DiffMode => AppOption::StatusShowUntracked,
            AppOption::DiffIgnoreWhitespaces => AppOption::DiffMode,
            AppOption::DiffContextLines => AppOption::DiffIgnoreWhitespaces,
            AppOption::DiffInterhunkLines => AppOption::DiffContextLines,
        }
    }

    /// The option below, from the last to the first.
    pub open spec fn below(self) -> AppOption {
        match self {
            AppOption::StatusShowUntracked => AppOption::DiffMode,
            AppOption::DiffMode => AppOption::DiffIgnoreWhitespaces,
            AppOption::DiffIgnoreWhitespaces => AppOption::DiffContextLines,
            AppOption::DiffContextLines => AppOption::DiffInterhunkLines,
            AppOption::DiffInterhunkLines => AppOption::StatusShowUntracked,
        }
    }
}

/// What follows a change of an option.
#[derive(Clone, Copy, Debug, PartialEq, Eq, Structural)]
pub enum OptionsAction {
    OptionSwitched(AppOption),
    /// the diffs cannot be shown that way, since a tool is missing
    DeltaNotFound,
}

impl OptionsAction {
    /// What the user is told, if anything.
    pub fn message(&self) -> (r: Option<&'static str>)
        ensures
            match *self {
                OptionsAction::DeltaNotFound => r matches Some(s) && s@
                    == "delta not found. Install delta for enhanced diff preview."@,
                OptionsAction::OptionSwitched(_) => r is None,
            },
    {
        match self {
            OptionsAction::DeltaNotFound => Some(
                "delta not found. Install delta for enhanced diff preview.",
            ),
            OptionsAction::OptionSwitched(_) => None,
        }
    }
}

/// A line of the popup.
#[derive(Debug, PartialEq, Eq)]
pub enum OptionLine {
    Header(String),
    Entry { name: String, value: String, selected: bool },
}

/// What an [`OptionLine`] holds.
pub enum OptionLineView {
    Header(Seq<char>),
    Entry { name: Seq<char>, value: Seq<char>, selected: bool },
}

impl View for OptionLine {
    type V = OptionLineView;

    open spec fn view(&self) -> OptionLineView {
        match self {
            OptionLine::Header(s) => OptionLineView::Header(s@),
            OptionLine::Entry { name, value, selected } => OptionLineView::Entry {
                name: name@,
                value: value@,
                selected: *selected,
            },
        }
    }
}

pub open spec fn untracked_label(value: Option<ShowUntrackedFilesConfig>) -> Seq<char> {
    match value {
        None => "Gitconfig"@,
        Some(ShowUntrackedFilesConfig::No) => "No"@,
        Some(ShowUntrackedFilesConfig::Normal) => "Normal"@,
        Some(ShowUntrackedFilesConfig::All) => "All"@,
    }
}

/// The choice after another: the user's own configuration, then more and more
/// files, then none.
pub open spec fn untracked_right(value: Option<ShowUntrackedFilesConfig>) -> Option<
    ShowUntrackedFilesConfig,
> {
    match value {
        None => Some(ShowUntrackedFilesConfig::Normal),
        Some(ShowUntrackedFilesConfig::Normal) => Some(ShowUntrackedFilesConfig::All),
        Some(ShowUntrackedFilesConfig::All) => Some(ShowUntrackedFilesConfig::No),
        Some(ShowUntrackedFilesConfig::No) => None,
    }
}

/// The choice before another.
pub open spec fn untracked_left(value: Option<ShowUntrackedFilesConfig>) -> Option<
    ShowUntrackedFilesConfig,
> {
    match value {
        None => Some(ShowUntrackedFilesConfig::No),
        Some(ShowUntrackedFilesConfig::No) => Some(ShowUntrackedFilesConfig::All),
        Some(ShowUntrackedFilesConfig::All) => Some(ShowUntrackedFilesConfig::Normal),
        Some(ShowUntrackedFilesConfig::Normal) => None,
    }
}

pub open spec fn other_mode(mode: DiffMode) -> DiffMode {
    match mode {
        DiffMode::Unified => DiffMode::DeltaSideBySide,
        DiffMode::DeltaSideBySide => DiffMode::Unified,
    }
}

/// The options after one of them was switched. `delta` tells whether the tool for
/// diffs side by side is there.
pub open spec fn switched(options: Options, option: AppOption, right: bool, delta: bool) -> Options {
    let data = options.data;
    match option {
        AppOption::StatusShowUntracked => options.with(
            OptionsData {
                status_show_untracked: if right {
                    untracked_right(data.status_show_untracked)
                } else {
                    untracked_left(data.status_show_untracked)
                },
                ..data
            },
        ),
        AppOption::DiffMode => if lacks_delta(options, delta) {
            options
        } else {
            options.with(OptionsData { diff_mode: other_mode(data.diff_mode), ..data })
        },
        AppOption::DiffIgnoreWhitespaces => options.with(
            OptionsData {
                diff: DiffOptions {
                    ignore_whitespace: !data.diff.ignore_whitespace,
                    ..data.diff
                },
                ..data
            },
        ),
        AppOption::DiffContextLines => options.with(
            OptionsData {
                diff: DiffOptions {
                    context: Options::stepped(data.diff.context, right),
                    ..data.diff
                },
                ..data
            },
        ),
        AppOption::DiffInterhunkLines => options.with(
            OptionsData {
                diff: DiffOptions {
                    interhunk_lines: Options::stepped(data.diff.interhunk_lines, right),
                    ..data.diff
                },
                ..data
            },
        ),
    }
}

/// Whether the other way to show diffs needs a tool that is missing.
pub open spec fn lacks_delta(options: Options, delta: bool) -> bool {
    options.data.diff_mode == DiffMode::Unified && !delta
}

/// What a key press asks for.
#[derive(Clone, Copy, Debug, PartialEq, Eq, Structural)]
pub enum OptionsIntent {
    Close,
    Up,
    Down,
    Right,
    Left,
    Nothing,
}

pub open spec fn intent(press: KeyPress) -> OptionsIntent {
    if press.has(Key::ExitPopup) {
        OptionsIntent::Close
    } else if press.has(Key::MoveUp) || press.has(Key::PopupUp) {
        OptionsIntent::Up
    } else if press.has(Key::MoveDown) || press.has(Key::PopupDown) {
        OptionsIntent::Down
    } else if press.has(Key::MoveRight) {
        OptionsIntent::Right
    } else if press.has(Key::MoveLeft) {
        OptionsIntent::Left
    } else {
        OptionsIntent::Nothing
    }
}

fn key_intent(press: &KeyPress) -> (r: OptionsIntent)
    ensures
        r == intent(*press),
{
    if press.is(Key::ExitPopup) {
        OptionsIntent::Close
    } else if press.is(Key::MoveUp) || press.is(Key::PopupUp) {
        OptionsIntent::Up
    } else if press.is(Key::MoveDown) || press.is(Key::PopupDown) {
        OptionsIntent::Down
    } else if press.is(Key::MoveRight) {
        OptionsIntent::Right
    } else if press.is(Key::MoveLeft) {
        OptionsIntent::Left
    } else {
        OptionsIntent::Nothing
    }
}

/// The popup with the options.
#[derive(Clone, Copy, Debug, PartialEq, Eq, Structural)]
pub struct OptionsPopup {
    pub selection: AppOption,
    pub visible: bool,
}

impl OptionsPopup {
    /// A popup that is not open.
    pub fn new() -> (r: OptionsPopup)
        ensures
            r == (OptionsPopup { selection: AppOption::StatusShowUntracked, visible: false }),
    {
        OptionsPopup { selection: AppOption::StatusShowUntracked, visible: false }
    }

    pub open spec fn entry(self, width: int, name: Seq<char>, value: Seq<char>, kind: AppOption) -> OptionLineView {
        OptionLineView::Entry {
            name,
            value: text::centered(value, width / 2),
            selected: self.selection == kind,
        }
    }

    /// What the popup shows, in an area of some width.
    pub open spec fn lines(self, options: Options, width: int) -> Seq<OptionLineView> {
        let data = options.data;
        seq![
            OptionLineView::Header("Status"@),
            self.entry(
                width,
                "Show untracked"@,
                untracked_label(data.status_show_untracked),
                AppOption::StatusShowUntracked,
            ),
            OptionLineView::Header(""@),
            OptionLineView::Header("Diff"@),
            self.entry(
                width,
                "Mode"@,
                match data.diff_mode {
                    DiffMode::Unified => "Unified"@,
                    DiffMode::DeltaSideBySide => "Side by side (delta)"@,
                },
                AppOption::DiffMode,
            ),
            self.entry(
                width,
                "Ignore whitespaces"@,
                if data.diff.ignore_whitespace {
                    "true"@
                } else {
                    "false"@
                },
                AppOption::DiffIgnoreWhitespaces,
            ),
            self.entry(
                width,
                "Context lines"@,
                text::digits(data.diff.context as nat),
                AppOption::DiffContextLines,
            ),
            self.entry(
                width,
                "Inter hunk lines"@,
                text::digits(data.diff.interhunk_lines as nat),
                AppOption::DiffInterhunkLines,
            ),
        ]
    }

    fn add_header(txt: &mut Vec<OptionLine>, header: &str)
        ensures
            text::views(final(txt)@) == text::views(old(txt)@).push(
                OptionLineView::Header(header@),
            ),
    {
        let line = OptionLine::Header(header.to_owned());
        proof {
            text::lemma_views_push(txt@, line);
        }
        txt.push(line);
    }

    fn add_entry(
        &self,
        txt: &mut Vec<OptionLine>,
        width: u16,
        name: &str,
        value: &str,
        kind: AppOption,
    )
        ensures
            text::views(final(txt)@) == text::views(old(txt)@).push(
                self.entry(width as int, name@, value@, kind),
            ),
    {
        let line = OptionLine::Entry {
            name: name.to_owned(),
            value: text::align_center(value, (width / 2) as usize),
            selected: self.selection == kind,
        };
        proof {
            text::lemma_views_push(txt@, line);
        }
        txt.push(line);
    }

    /// What the popup shows, in an area of some width.
    pub fn get_text(&self, options: &Options, width: u16) -> (r: Vec<OptionLine>)
        ensures
            text::views(r@) == self.lines(*options, width as int),
    {
        let mut txt: Vec<OptionLine> = Vec::new();
        assert(text::views(txt@) =~= Seq::empty());
        OptionsPopup::add_header(&mut txt, "Status");
        let untracked = match options.status_show_untracked() {
            None => "Gitconfig",
            Some(ShowUntrackedFilesConfig::No) => "No",
            Some(ShowUntrackedFilesConfig::Normal) => "Normal",
            Some(ShowUntrackedFilesConfig::All) => "All",
        };
        self.add_entry(
            &mut txt,
            width,
            "Show untracked",
            untracked,
            AppOption::StatusShowUntracked,
        );
        OptionsPopup::add_header(&mut txt, "");
        let diff = options.diff_options();
        OptionsPopup::add_header(&mut txt, "Diff");
        let mode = match options.diff_mode() {
            DiffMode::Unified => "Unified",
            DiffMode::DeltaSideBySide => "Side by side (delta)",
        };
        self.add_entry(&mut txt, width, "Mode", mode, AppOption::DiffMode);
        let ignore = if diff.ignore_whitespace {
            "true"
        } else {
            "false"
        };
        self.add_entry(
            &mut txt,
            width,
            "Ignore whitespaces",
            ignore,
            AppOption::DiffIgnoreWhitespaces,
        );
        let context = text::number(diff.context as u64);
        self.add_entry(
            &mut txt,
            width,
            "Context lines",
            context.as_str(),
            AppOption::DiffContextLines,
        );
        let between = text::number(diff.interhunk_lines as u64);
        self.add_entry(
            &mut txt,
            width,
            "Inter hunk lines",
            between.as_str(),
            AppOption::DiffInterhunkLines,
        );
        assert(text::views(txt@) =~= self.lines(*options, width as int));
        txt
    }

    /// Select the option above or below.
    pub fn move_selection(&mut self, up: bool)
        ensures
            *final(self) == (OptionsPopup {
                selection: if up {
                    old(self).selection.above()
                } else {
                    old(self).selection.below()
                },
                ..*old(self)
            }),
    {
        self.selection = if up {
            match self.selection {
                AppOption::StatusShowUntracked => AppOption::DiffInterhunkLines,
                AppOption::DiffMode => AppOption::StatusShowUntracked,
                AppOption::DiffIgnoreWhitespaces => AppOption::DiffMode,
                AppOption::DiffContextLines => AppOption::DiffIgnoreWhitespaces,
                AppOption::DiffInterhunkLines => AppOption::DiffContextLines,
            }
        } else {
            match self.selection {
                AppOption::StatusShowUntracked => AppOption::DiffMode,
                AppOption::DiffMode => AppOption::DiffIgnoreWhitespaces,
                AppOption::DiffIgnoreWhitespaces => AppOption::DiffContextLines,
                AppOption::DiffContextLines => AppOption::DiffInterhunkLines,
                AppOption::DiffInterhunkLines => AppOption::StatusShowUntracked,
            }
        };
    }

    /// What follows a switch of the selected option.
    pub open spec fn switch_action(self, options: Options, delta: bool) -> OptionsAction {
        if self.selection == AppOption::DiffMode && lacks_delta(options, delta) {
            OptionsAction::DeltaNotFound
        } else {
            OptionsAction::OptionSwitched(self.selection)
        }
    }

    /// Switch the selected option. `delta` tells whether the tool for diffs side
    /// by side is there.
    pub fn switch_option(&self, right: bool, options: &mut Options, delta: bool) -> (r:
        OptionsAction)
        ensures
            *final(options) == switched(*old(options), self.selection, right, delta),
            r == self.switch_action(*old(options), delta),
    {
        match self.selection {
            AppOption::StatusShowUntracked => {
                let next = if right {
                    match options.status_show_untracked() {
                        None => Some(ShowUntrackedFilesConfig::Normal),
                        Some(ShowUntrackedFilesConfig::Normal) => Some(
                            ShowUntrackedFilesConfig::All,
                        ),
                        Some(ShowUntrackedFilesConfig::All) => Some(ShowUntrackedFilesConfig::No),
                        Some(ShowUntrackedFilesConfig::No) => None,
                    }
                } else {
                    match options.status_show_untracked() {
                        None => Some(ShowUntrackedFilesConfig::No),
                        Some(ShowUntrackedFilesConfig::No) => Some(ShowUntrackedFilesConfig::All),
                        Some(ShowUntrackedFilesConfig::All) => Some(
                            ShowUntrackedFilesConfig::Normal,
                        ),
                        Some(ShowUntrackedFilesConfig::Normal) => None,
                    }
                };
                options.set_status_show_untracked(next);
            },
            AppOption::DiffMode => {
                let next = match options.diff_mode() {
                    DiffMode::Unified => DiffMode::DeltaSideBySide,
                    DiffMode::DeltaSideBySide => DiffMode::Unified,
                };
                if next == DiffMode::DeltaSideBySide && !delta {
                    return OptionsAction::DeltaNotFound;
                }
                options.set_diff_mode(next);
            },
            AppOption::DiffIgnoreWhitespaces => options.diff_toggle_whitespace(),
            AppOption::DiffContextLines => options.diff_context_change(right),
            AppOption::DiffInterhunkLines => options.diff_hunk_lines_change(right),
        }
        OptionsAction::OptionSwitched(self.selection)
    }

    /// React to an event. `press` is the key, if it is one.
    pub fn event(&mut self, press: Option<&KeyPress>, options: &mut Options, delta: bool) -> (r: (
        EventState,
        Option<OptionsAction>,
    ))
        ensures
            r.0 == EventState::of(old(self).visible),
            ({
                let wish = if old(self).visible && press is Some {
                    intent(*press->0)
                } else {
                    OptionsIntent::Nothing
                };
                let switches = wish == OptionsIntent::Right || wish == OptionsIntent::Left;
                &&& *final(self) == match wish {
                    OptionsIntent::Close => OptionsPopup { visible: false, ..*old(self) },
                    OptionsIntent::Up => OptionsPopup {
                        selection: old(self).selection.above(),
                        ..*old(self)
                    },
                    OptionsIntent::Down => OptionsPopup {
                        selection: old(self).selection.below(),
                        ..*old(self)
                    },
                    _ => *old(self),
                }
                &&& *final(options) == if switches {
                    switched(
                        *old(options),
                        old(self).selection,
                        wish == OptionsIntent::Right,
                        delta,
                    )
                } else {
                    *old(options)
                }
                &&& r.1 == if switches {
                    Some(old(self).switch_action(*old(options), delta))
                } else {
                    None
                }
            }),
    {
        if !self.visible {
            return (EventState::NotConsumed, None);
        }
        let wish = match press {
            Some(press) => key_intent(press),
            None => OptionsIntent::Nothing,
        };
        let action = match wish {
            OptionsIntent::Close => {
                self.visible = false;
                None
            },
            OptionsIntent::Up => {
                self.move_selection(true);
                None
            },
            OptionsIntent::Down => {
                self.move_selection(false);
                None
            },
            OptionsIntent::Right => Some(self.switch_option(true, options, delta)),
            OptionsIntent::Left => Some(self.switch_option(false, options, delta)),
            OptionsIntent::Nothing => None,
        };
        (EventState::Consumed, action)
    }

    pub open spec fn command_list(self, force_all: bool) -> Seq<CommandInfo> {
        if self.visible || force_all {
            seq![
                CommandInfo::of(Command::ClosePopup, true, true).placed(CommandOrder::Behind),
                CommandInfo::of(Command::NavigateTree, true, true).placed(CommandOrder::Behind),
            ]
        } else {
            Seq::empty()
        }
    }

    /// Add the commands that the popup offers.
    pub fn commands(&self, out: &mut Vec<CommandInfo>, force_all: bool) -> (r: CommandBlocking)
        ensures
            final(out)@ == old(out)@ + self.command_list(force_all),
            r == if self.visible {
                CommandBlocking::Blocking
            } else {
                CommandBlocking::PassingOn
            },
    {
        if self.visible || force_all {
            out.push(
                CommandInfo::new(Command::ClosePopup, true, true).order(CommandOrder::Behind),
            );
            out.push(
                CommandInfo::new(Command::NavigateTree, true, true).order(CommandOrder::Behind),
            );
        }
        assert(out@ =~= old(out)@ + self.command_list(force_all));
        visibility_blocking(self.visible)
    }
}

// ----------------------------------------------------------------------- laws

/// Moving up undoes moving down, and down up; five steps lead around.
pub proof fn lemma_selection_moves_back(option: AppOption)
    ensures
        option.below().above() == option,
        option.above().below() == option,
        option.below().below().below().below().below() == option,
{
}

/// Switching left undoes switching right where nothing is at its end: numbers
/// stop there, and a way to show diffs may be missing.
pub proof fn lemma_switching_back(options: Options, option: AppOption)
    requires
        option == AppOption::DiffContextLines ==> options.data.diff.context < u32::MAX,
        option == AppOption::DiffInterhunkLines ==> options.data.diff.interhunk_lines < u32::MAX,
    ensures
        switched(switched(options, option, true, true), option, false, true).data == options.data,
{
}

/// Switching an option changes that option and no other.
pub proof fn lemma_only_the_selected_option_changes(
    options: Options,
    option: AppOption,
    right: bool,
    delta: bool,
)
    ensures
        ({
            let (a, b) = (options.data, switched(options, option, right, delta).data);
            &&& option != AppOption::StatusShowUntracked ==> b.status_show_untracked
                == a.status_show_untracked
            &&& option == AppOption::StatusShowUntracked ==> b.status_show_untracked
                != a.status_show_untracked
            &&& option != AppOption::DiffMode ==> b.diff_mode == a.diff_mode
            &&& option == AppOption::DiffMode && delta ==> b.diff_mode != a.diff_mode
            &&& option == AppOption::DiffMode && !delta ==> b.diff_mode == DiffMode::Unified
            &&& option != AppOption::DiffIgnoreWhitespaces ==> b.diff.ignore_whitespace
                == a.diff.ignore_whitespace
            &&& option == AppOption::DiffIgnoreWhitespaces ==> b.diff.ignore_whitespace
                != a.diff.ignore_whitespace
            &&& option != AppOption::DiffContextLines ==> b.diff.context == a.diff.context
            &&& option == AppOption::DiffContextLines && right && a.diff.context < u32::MAX
                ==> b.diff.context == a.diff.context + 1
            &&& option == AppOption::DiffContextLines && !right && a.diff.context > 0
                ==> b.diff.context == a.diff.context - 1
            &&& option != AppOption::DiffInterhunkLines ==> b.diff.interhunk_lines
                == a.diff.interhunk_lines
            &&& option == AppOption::DiffInterhunkLines && right && a.diff.interhunk_lines
                < u32::MAX ==> b.diff.interhunk_lines == a.diff.interhunk_lines + 1
            &&& option == AppOption::DiffInterhunkLines && !right && a.diff.interhunk_lines > 0
                ==> b.diff.interhunk_lines == a.diff.interhunk_lines - 1
            &&& b.tab == a.tab && b.commit_msgs == a.commit_msgs && b.commit_draft
                == a.commit_draft && b.external_diff_tool == a.external_diff_tool
        }),
{
}

/// To the right, untracked files go from what git says to the normal ones, to all,
/// to none and back.
pub proof fn lemma_untracked_files_go_round()
    ensures
        untracked_right(None) == Some(ShowUntrackedFilesConfig::Normal),
        untracked_right(Some(ShowUntrackedFilesConfig::Normal)) == Some(
            ShowUntrackedFilesConfig::All,
        ),
        untracked_right(Some(ShowUntrackedFilesConfig::All)) == Some(ShowUntrackedFilesConfig::No),
        untracked_right(Some(ShowUntrackedFilesConfig::No)) is None,
{
}

/// The keys: up and down the list, left and right through the values.
pub proof fn lemma_keys(press: KeyPress)
    ensures
        press.is_only(Key::MoveUp) ==> intent(press) == OptionsIntent::Up,
        press.is_only(Key::MoveDown) ==> intent(press) == OptionsIntent::Down,
        press.is_only(Key::MoveRight) ==> intent(press) == OptionsIntent::Right,
        press.is_only(Key::MoveLeft) ==> intent(press) == OptionsIntent::Left,
        press.is_only(Key::ExitPopup) ==> intent(press) == OptionsIntent::Close,
{
}

/// Every option is shown, and the one that is selected is marked, alone. Below an
/// option stands the next one of the list.
pub proof fn lemma_the_selected_option_is_marked(popup: OptionsPopup, options: Options, width: int)
    ensures
        ({
            let lines = popup.lines(options, width);
            let order = seq![
                AppOption::StatusShowUntracked,
                AppOption::DiffMode,
                AppOption::DiffIgnoreWhitespaces,
                AppOption::DiffContextLines,
                AppOption::DiffInterhunkLines,
            ];
            let at = seq![1int, 4, 5, 6, 7];
            &&& lines.len() == 8
            &&& forall|k: int|
                0 <= k < 5 ==> (lines[#[trigger] at[k]] matches OptionLineView::Entry {
                    selected,
                    ..
                } && selected == (popup.selection == order[k]))
            &&& forall|k: int| 0 <= k < 4 ==> (#[trigger] order[k]).below() == order[k + 1]
            &&& order[4].below() == order[0]
        }),
{
}

/// Delta cannot be chosen where it is missing, and that is told.
pub proof fn lemma_missing_delta_is_told(popup: OptionsPopup, options: Options, delta: bool)
    ensures
        popup.switch_action(options, delta) == OptionsAction::DeltaNotFound <==> popup.selection
            == AppOption::DiffMode && options.data.diff_mode == DiffMode::Unified && !delta,
        popup.switch_action(options, delta) != OptionsAction::DeltaNotFound
            ==> popup.switch_action(options, delta) == OptionsAction::OptionSwitched(
            popup.selection,
        ),
{
}

/// Each option stands under its name, with the value it has.
pub proof fn lemma_options_stand_under_their_name(
    popup: OptionsPopup,
    options: Options,
    width: int,
)
    ensures
        ({
            let lines = popup.lines(options, width);
            let data = options.data;
            &&& lines[0] == OptionLineView::Header("Status"@)
            &&& lines[3] == OptionLineView::Header("Diff"@)
            &&& lines[1] matches OptionLineView::Entry { name, value, .. } && name
                == "Show untracked"@ && (data.status_show_untracked is None ==> value
                == text::centered("Gitconfig"@, width / 2)) && (data.status_show_untracked == Some(
                ShowUntrackedFilesConfig::No,
            ) ==> value == text::centered("No"@, width / 2)) && (data.status_show_untracked == Some(
                ShowUntrackedFilesConfig::Normal,
            ) ==> value == text::centered("Normal"@, width / 2)) && (data.status_show_untracked
                == Some(ShowUntrackedFilesConfig::All) ==> value == text::centered(
                "All"@,
                width / 2,
            ))
            &&& lines[4] matches OptionLineView::Entry { name, value, .. } && name == "Mode"@ && (
            data.diff_mode == DiffMode::Unified ==> value == text::centered(
                "Unified"@,
                width / 2,
            )) && (data.diff_mode == DiffMode::DeltaSideBySide ==> value == text::centered(
                "Side by side (delta)"@,
                width / 2,
            ))
            &&& lines[5] matches OptionLineView::Entry { name, value, .. } && name
                == "Ignore whitespaces"@ && (data.diff.ignore_whitespace ==> value
                == text::centered("true"@, width / 2)) && (!data.diff.ignore_whitespace ==> value
                == text::centered("false"@, width / 2))
            &&& lines[6] matches OptionLineView::Entry { name, value, .. } && name
                == "Context lines"@ && value == text::centered(
                text::digits(data.diff.context as nat),
                width / 2,
            )
            &&& lines[7] matches OptionLineView::Entry { name, value, .. } && name
                == "Inter hunk lines"@ && value == text::centered(
                text::digits(data.diff.interhunk_lines as nat),
                width / 2,
            )
        }),
{
}

} // verus!
