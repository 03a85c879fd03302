//! The options that are kept: those of a repository and those of the user.
use crate::asyncgit::sync::{DiffOptions, ShowUntrackedFilesConfig};
use crate::components::diff::DiffMode;
use crate::text;
use vstd::prelude::*;
use vstd::string::*;

verus! {

/// How many commit messages are kept.
pub const COMMIT_MSG_HISTORY_LENGTH: usize = 20;

/// A program that shows a comparison of two files.
#[derive(Clone, Copy, Debug, PartialEq, Eq, Structural)]
pub enum ExternalDiffTool {
    BeyondCompare,
    Nvim,
    Vscode,
}

impl Default for ExternalDiffTool {
    fn default() -> (r: ExternalDiffTool)
        ensures
            r == ExternalDiffTool::BeyondCompare,
    {
        ExternalDiffTool::BeyondCompare
    }
}

/// A program and its arguments, which are passed on without a shell.
#[derive(Debug, PartialEq, Eq)]
pub struct ExternalDiffCommand {
    pub command: String,
    pub args: Vec<String>,
}

/// What an [`ExternalDiffCommand`] holds.
#[verifier::ext_equal]
pub struct ExternalDiffCommandView {
    pub command: Seq<char>,
    pub args: Seq<Seq<char>>,
}

impl View for ExternalDiffCommand {
    type V = ExternalDiffCommandView;

    open spec fn view(&self) -> ExternalDiffCommandView {
        ExternalDiffCommandView { command: self.command@, args: text::views(self.args@) }
    }
}

impl Clone for ExternalDiffCommand {
    fn clone(&self) -> (r: ExternalDiffCommand)
        ensures
            r@ == self@,
    {
        ExternalDiffCommand {
            command: self.command.clone(),
            args: text::clone_strings(&self.args),
        }
    }
}

fn strings2(a: &str, b: &str) -> (r: Vec<String>)
    ensures
        text::views(r@) == seq![a@, b@],
{
    let mut out: Vec<String> = Vec::new();
    out.push(a.to_owned());
    out.push(b.to_owned());
    assert(text::views(out@) =~= seq![a@, b@]);
    out
}

fn strings4(a: &str, b: &str, c: &str, d: &str) -> (r: Vec<String>)
    ensures
        text::views(r@) == seq![a@, b@, c@, d@],
{
    let mut out: Vec<String> = Vec::new();
    out.push(a.to_owned());
    out.push(b.to_owned());
    out.push(c.to_owned());
    out.push(d.to_owned());
    assert(text::views(out@) =~= seq![a@, b@, c@, d@]);
    out
}

impl ExternalDiffTool {
    /// The name that is shown.
    pub fn label(self) -> (r: &'static str)
        ensures
            r@ == match self {
                ExternalDiffTool::BeyondCompare => "Beyond Compare"@,
                ExternalDiffTool::Nvim => "Neovim"@,
                ExternalDiffTool::Vscode => "VS Code"@,
            },
    {
        match self {
            ExternalDiffTool::BeyondCompare => "Beyond Compare",
            ExternalDiffTool::Nvim => "Neovim",
            ExternalDiffTool::Vscode => "VS Code",
        }
    }

    /// The command of a tool that is not configured.
    pub open spec fn standard_command(self, windows: bool) -> ExternalDiffCommandView {
        match self {
            ExternalDiffTool::BeyondCompare => ExternalDiffCommandView {
                command: if windows {
                    "BComp.exe"@
                } else {
                    "bcomp"@
                },
                args: seq!["{left}"@, "{right}"@],
            },
            ExternalDiffTool::Nvim => ExternalDiffCommandView {
                command: "nvim"@,
                args: seq!["-d"@, "-R"@, "{left}"@, "{right}"@],
            },
            ExternalDiffTool::Vscode => ExternalDiffCommandView {
                command: "code"@,
                args: seq!["--wait"@, "--diff"@, "{left}"@, "{right}"@],
            },
        }
    }

    /// The command of a tool that is not configured. Executables have another
    /// name on Windows.
    pub fn default_command(self, windows: bool) -> (r: ExternalDiffCommand)
        ensures
            r@ == self.standard_command(windows),
    {
        match self {
            ExternalDiffTool::BeyondCompare => ExternalDiffCommand {
                command: if windows {
                    "BComp.exe".to_owned()
                } else {
                    "bcomp".to_owned()
                },
                args: strings2("{left}", "{right}"),
            },
            ExternalDiffTool::Nvim => ExternalDiffCommand {
                command: "nvim".to_owned(),
                args: strings4("-d", "-R", "{left}", "{right}"),
            },
            ExternalDiffTool::Vscode => ExternalDiffCommand {
                command: "code".to_owned(),
                args: strings4("--wait", "--diff", "{left}", "{right}"),
            },
        }
    }
}

/// The commands that the user configured.
#[derive(Debug)]
pub struct ExternalDiffTools {
    pub beyondcompare: Option<ExternalDiffCommand>,
    pub nvim: Option<ExternalDiffCommand>,
    pub vscode: Option<ExternalDiffCommand>,
}

/// The options of the user.
#[derive(Debug)]
pub struct GlobalOptions {
    pub external_diff_tool: Option<ExternalDiffTool>,
    pub external_diff_tools: Option<ExternalDiffTools>,
    pub status_left_ratio: Option<u16>,
    pub log_left_ratio: Option<u16>,
    pub detail_left_ratio: Option<u16>,
    /// how deep the folder tree of a preview is
    pub preview_tree_depth: Option<u16>,
}

impl Default for GlobalOptions {
    fn default() -> (r: GlobalOptions)
        ensures
            r == (GlobalOptions {
                external_diff_tool: None,
                external_diff_tools: None,
                status_left_ratio: None,
                log_left_ratio: None,
                detail_left_ratio: None,
                preview_tree_depth: None,
            }),
    {
        GlobalOptions {
            external_diff_tool: None,
            external_diff_tools: None,
            status_left_ratio: None,
            log_left_ratio: None,
            detail_left_ratio: None,
            preview_tree_depth: None,
        }
    }
}

/// The options of a repository.
#[derive(Debug)]
pub struct OptionsData {
    pub external_diff_tool: Option<ExternalDiffTool>,
    pub tab: usize,
    pub diff: DiffOptions,
    pub status_show_untracked: Option<ShowUntrackedFilesConfig>,
    pub commit_msgs: Vec<String>,
    pub diff_mode: DiffMode,
    pub commit_draft: Option<String>,
    pub commit_draft_cursor: Option<(u16, u16)>,
}

impl Default for OptionsData {
    fn default() -> (r: OptionsData)
        ensures
            r.is_standard(),
    {
        OptionsData {
            external_diff_tool: None,
            tab: 0,
            diff: DiffOptions::default(),
            status_show_untracked: None,
            commit_msgs: Vec::new(),
            diff_mode: DiffMode::default(),
            commit_draft: None,
            commit_draft_cursor: None,
        }
    }
}

impl OptionsData {
    /// Whether nothing was chosen yet.
    pub open spec fn is_standard(self) -> bool {
        &&& self.external_diff_tool is None
        &&& self.tab == 0
        &&& self.diff == DiffOptions::standard()
        &&& self.status_show_untracked is None
        &&& self.commit_msgs@.len() == 0
        &&& self.diff_mode == DiffMode::DeltaSideBySide
        &&& self.commit_draft is None
        &&& self.commit_draft_cursor is None
    }
}

/// A value within bounds.
pub open spec fn clamped(value: int, low: int, high: int) -> int {
    if value < low {
        low
    } else if value > high {
        high
    } else {
        value
    }
}

fn clamp(value: u16, low: u16, high: u16) -> (r: u16)
    ensures
        r == clamped(value as int, low as int, high as int),
{
    if value < low {
        low
    } else if value > high {
        high
    } else {
        value
    }
}

/// A ratio in percent that leaves room on both sides.
pub open spec fn ratio(value: Option<u16>, standard: int) -> int {
    match value {
        Some(value) => clamped(value as int, 10, 90),
        None => standard,
    }
}

fn clamped_ratio(value: Option<u16>, standard: u16) -> (r: u16)
    ensures
        r == ratio(value, standard as int),
{
    match value {
        Some(value) => clamp(value, 10, 90),
        None => standard,
    }
}

/// The latest messages, as many as are kept.
pub open spec fn recent(msgs: Seq<Seq<char>>) -> Seq<Seq<char>> {
    if msgs.len() > COMMIT_MSG_HISTORY_LENGTH {
        msgs.skip(msgs.len() - COMMIT_MSG_HISTORY_LENGTH)
    } else {
        msgs
    }
}

/// A message out of some, counted from the last one back, and from there again.
pub open spec fn message_back(msgs: Seq<String>, idx: int) -> Seq<char> {
    msgs[msgs.len() - 1 - idx % (msgs.len() as int)]@
}

/// The tool to use: the repository's, else the user's, else the usual one.
pub open spec fn chosen_tool(
    own: Option<ExternalDiffTool>,
    global: Option<ExternalDiffTool>,
) -> ExternalDiffTool {
    match own {
        Some(tool) => tool,
        None => match global {
            Some(tool) => tool,
            None => ExternalDiffTool::BeyondCompare,
        },
    }
}

/// What the user configured for a tool.
pub open spec fn configured(
    tools: Option<ExternalDiffTools>,
    tool: ExternalDiffTool,
) -> Option<ExternalDiffCommand> {
    match tools {
        Some(tools) => match tool {
            ExternalDiffTool::BeyondCompare => tools.beyondcompare,
            ExternalDiffTool::Nvim => tools.nvim,
            ExternalDiffTool::Vscode => tools.vscode,
        },
        None => None,
    }
}

/// The options of a repository, and whether they have to be written.
#[derive(Debug)]
pub struct Options {
    pub data: OptionsData,
    pub unsaved: bool,
}

impl Options {
    /// What holds of every draft: its cursor does not outlive its text.
    pub open spec fn wf(self) -> bool {
        self.data.commit_draft is None ==> self.data.commit_draft_cursor is None
    }

    /// The options after a change, to be written.
    pub open spec fn with(self, data: OptionsData) -> Options {
        Options { data, unsaved: true }
    }

    /// Options that stand in no file.
    pub fn test_env() -> (r: Options)
        ensures
            r.data.is_standard(),
            !r.unsaved,
            r.wf(),
    {
        Options { data: OptionsData::default(), unsaved: false }
    }

    /// The options that were read, or the usual ones if none could be.
    pub fn new(read: Option<OptionsData>) -> (r: Options)
        ensures
            !r.unsaved,
            match read {
                Some(data) => r.data == data,
                None => r.data.is_standard() && r.wf(),
            },
    {
        Options {
            data: match read {
                Some(data) => data,
                None => OptionsData::default(),
            },
            unsaved: false,
        }
    }

    /// Tells whether the options have to be written, and takes it that they are.
    pub fn take_unsaved(&mut self) -> (r: bool)
        ensures
            r == old(self).unsaved,
            *final(self) == (Options { unsaved: false, ..*old(self) }),
    {
        let r = self.unsaved;
        self.unsaved = false;
        r
    }

    /// The tool that shows comparisons. `global` is what the user configured, if
    /// it could be read.
    pub fn external_diff_tool(&self, global: Option<ExternalDiffTool>) -> (r: ExternalDiffTool)
        ensures
            r == chosen_tool(self.data.external_diff_tool, global),
    {
        match self.data.external_diff_tool {
            Some(tool) => tool,
            None => match global {
                Some(tool) => tool,
                None => ExternalDiffTool::default(),
            },
        }
    }

    pub fn set_external_diff_tool(&mut self, tool: ExternalDiffTool)
        ensures
            *final(self) == old(self).with(
                OptionsData { external_diff_tool: Some(tool), ..old(self).data },
            ),
    {
        self.data.external_diff_tool = Some(tool);
        self.unsaved = true;
    }

    /// The command that shows comparisons.
    pub fn external_diff_command(&self, global: &GlobalOptions, windows: bool) -> (r:
        ExternalDiffCommand)
        ensures
            ({
                let tool = chosen_tool(self.data.external_diff_tool, global.external_diff_tool);
                r@ == match configured(global.external_diff_tools, tool) {
                    Some(command) => command@,
                    None => tool.standard_command(windows),
                }
            }),
    {
        let tool = self.external_diff_tool(global.external_diff_tool);
        let found = match &global.external_diff_tools {
            Some(tools) => match tool {
                ExternalDiffTool::BeyondCompare => &tools.beyondcompare,
                ExternalDiffTool::Nvim => &tools.nvim,
                ExternalDiffTool::Vscode => &tools.vscode,
            },
            None => &None,
        };
        match found {
            Some(command) => command.clone(),
            None => tool.default_command(windows),
        }
    }

    pub fn set_current_tab(&mut self, tab: usize)
        ensures
            *final(self) == old(self).with(OptionsData { tab, ..old(self).data }),
    {
        self.data.tab = tab;
        self.unsaved = true;
    }

    pub fn current_tab(&self) -> (r: usize)
        ensures
            r == self.data.tab,
    {
        self.data.tab
    }

    pub fn diff_options(&self) -> (r: DiffOptions)
        ensures
            r == self.data.diff,
    {
        self.data.diff
    }

    pub fn status_show_untracked(&self) -> (r: Option<ShowUntrackedFilesConfig>)
        ensures
            r == self.data.status_show_untracked,
    {
        self.data.status_show_untracked
    }

    pub fn set_status_show_untracked(&mut self, value: Option<ShowUntrackedFilesConfig>)
        ensures
            *final(self) == old(self).with(
                OptionsData { status_show_untracked: value, ..old(self).data },
            ),
    {
        self.data.status_show_untracked = value;
        self.unsaved = true;
    }

    /// A number that goes up or down by one, within its type.
    pub open spec fn stepped(n: u32, increase: bool) -> u32 {
        if increase {
            if n < u32::MAX {
                (n + 1) as u32
            } else {
                n
            }
        } else if n > 0 {
            (n - 1) as u32
        } else {
            n
        }
    }

    /// Show more or less around a change.
    pub fn diff_context_change(&mut self, increase: bool)
        ensures
            *final(self) == old(self).with(
                OptionsData {
                    diff: DiffOptions {
                        context: Options::stepped(old(self).data.diff.context, increase),
                        ..old(self).data.diff
                    },
                    ..old(self).data
                },
            ),
    {
        self.data.diff.context = if increase {
            self.data.diff.context.saturating_add(1)
        } else {
            self.data.diff.context.saturating_sub(1)
        };
        self.unsaved = true;
    }

    /// Show changes together that are further apart or closer.
    pub fn diff_hunk_lines_change(&mut self, increase: bool)
        ensures
            *final(self) == old(self).with(
                OptionsData {
                    diff: DiffOptions {
                        interhunk_lines: Options::stepped(
                            old(self).data.diff.interhunk_lines,
                            increase,
                        ),
                        ..old(self).data.diff
                    },
                    ..old(self).data
                },
            ),
    {
        self.data.diff.interhunk_lines = if increase {
            self.data.diff.interhunk_lines.saturating_add(1)
        } else {
            self.data.diff.interhunk_lines.saturating_sub(1)
        };
        self.unsaved = true;
    }

    pub fn diff_toggle_whitespace(&mut self)
        ensures
            *final(self) == old(self).with(
                OptionsData {
                    diff: DiffOptions {
                        ignore_whitespace: !old(self).data.diff.ignore_whitespace,
                        ..old(self).data.diff
                    },
                    ..old(self).data
                },
            ),
    {
        self.data.diff.ignore_whitespace = !self.data.diff.ignore_whitespace;
        self.unsaved = true;
    }

    pub fn diff_mode(&self) -> (r: DiffMode)
        ensures
            r == self.data.diff_mode,
    {
        self.data.diff_mode
    }

    /// The share of the lists in the status tab, in percent. `global` is what the
    /// user configured, if it could be read.
    pub fn status_left_ratio(&self, global: &Option<GlobalOptions>) -> (r: u16)
        ensures
            r == ratio(
                match *global {
                    Some(g) => g.status_left_ratio,
                    None => None,
                },
                50,
            ),
    {
        match global {
            Some(g) => clamped_ratio(g.status_left_ratio, 50),
            None => 50,
        }
    }

    /// The share of the log in percent.
    pub fn log_left_ratio(&self, global: &Option<GlobalOptions>) -> (r: u16)
        ensures
            r == ratio(
                match *global {
                    Some(g) => g.log_left_ratio,
                    None => None,
                },
                60,
            ),
    {
        match global {
            Some(g) => clamped_ratio(g.log_left_ratio, 60),
            None => 60,
        }
    }

    /// The share of the list of a commit's files, in percent.
    pub fn detail_left_ratio(&self, global: &Option<GlobalOptions>) -> (r: u16)
        ensures
            r == ratio(
                match *global {
                    Some(g) => g.detail_left_ratio,
                    None => None,
                },
                50,
            ),
    {
        match global {
            Some(g) => clamped_ratio(g.detail_left_ratio, 50),
            None => 50,
        }
    }

    /// How deep the folder tree of a preview is. It is bounded, so that no value
    /// can flood the preview.
    pub fn preview_tree_depth(&self, global: &Option<GlobalOptions>) -> (r: u8)
        ensures
            r == match *global {
                Some(g) => match g.preview_tree_depth {
                    Some(depth) => clamped(depth as int, 1, 10),
                    None => 2,
                },
                None => 2,
            },
    {
        match global {
            Some(g) => match g.preview_tree_depth {
                Some(depth) => clamp(depth, 1, 10) as u8,
                None => 2,
            },
            None => 2,
        }
    }

    pub fn set_diff_mode(&mut self, mode: DiffMode)
        ensures
            *final(self) == old(self).with(OptionsData { diff_mode: mode, ..old(self).data }),
    {
        self.data.diff_mode = mode;
        self.unsaved = true;
    }

    /// Keep a commit message. The oldest ones are dropped.
    pub fn add_commit_msg(&mut self, msg: &str)
        ensures
            text::views(final(self).data.commit_msgs@) == recent(
                text::views(old(self).data.commit_msgs@).push(msg@),
            ),
            *final(self) == old(self).with(
                OptionsData { commit_msgs: final(self).data.commit_msgs, ..old(self).data },
            ),
    {
        let m = msg.to_owned();
        let ghost all = self.data.commit_msgs@.push(m);
        self.data.commit_msgs.push(m);
        let ghost mut dropped = 0int;
        assert(all.skip(0) =~= all);
        while self.data.commit_msgs.len() > COMMIT_MSG_HISTORY_LENGTH
            invariant
                0 <= dropped <= all.len(),
                self.data.commit_msgs@ == all.skip(dropped),
                dropped > 0 ==> all.len() - dropped >= COMMIT_MSG_HISTORY_LENGTH,
                *self == (Options {
                    data: OptionsData { commit_msgs: self.data.commit_msgs, ..old(self).data },
                    unsaved: old(self).unsaved,
                }),
            decreases self.data.commit_msgs@.len(),
        {
            self.data.commit_msgs.remove(0);
            proof {
                assert(self.data.commit_msgs@ =~= all.skip(dropped + 1));
                dropped = dropped + 1;
            }
        }
        self.unsaved = true;
        assert(text::views(all) =~= text::views(old(self).data.commit_msgs@).push(msg@));
        assert(text::views(all.skip(dropped)) =~= text::views(all).skip(dropped));
        assert(text::views(all).skip(0) =~= text::views(all));
    }

    pub fn has_commit_msg_history(&self) -> (r: bool)
        ensures
            r == (self.data.commit_msgs@.len() > 0),
    {
        self.data.commit_msgs.len() > 0
    }

    /// A message from the history: the latest is the first one, and behind the
    /// oldest the latest follows again.
    pub fn commit_msg(&self, idx: usize) -> (r: Option<String>)
        ensures
            ({
                let n = self.data.commit_msgs@.len() as int;
                if n == 0 {
                    r is None
                } else {
                    &&& r matches Some(msg) && msg@ == message_back(
                        self.data.commit_msgs@,
                        idx as int,
                    )
                    &&& r matches Some(msg) && msg@ == self.data.commit_msgs@[n - 1 - idx as int % n]@
                }
            }),
    {
        let n: usize = self.data.commit_msgs.len();
        if n == 0 {
            None
        } else {
            Some(self.data.commit_msgs[n - 1 - idx % n].clone())
        }
    }

    pub fn commit_draft(&self) -> (r: Option<&String>)
        ensures
            match self.data.commit_draft {
                Some(draft) => r == Some(&draft),
                None => r is None,
            },
    {
        match &self.data.commit_draft {
            Some(draft) => Some(draft),
            None => None,
        }
    }

    pub fn commit_draft_cursor(&self) -> (r: Option<(u16, u16)>)
        ensures
            r == self.data.commit_draft_cursor,
    {
        self.data.commit_draft_cursor
    }

    /// A draft, unless it is empty.
    pub open spec fn draft(msg: Option<String>) -> Option<String> {
        match msg {
            Some(text) => if text@.len() > 0 {
                Some(text)
            } else {
                None
            },
            None => None,
        }
    }

    /// The options after a draft was set: without text there is no cursor.
    pub open spec fn with_draft(self, msg: Option<String>) -> Options {
        self.with(
            OptionsData {
                commit_draft: Options::draft(msg),
                commit_draft_cursor: if Options::draft(msg) is None {
                    None
                } else {
                    self.data.commit_draft_cursor
                },
                ..self.data
            },
        )
    }

    /// Keep the draft of a message, or drop it with its cursor.
    pub fn set_commit_draft(&mut self, msg: Option<String>)
        ensures
            *final(self) == old(self).with_draft(msg),
            old(self).wf() ==> final(self).wf(),
    {
        let msg = match msg {
            Some(text) => if text.as_str().unicode_len() > 0 {
                Some(text)
            } else {
                None
            },
            None => None,
        };
        if msg.is_none() {
            self.data.commit_draft_cursor = None;
        }
        self.data.commit_draft = msg;
        self.unsaved = true;
    }

    /// The options after the cursor was set, which only a draft has.
    pub open spec fn with_cursor(self, cursor: Option<(u16, u16)>) -> Options {
        if self.data.commit_draft is None {
            self
        } else {
            self.with(OptionsData { commit_draft_cursor: cursor, ..self.data })
        }
    }

    /// Keep where the cursor is in the draft.
    pub fn set_commit_draft_cursor(&mut self, cursor: Option<(u16, u16)>)
        ensures
            *final(self) == old(self).with_cursor(cursor),
            old(self).wf() ==> final(self).wf(),
    {
        if self.data.commit_draft.is_none() {
            return;
        }
        self.data.commit_draft_cursor = cursor;
        self.unsaved = true;
    }
}

/// A cursor never outlives its text: dropping the draft drops the cursor, and
/// without a draft none can be set.
pub proof fn lemma_cursors_need_a_draft(
    options: Options,
    msg: Option<String>,
    cursor: Option<(u16, u16)>,
)
    ensures
        Options::draft(msg) is None ==> options.with_draft(msg).with_cursor(
            cursor,
        ).data.commit_draft_cursor is None,
        options.with_draft(msg).wf() || Options::draft(msg) is Some,
{
}

/// A draft and its cursor are found again as they were set.
pub proof fn lemma_drafts_are_kept(options: Options, msg: String, cursor: Option<(u16, u16)>)
    requires
        msg@.len() > 0,
    ensures
        options.with_draft(Some(msg)).with_cursor(cursor).data.commit_draft == Some(msg),
        options.with_draft(Some(msg)).with_cursor(cursor).data.commit_draft_cursor == cursor,
{
}

/// The tool that is chosen for a repository is used in it, whatever the user has
/// configured for all.
pub proof fn lemma_the_own_choice_counts(
    options: Options,
    tool: ExternalDiffTool,
    global: Option<ExternalDiffTool>,
)
    ensures
        chosen_tool(
            options.with(
                OptionsData { external_diff_tool: Some(tool), ..options.data },
            ).data.external_diff_tool,
            global,
        ) == tool,
{
}

/// The history never grows beyond its length, and keeps the latest message.
pub proof fn lemma_history_is_bounded(msgs: Seq<Seq<char>>, msg: Seq<char>)
    ensures
        recent(msgs.push(msg)).len() <= COMMIT_MSG_HISTORY_LENGTH,
        recent(msgs.push(msg)).len() > 0,
        recent(msgs.push(msg)).last() == msg,
{
}

/// Shares of the panes stay between a tenth and nine tenths, as they were set, or
/// are what is usual.
pub proof fn lemma_shares_leave_room(value: u16, standard: int)
    ensures
        10 <= ratio(Some(value), standard) <= 90,
        10 <= value <= 90 ==> ratio(Some(value), standard) == value,
        value < 10 ==> ratio(Some(value), standard) == 10,
        value > 90 ==> ratio(Some(value), standard) == 90,
        ratio(None, standard) == standard,
{
}

/// The history holds the latest messages, in their order, without a gap.
pub proof fn lemma_the_latest_messages_are_kept(msgs: Seq<Seq<char>>, i: int)
    ensures
        ({
            let kept = recent(msgs);
            &&& kept.len() <= 20
            &&& msgs.len() <= 20 ==> kept == msgs
            &&& msgs.len() > 20 ==> kept.len() == 20
            &&& 0 <= i < kept.len() ==> kept[i] == msgs[msgs.len() - kept.len() + i]
        }),
{
}

/// Counted back, the first message is the latest, each further one is the one before
/// it, and behind the oldest the latest follows again.
pub proof fn lemma_messages_are_counted_back(msgs: Seq<String>, idx: int)
    requires
        msgs.len() > 0,
        0 <= idx,
    ensures
        message_back(msgs, 0) == msgs.last()@,
        idx < msgs.len() ==> message_back(msgs, idx) == msgs[msgs.len() - 1 - idx]@,
        message_back(msgs, idx + msgs.len()) == message_back(msgs, idx),
{
    let n = msgs.len() as int;
    assert((idx + n) % n == idx % n) by (nonlinear_arith)
        requires
            n > 0,
            0 <= idx,
    ;
    if idx < n {
        assert(idx % n == idx) by (nonlinear_arith)
            requires
                0 <= idx < n,
        ;
    }
}

/// A number of lines goes up and down by one, and stops at the ends.
pub proof fn lemma_numbers_step_by_one(n: u32)
    ensures
        n < u32::MAX ==> Options::stepped(n, true) == n + 1,
        n > 0 ==> Options::stepped(n, false) == n - 1,
        Options::stepped(0, false) == 0,
        Options::stepped(u32::MAX, true) == u32::MAX,
{
}

/// The command of a program is the one that is set for this program, and no other.
pub proof fn lemma_each_program_has_its_command(tools: ExternalDiffTools)
    ensures
        configured(Some(tools), ExternalDiffTool::BeyondCompare) == tools.beyondcompare,
        configured(Some(tools), ExternalDiffTool::Nvim) == tools.nvim,
        configured(Some(tools), ExternalDiffTool::Vscode) == tools.vscode,
        configured(None, ExternalDiffTool::BeyondCompare) is None,
        configured(None, ExternalDiffTool::Nvim) is None,
        configured(None, ExternalDiffTool::Vscode) is None,
{
}

/// A usual command gets both files, the left one before the right one, behind its
/// flags; programs have commands of their own.
pub proof fn lemma_usual_commands_compare_both_files(
    tool: ExternalDiffTool,
    other: ExternalDiffTool,
    windows: bool,
)
    ensures
        ({
            let command = tool.standard_command(windows);
            let n = command.args.len() as int;
            &&& n >= 2
            &&& command.args[n - 2] == "{left}"@
            &&& command.args[n - 1] == "{right}"@
        }),
        tool != other ==> tool.standard_command(windows).command != other.standard_command(
            windows,
        ).command,
{
    reveal_strlit("BComp.exe");
    reveal_strlit("bcomp");
    reveal_strlit("nvim");
    reveal_strlit("code");
    assert("BComp.exe"@.len() == 9 && "bcomp"@.len() == 5 && "nvim"@.len() == 4
        && "code"@.len() == 4);
    assert("nvim"@[0] == 'n' && "code"@[0] == 'c');
}

/// A draft is kept as it was typed, and an empty one is none.
pub proof fn lemma_drafts(options: Options, msg: String)
    ensures
        msg@.len() > 0 ==> options.with_draft(Some(msg)).data.commit_draft == Some(msg),
        msg@.len() == 0 ==> options.with_draft(Some(msg)).data.commit_draft is None,
        options.with_draft(None).data.commit_draft is None,
        options.with_draft(Some(msg)).unsaved,
        options.with_draft(Some(msg)).data.commit_msgs == options.data.commit_msgs,
        options.with_draft(Some(msg)).data.diff == options.data.diff,
{
}

/// Where nothing was chosen, the first tab is shown, with side-by-side diffs of
/// three lines of context and no draft.
pub proof fn lemma_nothing_was_chosen(data: OptionsData)
    requires
        data.is_standard(),
    ensures
        data.tab == 0,
        data.diff.context == 3,
        data.diff.interhunk_lines == 0,
        !data.diff.ignore_whitespace,
        data.diff_mode == DiffMode::DeltaSideBySide,
        data.commit_msgs@.len() == 0,
        data.commit_draft is None,
        data.external_diff_tool is None,
{
}

} // verus!
