//! Highlighted text, and the tools that produce it.
use crate::ansi::{self, ansi_to_lines, expand_indexed_colors};
use crate::asyncgit::progress::{self, ProgressPercent};
use crate::os_theme::ColorScheme;
use crate::paths;
use crate::text::{self, Color, Line, Modifier, Span, SpanView, Style};
use crate::ui::highlight::{self, SyntaxRun};
use vstd::prelude::*;
use vstd::string::*;

verus! {

// ------------------------------------------------------------------- progress

/// Progress that is told at most once in an interval. Times are counted in
/// milliseconds from an arbitrary start.
#[derive(Clone, Copy, Debug)]
pub struct AsyncProgressBuffer {
    pub current: usize,
    pub total: usize,
    pub last_send: Option<u64>,
    pub min_interval: u64,
}

impl AsyncProgressBuffer {
    /// No progress yet, and none told.
    pub fn new(total: usize, min_interval: u64) -> (r: AsyncProgressBuffer)
        ensures
            r == (AsyncProgressBuffer { current: 0, total, last_send: None, min_interval }),
    {
        AsyncProgressBuffer { current: 0, total, last_send: None, min_interval }
    }

    /// The progress to tell now.
    pub fn send_progress(&mut self, now: u64) -> (r: ProgressPercent)
        ensures
            *final(self) == (AsyncProgressBuffer { last_send: Some(now), ..*old(self) }),
            r.progress == progress::percent(old(self).current as int, old(self).total as int),
    {
        self.last_send = Some(now);
        ProgressPercent::new(self.current, self.total)
    }

    /// Whether progress has to be told: it was not yet, or long enough ago.
    pub open spec fn is_due(self, now: u64) -> bool {
        match self.last_send {
            None => true,
            Some(last) => now - last > self.min_interval,
        }
    }

    /// Take in progress. Tells whether it has to be told.
    pub fn update(&mut self, current: usize, now: u64) -> (due: bool)
        ensures
            *final(self) == (AsyncProgressBuffer { current, ..*old(self) }),
            due == old(self).is_due(now),
    {
        self.current = current;
        match self.last_send {
            None => true,
            Some(last) => now > last && now - last > self.min_interval,
        }
    }
}

// ------------------------------------------------------------------- text

/// A style as the built-in highlighter gives it.
#[derive(Clone, Copy, Debug, PartialEq, Eq, Structural)]
pub struct SyntectStyle {
    pub red: u8,
    pub green: u8,
    pub blue: u8,
    pub bold: bool,
    pub italic: bool,
    pub underline: bool,
}

/// A highlighted part of a line, from one character to before another.
#[derive(Clone, Copy, Debug, PartialEq, Eq, Structural)]
pub struct SyntaxItem {
    pub style: SyntectStyle,
    pub start: usize,
    pub end: usize,
}

/// The highlighted parts of a line.
#[derive(Debug)]
pub struct SyntaxLine {
    pub items: Vec<SyntaxItem>,
}

/// Highlighted text, from the built-in highlighter or from a tool that colors
/// its output.
#[derive(Debug)]
pub enum SyntaxTextInner {
    Syntect { text: String, lines: Vec<SyntaxLine> },
    Ansi(Vec<Line>),
}

/// Highlighted text of a file.
#[derive(Debug)]
pub struct SyntaxText {
    pub inner: SyntaxTextInner,
    pub path: String,
}

/// The style that a highlighted part is shown in.
pub open spec fn shown_style(style: SyntectStyle) -> Style {
    Style::plain().with_fg(Color::Rgb(style.red, style.green, style.blue)).with_modifier(
        Modifier {
            bold: style.bold,
            italic: style.italic,
            underlined: style.underline,
            ..Modifier::none()
        },
    )
}

fn syntact_style_to_tui(style: &SyntectStyle) -> (r: Style)
    ensures
        r == shown_style(*style),
{
    let modifier = Modifier {
        bold: style.bold,
        italic: style.italic,
        underlined: style.underline,
        ..Modifier::empty()
    };
    Style::new().fg(Color::Rgb(style.red, style.green, style.blue)).add_modifier(modifier)
}

/// The first `n` parts of a line, as they are shown.
pub open spec fn shown_items(items: Seq<SyntaxItem>, line: Seq<char>, n: int) -> Seq<SpanView> {
    Seq::new(
        n as nat,
        |i: int|
            SpanView {
                content: line.subrange(items[i].start as int, items[i].end as int),
                style: shown_style(items[i].style),
            },
    )
}

/// Whether the parts of a line lie in the line.
pub open spec fn items_fit(items: Seq<SyntaxItem>, line: Seq<char>) -> bool {
    forall|i: int| 0 <= i < items.len() ==> (#[trigger] items[i]).start <= items[i].end
        <= line.len()
}

fn show_line(syntax: &SyntaxLine, content: &str) -> (r: Line)
    requires
        items_fit(syntax.items@, content@),
    ensures
        r@ == shown_items(syntax.items@, content@, syntax.items@.len() as int),
{
    let chars = text::chars_of(content);
    let mut spans: Vec<Span> = Vec::new();
    for i in 0..syntax.items.len()
        invariant
            chars@ == content@,
            items_fit(syntax.items@, content@),
            text::views(spans@) =~= shown_items(syntax.items@, content@, i as int),
    {
        let item = syntax.items[i];
        assert(syntax.items@[i as int].start <= syntax.items@[i as int].end <= content@.len());
        let span = Span::styled(
            text::string_of_range(&chars, item.start, item.end),
            syntact_style_to_tui(&item.style),
        );
        proof {
            text::lemma_views_push(spans@, span);
        }
        spans.push(span);
    }
    Line { spans }
}

impl SyntaxText {
    /// What holds of every text: the highlighted parts lie in their lines.
    pub open spec fn wf(self) -> bool {
        match self.inner {
            SyntaxTextInner::Syntect { text, lines } => {
                let source = text::lines_of(text@);
                forall|i: int|
                    0 <= i < lines@.len() && i < source.len() ==> items_fit(
                        (#[trigger] lines@[i]).items@,
                        source[i],
                    )
            },
            SyntaxTextInner::Ansi(_) => true,
        }
    }

    /// The lines of the text without their styles.
    pub open spec fn source(self) -> Seq<Seq<char>> {
        match self.inner {
            SyntaxTextInner::Syntect { text, .. } => text::lines_of(text@),
            SyntaxTextInner::Ansi(lines) => Seq::new(
                lines@.len(),
                |i: int| text::line_text(lines@[i]@),
            ),
        }
    }

    /// The lines of the text as they are shown.
    pub open spec fn shown(self) -> Seq<Seq<SpanView>> {
        match self.inner {
            SyntaxTextInner::Syntect { text, lines } => {
                let source = text::lines_of(text@);
                Seq::new(
                    if lines@.len() < source.len() {
                        lines@.len()
                    } else {
                        source.len()
                    },
                    |i: int|
                        shown_items(lines@[i].items@, source[i], lines@[i].items@.len() as int),
                )
            },
            SyntaxTextInner::Ansi(lines) => text::views(lines@),
        }
    }

    /// Text that the built-in highlighter has been through.
    pub fn new(run: SyntaxRun) -> (r: SyntaxText)
        requires
            run.wf(),
        ensures
            r == (SyntaxText {
                inner: SyntaxTextInner::Syntect { text: run.text, lines: run.lines },
                path: run.path,
            }),
            r.wf(),
    {
        let r = SyntaxText {
            inner: SyntaxTextInner::Syntect { text: run.text, lines: run.lines },
            path: run.path,
        };
        assert(r.wf()) by {
            let source = text::lines_of(run.text@);
            assert forall|i: int| 0 <= i < run.lines@.len() && i < source.len() implies items_fit(
                (#[trigger] run.lines@[i]).items@,
                source[i],
            ) by {
                assert(text::views(run.source@)[i] == source[i]);
                assert(highlight::consecutive(run.lines@[i].items@, run.source@[i]@));
            }
        }
        r
    }

    /// Text from a tool that colors its output.
    pub fn from_ansi(lines: Vec<Line>, path: String) -> (r: SyntaxText)
        ensures
            r == (SyntaxText { inner: SyntaxTextInner::Ansi(lines), path }),
            r.wf(),
    {
        SyntaxText { inner: SyntaxTextInner::Ansi(lines), path }
    }

    /// The file that the text is of.
    pub fn path(&self) -> (r: &str)
        ensures
            r@ == self.path@,
    {
        self.path.as_str()
    }

    /// The lines of the text without their styles.
    pub fn source_lines(&self) -> (r: Vec<String>)
        ensures
            text::views(r@) == self.source(),
    {
        match &self.inner {
            SyntaxTextInner::Syntect { text: content, .. } => text::lines(content.as_str()),
            SyntaxTextInner::Ansi(lines) => {
                let mut out: Vec<String> = Vec::new();
                for i in 0..lines.len()
                    invariant
                        out@.len() == i,
                        forall|j: int|
                            0 <= j < i ==> (#[trigger] out@[j])@ == text::line_text(lines@[j]@),
                {
                    out.push(plain_text(&lines[i]));
                }
                assert(text::views(out@) =~= self.source());
                out
            },
        }
    }

    /// The lines of the text as they are shown.
    pub fn to_owned_text(&self) -> (r: Vec<Line>)
        requires
            self.wf(),
        ensures
            text::views(r@) == self.shown(),
    {
        match &self.inner {
            SyntaxTextInner::Ansi(lines) => text::clone_lines(lines),
            SyntaxTextInner::Syntect { text: content, lines } => {
                let source = text::lines(content.as_str());
                let ghost all = text::lines_of(content@);
                let mut out: Vec<Line> = Vec::new();
                let mut i: usize = 0;
                while i < lines.len() && i < source.len()
                    invariant
                        forall|j: int|
                            0 <= j < lines@.len() && j < all.len() ==> items_fit(
                                (#[trigger] lines@[j]).items@,
                                all[j],
                            ),
                        text::views(source@) == all,
                        i <= lines@.len(),
                        i <= source@.len(),
                        out@.len() == i,
                        forall|j: int|
                            0 <= j < i ==> (#[trigger] out@[j])@ == shown_items(
                                lines@[j].items@,
                                all[j],
                                lines@[j].items@.len() as int,
                            ),
                    decreases lines@.len() - i,
                {
                    assert(all.len() == source@.len());
                    assert(all[i as int] == source@[i as int]@);
                    assert(items_fit(lines@[i as int].items@, all[i as int]));
                    out.push(show_line(&lines[i], source[i].as_str()));
                    i += 1;
                }
                assert(text::views(out@) =~= self.shown());
                out
            },
        }
    }
}

/// The text of a line without its styles.
pub fn plain_text(line: &Line) -> (r: String)
    ensures
        r@ == text::line_text(line@),
{
    let mut out = String::new();
    for i in 0..line.spans.len()
        invariant
            out@ == text::line_text(line@.take(i as int)),
    {
        assert(line@.take(i + 1).drop_last() =~= line@.take(i as int));
        out.append(line.spans[i].content.as_str());
    }
    assert(line@.take(line@.len() as int) =~= line@);
    out
}

// ------------------------------------------------------------------- jobs

/// How far the highlighting of a text is.
#[derive(Debug)]
pub enum JobState {
    /// a text and the file that it is of
    Request(String, String),
    Response(SyntaxText),
}

/// The highlighting of a text.
#[derive(Debug)]
pub struct AsyncSyntaxJob {
    pub state: Option<JobState>,
    pub syntax: String,
    pub line_numbers: bool,
    pub generation: u64,
}

impl AsyncSyntaxJob {
    /// A text to highlight, without line numbers.
    pub fn new(content: String, path: String, syntax: String) -> (r: AsyncSyntaxJob)
        ensures
            r == (AsyncSyntaxJob {
                state: Some(JobState::Request(content, path)),
                syntax,
                line_numbers: false,
                generation: 0,
            }),
    {
        AsyncSyntaxJob {
            state: Some(JobState::Request(content, path)),
            syntax,
            line_numbers: false,
            generation: 0,
        }
    }

    /// Ask for line numbers, which only `bat` can give.
    pub fn with_line_numbers(self, enable: bool) -> (r: AsyncSyntaxJob)
        ensures
            r == (AsyncSyntaxJob { line_numbers: enable, ..self }),
    {
        AsyncSyntaxJob { line_numbers: enable, ..self }
    }

    /// Note which revision of the source is highlighted.
    pub fn with_generation(self, generation: u64) -> (r: AsyncSyntaxJob)
        ensures
            r == (AsyncSyntaxJob { generation, ..self }),
    {
        AsyncSyntaxJob { generation, ..self }
    }

    /// Which revision of the source is highlighted.
    pub fn generation(&self) -> (r: u64)
        ensures
            r == self.generation,
    {
        self.generation
    }

    /// Note the highlighted text, unless there is one already. What `bat` could
    /// not highlight and the built-in highlighter could not either is empty.
    pub fn finish(&mut self, bat: Option<SyntaxText>, built_in: Option<SyntaxText>)
        ensures
            ({
                let after = final(self).state;
                &&& *final(self) == (AsyncSyntaxJob { state: after, ..*old(self) })
                &&& match old(self).state {
                    Some(JobState::Request(_, path)) => match (bat, built_in) {
                        (Some(t), _) => after == Some(JobState::Response(t)),
                        (None, Some(t)) => after == Some(JobState::Response(t)),
                        (None, None) => after matches Some(JobState::Response(t)) && t.path == path
                            && t.shown().len() == 0 && t.inner is Ansi,
                    },
                    _ => after == old(self).state,
                }
            }),
    {
        match self.state.take() {
            Some(JobState::Request(_, path)) => {
                let syntax = match (bat, built_in) {
                    (Some(t), _) => t,
                    (None, Some(t)) => t,
                    (None, None) => SyntaxText::from_ansi(Vec::new(), path),
                };
                self.state = Some(JobState::Response(syntax));
            },
            other => {
                self.state = other;
            },
        }
    }

    /// Take the highlighted text out.
    pub fn result(&mut self) -> (r: Option<SyntaxText>)
        ensures
            *final(self) == (AsyncSyntaxJob { state: None, ..*old(self) }),
            r == match old(self).state {
                Some(JobState::Response(t)) => Some(t),
                _ => None,
            },
    {
        match self.state.take() {
            Some(JobState::Response(t)) => Some(t),
            _ => None,
        }
    }
}

// ------------------------------------------------------------------- tools

/// The arguments that `bat` gets to highlight a file.
pub open spec fn bat_arguments(
    path: Seq<char>,
    line_numbers: bool,
    scheme: ColorScheme,
) -> Seq<Seq<char>> {
    seq![
        "--color=always"@,
        if line_numbers {
            "--style=plain,numbers"@
        } else {
            "--plain"@
        },
        "--paging=never"@,
        "--file-name"@,
        path,
    ] + match scheme {
        ColorScheme::Light => seq!["--theme="@ + "light"@],
        ColorScheme::Dark => seq!["--theme="@ + "dark"@],
        ColorScheme::Unknown => Seq::empty(),
    }
}

/// The arguments that `bat` gets to highlight a file. It cannot ask the
/// terminal for its colors, so it is told which theme to use if that is known.
pub fn bat_args(path: &str, line_numbers: bool, scheme: ColorScheme) -> (r: Vec<String>)
    ensures
        text::views(r@) == bat_arguments(path@, line_numbers, scheme),
{
    let mut args: Vec<String> = Vec::new();
    args.push("--color=always".to_owned());
    if line_numbers {
        args.push("--style=plain,numbers".to_owned());
    } else {
        args.push("--plain".to_owned());
    }
    args.push("--paging=never".to_owned());
    args.push("--file-name".to_owned());
    args.push(path.to_owned());
    match scheme.bat_theme() {
        Some(theme) => args.push(text::join2("--theme=", theme)),
        None => {},
    }
    assert(text::views(args@) =~= bat_arguments(path@, line_numbers, scheme));
    args
}

/// What the output of a tool shows, if the tool succeeded and printed
/// something.
pub fn colored_output(success: bool, output: &str, path: &str) -> (r: Option<SyntaxText>)
    ensures
        match r {
            Some(t) => {
                &&& success && output@.len() > 0
                &&& ansi::ansi_lines(output@).len() > 0
                &&& t.wf()
                &&& t.path@ == path@
                &&& t.inner is Ansi
                &&& t.shown() == ansi::fixed_lines(ansi::ansi_lines(output@))
            },
            None => !success || output@.len() == 0 || ansi::ansi_lines(output@).len() == 0,
        },
{
    if !success || output.unicode_len() == 0 {
        return None;
    }
    let (mut lines, _backgrounds) = ansi_to_lines(output);
    let ghost read = text::views(lines@);
    expand_indexed_colors(&mut lines);
    assert(text::views(lines@).len() == read.len());
    if lines.len() == 0 {
        return None;
    }
    Some(SyntaxText::from_ansi(lines, path.to_owned()))
}

/// The same for the bytes that a tool printed.
pub fn colored_bytes(success: bool, output: &[u8], path: &str) -> (r: Option<SyntaxText>)
    ensures
        match r {
            Some(t) => {
                let printed = text::lossy_text(output@);
                &&& success && printed.len() > 0
                &&& ansi::ansi_lines(printed).len() > 0
                &&& t.wf()
                &&& t.path@ == path@
                &&& t.inner is Ansi
                &&& t.shown() == ansi::fixed_lines(ansi::ansi_lines(printed))
            },
            None => !success || text::lossy_text(output@).len() == 0 || ansi::ansi_lines(
                text::lossy_text(output@),
            ).len() == 0,
        },
{
    let printed = text::from_utf8_lossy(output);
    colored_output(success, printed.as_str(), path)
}

/// The tool that lists a folder.
#[derive(Clone, Copy, Debug, PartialEq, Eq, Structural)]
pub enum Lister {
    /// `eza` or `exa`
    Eza,
    Ls,
}

/// A way to list a folder.
#[derive(Debug, PartialEq, Eq)]
pub struct ListCommand {
    pub lister: Lister,
    pub args: Vec<String>,
    /// whether colors are forced by the environment
    pub force_color: bool,
}

/// What a [`ListCommand`] holds.
pub struct ListCommandView {
    pub lister: Lister,
    pub args: Seq<Seq<char>>,
    pub force_color: bool,
}

impl View for ListCommand {
    type V = ListCommandView;

    open spec fn view(&self) -> ListCommandView {
        ListCommandView {
            lister: self.lister,
            args: text::views(self.args@),
            force_color: self.force_color,
        }
    }
}

/// The name of a folder for a tool: the root is named by a dot.
pub open spec fn folder_name(dir: Seq<char>) -> Seq<char> {
    if dir.len() == 0 {
        "."@
    } else {
        dir
    }
}

/// The ways to list a folder, in the order in which they are tried.
pub open spec fn listing_steps(
    dir: Seq<char>,
    depth: u8,
    has_eza: bool,
    has_ls: bool,
) -> Seq<ListCommandView> {
    let name = folder_name(dir);
    (if has_eza {
        seq![
            ListCommandView {
                lister: Lister::Eza,
                args: seq![
                    "--tree"@,
                    "--color=always"@,
                    "--level="@ + text::digits(depth as nat),
                    name,
                ],
                force_color: false,
            },
        ]
    } else {
        Seq::empty()
    }) + if has_ls {
        seq![
            ListCommandView {
                lister: Lister::Ls,
                args: seq!["-l"@, "--color=always"@, name],
                force_color: false,
            },
            ListCommandView {
                lister: Lister::Ls,
                args: seq!["-l"@, "-G"@, name],
                force_color: true,
            },
        ]
    } else {
        Seq::empty()
    }
}

/// The ways to list a folder, in the order in which they are tried: a tree
/// where a tool for it is there, then a flat list with the flags of one kind of
/// `ls` and then of the other.
pub fn dir_listing_steps(dir: &str, depth: u8, has_eza: bool, has_ls: bool) -> (r: Vec<
    ListCommand,
>)
    ensures
        text::views(r@) == listing_steps(dir@, depth, has_eza, has_ls),
{
    let name = if dir.unicode_len() == 0 {
        "."
    } else {
        dir
    };
    let mut out: Vec<ListCommand> = Vec::new();
    if has_eza {
        let mut args: Vec<String> = Vec::new();
        args.push("--tree".to_owned());
        args.push("--color=always".to_owned());
        args.push(text::join2("--level=", text::number(depth as u64).as_str()));
        args.push(name.to_owned());
        assert(text::views(args@) =~= seq![
            "--tree"@,
            "--color=always"@,
            "--level="@ + text::digits(depth as nat),
            name@,
        ]);
        out.push(ListCommand { lister: Lister::Eza, args, force_color: false });
    }
    if has_ls {
        let mut args: Vec<String> = Vec::new();
        args.push("-l".to_owned());
        args.push("--color=always".to_owned());
        args.push(name.to_owned());
        assert(text::views(args@) =~= seq!["-l"@, "--color=always"@, name@]);
        out.push(ListCommand { lister: Lister::Ls, args, force_color: false });
        let mut other: Vec<String> = Vec::new();
        other.push("-l".to_owned());
        other.push("-G".to_owned());
        other.push(name.to_owned());
        assert(text::views(other@) =~= seq!["-l"@, "-G"@, name@]);
        out.push(ListCommand { lister: Lister::Ls, args: other, force_color: true });
    }
    assert(text::views(out@) =~= listing_steps(dir@, depth, has_eza, has_ls));
    out
}

// ------------------------------------------------------------------- programs

/// The file names that a program may have: its own, and with each extension if
/// it has none.
pub open spec fn program_names(name: Seq<char>, extensions: Seq<String>) -> Seq<Seq<char>> {
    seq![name] + if paths::extension_of(name) is Some {
        Seq::empty()
    } else {
        Seq::new(extensions.len(), |i: int| name + extensions[i]@)
    }
}

/// The file names that a program may have.
pub fn executable_names(name: &str, extensions: &Vec<String>) -> (r: Vec<String>)
    ensures
        text::views(r@) == program_names(name@, extensions@),
{
    let mut out: Vec<String> = Vec::new();
    out.push(name.to_owned());
    let ghost added = Seq::new(extensions@.len(), |i: int| name@ + extensions@[i]@);
    assert(text::views(out@) =~= seq![name@] + added.take(0));
    if paths::extension(name).is_none() {
        for i in 0..extensions.len()
            invariant
                added == Seq::new(extensions@.len(), |i: int| name@ + extensions@[i]@),
                text::views(out@) == seq![name@] + added.take(i as int),
        {
            let full = text::join2(name, extensions[i].as_str());
            proof {
                text::lemma_views_push(out@, full);
            }
            out.push(full);
            assert(text::views(out@) =~= seq![name@] + added.take(i + 1));
        }
        assert(added.take(extensions@.len() as int) =~= added);
    }
    assert(text::views(out@) =~= program_names(name@, extensions@));
    out
}

/// The first `n` files in a folder.
pub open spec fn in_folder(dir: Seq<char>, names: Seq<Seq<char>>) -> Seq<Seq<char>> {
    Seq::new(names.len(), |i: int| paths::joined_path(dir, names[i]))
}

/// Where the first `n` programs may be in a folder.
pub open spec fn candidates_in(
    dir: Seq<char>,
    names: Seq<&str>,
    extensions: Seq<String>,
    n: int,
) -> Seq<Seq<char>>
    decreases n,
{
    if n <= 0 {
        Seq::empty()
    } else {
        candidates_in(dir, names, extensions, n - 1) + in_folder(
            dir,
            program_names(names[n - 1]@, extensions),
        )
    }
}

/// Where programs may be in the first `n` folders.
pub open spec fn all_candidates(
    dirs: Seq<String>,
    names: Seq<&str>,
    extensions: Seq<String>,
    n: int,
) -> Seq<Seq<char>>
    decreases n,
{
    if n <= 0 {
        Seq::empty()
    } else {
        all_candidates(dirs, names, extensions, n - 1) + candidates_in(
            dirs[n - 1]@,
            names,
            extensions,
            names.len() as int,
        )
    }
}

fn push_folder(out: &mut Vec<String>, dir: &str, names: &Vec<String>)
    ensures
        text::views(final(out)@) == text::views(old(out)@) + in_folder(
            dir@,
            text::views(names@),
        ),
{
    let ghost all = in_folder(dir@, text::views(names@));
    assert(text::views(out@) =~= text::views(old(out)@) + all.take(0));
    for i in 0..names.len()
        invariant
            all == in_folder(dir@, text::views(names@)),
            text::views(out@) == text::views(old(out)@) + all.take(i as int),
    {
        let file = paths::join_path(dir, names[i].as_str());
        proof {
            text::lemma_views_push(out@, file);
        }
        out.push(file);
        assert(text::views(out@) =~= text::views(old(out)@) + all.take(i + 1));
    }
    assert(all.take(names@.len() as int) =~= all);
}

/// The files that may be one of some programs, in the order in which they are
/// looked for: folder by folder, then name by name.
pub fn find_in_dirs(names: &Vec<&str>, dirs: &Vec<String>, extensions: &Vec<String>) -> (r: Vec<
    String,
>)
    ensures
        text::views(r@) == all_candidates(dirs@, names@, extensions@, dirs@.len() as int),
{
    let mut out: Vec<String> = Vec::new();
    assert(text::views(out@) =~= Seq::empty());
    for d in 0..dirs.len()
        invariant
            text::views(out@) == all_candidates(dirs@, names@, extensions@, d as int),
    {
        let ghost before = text::views(out@);
        assert(before + candidates_in(dirs@[d as int]@, names@, extensions@, 0) =~= before);
        for i in 0..names.len()
            invariant
                d < dirs@.len(),
                text::views(out@) == before + candidates_in(
                    dirs@[d as int]@,
                    names@,
                    extensions@,
                    i as int,
                ),
        {
            let files = executable_names(names[i], extensions);
            push_folder(&mut out, dirs[d].as_str(), &files);
            assert(text::views(out@) =~= before + candidates_in(
                dirs@[d as int]@,
                names@,
                extensions@,
                i + 1,
            ));
        }
    }
    out
}

/// The parts of a list that are not empty, up to the first `n`.
pub open spec fn nonempty(parts: Seq<Seq<char>>, n: int) -> Seq<Seq<char>>
    decreases n,
{
    if n <= 0 {
        Seq::empty()
    } else if parts[n - 1].len() > 0 {
        nonempty(parts, n - 1).push(parts[n - 1])
    } else {
        nonempty(parts, n - 1)
    }
}

/// The extensions that programs have, as a system with such extensions names
/// them.
pub fn executable_extensions(value: &str) -> (r: Vec<String>)
    ensures
        text::views(r@) == nonempty(
            text::split(value@, ';'),
            text::split(value@, ';').len() as int,
        ),
{
    let parts = text::split_at(value, ';');
    let ghost all = text::split(value@, ';');
    let mut out: Vec<String> = Vec::new();
    assert(text::views(out@) =~= Seq::empty());
    for i in 0..parts.len()
        invariant
            text::views(parts@) == all,
            text::views(out@) == nonempty(all, i as int),
    {
        assert(all[i as int] == parts@[i as int]@);
        if parts[i].as_str().unicode_len() > 0 {
            let part = parts[i].clone();
            proof {
                text::lemma_views_push(out@, part);
            }
            out.push(part);
        }
    }
    out
}

/// A program is first looked for under its own name.
pub proof fn lemma_own_name_comes_first(name: Seq<char>, extensions: Seq<String>)
    ensures
        program_names(name, extensions)[0] == name,
{
}

/// A style is drawn in its color, with its attributes and no others.
pub proof fn lemma_styles_keep_their_attributes(style: SyntectStyle)
    ensures
        ({
            let shown = shown_style(style);
            &&& shown.fg == Some(Color::Rgb(style.red, style.green, style.blue))
            &&& shown.bg is None
            &&& shown.add_modifier.bold == style.bold
            &&& shown.add_modifier.italic == style.italic
            &&& shown.add_modifier.underlined == style.underline
            &&& !shown.add_modifier.dim
            &&& !shown.add_modifier.reversed
        }),
{
}

/// Items that follow each other from the start of a line to its end show the
/// whole line.
pub proof fn lemma_items_show_their_line(items: Seq<SyntaxItem>, line: Seq<char>, n: int)
    requires
        0 <= n <= items.len(),
        items_fit(items, line),
        items.len() > 0 ==> items[0].start == 0,
        forall|i: int| 0 <= i < items.len() - 1 ==> (#[trigger] items[i]).end == items[i + 1].start,
    ensures
        text::line_text(shown_items(items, line, n)) == if n == 0 {
            Seq::empty()
        } else {
            line.take(items[n - 1].end as int)
        },
    decreases n,
{
    let shown = shown_items(items, line, n);
    if n > 0 {
        lemma_items_show_their_line(items, line, n - 1);
        assert(shown.drop_last() =~= shown_items(items, line, n - 1));
        let last = items[n - 1];
        if n > 1 {
            assert(items[n - 2].end == items[n - 2 + 1].start);
        }
        assert(line.take(last.start as int) + line.subrange(last.start as int, last.end as int)
            =~= line.take(last.end as int));
        assert(line.take(0) =~= Seq::empty());
    }
}

/// Progress is told at first and then only once the interval is over.
pub proof fn lemma_when_progress_is_told(b: AsyncProgressBuffer, now: u64)
    ensures
        b.last_send is None ==> b.is_due(now),
        b.last_send is Some && now <= b.last_send->0 + b.min_interval ==> !b.is_due(now),
        b.last_send is Some && now > b.last_send->0 + b.min_interval ==> b.is_due(now),
{
}

/// The highlighter writes colors and no pages, is told the name of the file,
/// and of the theme only where the scheme is known.
pub proof fn lemma_arguments_of_the_highlighter(
    path: Seq<char>,
    line_numbers: bool,
    scheme: ColorScheme,
)
    ensures
        ({
            let args = bat_arguments(path, line_numbers, scheme);
            &&& args.len() == if scheme == ColorScheme::Unknown {
                5int
            } else {
                6int
            }
            &&& args[0] == "--color=always"@
            &&& args[1] == if line_numbers {
                "--style=plain,numbers"@
            } else {
                "--plain"@
            }
            &&& args[2] == "--paging=never"@
            &&& args[3] == "--file-name"@
            &&& args[4] == path
            &&& scheme == ColorScheme::Light ==> args[5] == "--theme=light"@
            &&& scheme == ColorScheme::Dark ==> args[5] == "--theme=dark"@
        }),
{
    reveal_strlit("--theme=");
    reveal_strlit("light");
    reveal_strlit("dark");
    reveal_strlit("--theme=light");
    reveal_strlit("--theme=dark");
    assert("--theme="@ + "light"@ =~= "--theme=light"@);
    assert("--theme="@ + "dark"@ =~= "--theme=dark"@);
}

/// A folder is listed by the better program first, and by each only where it
/// is there; every command names the folder as its last argument.
pub proof fn lemma_folders_are_listed(
    dir: Seq<char>,
    depth: u8,
    has_eza: bool,
    has_ls: bool,
    k: int,
)
    ensures
        ({
            let steps = listing_steps(dir, depth, has_eza, has_ls);
            &&& steps.len() == (if has_eza {
                1int
            } else {
                0int
            }) + (if has_ls {
                2int
            } else {
                0int
            })
            &&& has_eza ==> steps[0].lister == Lister::Eza
            &&& has_eza ==> steps[0].args[2] == "--level="@ + text::digits(depth as nat)
            &&& has_eza ==> steps[0].args[0] == "--tree"@
            &&& 0 <= k < steps.len() ==> {
                &&& steps[k].args.len() > 0
                &&& steps[k].args.last() == if dir.len() == 0 {
                    "."@
                } else {
                    dir
                }
                &&& steps[k].lister == Lister::Eza ==> has_eza && k == 0
                &&& steps[k].lister == Lister::Ls ==> has_ls && steps[k].args[0] == "-l"@
                &&& steps[k].force_color <==> steps[k].args[1] == "-G"@
            }
        }),
{
    reveal_strlit("-G");
    reveal_strlit("--color=always");
    assert("-G"@.len() != "--color=always"@.len());
}

/// A program is looked for under its own name and, where that has no ending,
/// under that name with each ending.
pub proof fn lemma_names_of_a_program(name: Seq<char>, extensions: Seq<String>, i: int)
    ensures
        paths::extension_of(name) is Some ==> program_names(name, extensions) == seq![name],
        paths::extension_of(name) is None ==> {
            &&& program_names(name, extensions).len() == extensions.len() + 1
            &&& program_names(name, extensions)[0] == name
            &&& 0 <= i < extensions.len() ==> program_names(name, extensions)[i + 1] == name
                + extensions[i]@
        },
{
    assert(paths::extension_of(name) is Some ==> program_names(name, extensions) =~= seq![name]);
}

/// Every name is looked for in every folder.
pub proof fn lemma_every_folder_is_searched(
    dirs: Seq<String>,
    names: Seq<&str>,
    extensions: Seq<String>,
    n: int,
    d: int,
    k: int,
)
    requires
        0 <= d < n <= dirs.len(),
        0 <= k < names.len(),
    ensures
        all_candidates(dirs, names, extensions, n).contains(
            paths::joined_path(dirs[d]@, names[k]@),
        ),
    decreases n,
{
    let all = all_candidates(dirs, names, extensions, n);
    let before = all_candidates(dirs, names, extensions, n - 1);
    let wanted = paths::joined_path(dirs[d]@, names[k]@);
    if d < n - 1 {
        lemma_every_folder_is_searched(dirs, names, extensions, n - 1, d, k);
        let i = choose|i: int| 0 <= i < before.len() && before[i] == wanted;
        assert(all[i] == wanted);
    } else {
        lemma_every_name_is_looked_for(dirs[d]@, names, extensions, names.len() as int, k);
        let here = candidates_in(dirs[d]@, names, extensions, names.len() as int);
        let i = choose|i: int| 0 <= i < here.len() && here[i] == wanted;
        assert(all[before.len() + i] == wanted);
    }
}

/// Every name is looked for in a folder.
pub proof fn lemma_every_name_is_looked_for(
    dir: Seq<char>,
    names: Seq<&str>,
    extensions: Seq<String>,
    n: int,
    k: int,
)
    requires
        0 <= k < n <= names.len(),
    ensures
        candidates_in(dir, names, extensions, n).contains(paths::joined_path(dir, names[k]@)),
    decreases n,
{
    let all = candidates_in(dir, names, extensions, n);
    let before = candidates_in(dir, names, extensions, n - 1);
    let wanted = paths::joined_path(dir, names[k]@);
    if k < n - 1 {
        lemma_every_name_is_looked_for(dir, names, extensions, n - 1, k);
        let i = choose|i: int| 0 <= i < before.len() && before[i] == wanted;
        assert(all[i] == wanted);
    } else {
        assert(all[before.len() as int] == wanted);
    }
}

/// Folders are searched one after the other, the first one first.
pub proof fn lemma_earlier_folders_come_first(
    dirs: Seq<String>,
    names: Seq<&str>,
    extensions: Seq<String>,
    n: int,
)
    requires
        0 <= n < dirs.len(),
    ensures
        all_candidates(dirs, names, extensions, n).is_prefix_of(
            all_candidates(dirs, names, extensions, n + 1),
        ),
{
}

/// Empty parts are left out and all others stay, in their order.
pub proof fn lemma_empty_parts_are_left_out(parts: Seq<Seq<char>>, n: int, k: int)
    requires
        0 <= n <= parts.len(),
    ensures
        nonempty(parts, n).len() <= n,
        0 <= k < nonempty(parts, n).len() ==> nonempty(parts, n)[k].len() > 0,
        0 <= k < n && parts[k].len() > 0 ==> nonempty(parts, n).contains(parts[k]),
        0 <= k < n ==> nonempty(parts, k).is_prefix_of(nonempty(parts, n)),
        (forall|i: int| 0 <= i < n ==> (#[trigger] parts[i]).len() > 0) ==> nonempty(parts, n)
            == parts.take(n),
    decreases n,
{
    if n > 0 {
        lemma_empty_parts_are_left_out(parts, n - 1, k);
        let before = nonempty(parts, n - 1);
        let all = nonempty(parts, n);
        if 0 <= k < n && parts[k].len() > 0 {
            if k < n - 1 {
                let i = choose|i: int| 0 <= i < before.len() && before[i] == parts[k];
                assert(all[i] == parts[k]);
            } else {
                assert(all[all.len() - 1] == parts[k]);
            }
        }
        assert(before.is_prefix_of(all));
        assert(parts.take(n) =~= parts.take(n - 1).push(parts[n - 1]));
    } else {
        assert(parts.take(0) =~= Seq::empty());
    }
}

} // verus!
