//! The built-in highlighter: the syntax and the theme of a file, and the way
//! through its lines.
use crate::asyncgit::progress::{self, ProgressPercent};
use crate::paths;
use crate::shared::share;
use crate::text;
use crate::ui::syntax_text::{self, AsyncProgressBuffer, SyntaxItem, SyntaxLine, SyntectStyle};
use std::sync::Arc;
use syntect::highlighting::{
    FontStyle, HighlightState, Highlighter, RangedHighlightIterator, Theme, ThemeSet,
};
use syntect::parsing::{ParseState, SyntaxSet};
use vstd::prelude::*;

verus! {

/// The theme that is used where the one asked for is not there.
pub const DEFAULT_SYNTAX_THEME: &'static str = "base16-eighties.dark";

// ------------------------------------------------------------------- outside

/// The syntaxes of the highlighter.
#[verifier::external_type_specification]
#[verifier::external_body]
pub struct ExSyntaxSet(SyntaxSet);

/// The state of the parser between two lines.
#[verifier::external_type_specification]
#[verifier::external_body]
pub struct ExParseState(ParseState);

/// The state of the highlighter between two lines.
#[verifier::external_type_specification]
#[verifier::external_body]
pub struct ExHighlightState(HighlightState);

/// Which colors the parts of a text get.
#[verifier::external_type_specification]
#[verifier::external_body]
pub struct ExTheme(Theme);

/// The syntaxes that files are highlighted by, which are always the same.
pub struct Syntaxes {
    set: Arc<SyntaxSet>,
}

/// The parser for files with an extension, or of a name, if a syntax is known
/// for them.
pub uninterp spec fn extension_parser(extension: Seq<char>) -> Option<ParseState>;

/// The parser for files that start with a line, if a syntax is known for them.
pub uninterp spec fn first_line_parser(line: Seq<char>) -> Option<ParseState>;

/// The parser for a syntax, if there is one of that name.
pub uninterp spec fn named_parser(name: Seq<char>) -> Option<ParseState>;

/// Calls `two_face::syntax::extra_no_newlines`, which unpacks syntaxes that are
/// part of the program.
#[verifier::external_body]
fn load_syntaxes() -> (r: Syntaxes) {
    Syntaxes { set: Arc::new(two_face::syntax::extra_no_newlines()) }
}

/// Calls `ParseState::new` with the syntax that
/// `SyntaxSet::find_syntax_by_extension` finds, if it finds one.
#[verifier::external_body]
fn parse_by_extension(syntaxes: &Syntaxes, extension: &str) -> (r: Option<ParseState>)
    ensures
        r == extension_parser(extension@),
{
    syntaxes.set.find_syntax_by_extension(extension).map(ParseState::new)
}

/// Calls `ParseState::new` with the syntax that
/// `SyntaxSet::find_syntax_by_first_line` finds, if it finds one.
#[verifier::external_body]
fn parse_by_first_line(syntaxes: &Syntaxes, line: &str) -> (r: Option<ParseState>)
    ensures
        r == first_line_parser(line@),
{
    syntaxes.set.find_syntax_by_first_line(line).map(ParseState::new)
}

/// Calls `ParseState::new` with the syntax that
/// `SyntaxSet::find_syntax_by_name` finds, if it finds one.
#[verifier::external_body]
fn parse_by_name(syntaxes: &Syntaxes, name: &str) -> (r: Option<ParseState>)
    ensures
        r == named_parser(name@),
{
    syntaxes.set.find_syntax_by_name(name).map(ParseState::new)
}

/// The name of the syntax that marks nothing.
pub const PLAIN_TEXT: &'static str = "Plain Text";

/// The themes that are part of the program.
pub open spec fn bundled_themes() -> Set<Seq<char>> {
    set![
        "base16-ocean.dark"@,
        "base16-eighties.dark"@,
        "base16-mocha.dark"@,
        "base16-ocean.light"@,
        "InspiredGitHub"@,
        "Solarized (dark)"@,
        "Solarized (light)"@,
    ]
}

/// The theme of a name that is part of the program.
pub uninterp spec fn bundled_theme(name: Seq<char>) -> Theme;

/// Takes a theme out of `ThemeSet::load_defaults`, whose documentation lists
/// the themes that it holds.
#[verifier::external_body]
fn load_theme(name: &str) -> (r: Option<Theme>)
    ensures
        r is Some == bundled_themes().contains(name@),
        r matches Some(theme) ==> theme == bundled_theme(name@),
{
    ThemeSet::load_defaults().themes.remove(name)
}

/// The state of the highlighter before the first line.
pub uninterp spec fn first_state(theme: Theme) -> HighlightState;

/// Calls `HighlightState::new`: no text has been read yet.
#[verifier::external_body]
fn start_state(theme: &Theme) -> (r: HighlightState)
    ensures
        r == first_state(*theme),
{
    HighlightState::new(&Highlighter::new(theme), syntect::parsing::ScopeStack::new())
}

/// A part of a line in one style.
#[derive(Debug, PartialEq, Eq)]
pub struct Piece {
    pub style: SyntectStyle,
    pub text: String,
}

/// What a [`Piece`] holds.
pub struct PieceView {
    pub style: SyntectStyle,
    pub text: Seq<char>,
}

impl View for Piece {
    type V = PieceView;

    open spec fn view(&self) -> PieceView {
        PieceView { style: self.style, text: self.text@ }
    }
}

/// The texts of the parts of a line.
pub open spec fn texts(pieces: Seq<PieceView>) -> Seq<Seq<char>> {
    Seq::new(pieces.len(), |i: int| pieces[i].text)
}

/// Whether the parts follow each other from the start of a line on, and none is
/// empty.
pub open spec fn start_of(pieces: Seq<PieceView>, line: Seq<char>) -> bool {
    &&& text::concat(texts(pieces)).is_prefix_of(line)
    &&& forall|i: int| 0 <= i < pieces.len() ==> (#[trigger] pieces[i]).text.len() > 0
}

/// Why a line could not be highlighted.
#[derive(Clone, Copy, Debug, PartialEq, Eq, Structural)]
pub enum SyntaxError {
    /// the parser gave up on the line
    Unparsable,
}

/// What is highlighted with: the parser and the highlighter between two lines.
/// The parser belongs to the syntaxes beside it.
pub struct Highlighting {
    set: Arc<SyntaxSet>,
    parse: ParseState,
    state: HighlightState,
    theme: Theme,
}

/// What a [`Highlighting`] holds, but for the syntaxes, which are always the
/// same.
pub struct HighlightingView {
    pub parse: ParseState,
    pub state: HighlightState,
    pub theme: Theme,
}

impl View for Highlighting {
    type V = HighlightingView;

    closed spec fn view(&self) -> HighlightingView {
        HighlightingView { parse: self.parse, state: self.state, theme: self.theme }
    }
}

/// The parser behind a line, whether it could parse it or not.
pub uninterp spec fn parser_after(parse: ParseState, line: Seq<char>) -> ParseState;

/// The state of the highlighter behind a line that could be parsed.
pub uninterp spec fn state_after(
    parse: ParseState,
    state: HighlightState,
    theme: Theme,
    line: Seq<char>,
) -> HighlightState;

/// The parts of a line in their styles, or why it cannot be highlighted.
pub uninterp spec fn line_pieces(
    parse: ParseState,
    state: HighlightState,
    theme: Theme,
    line: Seq<char>,
) -> Result<Seq<PieceView>, SyntaxError>;

impl HighlightingView {
    /// The parts of the next line.
    pub open spec fn pieces(self, line: Seq<char>) -> Result<Seq<PieceView>, SyntaxError> {
        line_pieces(self.parse, self.state, self.theme, line)
    }

    /// What is highlighted with behind the next line.
    pub open spec fn behind(self, line: Seq<char>) -> HighlightingView {
        HighlightingView {
            parse: parser_after(self.parse, line),
            state: if self.pieces(line) is Ok {
                state_after(self.parse, self.state, self.theme, line)
            } else {
                self.state
            },
            ..self
        }
    }
}

/// Parts of a line with what they hold.
pub open spec fn views_of(pieces: Result<Vec<Piece>, SyntaxError>) -> Result<
    Seq<PieceView>,
    SyntaxError,
> {
    match pieces {
        Ok(p) => Ok(text::views(p@)),
        Err(e) => Err(e),
    }
}

/// Calls `ParseState::parse_line` and `RangedHighlightIterator` on the next
/// line. The parts that it gives follow each other from the start of the line
/// on, and none is empty.
#[verifier::external_body]
fn highlight_pieces(h: &mut Highlighting, line: &str) -> (r: Result<Vec<Piece>, SyntaxError>)
    ensures
        views_of(r) == line_pieces(old(h)@.parse, old(h)@.state, old(h)@.theme, line@),
        final(h)@.parse == parser_after(old(h)@.parse, line@),
        final(h)@.state == if r is Ok {
            state_after(old(h)@.parse, old(h)@.state, old(h)@.theme, line@)
        } else {
            old(h)@.state
        },
        final(h)@.theme == old(h)@.theme,
        r matches Ok(pieces) ==> start_of(text::views(pieces@), line@),
{
    let ops = h.parse.parse_line(line, &h.set).map_err(|_| SyntaxError::Unparsable)?;
    let highlighter = Highlighter::new(&h.theme);
    let parts = RangedHighlightIterator::new(&mut h.state, &ops, line, &highlighter);
    Ok(parts.map(|(style, part, _)| Piece {
        style: SyntectStyle {
            red: style.foreground.r,
            green: style.foreground.g,
            blue: style.foreground.b,
            bold: style.font_style.contains(FontStyle::BOLD),
            italic: style.font_style.contains(FontStyle::ITALIC),
            underline: style.font_style.contains(FontStyle::UNDERLINE),
        },
        text: part.to_owned(),
    }).collect())
}

// ------------------------------------------------------------------- choices

/// What the syntax of a file is found by.
#[derive(Debug, PartialEq, Eq)]
pub enum SyntaxChoice {
    /// an extension, or the name of a file that has none
    Extension(String),
    /// the first line of the file
    FirstLine(String),
    PlainText,
}

/// What a [`SyntaxChoice`] holds.
pub enum SyntaxChoiceView {
    Extension(Seq<char>),
    FirstLine(Seq<char>),
    PlainText,
}

impl View for SyntaxChoice {
    type V = SyntaxChoiceView;

    open spec fn view(&self) -> SyntaxChoiceView {
        match self {
            SyntaxChoice::Extension(e) => SyntaxChoiceView::Extension(e@),
            SyntaxChoice::FirstLine(l) => SyntaxChoiceView::FirstLine(l@),
            SyntaxChoice::PlainText => SyntaxChoiceView::PlainText,
        }
    }
}

/// The name and the extension of a file, as far as it has them.
pub open spec fn or_empty(part: Option<Seq<char>>) -> Seq<char> {
    match part {
        Some(s) => s,
        None => Seq::empty(),
    }
}

/// Whether a syntax is known for files with an extension, or of a name.
pub open spec fn known_extension(extension: Seq<char>) -> bool {
    extension_parser(extension) is Some
}

/// Whether a syntax is known for files that start with a line.
pub open spec fn known_first_line(line: Seq<char>) -> bool {
    first_line_parser(line) is Some
}

/// How the syntax of a file is found: by its name, by its extension, by its
/// first line if that could be read, or not at all.
pub open spec fn syntax_choice(path: Seq<char>, first_line: Option<Seq<char>>) -> SyntaxChoiceView {
    let name = or_empty(paths::name_of(path));
    let extension = or_empty(paths::extension_of(path));
    if known_extension(name) {
        SyntaxChoiceView::Extension(name)
    } else if known_extension(extension) {
        SyntaxChoiceView::Extension(extension)
    } else {
        match first_line {
            Some(line) if known_first_line(line) => SyntaxChoiceView::FirstLine(line),
            _ => SyntaxChoiceView::PlainText,
        }
    }
}

impl Syntaxes {
    /// Unpack the syntaxes.
    pub fn new() -> (r: Syntaxes) {
        load_syntaxes()
    }

    /// How the syntax of a file is found.
    pub fn choose_syntax(&self, path: &str, first_line: Option<&str>) -> (r: SyntaxChoice)
        ensures
            r@ == syntax_choice(
                path@,
                match first_line {
                    Some(line) => Some(line@),
                    None => None,
                },
            ),
    {
        let name = match paths::file_name(path) {
            Some(name) => name,
            None => String::new(),
        };
        if parse_by_extension(self, name.as_str()).is_some() {
            return SyntaxChoice::Extension(name);
        }
        let extension = match paths::extension(path) {
            Some(extension) => extension,
            None => String::new(),
        };
        if parse_by_extension(self, extension.as_str()).is_some() {
            return SyntaxChoice::Extension(extension);
        }
        match first_line {
            Some(line) => if parse_by_first_line(self, line).is_some() {
                SyntaxChoice::FirstLine(line.to_owned())
            } else {
                SyntaxChoice::PlainText
            },
            None => SyntaxChoice::PlainText,
        }
    }

    /// Whether the first line of a file has to be read to find its syntax.
    pub fn needs_first_line(&self, path: &str) -> (r: bool)
        ensures
            r == (syntax_choice(path@, None) is PlainText),
    {
        match self.choose_syntax(path, None) {
            SyntaxChoice::PlainText => true,
            _ => false,
        }
    }
}

/// Where a theme is taken from.
#[derive(Debug, PartialEq, Eq)]
pub enum ThemeChoice {
    /// the file that was read
    File,
    /// a theme that is part of the program
    Bundled(String),
}

/// What a [`ThemeChoice`] holds.
pub enum ThemeChoiceView {
    File,
    Bundled(Seq<char>),
}

impl View for ThemeChoice {
    type V = ThemeChoiceView;

    open spec fn view(&self) -> ThemeChoiceView {
        match self {
            ThemeChoice::File => ThemeChoiceView::File,
            ThemeChoice::Bundled(name) => ThemeChoiceView::Bundled(name@),
        }
    }
}

/// Which theme is used: the one in the file of the user, the one that is part
/// of the program, or the default one.
pub open spec fn theme_choice(in_file: bool, name: Seq<char>) -> ThemeChoiceView {
    if in_file {
        ThemeChoiceView::File
    } else if bundled_themes().contains(name) {
        ThemeChoiceView::Bundled(name)
    } else {
        ThemeChoiceView::Bundled(DEFAULT_SYNTAX_THEME@)
    }
}

/// Find the theme to use; `loaded` is the one in the file of the user, if there
/// is one.
pub fn choose_theme(loaded: Option<Theme>, name: &str) -> (r: (
    Theme,
    ThemeChoice,
))
    ensures
        r.1@ == theme_choice(loaded is Some, name@),
        r.0 == match r.1@ {
            ThemeChoiceView::File => loaded->0,
            ThemeChoiceView::Bundled(n) => bundled_theme(n),
        },
{
    match loaded {
        Some(theme) => (theme, ThemeChoice::File),
        None => match load_theme(name) {
            Some(theme) => (theme, ThemeChoice::Bundled(name.to_owned())),
            None => match load_theme(DEFAULT_SYNTAX_THEME) {
                Some(theme) => (theme, ThemeChoice::Bundled(DEFAULT_SYNTAX_THEME.to_owned())),
                None => {
                    assert(bundled_themes().contains(DEFAULT_SYNTAX_THEME@));
                    vstd::pervasive::unreached()
                },
            },
        },
    }
}

/// The parser that a choice leads to.
pub open spec fn chosen_parser(choice: SyntaxChoiceView) -> Option<ParseState> {
    match choice {
        SyntaxChoiceView::Extension(e) => extension_parser(e),
        SyntaxChoiceView::FirstLine(l) => first_line_parser(l),
        SyntaxChoiceView::PlainText => named_parser(PLAIN_TEXT@),
    }
}

impl Highlighting {
    /// Start to highlight a file, by the syntax that is chosen for it. That
    /// needs the syntax of plain text where no other is known.
    pub fn new(
        syntaxes: &Syntaxes,
        path: &str,
        first_line: Option<&str>,
        theme: Theme,
    ) -> (r: Option<(Highlighting, SyntaxChoice)>)
        ensures
            ({
                let choice = syntax_choice(
                    path@,
                    match first_line {
                        Some(line) => Some(line@),
                        None => None,
                    },
                );
                match r {
                    Some((h, chosen)) => chosen@ == choice && chosen_parser(choice) == Some(
                        h@.parse,
                    ) && h@.state == first_state(theme) && h@.theme == theme,
                    None => choice is PlainText && named_parser(PLAIN_TEXT@) is None,
                }
            }),
    {
        let choice = syntaxes.choose_syntax(path, first_line);
        let found = match &choice {
            SyntaxChoice::Extension(e) => parse_by_extension(syntaxes, e.as_str()),
            SyntaxChoice::FirstLine(l) => parse_by_first_line(syntaxes, l.as_str()),
            SyntaxChoice::PlainText => parse_by_name(syntaxes, PLAIN_TEXT),
        };
        match found {
            Some(parse) => {
                let state = start_state(&theme);
                Some((Highlighting { set: share(&syntaxes.set), parse, state, theme }, choice))
            },
            None => None,
        }
    }
}

// ------------------------------------------------------------------- lines

/// How many characters the first `n` parts hold.
pub open spec fn length_of(pieces: Seq<PieceView>, n: int) -> int
    decreases n,
{
    if n <= 0 {
        0
    } else {
        length_of(pieces, n - 1) + pieces[n - 1].text.len()
    }
}

/// The parts of a line by their place in it.
pub open spec fn placed(pieces: Seq<PieceView>) -> Seq<SyntaxItem> {
    Seq::new(
        pieces.len(),
        |i: int|
            SyntaxItem {
                style: pieces[i].style,
                start: length_of(pieces, i) as usize,
                end: length_of(pieces, i + 1) as usize,
            },
    )
}

proof fn lemma_length_of(pieces: Seq<PieceView>, n: int)
    requires
        0 <= n <= pieces.len(),
    ensures
        length_of(pieces, n) == text::concat(texts(pieces).take(n)).len(),
        0 <= length_of(pieces, n) <= length_of(pieces, pieces.len() as int),
        n < pieces.len() ==> length_of(pieces, n) <= length_of(pieces, n + 1),
    decreases pieces.len() - n,
{
    if n < pieces.len() {
        lemma_length_of(pieces, n + 1);
        let all = texts(pieces);
        assert(all.take(n + 1).drop_last() =~= all.take(n));
        assert(all.take(n + 1).last() == pieces[n].text);
    } else {
        lemma_lengths_add(pieces, n);
    }
}

proof fn lemma_lengths_add(pieces: Seq<PieceView>, n: int)
    requires
        0 <= n <= pieces.len(),
    ensures
        length_of(pieces, n) == text::concat(texts(pieces).take(n)).len(),
    decreases n,
{
    let all = texts(pieces);
    if n > 0 {
        lemma_lengths_add(pieces, n - 1);
        assert(all.take(n).drop_last() =~= all.take(n - 1));
        assert(all.take(n).last() == pieces[n - 1].text);
    } else {
        assert(all.take(0) =~= Seq::empty());
    }
}

/// Find the places of the parts of a line.
pub fn place_pieces(pieces: &Vec<Piece>) -> (r: SyntaxLine)
    requires
        length_of(text::views(pieces@), pieces@.len() as int) <= usize::MAX,
    ensures
        r.items@ == placed(text::views(pieces@)),
{
    let ghost all = text::views(pieces@);
    let mut items: Vec<SyntaxItem> = Vec::new();
    let mut at: usize = 0;
    for i in 0..pieces.len()
        invariant
            all == text::views(pieces@),
            length_of(all, pieces@.len() as int) <= usize::MAX,
            at == length_of(all, i as int),
            items@.len() == i,
            forall|j: int| 0 <= j < i ==> #[trigger] items@[j] == placed(all)[j],
    {
        proof {
            lemma_length_of(all, i + 1);
            assert(all[i as int] == pieces@[i as int]@);
        }
        let n: usize = text::chars_of(pieces[i].text.as_str()).len();
        items.push(SyntaxItem { style: pieces[i].style, start: at, end: at + n });
        at = at + n;
    }
    assert(items@ =~= placed(all));
    SyntaxLine { items }
}

// ------------------------------------------------------------------- runs

/// Whether the parts of a line follow each other from its start on.
pub open spec fn consecutive(items: Seq<SyntaxItem>, line: Seq<char>) -> bool {
    &&& items.len() > 0 ==> items[0].start == 0
    &&& forall|i: int| 0 < i < items.len() ==> (#[trigger] items[i]).start == items[i - 1].end
    &&& forall|i: int|
        0 <= i < items.len() ==> (#[trigger] items[i]).start < items[i].end <= line.len()
}

/// The way through the lines of a text.
#[derive(Debug)]
pub struct SyntaxRun {
    pub text: String,
    pub path: String,
    /// the lines of the text
    pub source: Vec<String>,
    /// the lines that are highlighted
    pub lines: Vec<SyntaxLine>,
    pub buffer: AsyncProgressBuffer,
}

/// What a step of a run came to.
#[derive(Clone, Copy, Debug, PartialEq, Eq, Structural)]
pub enum RunStep {
    /// a line was highlighted
    Line,
    /// a line was highlighted, and the progress has to be told
    Progress(ProgressPercent),
    /// all lines are highlighted
    Done,
    /// the next line cannot be highlighted
    Failed,
}

impl SyntaxRun {
    /// What holds of every run: the highlighted parts make up the start of
    /// their lines.
    pub open spec fn wf(self) -> bool {
        &&& text::views(self.source@) == text::lines_of(self.text@)
        &&& self.lines@.len() <= self.source@.len()
        &&& self.buffer.total == self.source@.len()
        &&& forall|i: int|
            0 <= i < self.lines@.len() ==> consecutive(
                (#[trigger] self.lines@[i]).items@,
                self.source@[i]@,
            )
    }

    /// Start a run. The progress has to be told.
    pub fn new(text: String, path: String, now: u64) -> (r: (SyntaxRun, ProgressPercent))
        ensures
            r.0.wf(),
            r.0.text == text,
            r.0.path == path,
            r.0.lines@.len() == 0,
            r.0.buffer == (AsyncProgressBuffer {
                current: 0,
                total: r.0.source@.len() as usize,
                last_send: Some(now),
                min_interval: 200,
            }),
            r.1.progress == progress::percent(0, text::lines_of(text@).len() as int),
    {
        let source = text::lines(text.as_str());
        assert(text::views(source@).len() == source@.len());
        let mut buffer = AsyncProgressBuffer::new(source.len(), 200);
        let percent = buffer.send_progress(now);
        (SyntaxRun { text, path, source, lines: Vec::new(), buffer }, percent)
    }

    /// The step after a line, given its number.
    pub open spec fn told(self, now: u64) -> RunStep {
        if self.buffer.is_due(now) {
            RunStep::Progress(
                ProgressPercent {
                    progress: progress::percent(
                        self.lines@.len() as int,
                        self.buffer.total as int,
                    ) as u8,
                },
            )
        } else {
            RunStep::Line
        }
    }

    /// Progress after a line.
    pub open spec fn counted(self, now: u64) -> AsyncProgressBuffer {
        AsyncProgressBuffer {
            current: self.lines@.len() as usize,
            last_send: if self.buffer.is_due(now) {
                Some(now)
            } else {
                self.buffer.last_send
            },
            ..self.buffer
        }
    }

    /// Take in the parts of the next line.
    pub fn take_line(&mut self, pieces: Result<Vec<Piece>, SyntaxError>, now: u64) -> (r: RunStep)
        requires
            old(self).wf(),
            old(self).lines@.len() < old(self).source@.len(),
            pieces matches Ok(p) ==> start_of(
                text::views(p@),
                old(self).source@[old(self).lines@.len() as int]@,
            ),
        ensures
            final(self).wf(),
            match pieces {
                Ok(p) => {
                    let line = final(self).lines@.last();
                    &&& line.items@ == placed(text::views(p@))
                    &&& final(self).lines@ == old(self).lines@.push(line)
                    &&& *final(self) == (SyntaxRun {
                        lines: final(self).lines,
                        buffer: old(self).counted(now),
                        ..*old(self)
                    })
                    &&& r == old(self).told(now)
                },
                Err(_) => *final(self) == *old(self) && r == RunStep::Failed,
            },
    {
        let pieces = match pieces {
            Ok(p) => p,
            Err(_) => {
                return RunStep::Failed;
            },
        };
        let number: usize = self.lines.len();
        let ghost line = self.source@[number as int]@;
        let width: usize = text::chars_of(self.source[number].as_str()).len();
        let ghost all = text::views(pieces@);
        proof {
            lemma_lengths_add(all, all.len() as int);
            assert(texts(all).take(all.len() as int) =~= texts(all));
            assert(width == line.len());
        }
        let items = place_pieces(&pieces);
        proof {
            assert forall|i: int| 0 <= i < items.items@.len() implies (
            #[trigger] items.items@[i]).start < items.items@[i].end <= line.len() by {
                lemma_length_of(all, i);
                lemma_length_of(all, i + 1);
                assert(all[i].text.len() > 0);
            }
            assert forall|i: int| 0 < i < items.items@.len() implies (
            #[trigger] items.items@[i]).start == items.items@[i - 1].end by {
                lemma_length_of(all, i);
            }
            assert(consecutive(items.items@, line));
        }
        self.lines.push(items);
        if self.buffer.update(number, now) {
            RunStep::Progress(self.buffer.send_progress(now))
        } else {
            RunStep::Line
        }
    }

    /// Highlight the next line.
    pub fn step(&mut self, highlighting: &mut Highlighting, now: u64) -> (r: RunStep)
        requires
            old(self).wf(),
        ensures
            final(self).wf(),
            if old(self).lines@.len() == old(self).source@.len() {
                &&& r == RunStep::Done
                &&& *final(self) == *old(self)
                &&& *final(highlighting) == *old(highlighting)
            } else {
                let line = old(self).source@[old(self).lines@.len() as int]@;
                &&& final(highlighting)@ == old(highlighting)@.behind(line)
                &&& match old(highlighting)@.pieces(line) {
                    Err(_) => r == RunStep::Failed && *final(self) == *old(self),
                    Ok(pieces) => {
                        let shown = final(self).lines@.last();
                        &&& r == old(self).told(now)
                        &&& shown.items@ == placed(pieces)
                        &&& final(self).lines@ == old(self).lines@.push(shown)
                        &&& *final(self) == (SyntaxRun {
                            lines: final(self).lines,
                            buffer: old(self).counted(now),
                            ..*old(self)
                        })
                    },
                }
            },
    {
        let number: usize = self.lines.len();
        if number >= self.source.len() {
            return RunStep::Done;
        }
        let pieces = highlight_pieces(highlighting, self.source[number].as_str());
        self.take_line(pieces, now)
    }
}

/// Highlighting changes no text: what a highlighted line shows is the start of
/// the line.
pub proof fn lemma_highlighting_keeps_the_text(run: SyntaxRun, i: int)
    requires
        run.wf(),
        0 <= i < run.lines@.len(),
    ensures
        text::line_text(
            syntax_text::shown_items(
                run.lines@[i].items@,
                run.source@[i]@,
                run.lines@[i].items@.len() as int,
            ),
        ).is_prefix_of(run.source@[i]@),
{
    let items = run.lines@[i].items@;
    let line = run.source@[i]@;
    assert(consecutive(items, line));
    lemma_shown_start(items, line, items.len() as int);
}

proof fn lemma_shown_start(items: Seq<SyntaxItem>, line: Seq<char>, n: int)
    requires
        consecutive(items, line),
        0 <= n <= items.len(),
    ensures
        text::line_text(syntax_text::shown_items(items, line, n)) == line.take(
            if n == 0 {
                0
            } else {
                items[n - 1].end as int
            },
        ),
    decreases n,
{
    let shown = syntax_text::shown_items(items, line, n);
    if n > 0 {
        lemma_shown_start(items, line, n - 1);
        assert(shown.drop_last() =~= syntax_text::shown_items(items, line, n - 1));
        let start = items[n - 1].start as int;
        let end = items[n - 1].end as int;
        assert(line.take(start) + line.subrange(start, end) =~= line.take(end));
    } else {
        assert(line.take(0) =~= Seq::empty());
    }
}

/// The name of a file counts before its ending, and its ending before its first
/// line. A syntax that is not known is never chosen.
pub proof fn lemma_which_syntax_is_chosen(path: Seq<char>, first_line: Option<Seq<char>>)
    ensures
        ({
            let choice = syntax_choice(path, first_line);
            let name = or_empty(paths::name_of(path));
            let extension = or_empty(paths::extension_of(path));
            &&& extension_parser(name) is Some ==> choice == SyntaxChoiceView::Extension(name)
            &&& extension_parser(name) is None && extension_parser(extension) is Some ==> choice
                == SyntaxChoiceView::Extension(extension)
            &&& choice is FirstLine ==> first_line == Some(choice->FirstLine_0)
                && extension_parser(name) is None && extension_parser(extension) is None
            &&& !(choice is PlainText) ==> chosen_parser(choice) is Some
            &&& choice is PlainText ==> extension_parser(name) is None && extension_parser(
                extension,
            ) is None && (first_line is None || first_line_parser(first_line->0) is None)
        }),
{
}

/// A theme of its own comes first, and the usual one takes the place of one
/// that is not known.
pub proof fn lemma_which_theme_is_chosen(in_file: bool, name: Seq<char>)
    ensures
        in_file <==> theme_choice(in_file, name) is File,
        !in_file && bundled_themes().contains(name) ==> theme_choice(in_file, name)
            == ThemeChoiceView::Bundled(name),
        !in_file && !bundled_themes().contains(name) ==> theme_choice(in_file, name)
            == ThemeChoiceView::Bundled("base16-eighties.dark"@),
{
}

/// Pieces are placed one after the other, each over as many characters as it
/// has.
pub proof fn lemma_pieces_follow_each_other(pieces: Seq<PieceView>, i: int)
    requires
        0 <= i < pieces.len(),
        length_of(pieces, pieces.len() as int) <= usize::MAX,
    ensures
        ({
            let items = placed(pieces);
            &&& items.len() == pieces.len()
            &&& items[0].start == 0
            &&& items[i].style == pieces[i].style
            &&& items[i].end - items[i].start == pieces[i].text.len()
            &&& i + 1 < pieces.len() ==> items[i + 1].start == items[i].end
        }),
{
    lemma_lengths_grow(pieces, i, pieces.len() as int);
    lemma_lengths_grow(pieces, i + 1, pieces.len() as int);
    lemma_lengths_grow(pieces, 0, i);
    assert(length_of(pieces, i + 1) == length_of(pieces, i) + pieces[i].text.len());
}

proof fn lemma_lengths_grow(pieces: Seq<PieceView>, i: int, j: int)
    requires
        0 <= i <= j <= pieces.len(),
    ensures
        0 <= length_of(pieces, i) <= length_of(pieces, j),
    decreases j,
{
    if i < j {
        lemma_lengths_grow(pieces, i, j - 1);
    } else if j > 0 {
        lemma_lengths_grow(pieces, i - 1, j - 1);
    }
}

/// Progress is told as the share of the lines that are done, no more often than
/// the interval allows, and each time is noted.
pub proof fn lemma_progress_of_a_run(run: SyntaxRun, now: u64)
    requires
        run.wf(),
        run.buffer.total > 0,
    ensures
        run.told(now) is Progress <==> run.buffer.last_send is None || now
            - run.buffer.last_send->0 > run.buffer.min_interval,
        run.told(now) is Progress ==> run.counted(now).last_send == Some(now),
        !(run.told(now) is Progress) ==> run.counted(now).last_send == run.buffer.last_send,
        run.counted(now).current == run.lines@.len(),
        run.counted(now).total == run.buffer.total,
        run.told(now) is Progress && run.lines@.len() == run.buffer.total ==> run.told(
            now,
        )->Progress_0.progress == 100,
        run.told(now) is Progress && run.lines@.len() == 0 ==> run.told(now)->Progress_0.progress
            == 0,
{
    progress::lemma_shares(run.lines@.len() as int, run.buffer.total as int);
}

} // verus!
