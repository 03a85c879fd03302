//! ANSI-colored text, as tools such as delta and bat print it, turned into
//! styled lines.
use crate::text::{chars_of, string_of, parse_u32, Color, Line, Modifier, Span, Style};
use crate::text::{self, SpanView};
use vstd::prelude::*;

verus! {

/// The brightness of one channel of the 6x6x6 color cube.
pub open spec fn cube_level(value: int) -> int {
    if value == 0 {
        0
    } else {
        55 + value * 40
    }
}

/// The color that xterm defines for a fixed palette index; the first sixteen
/// entries belong to the terminal and stay as they are.
pub open spec fn fixed_color(color: Color) -> Color {
    match color {
        Color::Indexed(index) => if index < 16 {
            color
        } else if index < 232 {
            let cube = index - 16;
            Color::Rgb(
                cube_level(cube / 36) as u8,
                cube_level((cube % 36) / 6) as u8,
                cube_level(cube % 6) as u8,
            )
        } else {
            let gray = (8 + (index - 232) * 10) as u8;
            Color::Rgb(gray, gray, gray)
        },
        _ => color,
    }
}

pub open spec fn fixed_option(color: Option<Color>) -> Option<Color> {
    match color {
        Some(c) => Some(fixed_color(c)),
        None => None,
    }
}

pub open spec fn fixed_span(span: SpanView) -> SpanView {
    SpanView {
        content: span.content,
        style: Style { fg: fixed_option(span.style.fg), bg: fixed_option(span.style.bg), ..span.style },
    }
}

pub open spec fn fixed_line(line: Seq<SpanView>) -> Seq<SpanView> {
    Seq::new(line.len(), |i: int| fixed_span(line[i]))
}

fn xterm_cube_component(value: u8) -> (r: u8)
    requires
        value <= 5,
    ensures
        r == cube_level(value as int),
{
    if value == 0 {
        0
    } else {
        55 + value * 40
    }
}

fn expand_indexed_color(color: Color) -> (r: Color)
    ensures
        r == fixed_color(color),
{
    let index: u8 = match color {
        Color::Indexed(index) => index,
        _ => {
            return color;
        },
    };
    if index < 16 {
        color
    } else if index < 232 {
        let cube: u8 = index - 16;
        let r: u8 = xterm_cube_component(cube / 36);
        let g: u8 = xterm_cube_component((cube % 36) / 6);
        let b: u8 = xterm_cube_component(cube % 6);
        Color::Rgb(r, g, b)
    } else {
        let gray: u8 = 8 + (index - 232) * 10;
        Color::Rgb(gray, gray, gray)
    }
}

fn expand_option(color: Option<Color>) -> (r: Option<Color>)
    ensures
        r == fixed_option(color),
{
    match color {
        Some(c) => Some(expand_indexed_color(c)),
        None => None,
    }
}

/// Lines with the fixed palette colors replaced by their exact values.
pub open spec fn fixed_lines(lines: Seq<Seq<SpanView>>) -> Seq<Seq<SpanView>> {
    Seq::new(lines.len(), |i: int| fixed_line(lines[i]))
}

fn expand_spans(spans: Vec<Span>) -> (r: Vec<Span>)
    ensures
        text::views(r@) == fixed_line(text::views(spans@)),
{
    let mut spans = spans;
    let ghost before = spans@;
    let n: usize = spans.len();
    for i in 0..n
        invariant
            n == spans@.len() == before.len(),
            forall|j: int| 0 <= j < i ==> (#[trigger] spans@[j])@ == fixed_span(before[j]@),
            forall|j: int| i <= j < n ==> #[trigger] spans@[j] == before[j],
    {
        let style = spans[i].style;
        let expanded = Style {
            fg: expand_option(style.fg),
            bg: expand_option(style.bg),
            add_modifier: style.add_modifier,
            sub_modifier: style.sub_modifier,
        };
        let span = Span { content: spans[i].content.clone(), style: expanded };
        spans.set(i, span);
    }
    assert(text::views(spans@) =~= fixed_line(text::views(before)));
    spans
}

/// Replace the fixed palette colors of parsed lines by their exact values,
/// once nothing needs the indices any more.
pub fn expand_indexed_colors(lines: &mut Vec<Line>)
    ensures
        text::views(final(lines)@) == fixed_lines(text::views(old(lines)@)),
{
    let ghost before = lines@;
    let n: usize = lines.len();
    for i in 0..n
        invariant
            n == lines@.len() == before.len(),
            forall|j: int| 0 <= j < i ==> (#[trigger] lines@[j])@ == fixed_line(before[j]@),
            forall|j: int| i <= j < n ==> #[trigger] lines@[j] == before[j],
    {
        let spans = expand_spans(text::clone_spans(&lines[i].spans));
        lines.set(i, Line { spans });
    }
    assert(text::views(lines@) =~= fixed_lines(text::views(before)));
}

/// Expand a color that stands alone, such as a remembered line background.
pub fn expanded_color(color: Color) -> (r: Color)
    ensures
        r == fixed_color(color),
{
    expand_indexed_color(color)
}

/// Expanding colors a second time changes nothing.
pub proof fn lemma_expansion_is_idempotent(color: Color)
    ensures
        fixed_color(fixed_color(color)) == fixed_color(color),
{
}

/// Expansion leaves only the sixteen colors of the terminal's own scheme
/// indexed, and it leaves those alone.
pub proof fn lemma_expansion_keeps_only_terminal_indices(color: Color)
    ensures
        fixed_color(color) matches Color::Indexed(i) ==> i < 16 && fixed_color(color) == color,
        color matches Color::Indexed(i) && i < 16 ==> fixed_color(color) == color,
{
}

// ---------------------------------------------------------------- SGR codes

/// The numbers in a list of parameter fields; fields that are no number drop out.
pub open spec fn field_codes(fields: Seq<Seq<char>>) -> Seq<u32>
    decreases fields.len(),
{
    if fields.len() == 0 {
        Seq::empty()
    } else {
        let rest = field_codes(fields.drop_last());
        match text::parsed_u32(fields.last()) {
            Some(n) => rest.push(n),
            None => rest,
        }
    }
}

/// The numeric parameters of a control sequence.
pub open spec fn sgr_codes(params: Seq<char>) -> Seq<u32> {
    field_codes(text::split(params, ';'))
}

pub open spec fn standard_color(code: int) -> Color {
    if code == 0 {
        Color::Black
    } else if code == 1 {
        Color::Red
    } else if code == 2 {
        Color::Green
    } else if code == 3 {
        Color::Yellow
    } else if code == 4 {
        Color::Blue
    } else if code == 5 {
        Color::Magenta
    } else if code == 6 {
        Color::Cyan
    } else {
        Color::White
    }
}

pub open spec fn bright_color(code: int) -> Color {
    if code == 0 {
        Color::Gray
    } else if code == 1 {
        Color::LightRed
    } else if code == 2 {
        Color::LightGreen
    } else if code == 3 {
        Color::LightYellow
    } else if code == 4 {
        Color::LightBlue
    } else if code == 5 {
        Color::LightMagenta
    } else if code == 6 {
        Color::LightCyan
    } else {
        Color::White
    }
}

/// A color channel: values that do not fit a byte count as zero.
pub open spec fn channel(n: u32) -> u8 {
    if n <= 255 {
        n as u8
    } else {
        0
    }
}

/// The extended color that starts at `codes[i]`, and how many codes it takes.
pub open spec fn extended_color(codes: Seq<u32>, i: int) -> Option<(Color, int)> {
    if i < codes.len() && codes[i] == 5 && i + 2 <= codes.len() {
        Some((Color::Indexed(channel(codes[i + 1])), 2))
    } else if i < codes.len() && codes[i] == 2 && i + 4 <= codes.len() {
        Some((Color::Rgb(channel(codes[i + 1]), channel(codes[i + 2]), channel(codes[i + 3])), 4))
    } else {
        None
    }
}

/// What one code does to a style, and how many codes it takes up.
pub open spec fn sgr_step(style: Style, codes: Seq<u32>, i: int) -> (Style, int) {
    let c = codes[i] as int;
    let none = Modifier::none();
    if c == 0 {
        (Style::plain(), 1)
    } else if c == 1 {
        (style.with_modifier(Modifier { bold: true, ..none }), 1)
    } else if c == 2 {
        (style.with_modifier(Modifier { dim: true, ..none }), 1)
    } else if c == 3 {
        (style.with_modifier(Modifier { italic: true, ..none }), 1)
    } else if c == 4 {
        (style.with_modifier(Modifier { underlined: true, ..none }), 1)
    } else if c == 22 {
        (style.without_modifier(Modifier { bold: true, dim: true, ..none }), 1)
    } else if c == 23 {
        (style.without_modifier(Modifier { italic: true, ..none }), 1)
    } else if c == 24 {
        (style.without_modifier(Modifier { underlined: true, ..none }), 1)
    } else if 30 <= c <= 37 {
        (style.with_fg(standard_color(c - 30)), 1)
    } else if c == 38 {
        match extended_color(codes, i + 1) {
            Some((color, n)) => (style.with_fg(color), 1 + n),
            None => (style, 1),
        }
    } else if c == 39 {
        (style.with_fg(Color::Reset), 1)
    } else if 40 <= c <= 47 {
        (style.with_bg(standard_color(c - 40)), 1)
    } else if c == 48 {
        match extended_color(codes, i + 1) {
            Some((color, n)) => (style.with_bg(color), 1 + n),
            None => (style, 1),
        }
    } else if c == 49 {
        (style.with_bg(Color::Reset), 1)
    } else if 90 <= c <= 97 {
        (style.with_fg(bright_color(c - 90)), 1)
    } else if 100 <= c <= 107 {
        (style.with_bg(bright_color(c - 100)), 1)
    } else {
        (style, 1)
    }
}

/// The style after the codes from `codes[i]` on have been obeyed.
pub open spec fn sgr_style(style: Style, codes: Seq<u32>, i: int) -> Style
    decreases codes.len() - i,
{
    if i < 0 || i >= codes.len() {
        style
    } else {
        let (next, n) = sgr_step(style, codes, i);
        sgr_style(next, codes, i + n)
    }
}

fn ansi_standard_color(code: u32) -> (r: Color)
    ensures
        r == standard_color(code as int),
{
    match code {
        0 => Color::Black,
        1 => Color::Red,
        2 => Color::Green,
        3 => Color::Yellow,
        4 => Color::Blue,
        5 => Color::Magenta,
        6 => Color::Cyan,
        _ => Color::White,
    }
}

fn ansi_bright_color(code: u32) -> (r: Color)
    ensures
        r == bright_color(code as int),
{
    match code {
        0 => Color::Gray,
        1 => Color::LightRed,
        2 => Color::LightGreen,
        3 => Color::LightYellow,
        4 => Color::LightBlue,
        5 => Color::LightMagenta,
        6 => Color::LightCyan,
        _ => Color::White,
    }
}

fn color_channel(n: u32) -> (r: u8)
    ensures
        r == channel(n),
{
    if n <= 255 {
        n as u8
    } else {
        0
    }
}

fn parse_extended_color(codes: &Vec<u32>, i: usize) -> (r: Option<(Color, usize)>)
    requires
        i <= codes@.len(),
    ensures
        match r {
            Some((color, n)) => extended_color(codes@, i as int) == Some((color, n as int)) && i + n
                <= codes@.len(),
            None => extended_color(codes@, i as int) is None,
        },
{
    let left: usize = codes.len() - i;
    if left == 0 {
        return None;
    }
    if codes[i] == 5 && left >= 2 {
        Some((Color::Indexed(color_channel(codes[i + 1])), 2))
    } else if codes[i] == 2 && left >= 4 {
        Some(
            (
                Color::Rgb(
                    color_channel(codes[i + 1]),
                    color_channel(codes[i + 2]),
                    color_channel(codes[i + 3]),
                ),
                4,
            ),
        )
    } else {
        None
    }
}

fn parse_codes(params: &Vec<char>) -> (r: Vec<u32>)
    ensures
        r@ == sgr_codes(params@),
{
    let mut codes: Vec<u32> = Vec::new();
    let mut start: usize = 0;
    let n: usize = params.len();
    proof {
        assert(params@.take(0) =~= Seq::empty());
        assert(text::split(params@.take(0), ';').drop_last() =~= Seq::empty());
        assert(params@.subrange(0, 0) =~= Seq::empty());
    }
    for i in 0..n
        invariant
            n == params@.len(),
            start <= i,
            text::split(params@.take(i as int), ';').len() > 0,
            text::split(params@.take(i as int), ';').last() == params@.subrange(
                start as int,
                i as int,
            ),
            codes@ == field_codes(text::split(params@.take(i as int), ';').drop_last()),
    {
        let ghost whole = text::split(params@.take(i as int), ';');
        let ghost next = text::split(params@.take(i + 1), ';');
        assert(params@.take(i + 1).drop_last() =~= params@.take(i as int));
        if params[i] == ';' {
            match parse_u32(params, start, i) {
                Some(code) => {
                    codes.push(code);
                },
                None => {},
            }
            start = i + 1;
            assert(next.drop_last() =~= whole);
            assert(params@.subrange(start as int, i + 1) =~= Seq::empty());
        } else {
            assert(next.drop_last() =~= whole.drop_last());
            assert(params@.subrange(start as int, i + 1) =~= params@.subrange(
                start as int,
                i as int,
            ).push(params@[i as int]));
        }
    }
    assert(params@.take(n as int) =~= params@);
    match parse_u32(params, start, n) {
        Some(code) => {
            codes.push(code);
        },
        None => {},
    }
    codes
}

/// Obey the parameters of one SGR sequence.
fn apply_sgr(style: Style, params: &Vec<char>) -> (r: Style)
    ensures
        r == sgr_style(style, sgr_codes(params@), 0),
{
    let codes = parse_codes(params);
    let none = Modifier::empty();
    let mut i: usize = 0;
    let mut result = style;
    while i < codes.len()
        invariant
            i <= codes@.len(),
            none == Modifier::none(),
            sgr_style(result, codes@, i as int) == sgr_style(style, codes@, 0),
        decreases codes@.len() - i,
    {
        let code: u32 = codes[i];
        match code {
            0 => {
                result = Style::new();
            },
            1 => {
                result = result.add_modifier(Modifier { bold: true, ..none });
            },
            2 => {
                result = result.add_modifier(Modifier { dim: true, ..none });
            },
            3 => {
                result = result.add_modifier(Modifier { italic: true, ..none });
            },
            4 => {
                result = result.add_modifier(Modifier { underlined: true, ..none });
            },
            22 => {
                result = result.remove_modifier(Modifier { bold: true, dim: true, ..none });
            },
            23 => {
                result = result.remove_modifier(Modifier { italic: true, ..none });
            },
            24 => {
                result = result.remove_modifier(Modifier { underlined: true, ..none });
            },
            30..=37 => {
                result = result.fg(ansi_standard_color(code - 30));
            },
            38 => match parse_extended_color(&codes, i + 1) {
                Some((color, consumed)) => {
                    result = result.fg(color);
                    i += consumed;
                },
                None => {},
            },
            39 => {
                result = result.fg(Color::Reset);
            },
            40..=47 => {
                result = result.bg(ansi_standard_color(code - 40));
            },
            48 => match parse_extended_color(&codes, i + 1) {
                Some((color, consumed)) => {
                    result = result.bg(color);
                    i += consumed;
                },
                None => {},
            },
            49 => {
                result = result.bg(Color::Reset);
            },
            90..=97 => {
                result = result.fg(ansi_bright_color(code - 90));
            },
            100..=107 => {
                result = result.bg(ansi_bright_color(code - 100));
            },
            _ => {},
        }
        i += 1;
    }
    result
}

// ------------------------------------------------------------ whole outputs

/// Whether a character belongs to the parameters of a control sequence.
pub open spec fn is_param(c: char) -> bool {
    text::is_digit(c) || c == ';'
}

/// Where the parameters that start at `i` end.
pub open spec fn params_end(s: Seq<char>, i: int) -> int
    decreases s.len() - i,
{
    if 0 <= i < s.len() && is_param(s[i]) {
        params_end(s, i + 1)
    } else {
        i
    }
}

pub proof fn lemma_params_end(s: Seq<char>, i: int)
    requires
        0 <= i <= s.len(),
    ensures
        i <= params_end(s, i) <= s.len(),
    decreases s.len() - i,
{
    if i < s.len() && is_param(s[i]) {
        lemma_params_end(s, i + 1);
    }
}

/// What has been read of an output so far.
#[verifier::ext_equal]
pub struct Reading {
    /// The style that text gets from here on.
    pub style: Style,
    /// The foreground that a background without one inherits.
    pub content_fg: Option<Color>,
    /// The last background set on the current line.
    pub line_bg: Option<Color>,
    /// Text of the current line that no span holds yet.
    pub pending: Seq<char>,
    /// The spans of the current line.
    pub spans: Seq<SpanView>,
    /// The finished lines.
    pub lines: Seq<Seq<SpanView>>,
    /// The background of each finished line.
    pub line_bgs: Seq<Option<Color>>,
}

pub open spec fn is_rgb(c: Option<Color>) -> bool {
    c matches Some(Color::Rgb(_, _, _))
}

/// The first exact foreground among the spans that have a background.
pub open spec fn rgb_fg(spans: Seq<SpanView>) -> Option<Color>
    decreases spans.len(),
{
    if spans.len() == 0 {
        None
    } else {
        match rgb_fg(spans.drop_last()) {
            Some(c) => Some(c),
            None => if spans.last().style.bg is Some && is_rgb(spans.last().style.fg) {
                spans.last().style.fg
            } else {
                None
            },
        }
    }
}

/// A span that has a background but no foreground takes `fg`.
pub open spec fn filled_span(span: SpanView, fg: Color) -> SpanView {
    if span.style.bg is Some && span.style.fg is None {
        SpanView { content: span.content, style: span.style.with_fg(fg) }
    } else {
        span
    }
}

/// The spans of a line after the foreground has been filled in: from the line
/// itself if it has one, else from `fallback`.
pub open spec fn filled_line(spans: Seq<SpanView>, fallback: Option<Color>) -> Seq<SpanView> {
    let fg = match rgb_fg(spans) {
        Some(c) => Some(c),
        None => fallback,
    };
    match fg {
        Some(c) => Seq::new(spans.len(), |i: int| filled_span(spans[i], c)),
        None => spans,
    }
}

pub open spec fn no_bg(spans: Seq<SpanView>) -> bool {
    forall|i: int| 0 <= i < spans.len() ==> (#[trigger] spans[i]).style.bg is None
}

impl Reading {
    pub open spec fn start() -> Reading {
        Reading {
            style: Style::plain(),
            content_fg: None,
            line_bg: None,
            pending: Seq::empty(),
            spans: Seq::empty(),
            lines: Seq::empty(),
            line_bgs: Seq::empty(),
        }
    }

    /// Pending text becomes a span.
    pub open spec fn flushed(self) -> Reading {
        if self.pending.len() == 0 {
            self
        } else {
            Reading {
                spans: self.spans.push(SpanView { content: self.pending, style: self.style }),
                pending: Seq::empty(),
                ..self
            }
        }
    }

    /// A style sequence was read.
    pub open spec fn styled(self, params: Seq<char>) -> Reading {
        let style = sgr_style(self.style, sgr_codes(params), 0);
        let line_bg = if style.bg is Some && style.bg != Some(Color::Reset) {
            style.bg
        } else {
            self.line_bg
        };
        if style.bg is None {
            Reading { style, line_bg, ..self }
        } else if style.fg is Some {
            Reading {
                style,
                line_bg,
                content_fg: if is_rgb(style.fg) {
                    style.fg
                } else {
                    self.content_fg
                },
                ..self
            }
        } else {
            match self.content_fg {
                Some(fg) => Reading { style: style.with_fg(fg), line_bg, ..self },
                None => Reading { style, line_bg, ..self },
            }
        }
    }

    /// A control sequence with the given parameters and final character was read.
    pub open spec fn controlled(self, params: Seq<char>, end: Option<char>) -> Reading {
        let now = self.flushed();
        if end == Some('m') && params.len() > 0 {
            now.styled(params)
        } else if end == Some('K') && now.style.bg is Some {
            Reading { pending: now.pending.push(' '), ..now }
        } else {
            now
        }
    }

    /// The current line is complete.
    pub open spec fn broken(self) -> Reading {
        let now = self.flushed();
        let spans = filled_line(now.spans, now.content_fg);
        Reading {
            content_fg: match rgb_fg(spans) {
                Some(c) => Some(c),
                None => if no_bg(spans) {
                    None
                } else {
                    now.content_fg
                },
            },
            line_bg: None,
            spans: Seq::empty(),
            lines: now.lines.push(spans),
            line_bgs: now.line_bgs.push(now.line_bg),
            ..now
        }
    }

    /// The input is over: what is left makes a last line.
    pub open spec fn finished(self) -> Reading {
        let now = self.flushed();
        if now.spans.len() == 0 {
            now
        } else {
            Reading {
                spans: Seq::empty(),
                lines: now.lines.push(filled_line(now.spans, now.content_fg)),
                line_bgs: now.line_bgs.push(now.line_bg),
                ..now
            }
        }
    }

    /// The reading after the whole of `s` from position `i` on.
    pub open spec fn read(self, s: Seq<char>, i: int) -> Reading
        decreases s.len() - i,
    {
        if i < 0 || i >= s.len() {
            self
        } else if s[i] == '\u{1b}' {
            if i + 1 < s.len() && s[i + 1] == '[' {
                let end = params_end(s, i + 2);
                if i + 2 <= end < s.len() {
                    self.controlled(s.subrange(i + 2, end), Some(s[end])).read(s, end + 1)
                } else {
                    self.flushed()
                }
            } else {
                self.flushed().read(s, i + 1)
            }
        } else if s[i] == '\n' {
            self.broken().read(s, i + 1)
        } else if s[i] == '\r' {
            self.read(s, i + 1)
        } else {
            Reading { pending: self.pending.push(s[i]), ..self }.read(s, i + 1)
        }
    }
}

/// The lines of an ANSI-colored text.
pub open spec fn ansi_lines(s: Seq<char>) -> Seq<Seq<SpanView>> {
    Reading::start().read(s, 0).finished().lines
}

/// The line-level backgrounds of an ANSI-colored text.
pub open spec fn ansi_bgs(s: Seq<char>) -> Seq<Option<Color>> {
    Reading::start().read(s, 0).finished().line_bgs
}

/// The state of [`ansi_to_lines`].
struct Reader {
    style: Style,
    content_fg: Option<Color>,
    line_bg: Option<Color>,
    pending: Vec<char>,
    spans: Vec<Span>,
    lines: Vec<Line>,
    line_bgs: Vec<Option<Color>>,
}

impl View for Reader {
    type V = Reading;

    closed spec fn view(&self) -> Reading {
        Reading {
            style: self.style,
            content_fg: self.content_fg,
            line_bg: self.line_bg,
            pending: self.pending@,
            spans: text::views(self.spans@),
            lines: text::views(self.lines@),
            line_bgs: self.line_bgs@,
        }
    }
}

fn find_rgb_fg(spans: &Vec<Span>) -> (r: Option<Color>)
    ensures
        r == rgb_fg(text::views(spans@)),
{
    let ghost all = text::views(spans@);
    let mut found: Option<Color> = None;
    for i in 0..spans.len()
        invariant
            all == text::views(spans@),
            found == rgb_fg(all.take(i as int)),
    {
        assert(all.take(i + 1).drop_last() =~= all.take(i as int));
        assert(all.take(i + 1).last() == spans@[i as int]@);
        let style = spans[i].style;
        if found.is_none() && style.bg.is_some() {
            match style.fg {
                Some(Color::Rgb(r, g, b)) => {
                    found = Some(Color::Rgb(r, g, b));
                },
                _ => {},
            }
        }
    }
    assert(all.take(spans@.len() as int) =~= all);
    found
}

fn has_no_bg(spans: &Vec<Span>) -> (r: bool)
    ensures
        r == no_bg(text::views(spans@)),
{
    for i in 0..spans.len()
        invariant
            forall|j: int| 0 <= j < i ==> (#[trigger] spans@[j]).style.bg is None,
    {
        if spans[i].style.bg.is_some() {
            assert(text::views(spans@)[i as int].style.bg is Some);
            return false;
        }
    }
    true
}

/// Delta sometimes resets the style in the middle of a long line and restores
/// the background alone. Spans with a background and no foreground then take
/// the first exact foreground of the line, or else `fallback`.
fn normalize_line_fg(spans: Vec<Span>, fallback: Option<Color>) -> (r: Vec<Span>)
    ensures
        text::views(r@) == filled_line(text::views(spans@), fallback),
{
    let found = match find_rgb_fg(&spans) {
        Some(c) => Some(c),
        None => fallback,
    };
    let fg = match found {
        Some(c) => c,
        None => {
            return spans;
        },
    };
    let mut spans = spans;
    let ghost before = spans@;
    let n: usize = spans.len();
    for i in 0..n
        invariant
            n == spans@.len() == before.len(),
            forall|j: int| 0 <= j < i ==> (#[trigger] spans@[j])@ == filled_span(before[j]@, fg),
            forall|j: int| i <= j < n ==> #[trigger] spans@[j] == before[j],
    {
        let style = spans[i].style;
        if style.bg.is_some() && style.fg.is_none() {
            let span = Span { content: spans[i].content.clone(), style: style.fg(fg) };
            spans.set(i, span);
        }
    }
    assert(text::views(spans@) =~= filled_line(text::views(before), fallback));
    spans
}

impl Reader {
    fn start() -> (r: Reader)
        ensures
            r@ == Reading::start(),
    {
        let r = Reader {
            style: Style::new(),
            content_fg: None,
            line_bg: None,
            pending: Vec::new(),
            spans: Vec::new(),
            lines: Vec::new(),
            line_bgs: Vec::new(),
        };
        assert(r@ =~= Reading::start());
        r
    }

    fn flush(&mut self)
        ensures
            final(self)@ == old(self)@.flushed(),
    {
        if self.pending.len() > 0 {
            let span = Span::styled(string_of(&self.pending), self.style);
            proof {
                text::lemma_views_push(self.spans@, span);
            }
            self.spans.push(span);
            self.pending = Vec::new();
        }
        assert(self@ =~= old(self)@.flushed());
    }

    fn restyle(&mut self, params: &Vec<char>)
        ensures
            final(self)@ == old(self)@.styled(params@),
    {
        let style = apply_sgr(self.style, params);
        self.style = style;
        match style.bg {
            Some(bg) => {
                if bg != Color::Reset {
                    self.line_bg = Some(bg);
                }
                match style.fg {
                    Some(fg) => match fg {
                        Color::Rgb(_, _, _) => {
                            self.content_fg = Some(fg);
                        },
                        _ => {},
                    },
                    None => match self.content_fg {
                        Some(inherited) => {
                            self.style = style.fg(inherited);
                        },
                        None => {},
                    },
                }
            },
            None => {},
        }
        assert(self@ =~= old(self)@.styled(params@));
    }

    fn control(&mut self, params: &Vec<char>, end: Option<char>)
        ensures
            final(self)@ == old(self)@.controlled(params@, end),
    {
        self.flush();
        let is_sgr = match end {
            Some(c) => c == 'm',
            None => false,
        };
        let is_erase = match end {
            Some(c) => c == 'K',
            None => false,
        };
        if is_sgr && params.len() > 0 {
            self.restyle(params);
        } else if is_erase && self.style.bg.is_some() {
            self.pending.push(' ');
        }
        assert(self@ =~= old(self)@.controlled(params@, end));
    }

    fn break_line(&mut self)
        ensures
            final(self)@ == old(self)@.broken(),
    {
        self.flush();
        let ghost now = self@;
        let mut taken: Vec<Span> = Vec::new();
        std::mem::swap(&mut taken, &mut self.spans);
        let spans = normalize_line_fg(taken, self.content_fg);
        match find_rgb_fg(&spans) {
            Some(fg) => {
                self.content_fg = Some(fg);
            },
            None => {
                if has_no_bg(&spans) {
                    self.content_fg = None;
                }
            },
        }
        self.line_bgs.push(self.line_bg);
        self.line_bg = None;
        let line = Line { spans };
        proof {
            text::lemma_views_push(self.lines@, line);
        }
        self.lines.push(line);
        assert(self@ =~= old(self)@.broken());
    }

    fn finish(&mut self)
        ensures
            final(self)@ == old(self)@.finished(),
    {
        self.flush();
        if self.spans.len() > 0 {
            let mut taken: Vec<Span> = Vec::new();
            std::mem::swap(&mut taken, &mut self.spans);
            let spans = normalize_line_fg(taken, self.content_fg);
            self.line_bgs.push(self.line_bg);
            let line = Line { spans };
            proof {
                text::lemma_views_push(self.lines@, line);
            }
            self.lines.push(line);
        }
        assert(self@ =~= old(self)@.finished());
    }
}

/// Convert ANSI-colored text into styled lines, each with the background that
/// is meant for the whole line: the last one set before the line ends, which
/// passes over the highlights of single words.
pub fn ansi_to_lines(input: &str) -> (r: (Vec<Line>, Vec<Option<Color>>))
    ensures
        text::views(r.0@) == ansi_lines(input@),
        r.1@ == ansi_bgs(input@),
{
    let chars = chars_of(input);
    let ghost s = input@;
    let mut reader = Reader::start();
    let mut i: usize = 0;
    while i < chars.len()
        invariant
            chars@ == s,
            i <= s.len(),
            reader@.read(s, i as int) == Reading::start().read(s, 0),
        decreases s.len() - i,
    {
        let c = chars[i];
        if c == '\u{1b}' {
            if i + 1 < chars.len() && chars[i + 1] == '[' {
                let mut params: Vec<char> = Vec::new();
                let mut j: usize = i + 2;
                assert(params@ =~= s.subrange(i + 2, j as int));
                while j < chars.len() && (('0' <= chars[j] && chars[j] <= '9') || chars[j] == ';')
                    invariant
                        chars@ == s,
                        i + 2 <= j <= s.len(),
                        params@ == s.subrange(i + 2, j as int),
                        params_end(s, j as int) == params_end(s, i + 2),
                    decreases s.len() - j,
                {
                    params.push(chars[j]);
                    j += 1;
                    assert(params@ =~= s.subrange(i + 2, j as int));
                }
                if j < chars.len() {
                    reader.control(&params, Some(chars[j]));
                    i = j + 1;
                } else {
                    reader.flush();
                    i = j;
                }
            } else {
                reader.flush();
                i += 1;
            }
        } else if c == '\n' {
            reader.break_line();
            i += 1;
        } else if c == '\r' {
            i += 1;
        } else {
            let ghost before = reader@;
            reader.pending.push(c);
            assert(reader@ =~= (Reading { pending: before.pending.push(c), ..before }));
            i += 1;
        }
    }
    reader.finish();
    (reader.lines, reader.line_bgs)
}

// --------------------------------------------------------------------- laws

/// Whether a character can be shown: no escape, no line break.
pub open spec fn is_shown(c: char) -> bool {
    c != '\u{1b}' && c != '\n' && c != '\r'
}

pub open spec fn all_shown(s: Seq<char>) -> bool {
    forall|i: int| 0 <= i < s.len() ==> is_shown(#[trigger] s[i])
}

/// Whether every span holds some text and nothing but shown characters.
pub open spec fn clean_spans(spans: Seq<SpanView>) -> bool {
    forall|i: int|
        0 <= i < spans.len() ==> (#[trigger] spans[i]).content.len() > 0 && all_shown(
            spans[i].content,
        )
}

impl Reading {
    spec fn clean(self) -> bool {
        &&& all_shown(self.pending)
        &&& clean_spans(self.spans)
        &&& forall|i: int| 0 <= i < self.lines.len() ==> clean_spans(#[trigger] self.lines[i])
        &&& self.lines.len() == self.line_bgs.len()
    }
}

proof fn lemma_flushed_clean(r: Reading)
    requires
        r.clean(),
    ensures
        r.flushed().clean(),
{
}

proof fn lemma_filled_clean(spans: Seq<SpanView>, fallback: Option<Color>)
    requires
        clean_spans(spans),
    ensures
        clean_spans(filled_line(spans, fallback)),
{
    let filled = filled_line(spans, fallback);
    assert forall|i: int| 0 <= i < filled.len() implies (#[trigger] filled[i]).content.len() > 0
        && all_shown(filled[i].content) by {
        assert(filled[i].content == spans[i].content);
    }
}

proof fn lemma_read_clean(r: Reading, s: Seq<char>, i: int)
    requires
        r.clean(),
        0 <= i <= s.len(),
    ensures
        r.read(s, i).clean(),
    decreases s.len() - i,
{
    lemma_flushed_clean(r);
    if i < s.len() {
        if s[i] == '\u{1b}' {
            if i + 1 < s.len() && s[i + 1] == '[' {
                lemma_params_end(s, i + 2);
                let end = params_end(s, i + 2);
                if end < s.len() {
                    lemma_read_clean(
                        r.controlled(s.subrange(i + 2, end), Some(s[end])),
                        s,
                        end + 1,
                    );
                }
            } else {
                lemma_read_clean(r.flushed(), s, i + 1);
            }
        } else if s[i] == '\n' {
            lemma_filled_clean(r.flushed().spans, r.flushed().content_fg);
            lemma_read_clean(r.broken(), s, i + 1);
        } else if s[i] == '\r' {
            lemma_read_clean(r, s, i + 1);
        } else {
            lemma_read_clean(Reading { pending: r.pending.push(s[i]), ..r }, s, i + 1);
        }
    }
}

/// Every line has exactly one line-level background entry.
pub proof fn lemma_one_background_per_line(s: Seq<char>)
    ensures
        ansi_lines(s).len() == ansi_bgs(s).len(),
{
    lemma_read_clean(Reading::start(), s, 0);
    lemma_flushed_clean(Reading::start().read(s, 0));
}

/// No escape sequence leaks: spans are never empty and hold no escape
/// character and no line break.
pub proof fn lemma_no_escape_leaks(s: Seq<char>, line: int)
    requires
        0 <= line < ansi_lines(s).len(),
    ensures
        clean_spans(ansi_lines(s)[line]),
{
    let r = Reading::start().read(s, 0);
    lemma_read_clean(Reading::start(), s, 0);
    lemma_flushed_clean(r);
    lemma_filled_clean(r.flushed().spans, r.flushed().content_fg);
}

/// A line in which some background span has an exact foreground, and one that
/// can inherit a foreground, has no background span without one.
pub proof fn lemma_backgrounds_get_a_foreground(spans: Seq<SpanView>, fallback: Option<Color>, i: int)
    requires
        0 <= i < spans.len(),
        rgb_fg(spans) is Some || fallback is Some,
        spans[i].style.bg is Some,
    ensures
        filled_line(spans, fallback)[i].style.fg is Some,
{
}

/// Filling in foregrounds touches nothing but missing foregrounds.
pub proof fn lemma_filling_keeps_the_rest(spans: Seq<SpanView>, fallback: Option<Color>, i: int)
    requires
        0 <= i < spans.len(),
    ensures
        filled_line(spans, fallback).len() == spans.len(),
        filled_line(spans, fallback)[i].content == spans[i].content,
        filled_line(spans, fallback)[i].style.bg == spans[i].style.bg,
        spans[i].style.fg is Some || spans[i].style.bg is None
            ==> filled_line(spans, fallback)[i] == spans[i],
{
}

/// Text without its carriage returns.
pub open spec fn without_cr(piece: Seq<char>) -> Seq<char> {
    piece.filter(|c: char| c != '\r')
}

/// The lines of a text without escapes: its pieces between line breaks, in
/// which carriage returns are left out, and of which an empty last one is
/// dropped.
pub open spec fn plain_line(piece: Seq<char>) -> Seq<SpanView> {
    let text = without_cr(piece);
    if text.len() == 0 {
        Seq::empty()
    } else {
        seq![SpanView { content: text, style: Style::plain() }]
    }
}

proof fn lemma_plain_read(s: Seq<char>, r: Reading, i: int)
    requires
        0 <= i <= s.len(),
        forall|j: int| 0 <= j < s.len() ==> #[trigger] s[j] != '\u{1b}',
        r.style == Style::plain(),
        r.content_fg is None,
        r.line_bg is None,
        r.spans.len() == 0,
        text::split(s.take(i), '\n').len() == r.lines.len() + 1,
        r.pending == without_cr(text::split(s.take(i), '\n').last()),
        forall|k: int|
            0 <= k < r.lines.len() ==> #[trigger] r.lines[k] == plain_line(
                text::split(s.take(i), '\n')[k],
            ),
    ensures
        r.read(s, i).style == Style::plain(),
        r.read(s, i).content_fg is None,
        r.read(s, i).spans.len() == 0,
        text::split(s, '\n').len() == r.read(s, i).lines.len() + 1,
        r.read(s, i).pending == without_cr(text::split(s, '\n').last()),
        forall|k: int|
            0 <= k < r.read(s, i).lines.len() ==> #[trigger] r.read(s, i).lines[k] == plain_line(
                text::split(s, '\n')[k],
            ),
    decreases s.len() - i,
{
    if i == s.len() {
        assert(s.take(i) =~= s);
    } else {
        let before = text::split(s.take(i), '\n');
        let after = text::split(s.take(i + 1), '\n');
        assert(s.take(i + 1).drop_last() =~= s.take(i));
        reveal(Seq::filter);
        if s[i] == '\n' {
            let next = r.broken();
            reveal_with_fuel(rgb_fg, 2);
            assert(after =~= before.push(Seq::empty()));
            assert(next.lines.last() =~= plain_line(before.last()));
            assert forall|k: int| 0 <= k < next.lines.len() implies #[trigger] next.lines[k]
                == plain_line(after[k]) by {
                if k < r.lines.len() {
                    assert(r.lines[k] == plain_line(before[k]));
                }
            }
            assert(without_cr(after.last()) =~= next.pending);
            lemma_plain_read(s, next, i + 1);
        } else {
            let piece = before.last().push(s[i]);
            assert(after =~= before.drop_last().push(piece));
            assert(piece.drop_last() =~= before.last());
            if s[i] == '\r' {
                assert(without_cr(piece) =~= without_cr(before.last()));
                lemma_plain_read(s, r, i + 1);
            } else {
                let next = Reading { pending: r.pending.push(s[i]), ..r };
                assert(without_cr(piece) =~= without_cr(before.last()).push(s[i]));
                lemma_plain_read(s, next, i + 1);
            }
        }
    }
}

/// Text without escapes comes back line by line, unstyled.
pub proof fn lemma_plain_text(s: Seq<char>)
    requires
        forall|j: int| 0 <= j < s.len() ==> #[trigger] s[j] != '\u{1b}',
    ensures
        ({
            let pieces = text::split(s, '\n');
            let last = plain_line(pieces.last());
            let count = if last.len() == 0 {
                pieces.len() - 1
            } else {
                pieces.len() as int
            };
            ansi_lines(s) == Seq::new(count as nat, |k: int| plain_line(pieces[k]))
        }),
{
    let r = Reading::start();
    assert(s.take(0) =~= Seq::empty());
    reveal(Seq::filter);
    assert(without_cr(text::split(s.take(0), '\n').last()) =~= Seq::empty());
    lemma_plain_read(s, r, 0);
    let pieces = text::split(s, '\n');
    let last = plain_line(pieces.last());
    let count = if last.len() == 0 {
        pieces.len() - 1
    } else {
        pieces.len() as int
    };
    let lines = ansi_lines(s);
    if last.len() > 0 {
        assert(lines.last() =~= last);
    }
    assert(lines =~= Seq::new(count as nat, |k: int| plain_line(pieces[k])));
}

proof fn lemma_codes_shift(style: Style, head: Seq<u32>, codes: Seq<u32>, i: int)
    requires
        0 <= i,
    ensures
        sgr_style(style, head + codes, head.len() + i) == sgr_style(style, codes, i),
    decreases codes.len() - i,
{
    if i < codes.len() {
        let all = head + codes;
        let at = head.len() + i;
        assert(all[at] == codes[i]);
        assert(extended_color(all, at + 1) == extended_color(codes, i + 1)) by {
            if i + 1 < codes.len() {
                assert(all[at + 1] == codes[i + 1]);
            }
            if i + 2 < codes.len() {
                assert(all[at + 2] == codes[i + 2]);
            }
            if i + 4 < codes.len() {
                assert(all[at + 3] == codes[i + 3]);
                assert(all[at + 4] == codes[i + 4]);
            }
        }
        let (next, n) = sgr_step(style, codes, i);
        lemma_codes_shift(next, head, codes, i + n);
    }
}

/// After a reset the style is the one that an output starts with, without colors
/// and attributes, whatever came before it.
pub proof fn lemma_a_reset_forgets_everything(style: Style, codes: Seq<u32>)
    ensures
        sgr_style(style, seq![0u32] + codes, 0) == sgr_style(
            Style {
                fg: None,
                bg: None,
                add_modifier: Modifier {
                    bold: false,
                    dim: false,
                    italic: false,
                    underlined: false,
                    reversed: false,
                },
                sub_modifier: Modifier {
                    bold: false,
                    dim: false,
                    italic: false,
                    underlined: false,
                    reversed: false,
                },
            },
            codes,
            0,
        ),
{
    lemma_codes_shift(Style::plain(), seq![0u32], codes, 0);
    assert((seq![0u32] + codes)[0] == 0);
}

/// Codes act one after the other: one that is no extended color leaves the rest to
/// act on the style that it makes.
pub proof fn lemma_codes_act_in_turn(style: Style, code: u32, codes: Seq<u32>)
    requires
        code != 38,
        code != 48,
    ensures
        sgr_style(style, seq![code] + codes, 0) == sgr_style(
            sgr_style(style, seq![code], 0),
            codes,
            0,
        ),
{
    let (next, n) = sgr_step(style, seq![code], 0);
    assert((seq![code] + codes)[0] == code);
    lemma_codes_shift(next, seq![code], codes, 0);
    lemma_codes_shift(next, seq![code], Seq::empty(), 0);
    assert(seq![code] + Seq::<u32>::empty() =~= seq![code]);
}

/// The codes for attributes turn on or off what they name, and leave colors and
/// the other attributes alone.
pub proof fn lemma_attributes_are_turned_on_and_off(style: Style, code: u32)
    requires
        code == 1 || code == 2 || code == 3 || code == 4 || code == 22 || code == 23 || code == 24,
    ensures
        ({
            let after = sgr_style(style, seq![code], 0);
            let (on, off) = (after.add_modifier, after.sub_modifier);
            let (was_on, was_off) = (style.add_modifier, style.sub_modifier);
            &&& after.fg == style.fg
            &&& after.bg == style.bg
            &&& code == 1 ==> on.bold && !off.bold
            &&& code == 2 ==> on.dim && !off.dim
            &&& code == 3 ==> on.italic && !off.italic
            &&& code == 4 ==> on.underlined && !off.underlined
            &&& code == 22 ==> !on.bold && off.bold && !on.dim && off.dim
            &&& code == 23 ==> !on.italic && off.italic
            &&& code == 24 ==> !on.underlined && off.underlined
            &&& code != 1 && code != 22 ==> on.bold == was_on.bold && off.bold == was_off.bold
            &&& code != 2 && code != 22 ==> on.dim == was_on.dim && off.dim == was_off.dim
            &&& code != 3 && code != 23 ==> on.italic == was_on.italic && off.italic
                == was_off.italic
            &&& code != 4 && code != 24 ==> on.underlined == was_on.underlined && off.underlined
                == was_off.underlined
            &&& on.reversed == was_on.reversed && off.reversed == was_off.reversed
        }),
{
    lemma_codes_shift(sgr_step(style, seq![code], 0).0, seq![code], Seq::empty(), 0);
    assert(seq![code] + Seq::<u32>::empty() =~= seq![code]);
}

/// The eight colors of the terminal and their bright variants, as foreground and
/// as background: nothing but that color changes.
pub proof fn lemma_palette_colors(style: Style, k: u32)
    requires
        k < 8,
    ensures
        ({
            let plain = seq![
                Color::Black,
                Color::Red,
                Color::Green,
                Color::Yellow,
                Color::Blue,
                Color::Magenta,
                Color::Cyan,
                Color::White,
            ];
            let bright = seq![
                Color::Gray,
                Color::LightRed,
                Color::LightGreen,
                Color::LightYellow,
                Color::LightBlue,
                Color::LightMagenta,
                Color::LightCyan,
                Color::White,
            ];
            &&& sgr_style(style, seq![(30 + k) as u32], 0) == (Style {
                fg: Some(plain[k as int]),
                ..style
            })
            &&& sgr_style(style, seq![(40 + k) as u32], 0) == (Style {
                bg: Some(plain[k as int]),
                ..style
            })
            &&& sgr_style(style, seq![(90 + k) as u32], 0) == (Style {
                fg: Some(bright[k as int]),
                ..style
            })
            &&& sgr_style(style, seq![(100 + k) as u32], 0) == (Style {
                bg: Some(bright[k as int]),
                ..style
            })
            &&& sgr_style(style, seq![39u32], 0) == (Style { fg: Some(Color::Reset), ..style })
            &&& sgr_style(style, seq![49u32], 0) == (Style { bg: Some(Color::Reset), ..style })
        }),
{
    reveal_with_fuel(sgr_style, 3);
}

/// An indexed or an exact color is set as it stands, as foreground or as
/// background, and the codes behind it are obeyed.
pub proof fn lemma_extended_colors(style: Style, r: u8, g: u8, b: u8, codes: Seq<u32>)
    ensures
        sgr_style(style, seq![38u32, 5, r as u32] + codes, 0) == sgr_style(
            Style { fg: Some(Color::Indexed(r)), ..style },
            codes,
            0,
        ),
        sgr_style(style, seq![48u32, 5, r as u32] + codes, 0) == sgr_style(
            Style { bg: Some(Color::Indexed(r)), ..style },
            codes,
            0,
        ),
        sgr_style(style, seq![38u32, 2, r as u32, g as u32, b as u32] + codes, 0) == sgr_style(
            Style { fg: Some(Color::Rgb(r, g, b)), ..style },
            codes,
            0,
        ),
        sgr_style(style, seq![48u32, 2, r as u32, g as u32, b as u32] + codes, 0) == sgr_style(
            Style { bg: Some(Color::Rgb(r, g, b)), ..style },
            codes,
            0,
        ),
{
    let fg = seq![38u32, 5, r as u32];
    let bg = seq![48u32, 5, r as u32];
    let exact_fg = seq![38u32, 2, r as u32, g as u32, b as u32];
    let exact_bg = seq![48u32, 2, r as u32, g as u32, b as u32];
    assert((fg + codes)[0] == 38 && (fg + codes)[1] == 5 && (fg + codes)[2] == r);
    assert((bg + codes)[0] == 48 && (bg + codes)[1] == 5 && (bg + codes)[2] == r);
    assert((exact_fg + codes)[0] == 38 && (exact_fg + codes)[1] == 2 && (exact_fg + codes)[2] == r
        && (exact_fg + codes)[3] == g && (exact_fg + codes)[4] == b);
    assert((exact_bg + codes)[0] == 48 && (exact_bg + codes)[1] == 2 && (exact_bg + codes)[2] == r
        && (exact_bg + codes)[3] == g && (exact_bg + codes)[4] == b);
    lemma_codes_shift(Style { fg: Some(Color::Indexed(r)), ..style }, fg, codes, 0);
    lemma_codes_shift(Style { bg: Some(Color::Indexed(r)), ..style }, bg, codes, 0);
    lemma_codes_shift(Style { fg: Some(Color::Rgb(r, g, b)), ..style }, exact_fg, codes, 0);
    lemma_codes_shift(Style { bg: Some(Color::Rgb(r, g, b)), ..style }, exact_bg, codes, 0);
}

/// A code without a meaning here changes nothing.
pub proof fn lemma_other_codes_change_nothing(style: Style, code: u32)
    requires
        code > 4,
        code < 22 || 24 < code < 30 || 49 < code < 90 || 107 < code,
    ensures
        sgr_style(style, seq![code], 0) == style,
{
    reveal_with_fuel(sgr_style, 2);
}

/// The parameters that numbers are written as, with semicolons between them.
pub open spec fn written(codes: Seq<u32>) -> Seq<char> {
    text::joined(Seq::new(codes.len(), |i: int| text::digits(codes[i] as nat)), seq![';'])
}

proof fn lemma_written_fields(codes: Seq<u32>)
    requires
        codes.len() > 0,
    ensures
        text::split(written(codes), ';') == Seq::new(
            codes.len(),
            |i: int| text::digits(codes[i] as nat),
        ),
    decreases codes.len(),
{
    let parts = Seq::new(codes.len(), |i: int| text::digits(codes[i] as nat));
    let last = text::digits(codes.last() as nat);
    text::lemma_digits_read_back(codes.last() as nat);
    assert forall|i: int| 0 <= i < last.len() implies #[trigger] last[i] != ';' by {
        assert(text::is_digit(last[i]));
    }
    if codes.len() == 1 {
        text::lemma_split_single(last, ';');
        assert(written(codes) == last);
        assert(parts =~= seq![last]);
    } else {
        let before = codes.drop_last();
        let before_parts = Seq::new(before.len(), |i: int| text::digits(before[i] as nat));
        assert(parts.drop_last() =~= before_parts);
        lemma_written_fields(before);
        text::lemma_split_behind(written(before), ';', last);
        assert(written(codes) =~= written(before).push(';') + last);
        assert(parts =~= before_parts.push(last));
    }
}

/// The numbers in the parameters of a sequence are read as they are written.
pub proof fn lemma_codes_read_back(codes: Seq<u32>)
    requires
        codes.len() > 0,
    ensures
        sgr_codes(written(codes)) == codes,
{
    lemma_written_fields(codes);
    lemma_field_codes(codes);
}

proof fn lemma_field_codes(codes: Seq<u32>)
    ensures
        field_codes(Seq::new(codes.len(), |i: int| text::digits(codes[i] as nat))) == codes,
    decreases codes.len(),
{
    let parts = Seq::new(codes.len(), |i: int| text::digits(codes[i] as nat));
    if codes.len() == 0 {
        assert(field_codes(parts) =~= codes);
    } else {
        let before = codes.drop_last();
        assert(parts.drop_last() =~= Seq::new(
            before.len(),
            |i: int| text::digits(before[i] as nat),
        ));
        lemma_field_codes(before);
        text::lemma_digits_read_back(codes.last() as nat);
        assert(field_codes(parts) =~= before.push(codes.last()));
        assert(before.push(codes.last()) =~= codes);
    }
}

/// Text that can be shown is kept as it is, behind what stands on the line.
pub proof fn lemma_text_is_kept(r: Reading, s: Seq<char>, i: int)
    requires
        0 <= i <= s.len(),
        forall|j: int| i <= j < s.len() ==> is_shown(#[trigger] s[j]),
    ensures
        r.read(s, i) == (Reading { pending: r.pending + s.skip(i), ..r }),
    decreases s.len() - i,
{
    if i == s.len() {
        assert(r.pending + s.skip(i) =~= r.pending);
    } else {
        let next = Reading { pending: r.pending.push(s[i]), ..r };
        lemma_text_is_kept(next, s, i + 1);
        assert(next.pending + s.skip(i + 1) =~= r.pending + s.skip(i));
    }
}

proof fn lemma_params_stop(s: Seq<char>, i: int, end: int)
    requires
        0 <= i <= end < s.len(),
        forall|j: int| i <= j < end ==> is_param(#[trigger] s[j]),
        !is_param(s[end]),
    ensures
        params_end(s, i) == end,
    decreases end - i,
{
    if i < end {
        lemma_params_stop(s, i + 1, end);
    }
}

/// A text behind a style sequence makes one span with all of the text, in the
/// style that the sequence makes of one without colors and attributes.
pub proof fn lemma_sequences_style_the_text(codes: Seq<u32>, content: Seq<char>)
    requires
        codes.len() > 0,
        content.len() > 0,
        all_shown(content),
    ensures
        ansi_lines(seq!['\u{1b}', '['] + written(codes) + seq!['m'] + content) == seq![
            seq![SpanView { content, style: sgr_style(Style::plain(), codes, 0) }],
        ],
{
    let p = written(codes);
    let s = seq!['\u{1b}', '['] + p + seq!['m'] + content;
    let end: int = 2 + p.len() as int;
    lemma_written_params(codes);
    assert(s[0] == '\u{1b}' && s[1] == '[' && s[end] == 'm');
    assert forall|j: int| 2 <= j < end implies is_param(#[trigger] s[j]) by {
        assert(s[j] == p[j - 2]);
    }
    lemma_params_stop(s, 2, end);
    assert(s.subrange(2, end) =~= p);
    lemma_codes_read_back(codes);
    let r = Reading::start().controlled(p, Some('m'));
    assert forall|j: int| end + 1 <= j < s.len() implies is_shown(#[trigger] s[j]) by {
        assert(s[j] == content[j - end - 1]);
    }
    lemma_text_is_kept(r, s, end + 1);
    assert(s.skip(end + 1) =~= content);
    let style = sgr_style(Style::plain(), codes, 0);
    assert(r.pending + content =~= content);
    let span = SpanView { content, style };
    reveal_with_fuel(rgb_fg, 2);
    assert(r.style == style);
    assert(filled_line(seq![span], r.content_fg) =~= seq![span]);
    assert(r.spans.push(span) =~= seq![span]);
    assert(ansi_lines(s) =~= seq![seq![span]]);
}

proof fn lemma_written_params(codes: Seq<u32>)
    requires
        codes.len() > 0,
    ensures
        written(codes).len() > 0,
        forall|i: int| 0 <= i < written(codes).len() ==> is_param(#[trigger] written(codes)[i]),
    decreases codes.len(),
{
    let parts = Seq::new(codes.len(), |i: int| text::digits(codes[i] as nat));
    let last = text::digits(codes.last() as nat);
    text::lemma_digits_read_back(codes.last() as nat);
    if codes.len() > 1 {
        let before = codes.drop_last();
        lemma_written_params(before);
        assert(parts.drop_last() =~= Seq::new(
            before.len(),
            |i: int| text::digits(before[i] as nat),
        ));
        assert(written(codes) =~= written(before) + seq![';'] + last);
    }
}

/// A reset in the middle of an output leaves what follows it without a style.
pub proof fn lemma_resets_end_every_style(r: Reading)
    ensures
        r.controlled(seq!['0'], Some('m')).style == (Style {
            fg: None,
            bg: None,
            add_modifier: Modifier {
                bold: false,
                dim: false,
                italic: false,
                underlined: false,
                reversed: false,
            },
            sub_modifier: Modifier {
                bold: false,
                dim: false,
                italic: false,
                underlined: false,
                reversed: false,
            },
        }),
{
    reveal_with_fuel(text::split, 3);
    reveal_with_fuel(field_codes, 3);
    reveal_with_fuel(text::decimal, 3);
    reveal_with_fuel(sgr_style, 3);
    let p = seq!['0'];
    assert(p.drop_last() =~= Seq::<char>::empty());
    assert(text::split(p, ';') =~= seq![p]);
    assert(seq![p].drop_last() =~= Seq::<Seq<char>>::empty());
    assert(sgr_codes(p) =~= seq![0u32]);
}

/// The background of a line is the last one that was set on it; taking a
/// background away keeps the one before.
pub proof fn lemma_line_backgrounds(r: Reading, params: Seq<char>)
    requires
        params.len() > 0,
    ensures
        ({
            let after = r.controlled(params, Some('m'));
            let set = sgr_style(r.style, sgr_codes(params), 0).bg;
            &&& set is Some && set != Some(Color::Reset) ==> after.line_bg == set
            &&& set is None || set == Some(Color::Reset) ==> after.line_bg == r.line_bg
            &&& after.style.bg == set
            &&& after.broken().line_bgs == r.line_bgs.push(after.line_bg)
            &&& after.broken().line_bg is None
        }),
{
}

/// A line break ends the line with what was read of it, and starts an empty one
/// in the same style.
pub proof fn lemma_lines_break(r: Reading)
    ensures
        r.broken().lines.len() == r.lines.len() + 1,
        r.broken().lines.drop_last() == r.lines,
        text::line_text(r.broken().lines.last()) == text::line_text(r.spans) + r.pending,
        r.broken().pending.len() == 0,
        r.broken().spans.len() == 0,
        r.broken().style == r.style,
{
    let now = r.flushed();
    assert(r.broken().lines.drop_last() =~= r.lines);
    lemma_filled_text(now.spans, now.content_fg);
    if r.pending.len() > 0 {
        assert(now.spans.drop_last() =~= r.spans);
    } else {
        assert(text::line_text(r.spans) + r.pending =~= text::line_text(r.spans));
    }
}

proof fn lemma_filled_text(spans: Seq<SpanView>, fallback: Option<Color>)
    ensures
        text::line_text(filled_line(spans, fallback)) == text::line_text(spans),
{
    lemma_same_texts(filled_line(spans, fallback), spans);
}

proof fn lemma_same_texts(a: Seq<SpanView>, b: Seq<SpanView>)
    requires
        a.len() == b.len(),
        forall|i: int| 0 <= i < a.len() ==> (#[trigger] a[i]).content == b[i].content,
    ensures
        text::line_text(a) == text::line_text(b),
    decreases a.len(),
{
    if a.len() > 0 {
        lemma_same_texts(a.drop_last(), b.drop_last());
    }
}

/// Erasing to the end of a line leaves a blank in the background that is set, and
/// nothing without one.
pub proof fn lemma_erasing_shows_the_background(r: Reading)
    ensures
        r.style.bg is Some ==> r.controlled(Seq::empty(), Some('K')).pending == seq![' '],
        r.style.bg is None ==> r.controlled(Seq::empty(), Some('K')).pending.len() == 0,
        r.controlled(Seq::empty(), Some('K')).style == r.style,
{
    assert(Seq::<char>::empty().push(' ') =~= seq![' ']);
}

/// The colors of the cube are made of six levels for each channel, and the grays
/// rise in even steps.
pub proof fn lemma_fixed_colors(r: int, g: int, b: int, k: int)
    requires
        0 <= r < 6,
        0 <= g < 6,
        0 <= b < 6,
        0 <= k < 24,
    ensures
        ({
            let levels = seq![0u8, 95, 135, 175, 215, 255];
            &&& fixed_color(Color::Indexed((16 + 36 * r + 6 * g + b) as u8)) == Color::Rgb(
                levels[r],
                levels[g],
                levels[b],
            )
            &&& fixed_color(Color::Indexed((232 + k) as u8)) == Color::Rgb(
                (8 + 10 * k) as u8,
                (8 + 10 * k) as u8,
                (8 + 10 * k) as u8,
            )
        }),
{
    let cube = 36 * r + 6 * g + b;
    assert(cube / 36 == r && cube % 36 == 6 * g + b) by (nonlinear_arith)
        requires
            cube == 36 * r + 6 * g + b,
            0 <= 6 * g + b < 36,
            0 <= r,
    ;
    assert((6 * g + b) / 6 == g && cube % 6 == b) by (nonlinear_arith)
        requires
            cube == 36 * r + 6 * g + b,
            0 <= b < 6,
            0 <= g,
            0 <= r,
    ;
}

} // verus!
