//! Diffs rendered by delta: which commands produce them, how their output is
//! fitted to the panel, and the cache of finished renders.
use crate::shared::share;
use crate::text::{chars_of, clone_spans, repeat_char, string_of_range, Color, Line, Span, Style};
use crate::text::{self, SpanView};
use crate::unicode::{self, display_char_width, display_width};
use crate::ansi;
use crate::asyncgit::diff::DiffType;
use crate::asyncgit::sync::{CommitId, DiffLine, DiffLinePosition, DiffLineType, FileDiff, Hunk};
use crate::os_theme::ColorScheme;
use std::collections::{HashMap, HashSet};
use std::sync::Arc;
use vstd::prelude::*;

verus! {

// ----------------------------------------------------------------- wrapping

/// The columns of the characters of `s`, each on its own.
pub open spec fn chars_width(s: Seq<char>) -> nat
    decreases s.len(),
{
    if s.len() == 0 {
        0
    } else {
        chars_width(s.drop_last()) + unicode::char_width(s.last())
    }
}

/// How many characters of `s` from `i` on fit beside the first `i`, of which
/// `acc` columns are taken.
pub open spec fn fitting_from(s: Seq<char>, i: int, space: int) -> int
    decreases s.len() - i,
{
    if 0 <= i < s.len() && chars_width(s.take(i + 1)) <= space {
        fitting_from(s, i + 1, space)
    } else {
        i
    }
}

/// The length of the longest prefix of `s` that takes up at most `space` columns.
pub open spec fn fitting(s: Seq<char>, space: int) -> int {
    fitting_from(s, 0, space)
}

proof fn lemma_fitting_from(s: Seq<char>, i: int, space: int)
    requires
        0 <= i <= s.len(),
        chars_width(s.take(i)) <= space,
    ensures
        i <= fitting_from(s, i, space) <= s.len(),
        chars_width(s.take(fitting_from(s, i, space))) <= space,
        fitting_from(s, i, space) < s.len() ==> chars_width(
            s.take(fitting_from(s, i, space) + 1),
        ) > space,
    decreases s.len() - i,
{
    if i < s.len() && chars_width(s.take(i + 1)) <= space {
        lemma_fitting_from(s, i + 1, space);
    }
}

/// A line being wrapped: the finished rows, the current row and the columns
/// that it takes up.
#[verifier::ext_equal]
pub struct Wrapping {
    pub rows: Seq<Seq<SpanView>>,
    pub row: Seq<SpanView>,
    pub used: int,
}

impl Wrapping {
    pub open spec fn start() -> Wrapping {
        Wrapping { rows: Seq::empty(), row: Seq::empty(), used: 0 }
    }

    /// The current row is full.
    pub open spec fn broken(self) -> Wrapping {
        Wrapping { rows: self.rows.push(self.row), row: Seq::empty(), used: 0 }
    }

    pub open spec fn with(self, content: Seq<char>, style: Style, columns: int) -> Wrapping {
        Wrapping {
            rows: self.rows,
            row: self.row.push(SpanView { content, style }),
            used: self.used + columns,
        }
    }

    /// Text is placed on the current row as far as it fits, and goes on in
    /// further rows. A character that is too wide for any row stands alone.
    pub open spec fn placed(self, text: Seq<char>, style: Style, width: int) -> Wrapping
        decreases text.len(), self.used,
        when 0 < width && 0 <= self.used <= width
    {
        let space = width - self.used;
        let k = fitting(text, space);
        if text.len() == 0 {
            self
        } else if space == 0 {
            self.broken().placed(text, style, width)
        } else if unicode::str_width(text) <= space {
            self.with(text, style, unicode::str_width(text) as int)
        } else if 0 < k <= text.len() {
            self.with(text.take(k), style, 0).broken().placed(text.skip(k), style, width)
        } else if self.used > 0 {
            self.broken().placed(text, style, width)
        } else {
            self.with(text.take(1), style, 0).broken().placed(text.skip(1), style, width)
        }
    }

    /// The spans of a line are placed one after the other.
    pub open spec fn placed_line(self, line: Seq<SpanView>, width: int) -> Wrapping
        decreases line.len(),
    {
        if line.len() == 0 {
            self
        } else {
            self.placed_line(line.drop_last(), width).placed(
                line.last().content,
                line.last().style,
                width,
            )
        }
    }

    /// All rows; there is always one.
    pub open spec fn finished(self) -> Seq<Seq<SpanView>> {
        if self.row.len() > 0 {
            self.rows.push(self.row)
        } else if self.rows.len() == 0 {
            seq![Seq::empty()]
        } else {
            self.rows
        }
    }
}

/// The rows of a line in a panel of the given width.
pub open spec fn wrapped(line: Seq<SpanView>, width: int) -> Seq<Seq<SpanView>> {
    if width == 0 {
        seq![line]
    } else {
        Wrapping::start().placed_line(line, width).finished()
    }
}

proof fn lemma_placed_used(w: Wrapping, text: Seq<char>, style: Style, width: int)
    requires
        0 < width,
        0 <= w.used <= width,
    ensures
        0 <= w.placed(text, style, width).used <= width,
    decreases text.len(), w.used,
{
    let space = width - w.used;
    let k = fitting(text, space);
    if text.len() == 0 {
    } else if space == 0 {
        lemma_placed_used(w.broken(), text, style, width);
    } else if unicode::str_width(text) <= space {
    } else if 0 < k <= text.len() {
        lemma_placed_used(w.with(text.take(k), style, 0).broken(), text.skip(k), style, width);
    } else if w.used > 0 {
        lemma_placed_used(w.broken(), text, style, width);
    } else {
        lemma_placed_used(w.with(text.take(1), style, 0).broken(), text.skip(1), style, width);
    }
}

proof fn lemma_placed_line_used(w: Wrapping, line: Seq<SpanView>, width: int)
    requires
        0 < width,
        0 <= w.used <= width,
    ensures
        0 <= w.placed_line(line, width).used <= width,
    decreases line.len(),
{
    if line.len() > 0 {
        lemma_placed_line_used(w, line.drop_last(), width);
        lemma_placed_used(
            w.placed_line(line.drop_last(), width),
            line.last().content,
            line.last().style,
            width,
        );
    }
}

struct Wrapper {
    rows: Vec<Line>,
    row: Vec<Span>,
    used: usize,
}

impl View for Wrapper {
    type V = Wrapping;

    closed spec fn view(&self) -> Wrapping {
        Wrapping { rows: text::views(self.rows@), row: text::views(self.row@), used: self.used as int }
    }
}

/// The longest prefix of the characters from `from` on that fits.
fn fitting_prefix(chars: &Vec<char>, from: usize, space: usize) -> (r: usize)
    requires
        from <= chars@.len(),
    ensures
        r == fitting(chars@.skip(from as int), space as int),
        r <= chars@.len() - from,
{
    let ghost s = chars@.skip(from as int);
    let mut n: usize = 0;
    let mut acc: usize = 0;
    assert(s.take(0) =~= Seq::empty());
    while n < chars.len() - from
        invariant
            s == chars@.skip(from as int),
            from <= chars@.len(),
            n <= chars@.len() - from,
            acc == chars_width(s.take(n as int)),
            acc <= space,
            fitting_from(s, n as int, space as int) == fitting(s, space as int),
        ensures
            from + n <= chars@.len(),
            fitting_from(s, n as int, space as int) == n,
            fitting_from(s, n as int, space as int) == fitting(s, space as int),
        decreases chars@.len() - n,
    {
        let w: usize = display_char_width(chars[from + n]);
        assert(s.take(n + 1).drop_last() =~= s.take(n as int));
        assert(s[n as int] == chars@[from + n]);
        if w > space - acc {
            break;
        }
        acc += w;
        n += 1;
    }
    n
}

impl Wrapper {
    fn start() -> (r: Wrapper)
        ensures
            r@ == Wrapping::start(),
    {
        let r = Wrapper { rows: Vec::new(), row: Vec::new(), used: 0 };
        assert(r@ =~= Wrapping::start());
        r
    }

    fn break_row(&mut self)
        ensures
            final(self)@ == old(self)@.broken(),
    {
        let mut spans: Vec<Span> = Vec::new();
        std::mem::swap(&mut spans, &mut self.row);
        let line = Line { spans };
        proof {
            text::lemma_views_push(self.rows@, line);
        }
        self.rows.push(line);
        self.used = 0;
        assert(self@ =~= old(self)@.broken());
    }

    fn put(&mut self, content: String, style: Style, columns: usize)
        requires
            old(self)@.used + columns <= usize::MAX,
        ensures
            final(self)@ == old(self)@.with(content@, style, columns as int),
    {
        let span = Span::styled(content, style);
        proof {
            text::lemma_views_push(self.row@, span);
        }
        self.row.push(span);
        self.used = self.used + columns;
        assert(self@ =~= old(self)@.with(content@, style, columns as int));
    }

    fn place(&mut self, text: &Vec<char>, style: Style, width: usize)
        requires
            0 < width,
            old(self)@.used <= width,
        ensures
            final(self)@ == old(self)@.placed(text@, style, width as int),
    {
        let mut at: usize = 0;
        assert(text@.skip(0) =~= text@);
        while at < text.len()
            invariant
                0 < width,
                at <= text@.len(),
                self@.used <= width,
                self@.placed(text@.skip(at as int), style, width as int) == old(self)@.placed(
                    text@,
                    style,
                    width as int,
                ),
            decreases text@.len() - at, self.used,
        {
            let ghost left = text@.skip(at as int);
            let space: usize = width - self.used;
            if space == 0 {
                self.break_row();
                continue;
            }
            let rest = string_of_range(text, at, text.len());
            assert(rest@ =~= left);
            let w: usize = display_width(rest.as_str());
            if w <= space {
                self.put(rest, style, w);
                at = text.len();
                continue;
            }
            let k: usize = fitting_prefix(text, at, space);
            if k > 0 {
                let part = string_of_range(text, at, at + k);
                assert(part@ =~= left.take(k as int));
                assert(left.skip(k as int) =~= text@.skip(at + k));
                self.put(part, style, 0);
                self.break_row();
                at = at + k;
            } else if self.used > 0 {
                self.break_row();
            } else {
                let part = string_of_range(text, at, at + 1);
                assert(part@ =~= left.take(1));
                assert(left.skip(1) =~= text@.skip(at + 1));
                self.put(part, style, 0);
                self.break_row();
                at = at + 1;
            }
        }
        proof {
            assert(self@.placed(text@.skip(at as int), style, width as int) == self@);
        }
    }
}

/// Wrap a line at the width of the panel. A width of zero does not wrap.
pub fn wrap_line(line: &Line, width: usize) -> (r: Vec<Line>)
    ensures
        text::views(r@) == wrapped(line@, width as int),
{
    if width == 0 {
        let mut out: Vec<Line> = Vec::new();
        out.push(line.clone());
        assert(text::views(out@) =~= seq![line@]);
        return out;
    }
    let mut w = Wrapper::start();
    let ghost all = line@;
    assert(all.take(0) =~= Seq::empty());
    for i in 0..line.spans.len()
        invariant
            0 < width,
            all == line@,
            w@ == Wrapping::start().placed_line(all.take(i as int), width as int),
    {
        proof {
            lemma_placed_line_used(Wrapping::start(), all.take(i as int), width as int);
            assert(all.take(i + 1).drop_last() =~= all.take(i as int));
            assert(all.take(i + 1).last() == line.spans@[i as int]@);
        }
        let text = chars_of(line.spans[i].content.as_str());
        w.place(&text, line.spans[i].style, width);
    }
    assert(all.take(line.spans@.len() as int) =~= all);
    if w.row.len() > 0 {
        w.break_row();
    } else if w.rows.len() == 0 {
        assert(w@.row =~= Seq::empty());
        w.break_row();
    }
    assert(text::views(w.rows@) =~= wrapped(line@, width as int));
    w.rows
}

impl Wrapping {
    spec fn placed_glyphs(self) -> Seq<(char, Style)> {
        text::all_glyphs(self.rows) + text::glyphs(self.row)
    }
}

proof fn lemma_broken_glyphs(w: Wrapping)
    ensures
        w.broken().placed_glyphs() == w.placed_glyphs(),
{
    text::lemma_all_glyphs_push(w.rows, w.row);
    assert(w.broken().placed_glyphs() =~= w.placed_glyphs());
}

proof fn lemma_with_glyphs(w: Wrapping, text: Seq<char>, k: int, style: Style, columns: int)
    requires
        0 <= k <= text.len(),
    ensures
        w.with(text.take(k), style, columns).placed_glyphs() + text::styled_chars(text.skip(k), style)
            == w.placed_glyphs() + text::styled_chars(text, style),
{
    text::lemma_glyphs_push(w.row, SpanView { content: text.take(k), style });
    assert(text::styled_chars(text.take(k), style) + text::styled_chars(text.skip(k), style) =~= text::styled_chars(
        text,
        style,
    ));
    assert(w.with(text.take(k), style, columns).placed_glyphs() + text::styled_chars(text.skip(k), style)
        =~= w.placed_glyphs() + text::styled_chars(text, style));
}

proof fn lemma_placed_glyphs(w: Wrapping, text: Seq<char>, style: Style, width: int)
    requires
        0 < width,
        0 <= w.used <= width,
    ensures
        w.placed(text, style, width).placed_glyphs() == w.placed_glyphs() + text::styled_chars(
            text,
            style,
        ),
    decreases text.len(), w.used,
{
    let space = width - w.used;
    let k = fitting(text, space);
    lemma_broken_glyphs(w);
    if text.len() == 0 {
        assert(w.placed_glyphs() + text::styled_chars(text, style) =~= w.placed_glyphs());
    } else if space == 0 {
        lemma_placed_glyphs(w.broken(), text, style, width);
    } else if unicode::str_width(text) <= space {
        let n = text.len() as int;
        lemma_with_glyphs(w, text, n, style, unicode::str_width(text) as int);
        assert(text.take(n) =~= text);
        assert(w.with(text, style, unicode::str_width(text) as int).placed_glyphs() + text::styled_chars(
            text.skip(n),
            style,
        ) =~= w.with(text, style, unicode::str_width(text) as int).placed_glyphs());
    } else if 0 < k <= text.len() {
        lemma_with_glyphs(w, text, k, style, 0);
        lemma_broken_glyphs(w.with(text.take(k), style, 0));
        lemma_placed_glyphs(w.with(text.take(k), style, 0).broken(), text.skip(k), style, width);
    } else if w.used > 0 {
        lemma_placed_glyphs(w.broken(), text, style, width);
    } else {
        lemma_with_glyphs(w, text, 1, style, 0);
        lemma_broken_glyphs(w.with(text.take(1), style, 0));
        lemma_placed_glyphs(w.with(text.take(1), style, 0).broken(), text.skip(1), style, width);
    }
}

proof fn lemma_placed_line_glyphs(line: Seq<SpanView>, width: int)
    requires
        0 < width,
    ensures
        Wrapping::start().placed_line(line, width).placed_glyphs() == text::glyphs(line),
    decreases line.len(),
{
    if line.len() == 0 {
        assert(Wrapping::start().placed_glyphs() =~= Seq::empty());
    } else {
        let w = Wrapping::start().placed_line(line.drop_last(), width);
        lemma_placed_line_glyphs(line.drop_last(), width);
        lemma_placed_line_used(Wrapping::start(), line.drop_last(), width);
        lemma_placed_glyphs(w, line.last().content, line.last().style, width);
    }
}

/// Wrapping loses, adds and reorders nothing: the rows hold the characters of
/// the line in their order and in their styles.
pub proof fn lemma_wrapping_keeps_the_text(line: Seq<SpanView>, width: int)
    requires
        0 <= width,
    ensures
        text::all_glyphs(wrapped(line, width)) == text::glyphs(line),
        wrapped(line, width).len() > 0,
{
    let none = Seq::<Seq<SpanView>>::empty();
    if width == 0 {
        text::lemma_all_glyphs_push(none, line);
        assert(seq![line] =~= none.push(line));
        assert(text::all_glyphs(none) + text::glyphs(line) =~= text::glyphs(line));
    } else {
        let w = Wrapping::start().placed_line(line, width);
        lemma_placed_line_glyphs(line, width);
        if w.row.len() > 0 {
            text::lemma_all_glyphs_push(w.rows, w.row);
        } else if w.rows.len() == 0 {
            text::lemma_all_glyphs_push(none, Seq::empty());
            assert(seq![Seq::<SpanView>::empty()] =~= none.push(Seq::empty()));
            assert(text::glyphs(line) =~= Seq::empty());
            assert(text::all_glyphs(none) + text::glyphs(Seq::empty()) =~= Seq::empty());
        } else {
            assert(w.placed_glyphs() =~= text::all_glyphs(w.rows));
        }
    }
}

/// The columns that a span takes up at least, by the width of the whole or by
/// those of its characters.
pub open spec fn span_columns(span: SpanView) -> nat {
    if unicode::str_width(span.content) <= chars_width(span.content) {
        unicode::str_width(span.content)
    } else {
        chars_width(span.content)
    }
}

pub open spec fn row_columns(row: Seq<SpanView>) -> nat
    decreases row.len(),
{
    if row.len() == 0 {
        0
    } else {
        row_columns(row.drop_last()) + span_columns(row.last())
    }
}

/// Whether a row is within the width, or ends with one character that no row
/// of this width could hold.
pub open spec fn row_fits(row: Seq<SpanView>, width: int) -> bool {
    ||| row_columns(row) <= width
    ||| row.len() > 0 && row.last().content.len() == 1 && unicode::char_width(row.last().content[0]) > width
}

impl Wrapping {
    spec fn fits(self, width: int) -> bool {
        &&& 0 <= self.used <= width
        &&& row_columns(self.row) <= self.used
        &&& forall|i: int| 0 <= i < self.rows.len() ==> row_fits(#[trigger] self.rows[i], width)
    }
}

proof fn lemma_row_columns_push(row: Seq<SpanView>, span: SpanView)
    ensures
        row_columns(row.push(span)) == row_columns(row) + span_columns(span),
{
    assert(row.push(span).drop_last() =~= row);
}

proof fn lemma_broken_fits(w: Wrapping, width: int)
    requires
        forall|i: int| 0 <= i < w.rows.len() ==> row_fits(#[trigger] w.rows[i], width),
        row_fits(w.row, width),
        0 < width,
    ensures
        w.broken().fits(width),
{
    let next = w.broken();
    assert forall|i: int| 0 <= i < next.rows.len() implies row_fits(#[trigger] next.rows[i], width) by {
        if i < w.rows.len() {
            assert(next.rows[i] == w.rows[i]);
        }
    }
}

proof fn lemma_placed_fits(w: Wrapping, text: Seq<char>, style: Style, width: int)
    requires
        0 < width,
        w.fits(width),
    ensures
        w.placed(text, style, width).fits(width),
    decreases text.len(), w.used,
{
    let space = width - w.used;
    let k = fitting(text, space);
    lemma_broken_fits(w, width);
    assert(text.take(0) =~= Seq::empty());
    lemma_fitting_from(text, 0, space);
    if text.len() == 0 {
    } else if space == 0 {
        lemma_placed_fits(w.broken(), text, style, width);
    } else if unicode::str_width(text) <= space {
        lemma_row_columns_push(w.row, SpanView { content: text, style });
    } else if 0 < k <= text.len() {
        let part = SpanView { content: text.take(k), style };
        lemma_row_columns_push(w.row, part);
        lemma_broken_fits(w.with(text.take(k), style, 0), width);
        lemma_placed_fits(w.with(text.take(k), style, 0).broken(), text.skip(k), style, width);
    } else if w.used > 0 {
        lemma_placed_fits(w.broken(), text, style, width);
    } else {
        let one = text.take(1);
        reveal_with_fuel(chars_width, 2);
        assert(one.drop_last() =~= Seq::empty());
        assert(one[0] == text[0]);
        let next = w.with(one, style, 0);
        assert(next.row.last().content == one);
        lemma_broken_fits(next, width);
        lemma_placed_fits(next.broken(), text.skip(1), style, width);
    }
}

proof fn lemma_placed_line_fits(line: Seq<SpanView>, width: int)
    requires
        0 < width,
    ensures
        Wrapping::start().placed_line(line, width).fits(width),
    decreases line.len(),
{
    if line.len() > 0 {
        lemma_placed_line_fits(line.drop_last(), width);
        lemma_placed_fits(
            Wrapping::start().placed_line(line.drop_last(), width),
            line.last().content,
            line.last().style,
            width,
        );
    }
}

/// No row of a wrapped line is wider than the panel, but for a single
/// character that is wider than the panel by itself.
pub proof fn lemma_wrapped_rows_fit(line: Seq<SpanView>, width: int, i: int)
    requires
        0 < width,
        0 <= i < wrapped(line, width).len(),
    ensures
        row_fits(wrapped(line, width)[i], width),
{
    lemma_placed_line_fits(line, width);
}

// ------------------------------------------------------------------ padding

/// The columns of the first `n` spans of a line.
pub open spec fn columns_before(line: Seq<SpanView>, n: int) -> nat
    decreases n,
{
    if n <= 0 {
        0
    } else {
        columns_before(line, n - 1) + unicode::str_width(line[n - 1].content)
    }
}

/// The index of the last of the first `n` spans that has a background, or -1.
pub open spec fn last_bg(line: Seq<SpanView>, n: int) -> int
    decreases n,
{
    if n <= 0 {
        -1
    } else if line[n - 1].style.bg is Some {
        n - 1
    } else {
        last_bg(line, n - 1)
    }
}

/// The style of the first span from `i` to `to` with background `bg`.
pub open spec fn style_of_bg(line: Seq<SpanView>, i: int, to: int, bg: Color) -> Option<Style>
    decreases to - i,
{
    if i >= to {
        None
    } else if line[i].style.bg == Some(bg) {
        Some(line[i].style)
    } else {
        style_of_bg(line, i + 1, to, bg)
    }
}

/// The foreground of the last of the first `n` spans that has both colors.
pub open spec fn content_fg(line: Seq<SpanView>, n: int) -> Option<Color>
    decreases n,
{
    if n <= 0 {
        None
    } else if line[n - 1].style.bg is Some && line[n - 1].style.fg is Some {
        line[n - 1].style.fg
    } else {
        content_fg(line, n - 1)
    }
}

/// Whether a span belongs to the gutter between two side-by-side panels.
pub open spec fn is_gutter(span: SpanView) -> bool {
    &&& span.style.bg is None
    &&& {
        ||| span.style.fg matches Some(Color::Indexed(_))
        ||| span.style.fg == Some(Color::Blue)
        ||| span.content.contains('\u{2502}')
    }
}

/// The index of the first gutter span from `i` on, or the number of spans.
pub open spec fn gutter_from(line: Seq<SpanView>, i: int) -> int
    decreases line.len() - i,
{
    if i >= line.len() {
        line.len() as int
    } else if is_gutter(line[i]) {
        i
    } else {
        gutter_from(line, i + 1)
    }
}

/// The style in which a line goes on behind its last background span.
pub open spec fn padding_style(line: Seq<SpanView>, idx: int, dominant: Option<Color>) -> Style {
    match dominant {
        None => line[idx].style,
        Some(bg) => match style_of_bg(line, 0, idx + 1, bg) {
            Some(style) => style,
            None => match content_fg(line, idx + 1) {
                Some(fg) => Style::plain().with_bg(bg).with_fg(fg),
                None => Style::plain().with_bg(bg),
            },
        },
    }
}

/// A span that takes over the background of the line.
pub open spec fn covered_span(span: SpanView, bg: Option<Color>, fg: Option<Color>) -> SpanView {
    let style = Style { bg, ..span.style };
    SpanView {
        content: span.content,
        style: match fg {
            Some(c) => style.with_fg(c),
            None => style,
        },
    }
}

/// A line whose background reaches to the given width; between side-by-side
/// panels only to the gutter, and without new columns.
pub open spec fn padded(
    line: Seq<SpanView>,
    width: int,
    is_sbs: bool,
    dominant: Option<Color>,
) -> Seq<SpanView> {
    let idx = last_bg(line, line.len() as int);
    if idx < 0 {
        line
    } else {
        let style = padding_style(line, idx, dominant);
        let fg = content_fg(line, idx + 1);
        let end = if is_sbs {
            gutter_from(line, idx + 1)
        } else {
            line.len() as int
        };
        let covered = Seq::new(
            line.len(),
            |i: int|
                if idx < i < end {
                    covered_span(line[i], style.bg, fg)
                } else {
                    line[i]
                },
        );
        let taken = columns_before(line, end);
        if !is_sbs && taken < width {
            covered.push(
                SpanView { content: Seq::new((width - taken) as nat, |i: int| ' '), style },
            )
        } else {
            covered
        }
    }
}

proof fn lemma_last_bg(line: Seq<SpanView>, n: int)
    requires
        0 <= n <= line.len(),
    ensures
        -1 <= last_bg(line, n) < n,
        last_bg(line, n) >= 0 ==> line[last_bg(line, n)].style.bg is Some,
    decreases n,
{
    if n > 0 && line[n - 1].style.bg is None {
        lemma_last_bg(line, n - 1);
    }
}

proof fn lemma_style_of_bg(line: Seq<SpanView>, i: int, to: int, bg: Color)
    ensures
        style_of_bg(line, i, to, bg) matches Some(s) ==> s.bg == Some(bg),
    decreases to - i,
{
    if i < to && line[i].style.bg != Some(bg) {
        lemma_style_of_bg(line, i + 1, to, bg);
    }
}

proof fn lemma_gutter_from(line: Seq<SpanView>, i: int)
    requires
        0 <= i <= line.len(),
    ensures
        i <= gutter_from(line, i) <= line.len(),
    decreases line.len() - i,
{
    if i < line.len() && !is_gutter(line[i]) {
        lemma_gutter_from(line, i + 1);
    }
}

/// The columns of the first `n` spans, but at most `limit`.
pub(crate) fn capped_columns(spans: &Vec<Span>, n: usize, limit: usize) -> (r: usize)
    requires
        n <= spans@.len(),
    ensures
        r == if columns_before(text::views(spans@), n as int) < limit {
            columns_before(text::views(spans@), n as int) as int
        } else {
            limit as int
        },
{
    let ghost line = text::views(spans@);
    let mut total: usize = 0;
    for i in 0..n
        invariant
            n <= spans@.len(),
            line == text::views(spans@),
            total == if columns_before(line, i as int) < limit {
                columns_before(line, i as int) as int
            } else {
                limit as int
            },
    {
        let w: usize = display_width(spans[i].content.as_str());
        if w < limit - total {
            total += w;
        } else {
            total = limit;
        }
    }
    total
}

fn has_char(s: &str, c: char) -> (r: bool)
    ensures
        r == s@.contains(c),
{
    let chars = chars_of(s);
    for i in 0..chars.len()
        invariant
            chars@ == s@,
            forall|j: int| 0 <= j < i ==> s@[j] != c,
    {
        if chars[i] == c {
            return true;
        }
    }
    false
}

fn is_gutter_span(span: &Span) -> (r: bool)
    ensures
        r == is_gutter(span@),
{
    if span.style.bg.is_some() {
        return false;
    }
    match span.style.fg {
        Some(Color::Indexed(_)) => true,
        Some(Color::Blue) => true,
        _ => has_char(span.content.as_str(), '\u{2502}'),
    }
}

/// The index of the last span with a background.
fn find_last_bg(spans: &Vec<Span>) -> (r: Option<usize>)
    ensures
        match r {
            Some(i) => i < spans@.len() && i == last_bg(text::views(spans@), spans@.len() as int),
            None => last_bg(text::views(spans@), spans@.len() as int) < 0,
        },
{
    let mut n: usize = spans.len();
    while n > 0
        invariant
            n <= spans@.len(),
            last_bg(text::views(spans@), n as int) == last_bg(
                text::views(spans@),
                spans@.len() as int,
            ),
        decreases n,
    {
        if spans[n - 1].style.bg.is_some() {
            return Some(n - 1);
        }
        n -= 1;
    }
    None
}

fn find_style_of_bg(spans: &Vec<Span>, to: usize, bg: Color) -> (r: Option<Style>)
    requires
        to <= spans@.len(),
    ensures
        r == style_of_bg(text::views(spans@), 0, to as int, bg),
{
    let mut i: usize = 0;
    while i < to
        invariant
            i <= to <= spans@.len(),
            style_of_bg(text::views(spans@), i as int, to as int, bg) == style_of_bg(
                text::views(spans@),
                0,
                to as int,
                bg,
            ),
        decreases to - i,
    {
        match spans[i].style.bg {
            Some(c) => {
                if c == bg {
                    return Some(spans[i].style);
                }
            },
            None => {},
        }
        i += 1;
    }
    None
}

fn find_content_fg(spans: &Vec<Span>, to: usize) -> (r: Option<Color>)
    requires
        to <= spans@.len(),
    ensures
        r == content_fg(text::views(spans@), to as int),
{
    let mut n: usize = to;
    while n > 0
        invariant
            n <= to <= spans@.len(),
            content_fg(text::views(spans@), n as int) == content_fg(
                text::views(spans@),
                to as int,
            ),
        decreases n,
    {
        let style = spans[n - 1].style;
        if style.bg.is_some() && style.fg.is_some() {
            return style.fg;
        }
        n -= 1;
    }
    None
}

fn find_gutter(spans: &Vec<Span>, from: usize) -> (r: usize)
    requires
        from <= spans@.len(),
    ensures
        r == gutter_from(text::views(spans@), from as int),
        from <= r <= spans@.len(),
{
    let mut i: usize = from;
    while i < spans.len()
        invariant
            from <= i <= spans@.len(),
            gutter_from(text::views(spans@), i as int) == gutter_from(
                text::views(spans@),
                from as int,
            ),
        decreases spans@.len() - i,
    {
        if is_gutter_span(&spans[i]) {
            return i;
        }
        i += 1;
    }
    i
}

/// Pad a line so that its background reaches the full width.
pub fn pad_line_bg(line: Line, width: usize, is_sbs: bool, dominant_bg: Option<Color>) -> (r: Line)
    ensures
        r@ == padded(line@, width as int, is_sbs, dominant_bg),
{
    let ghost all = line@;
    proof {
        lemma_last_bg(all, all.len() as int);
    }
    let idx: usize = match find_last_bg(&line.spans) {
        Some(i) => i,
        None => {
            return line;
        },
    };
    let inherited_fg = find_content_fg(&line.spans, idx + 1);
    let bg_style = match dominant_bg {
        None => line.spans[idx].style,
        Some(bg) => match find_style_of_bg(&line.spans, idx + 1, bg) {
            Some(style) => style,
            None => match inherited_fg {
                Some(fg) => Style::new().bg(bg).fg(fg),
                None => Style::new().bg(bg),
            },
        },
    };
    let end: usize = if is_sbs {
        find_gutter(&line.spans, idx + 1)
    } else {
        line.spans.len()
    };
    let mut spans: Vec<Span> = Vec::new();
    for i in 0..line.spans.len()
        invariant
            all == line@,
            spans@.len() == i,
            idx < line.spans@.len(),
            forall|j: int|
                0 <= j < i ==> (#[trigger] spans@[j])@ == if idx < j < end {
                    covered_span(all[j], bg_style.bg, inherited_fg)
                } else {
                    all[j]
                },
    {
        let span = &line.spans[i];
        if idx < i && i < end {
            let under = Style {
                fg: span.style.fg,
                bg: bg_style.bg,
                add_modifier: span.style.add_modifier,
                sub_modifier: span.style.sub_modifier,
            };
            let style = match inherited_fg {
                Some(fg) => under.fg(fg),
                None => under,
            };
            spans.push(Span { content: span.content.clone(), style });
        } else {
            spans.push(span.clone());
        }
    }
    let taken: usize = capped_columns(&line.spans, end, width);
    let ghost covered = text::views(spans@);
    if !is_sbs && taken < width {
        let span = Span::styled(repeat_char(' ', width - taken), bg_style);
        proof {
            text::lemma_views_push(spans@, span);
        }
        spans.push(span);
    }
    let out = Line { spans };
    assert(out@ =~= padded(all, width as int, is_sbs, dominant_bg));
    out
}

proof fn lemma_padding_style_has_bg(line: Seq<SpanView>, idx: int, dominant: Option<Color>)
    requires
        0 <= idx < line.len(),
        line[idx].style.bg is Some,
    ensures
        padding_style(line, idx, dominant).bg is Some,
        dominant is Some ==> padding_style(line, idx, dominant).bg == dominant,
{
    if dominant is Some {
        lemma_style_of_bg(line, 0, idx + 1, dominant->0);
    }
}

/// Padding keeps every character of the line in its place, and what it adds
/// are spaces at the end.
pub proof fn lemma_padding_keeps_the_text(
    line: Seq<SpanView>,
    width: int,
    is_sbs: bool,
    dominant: Option<Color>,
    i: int,
)
    requires
        0 <= i < line.len(),
    ensures
        ({
            let out = padded(line, width, is_sbs, dominant);
            &&& line.len() <= out.len() <= line.len() + 1
            &&& out[i].content == line[i].content
            &&& forall|k: int|
                line.len() <= k < out.len() ==> forall|j: int|
                    0 <= j < (#[trigger] out[k]).content.len() ==> #[trigger] out[k].content[j]
                        == ' '
        }),
{
}

/// Outside of side-by-side output, nothing behind the first span with a
/// background is left without one, and a dominant background is the one that
/// the rest of the line gets.
pub proof fn lemma_background_reaches_the_end(
    line: Seq<SpanView>,
    width: int,
    dominant: Option<Color>,
    i: int,
)
    requires
        0 <= last_bg(line, line.len() as int) <= i < padded(line, width, false, dominant).len(),
    ensures
        padded(line, width, false, dominant)[i].style.bg is Some,
        i > last_bg(line, line.len() as int) && dominant is Some
            ==> padded(line, width, false, dominant)[i].style.bg == dominant,
{
    let idx = last_bg(line, line.len() as int);
    lemma_last_bg(line, line.len() as int);
    lemma_padding_style_has_bg(line, idx, dominant);
}

/// In side-by-side output the background does not bleed over the gutter into
/// the other panel, and no column is added.
pub proof fn lemma_background_stops_at_the_gutter(
    line: Seq<SpanView>,
    width: int,
    dominant: Option<Color>,
    i: int,
)
    requires
        0 <= last_bg(line, line.len() as int),
        gutter_from(line, last_bg(line, line.len() as int) + 1) <= i < line.len(),
    ensures
        padded(line, width, true, dominant).len() == line.len(),
        padded(line, width, true, dominant)[i] == line[i],
{
    lemma_last_bg(line, line.len() as int);
    lemma_gutter_from(line, last_bg(line, line.len() as int) + 1);
}

// --------------------------------------------------------------- rebuilding

/// The line numbers that a gutter of the form `old ⋮ new │` shows.
pub open spec fn gutter_numbers(line: Seq<SpanView>) -> (Option<u32>, Option<u32>) {
    if line.len() < 4 || text::trimmed(line[1].content) != seq!['\u{22ee}'] {
        (None, None)
    } else {
        (
            text::parsed_u32(text::trimmed(line[0].content)),
            text::parsed_u32(text::trimmed(line[2].content)),
        )
    }
}

/// Whether a line is the upper border of a hunk header.
pub open spec fn is_top_border(content: Seq<char>) -> bool {
    let t = text::trimmed(content);
    &&& t.len() > 0
    &&& t.last() == '\u{2510}'
    &&& forall|i: int|
        0 <= i < t.len() ==> (#[trigger] t[i] == '\u{2500}' || t[i] == '\u{2510}'
            || text::whitespace(t[i]))
}

/// How many of the first `n` lines are upper borders.
pub open spec fn borders(lines: Seq<Seq<SpanView>>, n: int) -> nat
    decreases n,
{
    if n <= 0 {
        0
    } else if is_top_border(text::line_text(lines[n - 1])) {
        borders(lines, n - 1) + 1
    } else {
        borders(lines, n - 1)
    }
}

/// The hunk that line `i` belongs to: every upper border but the first starts
/// a further hunk.
pub open spec fn hunk_of(lines: Seq<Seq<SpanView>>, i: int) -> int {
    if borders(lines, i + 1) == 0 {
        0
    } else {
        borders(lines, i + 1) - 1
    }
}

/// The positions of a diff by old and by new line number.
#[verifier::ext_equal]
pub struct Positions {
    pub old: Map<u32, DiffLinePosition>,
    pub new: Map<u32, DiffLinePosition>,
}

/// An entry that replaces what was there.
pub open spec fn put(
    m: Map<u32, DiffLinePosition>,
    n: Option<u32>,
    position: DiffLinePosition,
) -> Map<u32, DiffLinePosition> {
    match n {
        Some(k) => m.insert(k, position),
        None => m,
    }
}

/// An entry that yields to what was there.
pub open spec fn put_if_absent(
    m: Map<u32, DiffLinePosition>,
    n: Option<u32>,
    position: DiffLinePosition,
) -> Map<u32, DiffLinePosition> {
    match n {
        Some(k) => if m.dom().contains(k) {
            m
        } else {
            m.insert(k, position)
        },
        None => m,
    }
}

impl Positions {
    pub open spec fn empty() -> Positions {
        Positions { old: Map::empty(), new: Map::empty() }
    }

    /// Added lines count in the new file, deleted lines in the old one, and
    /// others in both, unless a changed line has claimed the number.
    pub open spec fn with(self, line: DiffLine) -> Positions {
        let p = line.position;
        match line.line_type {
            DiffLineType::Add => Positions { old: self.old, new: put(self.new, p.new_lineno, p) },
            DiffLineType::Delete => Positions { old: put(self.old, p.old_lineno, p), new: self.new },
            _ => Positions {
                old: put_if_absent(self.old, p.old_lineno, p),
                new: put_if_absent(self.new, p.new_lineno, p),
            },
        }
    }

    pub open spec fn with_lines(self, lines: Seq<DiffLine>) -> Positions
        decreases lines.len(),
    {
        if lines.len() == 0 {
            self
        } else {
            self.with_lines(lines.drop_last()).with(lines.last())
        }
    }

    pub open spec fn with_hunks(self, hunks: Seq<Hunk>) -> Positions
        decreases hunks.len(),
    {
        if hunks.len() == 0 {
            self
        } else {
            self.with_hunks(hunks.drop_last()).with_lines(hunks.last().lines@)
        }
    }

    /// The position that a line of delta's output shows: the new line number
    /// counts where there is one, else the old one.
    pub open spec fn shown(self, line: Seq<SpanView>) -> Option<DiffLinePosition> {
        match gutter_numbers(line) {
            (_, Some(n)) => if self.new.dom().contains(n) {
                Some(self.new[n])
            } else {
                None
            },
            (Some(n), None) => if self.old.dom().contains(n) {
                Some(self.old[n])
            } else {
                None
            },
            (None, None) => None,
        }
    }
}

/// Finished delta output: the rows to show, the hunk and the position of each
/// row, and the background of each line that delta printed.
#[derive(Debug, PartialEq, Eq)]
pub struct ProcessedDelta {
    pub display_lines: Arc<Vec<Line>>,
    pub display_hunks: Arc<Vec<usize>>,
    pub display_positions: Arc<Vec<Option<DiffLinePosition>>>,
    pub line_level_bgs: Arc<Vec<Option<Color>>>,
}

/// What a [`ProcessedDelta`] holds.
#[verifier::ext_equal]
pub struct DeltaView {
    pub rows: Seq<Seq<SpanView>>,
    pub hunks: Seq<int>,
    pub positions: Seq<Option<DiffLinePosition>>,
    pub bgs: Seq<Option<Color>>,
}

impl View for ProcessedDelta {
    type V = DeltaView;

    open spec fn view(&self) -> DeltaView {
        DeltaView {
            rows: text::views(self.display_lines@),
            hunks: Seq::new(self.display_hunks@.len(), |i: int| self.display_hunks@[i] as int),
            positions: self.display_positions@,
            bgs: self.line_level_bgs@,
        }
    }
}

/// A line without the blank spans at its end, if it is too wide.
pub open spec fn without_overhang(line: Seq<SpanView>, width: int) -> Seq<SpanView> {
    if columns_before(line, line.len() as int) > width {
        without_blank_end(line)
    } else {
        line
    }
}

pub open spec fn without_blank_end(line: Seq<SpanView>) -> Seq<SpanView>
    decreases line.len(),
{
    if line.len() > 0 && text::trimmed(line.last().content).len() == 0 {
        without_blank_end(line.drop_last())
    } else {
        line
    }
}

pub open spec fn bg_at(bgs: Seq<Option<Color>>, i: int) -> Option<Color> {
    if i < bgs.len() {
        bgs[i]
    } else {
        None
    }
}

/// The rows of one line of delta's output.
pub open spec fn rows_of(line: Seq<SpanView>, width: int, bg: Option<Color>) -> Seq<Seq<SpanView>> {
    let rows = wrapped(without_overhang(line, width), width);
    Seq::new(rows.len(), |i: int| padded(rows[i], width, false, bg))
}

/// The first `n` lines, wrapped and padded to the panel.
pub open spec fn fitted(
    lines: Seq<Seq<SpanView>>,
    bgs: Seq<Option<Color>>,
    positions: Positions,
    width: int,
    n: int,
) -> DeltaView
    decreases n,
{
    if n <= 0 {
        DeltaView { rows: Seq::empty(), hunks: Seq::empty(), positions: Seq::empty(), bgs }
    } else {
        let before = fitted(lines, bgs, positions, width, n - 1);
        let rows = rows_of(lines[n - 1], width, bg_at(bgs, n - 1));
        DeltaView {
            rows: before.rows + rows,
            hunks: before.hunks + Seq::new(rows.len(), |i: int| hunk_of(lines, n - 1)),
            positions: before.positions + Seq::new(
                rows.len(),
                |i: int| positions.shown(lines[n - 1]),
            ),
            bgs,
        }
    }
}

/// Delta's output as it is shown: side by side as it came, else fitted to the
/// panel.
pub open spec fn rebuilt(
    lines: Seq<Seq<SpanView>>,
    bgs: Seq<Option<Color>>,
    positions: Positions,
    width: int,
    side_by_side: bool,
) -> DeltaView {
    if side_by_side || width == 0 {
        DeltaView {
            rows: lines,
            hunks: Seq::new(lines.len(), |i: int| hunk_of(lines, i)),
            positions: Seq::new(lines.len(), |i: int| positions.shown(lines[i])),
            bgs,
        }
    } else {
        fitted(lines, bgs, positions, width, lines.len() as int)
    }
}

fn parse_number(s: &str) -> (r: Option<u32>)
    ensures
        r == text::parsed_u32(text::trimmed(s@)),
{
    let chars = chars_of(s);
    let (from, to) = text::trim_range(&chars);
    text::parse_u32(&chars, from, to)
}

/// The old and the new line number in the gutter of a line, where delta prints
/// `old ⋮ new │ content`.
fn parse_delta_line_numbers(line: &Line) -> (r: (Option<u32>, Option<u32>))
    ensures
        r == gutter_numbers(line@),
{
    if line.spans.len() < 4 {
        return (None, None);
    }
    let sep = chars_of(line.spans[1].content.as_str());
    let (from, to) = text::trim_range(&sep);
    if to - from != 1 || sep[from] != '\u{22ee}' {
        proof {
            let t = sep@.subrange(from as int, to as int);
            assert(t.len() == 1 ==> t[0] == sep@[from as int]);
            assert(t != seq!['\u{22ee}']);
        }
        return (None, None);
    }
    assert(sep@.subrange(from as int, to as int) =~= seq!['\u{22ee}']);
    (
        parse_number(line.spans[0].content.as_str()),
        parse_number(line.spans[2].content.as_str()),
    )
}

fn joined_text(line: &Line) -> (r: Vec<char>)
    ensures
        r@ == text::line_text(line@),
{
    let mut out: Vec<char> = Vec::new();
    let ghost all = line@;
    for i in 0..line.spans.len()
        invariant
            all == line@,
            out@ == text::line_text(all.take(i as int)),
    {
        let mut chars = chars_of(line.spans[i].content.as_str());
        proof {
            assert(all.take(i + 1).drop_last() =~= all.take(i as int));
            assert(all.take(i + 1).last() == line.spans@[i as int]@);
        }
        out.append(&mut chars);
    }
    assert(all.take(line.spans@.len() as int) =~= all);
    out
}

fn is_top_separator(line: &Line) -> (r: bool)
    ensures
        r == is_top_border(text::line_text(line@)),
{
    let chars = joined_text(line);
    let (from, to) = text::trim_range(&chars);
    let ghost t = text::trimmed(chars@);
    if from == to || chars[to - 1] != '\u{2510}' {
        return false;
    }
    assert(t.last() == chars@[to - 1]);
    let mut i: usize = from;
    while i < to
        invariant
            from <= i <= to <= chars@.len(),
            chars@ == text::line_text(line@),
            t == text::trimmed(chars@),
            t == chars@.subrange(from as int, to as int),
            forall|j: int|
                0 <= j < i - from ==> (#[trigger] t[j] == '\u{2500}' || t[j] == '\u{2510}'
                    || text::whitespace(t[j])),
        decreases to - i,
    {
        let c = chars[i];
        assert(t[i - from] == c);
        if c != '\u{2500}' && c != '\u{2510}' && !text::is_whitespace(c) {
            return false;
        }
        i += 1;
    }
    true
}

struct Lookup {
    old: HashMap<u32, DiffLinePosition>,
    new: HashMap<u32, DiffLinePosition>,
}

impl View for Lookup {
    type V = Positions;

    closed spec fn view(&self) -> Positions {
        Positions { old: self.old@, new: self.new@ }
    }
}

impl Lookup {
    fn empty() -> (r: Lookup)
        ensures
            r@ == Positions::empty(),
    {
        Lookup { old: HashMap::new(), new: HashMap::new() }
    }

    fn record(&mut self, line: &DiffLine)
        ensures
            final(self)@ == old(self)@.with(*line),
    {
        broadcast use vstd::std_specs::hash::group_hash_axioms;

        let p = line.position;
        match line.line_type {
            DiffLineType::Add => {
                if let Some(n) = p.new_lineno {
                    self.new.insert(n, p);
                }
            },
            DiffLineType::Delete => {
                if let Some(n) = p.old_lineno {
                    self.old.insert(n, p);
                }
            },
            _ => {
                if let Some(n) = p.old_lineno {
                    if !self.old.contains_key(&n) {
                        self.old.insert(n, p);
                    }
                }
                if let Some(n) = p.new_lineno {
                    if !self.new.contains_key(&n) {
                        self.new.insert(n, p);
                    }
                }
            },
        }
        assert(self@ =~= old(self)@.with(*line));
    }

    fn of(diff: Option<&FileDiff>) -> (r: Lookup)
        ensures
            r@ == match diff {
                Some(d) => Positions::empty().with_hunks(d.hunks@),
                None => Positions::empty(),
            },
    {
        let mut out = Lookup::empty();
        let diff = match diff {
            Some(d) => d,
            None => {
                return out;
            },
        };
        for h in 0..diff.hunks.len()
            invariant
                out@ == Positions::empty().with_hunks(diff.hunks@.take(h as int)),
        {
            let hunk = &diff.hunks[h];
            let ghost before = out@;
            for l in 0..hunk.lines.len()
                invariant
                    out@ == before.with_lines(hunk.lines@.take(l as int)),
            {
                out.record(&hunk.lines[l]);
                assert(hunk.lines@.take(l + 1).drop_last() =~= hunk.lines@.take(l as int));
            }
            assert(hunk.lines@.take(hunk.lines@.len() as int) =~= hunk.lines@);
            assert(diff.hunks@.take(h + 1).drop_last() =~= diff.hunks@.take(h as int));
        }
        assert(diff.hunks@.take(diff.hunks@.len() as int) =~= diff.hunks@);
        out
    }

    fn shown(&self, line: &Line) -> (r: Option<DiffLinePosition>)
        ensures
            r == self@.shown(line@),
    {
        broadcast use vstd::std_specs::hash::group_hash_axioms;

        let (old_lineno, new_lineno) = parse_delta_line_numbers(line);
        match new_lineno {
            Some(n) => match self.new.get(&n) {
                Some(p) => Some(*p),
                None => None,
            },
            None => match old_lineno {
                Some(n) => match self.old.get(&n) {
                    Some(p) => Some(*p),
                    None => None,
                },
                None => None,
            },
        }
    }
}

/// The hunk of every line.
fn hunk_map(lines: &Vec<Line>) -> (r: Vec<usize>)
    ensures
        r@.len() == lines@.len(),
        forall|i: int|
            0 <= i < lines@.len() ==> #[trigger] r@[i] == hunk_of(text::views(lines@), i),
{
    let ghost all = text::views(lines@);
    let mut out: Vec<usize> = Vec::new();
    let mut current: usize = 0;
    let mut seen = false;
    for i in 0..lines.len()
        invariant
            all == text::views(lines@),
            out@.len() == i,
            forall|j: int| 0 <= j < i ==> #[trigger] out@[j] == hunk_of(all, j),
            seen == (borders(all, i as int) > 0),
            current == if seen {
                borders(all, i as int) - 1
            } else {
                0
            },
            borders(all, i as int) <= i,
    {
        if is_top_separator(&lines[i]) {
            if seen {
                current += 1;
            }
            seen = true;
        }
        out.push(current);
    }
    out
}

fn position_map(lines: &Vec<Line>, lookup: &Lookup) -> (r: Vec<Option<DiffLinePosition>>)
    ensures
        r@.len() == lines@.len(),
        forall|i: int|
            0 <= i < lines@.len() ==> #[trigger] r@[i] == lookup@.shown(text::views(lines@)[i]),
{
    let mut out: Vec<Option<DiffLinePosition>> = Vec::new();
    for i in 0..lines.len()
        invariant
            out@.len() == i,
            forall|j: int|
                0 <= j < i ==> #[trigger] out@[j] == lookup@.shown(text::views(lines@)[j]),
    {
        out.push(lookup.shown(&lines[i]));
    }
    out
}

proof fn lemma_columns_grow(line: Seq<SpanView>, i: int, n: int)
    requires
        0 <= i <= n,
    ensures
        columns_before(line, i) <= columns_before(line, n),
    decreases n - i,
{
    if i < n {
        lemma_columns_grow(line, i, n - 1);
    }
}

fn is_wider(spans: &Vec<Span>, width: usize) -> (r: bool)
    ensures
        r == (columns_before(text::views(spans@), spans@.len() as int) > width),
{
    let ghost line = text::views(spans@);
    let mut total: usize = 0;
    for i in 0..spans.len()
        invariant
            line == text::views(spans@),
            total == columns_before(line, i as int),
            total <= width,
    {
        let w: usize = display_width(spans[i].content.as_str());
        if w > width - total {
            proof {
                lemma_columns_grow(line, i + 1, spans@.len() as int);
            }
            return true;
        }
        total += w;
    }
    false
}

/// The line to wrap: delta's erase-in-line leaves a blank span that would
/// spill over into an extra row of a line that is full already.
fn strip_overhang(line: &Line, width: usize) -> (r: Line)
    ensures
        r@ == without_overhang(line@, width as int),
{
    let mut spans = clone_spans(&line.spans);
    if is_wider(&spans, width) {
        let ghost all = text::views(spans@);
        while spans.len() > 0
            invariant
                without_blank_end(text::views(spans@)) == without_blank_end(all),
            ensures
                text::views(spans@) == without_blank_end(all),
            decreases spans@.len(),
        {
            let last: usize = spans.len() - 1;
            let chars = chars_of(spans[last].content.as_str());
            let (from, to) = text::trim_range(&chars);
            assert(text::trimmed(chars@).len() == to - from);
            if from < to {
                break;
            }
            let ghost before = text::views(spans@);
            spans.pop();
            assert(text::views(spans@) =~= before.drop_last());
        }
    }
    Line { spans }
}

/// Build the rows to show from the lines that delta printed, and find the
/// hunk and the position in the diff of each.
pub fn rebuild(
    raw_lines: Vec<Line>,
    line_level_bgs: Vec<Option<Color>>,
    diff: Option<&FileDiff>,
    panel_width: usize,
    side_by_side: bool,
) -> (r: ProcessedDelta)
    ensures
        r@ == rebuilt(
            text::views(raw_lines@),
            line_level_bgs@,
            match diff {
                Some(d) => Positions::empty().with_hunks(d.hunks@),
                None => Positions::empty(),
            },
            panel_width as int,
            side_by_side,
        ),
{
    let ghost lines = text::views(raw_lines@);
    let ghost bgs = line_level_bgs@;
    let lookup = Lookup::of(diff);
    let hunks = hunk_map(&raw_lines);
    let positions = position_map(&raw_lines, &lookup);
    if side_by_side || panel_width == 0 {
        let r = ProcessedDelta {
            display_lines: Arc::new(raw_lines),
            display_hunks: Arc::new(hunks),
            display_positions: Arc::new(positions),
            line_level_bgs: Arc::new(line_level_bgs),
        };
        assert(r@ =~= rebuilt(lines, bgs, lookup@, panel_width as int, side_by_side));
        return r;
    }
    let mut display_lines: Vec<Line> = Vec::new();
    let mut display_hunks: Vec<usize> = Vec::new();
    let mut display_positions: Vec<Option<DiffLinePosition>> = Vec::new();
    let ghost width = panel_width as int;
    for idx in 0..raw_lines.len()
        invariant
            lines == text::views(raw_lines@),
            bgs == line_level_bgs@,
            hunks@.len() == raw_lines@.len(),
            positions@.len() == raw_lines@.len(),
            width == panel_width,
            forall|i: int| 0 <= i < lines.len() ==> #[trigger] hunks@[i] == hunk_of(lines, i),
            forall|i: int|
                0 <= i < lines.len() ==> #[trigger] positions@[i] == lookup@.shown(lines[i]),
            text::views(display_lines@) == fitted(lines, bgs, lookup@, width, idx as int).rows,
            display_hunks@.len() == display_lines@.len(),
            forall|i: int|
                0 <= i < display_hunks@.len() ==> #[trigger] display_hunks@[i] == fitted(
                    lines,
                    bgs,
                    lookup@,
                    width,
                    idx as int,
                ).hunks[i],
            fitted(lines, bgs, lookup@, width, idx as int).hunks.len() == display_hunks@.len(),
            display_positions@ == fitted(lines, bgs, lookup@, width, idx as int).positions,
    {
        let ghost before = fitted(lines, bgs, lookup@, width, idx as int);
        let ghost after = fitted(lines, bgs, lookup@, width, idx + 1);
        let line = strip_overhang(&raw_lines[idx], panel_width);
        let dominant_bg: Option<Color> = if idx < line_level_bgs.len() {
            line_level_bgs[idx]
        } else {
            None
        };
        let rows = wrap_line(&line, panel_width);
        let ghost out = rows_of(lines[idx as int], width, bg_at(bgs, idx as int));
        let hunk: usize = hunks[idx];
        let position = positions[idx];
        for k in 0..rows.len()
            invariant
                before == fitted(lines, bgs, lookup@, width, idx as int),
                before.hunks.len() == before.rows.len(),
                hunk == hunk_of(lines, idx as int),
                width == panel_width,
                out == rows_of(lines[idx as int], width, bg_at(bgs, idx as int)),
                dominant_bg == bg_at(bgs, idx as int),
                text::views(rows@) == wrapped(without_overhang(lines[idx as int], width), width),
                rows@.len() == out.len(),
                text::views(display_lines@) =~= before.rows + out.take(k as int),
                display_hunks@.len() == display_lines@.len(),
                display_hunks@.len() == before.hunks.len() + k,
                forall|i: int|
                    0 <= i < before.hunks.len() ==> #[trigger] display_hunks@[i]
                        == before.hunks[i],
                forall|i: int|
                    before.hunks.len() <= i < display_hunks@.len()
                        ==> #[trigger] display_hunks@[i] == hunk,
                display_positions@ =~= before.positions + Seq::new(k as nat, |i: int| position),
        {
            let row = rows[k].clone();
            assert(rows@[k as int]@ == text::views(rows@)[k as int]);
            let padded_row = pad_line_bg(row, panel_width, false, dominant_bg);
            assert(padded_row@ == out[k as int]);
            proof {
                text::lemma_views_push(display_lines@, padded_row);
            }
            display_hunks.push(hunk);
            display_positions.push(position);
            display_lines.push(padded_row);
        }
        proof {
            assert(out.take(out.len() as int) =~= out);
            assert(display_positions@ =~= after.positions);
        }
    }
    let r = ProcessedDelta {
        display_lines: Arc::new(display_lines),
        display_hunks: Arc::new(display_hunks),
        display_positions: Arc::new(display_positions),
        line_level_bgs: Arc::new(line_level_bgs),
    };
    assert(r@ =~= rebuilt(lines, bgs, lookup@, width, side_by_side)) by {
        let f = fitted(lines, bgs, lookup@, width, lines.len() as int);
        assert(r@.hunks =~= f.hunks);
    }
    r
}

proof fn lemma_borders_grow(lines: Seq<Seq<SpanView>>, i: int, n: int)
    requires
        0 <= i <= n,
    ensures
        borders(lines, i) <= borders(lines, n),
    decreases n - i,
{
    if i < n {
        lemma_borders_grow(lines, i, n - 1);
    }
}

proof fn lemma_fitted_aligned(
    lines: Seq<Seq<SpanView>>,
    bgs: Seq<Option<Color>>,
    positions: Positions,
    width: int,
    n: int,
)
    requires
        0 <= n,
    ensures
        ({
            let f = fitted(lines, bgs, positions, width, n);
            &&& f.hunks.len() == f.rows.len()
            &&& f.positions.len() == f.rows.len()
            &&& forall|i: int|
                0 <= i < f.hunks.len() ==> 0 <= #[trigger] f.hunks[i] <= hunk_of(lines, n - 1)
            &&& forall|i: int, j: int|
                0 <= i <= j < f.hunks.len() ==> #[trigger] f.hunks[i] <= #[trigger] f.hunks[j]
        }),
    decreases n,
{
    if n > 0 {
        lemma_fitted_aligned(lines, bgs, positions, width, n - 1);
        lemma_borders_grow(lines, n - 1, n);
    }
}

/// Every row that is shown has a hunk and a position, and hunks are numbered
/// from top to bottom.
pub proof fn lemma_rows_are_mapped(
    lines: Seq<Seq<SpanView>>,
    bgs: Seq<Option<Color>>,
    positions: Positions,
    width: int,
    side_by_side: bool,
)
    requires
        0 <= width,
    ensures
        ({
            let r = rebuilt(lines, bgs, positions, width, side_by_side);
            &&& r.hunks.len() == r.rows.len()
            &&& r.positions.len() == r.rows.len()
            &&& forall|i: int, j: int|
                0 <= i <= j < r.hunks.len() ==> #[trigger] r.hunks[i] <= #[trigger] r.hunks[j]
        }),
{
    let r = rebuilt(lines, bgs, positions, width, side_by_side);
    if side_by_side || width == 0 {
        assert forall|i: int, j: int| 0 <= i <= j < r.hunks.len() implies #[trigger] r.hunks[i]
            <= #[trigger] r.hunks[j] by {
            lemma_borders_grow(lines, i + 1, j + 1);
        }
    } else {
        lemma_fitted_aligned(lines, bgs, positions, width, lines.len() as int);
    }
}

// ------------------------------------------------------------- the commands

/// What identifies a render. The hash of the diff is part of it, so that a
/// change of the content makes a different render.
#[derive(Debug, PartialEq, Eq, Hash)]
pub struct DeltaParams {
    pub path: String,
    pub diff_type: DiffType,
    pub width: u16,
    pub side_by_side: bool,
    pub diff_hash: u64,
}

/// The arguments of the `git` call that prints a diff. The path stands behind
/// a separator, so that it may name a file that is gone.
pub open spec fn git_args(diff_type: DiffType, path: Seq<char>) -> Seq<Seq<char>> {
    match diff_type {
        DiffType::WorkDir => seq!["diff"@, "--"@, path],
        DiffType::Stage => seq!["diff"@, "--cached"@, "--"@, path],
        DiffType::Commit(id) => seq!["diff"@, id.hex() + "^.."@ + id.hex(), "--"@, path],
        DiffType::Commits(ids) => seq!["diff"@, ids.old.hex(), ids.new.hex(), "--"@, path],
    }
}

/// The arguments that diff a commit without parents against nothing.
pub open spec fn root_args(id: CommitId, path: Seq<char>) -> Seq<Seq<char>> {
    seq!["diff"@, "4b825dc642cb6eb9a060e54bf899d15f3f9381b1"@, id.hex(), "--"@, path]
}

/// The arguments that show an untracked file as added.
pub open spec fn untracked_args(path: Seq<char>) -> Seq<Seq<char>> {
    seq!["diff"@, "--no-index"@, "/dev/null"@, path]
}

/// The arguments of `delta`.
pub open spec fn delta_args(width: u16, side_by_side: bool, scheme: ColorScheme) -> Seq<Seq<char>> {
    let base = seq!["--file-style"@, "omit"@, "--line-numbers"@];
    let columns = if width < 20 {
        20
    } else {
        width as int
    };
    let sided = if side_by_side {
        base + seq!["--width"@, text::digits(columns as nat), "--side-by-side"@]
    } else {
        base
    };
    let themed = match scheme {
        ColorScheme::Light => sided.push("--light"@),
        ColorScheme::Dark => sided.push("--dark"@),
        ColorScheme::Unknown => sided,
    };
    themed.push("--true-color=always"@)
}

/// The `git` call that is under way.
#[derive(Clone, Copy, Debug, PartialEq, Eq, Structural)]
pub enum DeltaStage {
    /// the diff as asked for
    Plain,
    /// the commit against the empty tree
    Root,
    /// the file against nothing
    Untracked,
}

/// How a `git` call ended.
#[derive(Clone, Copy, Debug, PartialEq, Eq, Structural)]
pub struct GitReply {
    /// whether it could be run at all
    pub started: bool,
    pub success: bool,
    /// whether its exit status was one, which tells that files differ
    pub differs: bool,
    /// whether it printed nothing
    pub empty: bool,
}

/// What comes next on the way to a rendered diff.
#[derive(Debug, PartialEq, Eq)]
pub enum DeltaStep {
    /// run `git` with these arguments
    Git(DeltaStage, Vec<String>),
    /// hand what the last call printed to `delta` with these arguments
    Delta(Vec<String>),
    /// there is nothing to render
    Nothing,
}

/// What a [`DeltaStep`] holds.
pub enum DeltaStepView {
    Git(DeltaStage, Seq<Seq<char>>),
    Delta(Seq<Seq<char>>),
    Nothing,
}

impl View for DeltaStep {
    type V = DeltaStepView;

    open spec fn view(&self) -> DeltaStepView {
        match self {
            DeltaStep::Git(stage, args) => DeltaStepView::Git(*stage, text::views(args@)),
            DeltaStep::Delta(args) => DeltaStepView::Delta(text::views(args@)),
            DeltaStep::Nothing => DeltaStepView::Nothing,
        }
    }
}

impl DeltaParams {
    /// How rendering starts.
    pub open spec fn first(self) -> DeltaStepView {
        if self.path@.len() == 0 {
            DeltaStepView::Nothing
        } else {
            DeltaStepView::Git(DeltaStage::Plain, git_args(self.diff_type, self.path@))
        }
    }

    /// How rendering goes on after a `git` call.
    pub open spec fn after(
        self,
        stage: DeltaStage,
        reply: GitReply,
        scheme: ColorScheme,
    ) -> DeltaStepView {
        let render = DeltaStepView::Delta(delta_args(self.width, self.side_by_side, scheme));
        let usable = match stage {
            DeltaStage::Untracked => reply.success || reply.differs,
            _ => reply.success,
        };
        if !reply.started {
            DeltaStepView::Nothing
        } else if usable && !reply.empty {
            render
        } else if stage == DeltaStage::Plain && !reply.success {
            match self.diff_type {
                DiffType::Commit(id) => DeltaStepView::Git(
                    DeltaStage::Root,
                    root_args(id, self.path@),
                ),
                _ => DeltaStepView::Nothing,
            }
        } else if stage == DeltaStage::Plain && self.diff_type == DiffType::WorkDir {
            DeltaStepView::Git(DeltaStage::Untracked, untracked_args(self.path@))
        } else {
            DeltaStepView::Nothing
        }
    }

    /// Start to render: the first `git` call.
    pub fn first_step(&self) -> (r: DeltaStep)
        ensures
            r@ == self.first(),
    {
        if self.path.as_str().is_empty() {
            return DeltaStep::Nothing;
        }
        let mut args: Vec<String> = Vec::new();
        args.push("diff".to_owned());
        match self.diff_type {
            DiffType::WorkDir => {},
            DiffType::Stage => {
                args.push("--cached".to_owned());
            },
            DiffType::Commit(id) => {
                let hex = id.to_hex();
                args.push(text::join3(hex.as_str(), "^..", hex.as_str()));
            },
            DiffType::Commits(ids) => {
                args.push(ids.old.to_hex());
                args.push(ids.new.to_hex());
            },
        }
        args.push("--".to_owned());
        args.push(self.path.clone());
        assert(text::views(args@) =~= git_args(self.diff_type, self.path@));
        DeltaStep::Git(DeltaStage::Plain, args)
    }

    fn render_step(&self, scheme: ColorScheme) -> (r: DeltaStep)
        ensures
            r@ == DeltaStepView::Delta(delta_args(self.width, self.side_by_side, scheme)),
    {
        let mut args: Vec<String> = Vec::new();
        args.push("--file-style".to_owned());
        args.push("omit".to_owned());
        args.push("--line-numbers".to_owned());
        if self.side_by_side {
            let columns: u16 = if self.width < 20 {
                20
            } else {
                self.width
            };
            args.push("--width".to_owned());
            args.push(text::number(columns as u64));
            args.push("--side-by-side".to_owned());
        }
        match scheme.delta_flag() {
            Some(flag) => {
                args.push(flag.to_owned());
            },
            None => {},
        }
        args.push("--true-color=always".to_owned());
        assert(text::views(args@) =~= delta_args(self.width, self.side_by_side, scheme));
        DeltaStep::Delta(args)
    }

    /// Go on after a `git` call: fall back to the empty tree for a commit that
    /// has no parent, and to the whole file for one that is not tracked.
    pub fn next_step(&self, stage: DeltaStage, reply: GitReply, scheme: ColorScheme) -> (r:
        DeltaStep)
        ensures
            r@ == self.after(stage, reply, scheme),
    {
        let usable = match stage {
            DeltaStage::Untracked => reply.success || reply.differs,
            _ => reply.success,
        };
        if !reply.started {
            return DeltaStep::Nothing;
        }
        if usable && !reply.empty {
            return self.render_step(scheme);
        }
        if stage != DeltaStage::Plain {
            return DeltaStep::Nothing;
        }
        if !reply.success {
            match self.diff_type {
                DiffType::Commit(id) => {
                    let mut args: Vec<String> = Vec::new();
                    args.push("diff".to_owned());
                    args.push("4b825dc642cb6eb9a060e54bf899d15f3f9381b1".to_owned());
                    args.push(id.to_hex());
                    args.push("--".to_owned());
                    args.push(self.path.clone());
                    assert(text::views(args@) =~= root_args(id, self.path@));
                    return DeltaStep::Git(DeltaStage::Root, args);
                },
                _ => {
                    return DeltaStep::Nothing;
                },
            }
        }
        match self.diff_type {
            DiffType::WorkDir => {
                let mut args: Vec<String> = Vec::new();
                args.push("diff".to_owned());
                args.push("--no-index".to_owned());
                args.push("/dev/null".to_owned());
                args.push(self.path.clone());
                assert(text::views(args@) =~= untracked_args(self.path@));
                DeltaStep::Git(DeltaStage::Untracked, args)
            },
            _ => DeltaStep::Nothing,
        }
    }
}

/// Rendering ends: a fallback is followed by no further `git` call.
pub proof fn lemma_one_fallback_at_most(
    params: DeltaParams,
    stage: DeltaStage,
    reply: GitReply,
    scheme: ColorScheme,
)
    ensures
        params.after(stage, reply, scheme) matches DeltaStepView::Git(next, _) ==> stage
            == DeltaStage::Plain && next != DeltaStage::Plain,
{
}

/// How many lines at the start hold nothing; none if no line holds anything.
pub open spec fn blank_start(lines: Seq<Seq<SpanView>>, i: int) -> int
    decreases lines.len() - i,
{
    if i >= lines.len() {
        0
    } else if lines[i].len() > 0 {
        i
    } else {
        blank_start(lines, i + 1)
    }
}

/// What delta's output is shown as.
pub open spec fn delta_result(
    output: Seq<char>,
    positions: Positions,
    width: int,
    side_by_side: bool,
) -> DeltaView {
    let lines = ansi::ansi_lines(output);
    let bgs = ansi::ansi_bgs(output);
    let first = blank_start(lines, 0);
    let raw = rebuilt(lines.skip(first), bgs.skip(first), positions, width, side_by_side);
    DeltaView {
        rows: Seq::new(raw.rows.len(), |i: int| ansi::fixed_line(raw.rows[i])),
        bgs: Seq::new(raw.bgs.len(), |i: int| ansi::fixed_option(raw.bgs[i])),
        ..raw
    }
}

fn find_content_start(lines: &Vec<Line>) -> (r: usize)
    ensures
        r == blank_start(text::views(lines@), 0),
        r <= lines@.len(),
{
    let mut i: usize = 0;
    while i < lines.len()
        invariant
            i <= lines@.len(),
            blank_start(text::views(lines@), i as int) == blank_start(text::views(lines@), 0),
        decreases lines@.len() - i,
    {
        if lines[i].spans.len() > 0 {
            return i;
        }
        i += 1;
    }
    0
}

/// The positions that the lines of a diff have.
pub open spec fn positions_of(diff: Option<&FileDiff>) -> Positions {
    match diff {
        Some(d) => Positions::empty().with_hunks(d.hunks@),
        None => Positions::empty(),
    }
}

/// Turn what `delta` printed into what is shown: without the blank lines at
/// its start, fitted to the panel, and with exact colors. `None` stands for a
/// `delta` that failed, for which nothing is shown.
pub fn process_output(params: &DeltaParams, output: Option<&str>, diff: Option<&FileDiff>) -> (r:
    Option<ProcessedDelta>)
    ensures
        match output {
            Some(s) => r matches Some(d) && d@ == delta_result(
                s@,
                positions_of(diff),
                params.width as int,
                params.side_by_side,
            ),
            None => r is None,
        },
{
    let s = match output {
        Some(s) => s,
        None => {
            return None;
        },
    };
    proof {
        ansi::lemma_one_background_per_line(s@);
    }
    let (lines, bgs) = ansi::ansi_to_lines(s);
    let ghost all = text::views(lines@);
    let ghost all_bgs = bgs@;
    let first: usize = find_content_start(&lines);
    let mut lines = lines;
    let mut bgs = bgs;
    let kept = lines.split_off(first);
    let kept_bgs = bgs.split_off(first);
    assert(text::views(kept@) =~= all.skip(first as int));
    assert(kept_bgs@ =~= all_bgs.skip(first as int));
    let width: usize = params.width as usize;
    let raw = rebuild(kept, kept_bgs, diff, width, params.side_by_side);
    let ghost r = raw@;
    let mut rows = text::clone_lines(&raw.display_lines);
    assert(text::views(rows@) == r.rows);
    let ghost before = rows@;
    ansi::expand_indexed_colors(&mut rows);
    let mut expanded: Vec<Option<Color>> = Vec::new();
    for i in 0..raw.line_level_bgs.len()
        invariant
            r == raw@,
            expanded@.len() == i,
            forall|j: int| 0 <= j < i ==> #[trigger] expanded@[j] == ansi::fixed_option(r.bgs[j]),
    {
        let bg = match raw.line_level_bgs[i] {
            Some(c) => Some(ansi::expanded_color(c)),
            None => None,
        };
        expanded.push(bg);
    }
    let out = ProcessedDelta {
        display_lines: Arc::new(rows),
        display_hunks: raw.display_hunks,
        display_positions: raw.display_positions,
        line_level_bgs: Arc::new(expanded),
    };
    assert(out@.rows =~= Seq::new(r.rows.len(), |i: int| ansi::fixed_line(r.rows[i]))) by {
        assert forall|i: int| 0 <= i < r.rows.len() implies out@.rows[i] == ansi::fixed_line(
            r.rows[i],
        ) by {
            assert(text::views(before)[i] == r.rows[i]);
        }
    }
    assert(out@.bgs =~= Seq::new(r.bgs.len(), |i: int| ansi::fixed_option(r.bgs[i])));
    assert(out@.hunks =~= r.hunks);
    Some(out)
}

/// The same for the bytes that `delta` printed, if it succeeded.
pub fn process_bytes(params: &DeltaParams, output: Option<&[u8]>, diff: Option<&FileDiff>) -> (r:
    Option<ProcessedDelta>)
    ensures
        match output {
            Some(bytes) => r matches Some(d) && d@ == delta_result(
                text::lossy_text(bytes@),
                positions_of(diff),
                params.width as int,
                params.side_by_side,
            ),
            None => r is None,
        },
{
    match output {
        Some(bytes) => {
            let printed = text::from_utf8_lossy(bytes);
            process_output(params, Some(printed.as_str()), diff)
        },
        None => process_output(params, None, diff),
    }
}

// -------------------------------------------------------------------- cache

/// The least of a number and what a `usize` can hold.
pub open spec fn capped(n: int) -> int {
    if n <= usize::MAX {
        n
    } else {
        usize::MAX as int
    }
}

fn capped_product(a: usize, b: usize) -> (r: usize)
    ensures
        r == capped(a * b),
{
    assert(a as u128 * b as u128 == a * b) by (nonlinear_arith);
    assert(a * b <= u128::MAX) by (nonlinear_arith)
        requires
            a <= u64::MAX,
            b <= u64::MAX,
    ;
    let product: u128 = a as u128 * b as u128;
    if product <= usize::MAX as u128 {
        product as usize
    } else {
        usize::MAX
    }
}

/// The bytes of the texts of a line.
pub open spec fn line_bytes(line: Seq<SpanView>) -> int
    decreases line.len(),
{
    if line.len() == 0 {
        0
    } else {
        line_bytes(line.drop_last()) + vstd::utf8::encode_utf8(line.last().content).len() as usize
    }
}

/// The bytes of the texts of all lines.
pub open spec fn text_bytes(lines: Seq<Seq<SpanView>>) -> int
    decreases lines.len(),
{
    if lines.len() == 0 {
        0
    } else {
        text_bytes(lines.drop_last()) + line_bytes(lines.last())
    }
}

/// The estimated size of a render in memory.
pub open spec fn delta_weight(d: DeltaView) -> int {
    capped(
        text_bytes(d.rows) + d.rows.len() * vstd::layout::size_of::<Line>() + d.hunks.len()
            * vstd::layout::size_of::<usize>() + d.positions.len() * vstd::layout::size_of::<
            Option<DiffLinePosition>,
        >() + d.bgs.len() * vstd::layout::size_of::<Option<Color>>(),
    )
}

proof fn lemma_line_bytes_nonneg(line: Seq<SpanView>)
    ensures
        line_bytes(line) >= 0,
    decreases line.len(),
{
    if line.len() > 0 {
        lemma_line_bytes_nonneg(line.drop_last());
    }
}

proof fn lemma_text_bytes_nonneg(lines: Seq<Seq<SpanView>>)
    ensures
        text_bytes(lines) >= 0,
    decreases lines.len(),
{
    if lines.len() > 0 {
        lemma_text_bytes_nonneg(lines.drop_last());
        lemma_line_bytes_nonneg(lines.last());
    }
}

fn line_size(line: &Line) -> (r: usize)
    ensures
        r == capped(line_bytes(line@)),
{
    let ghost all = line@;
    let mut total: usize = 0;
    for i in 0..line.spans.len()
        invariant
            all == line@,
            total == capped(line_bytes(all.take(i as int))),
    {
        proof {
            assert(all.take(i + 1).drop_last() =~= all.take(i as int));
            assert(all.take(i + 1).last() == line.spans@[i as int]@);
            lemma_line_bytes_nonneg(all.take(i as int));
        }
        let n: usize = line.spans[i].content.as_str().len();
        total = total.saturating_add(n);
    }
    assert(all.take(line.spans@.len() as int) =~= all);
    total
}

impl ProcessedDelta {
    /// The estimated size in memory.
    pub fn estimated_size(&self) -> (r: usize)
        ensures
            r == delta_weight(self@),
    {
        let ghost all = text::views(self.display_lines@);
        let mut total: usize = 0;
        for i in 0..self.display_lines.len()
            invariant
                all == text::views(self.display_lines@),
                total == capped(text_bytes(all.take(i as int))),
        {
            proof {
                assert(all.take(i + 1).drop_last() =~= all.take(i as int));
                assert(all.take(i + 1).last() == self.display_lines@[i as int]@);
                lemma_text_bytes_nonneg(all.take(i as int));
                lemma_line_bytes_nonneg(all[i as int]);
            }
            total = total.saturating_add(line_size(&self.display_lines[i]));
        }
        proof {
            assert(all.take(self.display_lines@.len() as int) =~= all);
            lemma_text_bytes_nonneg(all);
        }
        let a: usize = capped_product(self.display_lines.len(), core::mem::size_of::<Line>());
        let b: usize = capped_product(self.display_hunks.len(), core::mem::size_of::<usize>());
        let c: usize = capped_product(
            self.display_positions.len(),
            core::mem::size_of::<Option<DiffLinePosition>>(),
        );
        let d: usize = capped_product(
            self.line_level_bgs.len(),
            core::mem::size_of::<Option<Color>>(),
        );
        proof {
            lemma_product_nonneg(self@.rows.len(), vstd::layout::size_of::<Line>());
            lemma_product_nonneg(self@.hunks.len(), vstd::layout::size_of::<usize>());
            lemma_product_nonneg(
                self@.positions.len(),
                vstd::layout::size_of::<Option<DiffLinePosition>>(),
            );
            lemma_product_nonneg(self@.bgs.len(), vstd::layout::size_of::<Option<Color>>());
        }
        total.saturating_add(a).saturating_add(b).saturating_add(c).saturating_add(d)
    }

    /// Another handle to the same render.
    pub fn share(&self) -> (r: ProcessedDelta)
        ensures
            r@ == self@,
    {
        ProcessedDelta {
            display_lines: share(&self.display_lines),
            display_hunks: share(&self.display_hunks),
            display_positions: share(&self.display_positions),
            line_level_bgs: share(&self.line_level_bgs),
        }
    }
}

proof fn lemma_product_nonneg(a: nat, b: nat)
    ensures
        0 <= a * b,
{
    assert(0 <= a * b) by (nonlinear_arith);
}

struct Entry {
    key: u64,
    result: ProcessedDelta,
    weight: usize,
}

/// What the cache holds of one render.
pub struct EntryView {
    pub key: u64,
    pub result: DeltaView,
}

impl View for Entry {
    type V = EntryView;

    closed spec fn view(&self) -> EntryView {
        EntryView { key: self.key, result: self.result@ }
    }
}

/// The weight of all entries.
pub open spec fn total_weight(entries: Seq<EntryView>) -> int
    decreases entries.len(),
{
    if entries.len() == 0 {
        0
    } else {
        total_weight(entries.drop_last()) + delta_weight(entries.last().result)
    }
}

/// The position of a key, or -1.
pub open spec fn key_at(entries: Seq<EntryView>, key: u64) -> int
    decreases entries.len(),
{
    if entries.len() == 0 {
        -1
    } else if entries.last().key == key {
        entries.len() - 1
    } else {
        key_at(entries.drop_last(), key)
    }
}

pub open spec fn without_key(entries: Seq<EntryView>, key: u64) -> Seq<EntryView> {
    let at = key_at(entries, key);
    if at < 0 {
        entries
    } else {
        entries.remove(at)
    }
}

/// The entries after a use of one: it is now the most recent.
pub open spec fn touched(entries: Seq<EntryView>, key: u64) -> Seq<EntryView> {
    let at = key_at(entries, key);
    if at < 0 {
        entries
    } else {
        entries.remove(at).push(entries[at])
    }
}

/// The entries that are left when the least recent ones have made room.
pub open spec fn evicted(entries: Seq<EntryView>, weight: int, max: int) -> Seq<EntryView>
    decreases entries.len(),
{
    if entries.len() > 0 && total_weight(entries) + weight > max {
        evicted(entries.drop_first(), weight, max)
    } else {
        entries
    }
}

/// The entries after a render has been added. One that is heavier than the
/// whole cache is not kept.
pub open spec fn inserted(entries: Seq<EntryView>, e: EntryView, max: int) -> Seq<EntryView> {
    let rest = without_key(entries, e.key);
    let weight = delta_weight(e.result);
    if weight > max {
        rest
    } else {
        evicted(rest, weight, max).push(e)
    }
}

proof fn lemma_key_at(entries: Seq<EntryView>, key: u64)
    ensures
        -1 <= key_at(entries, key) < entries.len(),
        key_at(entries, key) >= 0 ==> entries[key_at(entries, key)].key == key,
        key_at(entries, key) < 0 ==> forall|i: int|
            0 <= i < entries.len() ==> (#[trigger] entries[i]).key != key,
        forall|i: int|
            key_at(entries, key) < i < entries.len() ==> (#[trigger] entries[i]).key != key,
    decreases entries.len(),
{
    if entries.len() > 0 && entries.last().key != key {
        lemma_key_at(entries.drop_last(), key);
        assert forall|i: int|
            key_at(entries, key) < i < entries.len() implies (#[trigger] entries[i]).key != key by {
            if i < entries.len() - 1 {
                assert(entries[i] == entries.drop_last()[i]);
            }
        }
    }
}

proof fn lemma_total_nonneg(entries: Seq<EntryView>)
    ensures
        total_weight(entries) >= 0,
    decreases entries.len(),
{
    if entries.len() > 0 {
        lemma_total_nonneg(entries.drop_last());
        lemma_weight_nonneg(entries.last().result);
    }
}

proof fn lemma_weight_nonneg(d: DeltaView)
    ensures
        delta_weight(d) >= 0,
{
    lemma_text_bytes_nonneg(d.rows);
    lemma_product_nonneg(d.rows.len(), vstd::layout::size_of::<Line>());
    lemma_product_nonneg(d.hunks.len(), vstd::layout::size_of::<usize>());
    lemma_product_nonneg(d.positions.len(), vstd::layout::size_of::<Option<DiffLinePosition>>());
    lemma_product_nonneg(d.bgs.len(), vstd::layout::size_of::<Option<Color>>());
}

proof fn lemma_total_remove(entries: Seq<EntryView>, at: int)
    requires
        0 <= at < entries.len(),
    ensures
        total_weight(entries.remove(at)) == total_weight(entries) - delta_weight(
            entries[at].result,
        ),
    decreases entries.len(),
{
    if at == entries.len() - 1 {
        assert(entries.remove(at) =~= entries.drop_last());
    } else {
        lemma_total_remove(entries.drop_last(), at);
        assert(entries.remove(at).drop_last() =~= entries.drop_last().remove(at));
        assert(entries.remove(at).last() == entries.last());
    }
}

proof fn lemma_total_push(entries: Seq<EntryView>, e: EntryView)
    ensures
        total_weight(entries.push(e)) == total_weight(entries) + delta_weight(e.result),
{
    assert(entries.push(e).drop_last() =~= entries);
}

pub open spec fn distinct_keys(entries: Seq<EntryView>) -> bool {
    forall|i: int, j: int|
        0 <= i < j < entries.len() ==> (#[trigger] entries[i]).key != (#[trigger] entries[j]).key
}

/// A cache of renders, bounded by their estimated size; those not used for
/// longest leave first.
pub struct LruCache {
    entries: Vec<Entry>,
    max_weight: usize,
    current_weight: usize,
}

impl LruCache {
    /// The renders by how recently they were used, the most recent last.
    pub closed spec fn entries(&self) -> Seq<EntryView> {
        text::views(self.entries@)
    }

    pub closed spec fn max(&self) -> int {
        self.max_weight as int
    }

    /// What holds of every cache: no key occurs twice and the bound is kept.
    pub closed spec fn wf(&self) -> bool {
        &&& self.current_weight == total_weight(self.entries())
        &&& self.current_weight <= self.max_weight
        &&& forall|i: int|
            0 <= i < self.entries@.len() ==> (#[trigger] self.entries@[i]).weight == delta_weight(
                self.entries@[i].result@,
            )
        &&& distinct_keys(self.entries())
    }

    /// A well-formed cache keeps its bound and holds no key twice.
    pub proof fn lemma_bounded(&self)
        requires
            self.wf(),
        ensures
            total_weight(self.entries()) <= self.max(),
            distinct_keys(self.entries()),
    {
    }

    /// An empty cache.
    pub fn new(max_weight: usize) -> (r: LruCache)
        ensures
            r.wf(),
            r.entries() == Seq::<EntryView>::empty(),
            r.max() == max_weight,
    {
        let r = LruCache { entries: Vec::new(), max_weight, current_weight: 0 };
        assert(r.entries() =~= Seq::<EntryView>::empty());
        r
    }

    fn position(&self, key: u64) -> (r: Option<usize>)
        ensures
            match r {
                Some(i) => i < self.entries@.len() && i == key_at(self.entries(), key),
                None => key_at(self.entries(), key) < 0,
            },
    {
        let ghost all = self.entries();
        let mut n: usize = self.entries.len();
        assert(all.take(n as int) =~= all);
        while n > 0
            invariant
                all == self.entries(),
                n <= self.entries@.len(),
                key_at(all.take(n as int), key) == key_at(all, key),
            decreases n,
        {
            assert(all.take(n as int).last() == self.entries@[n - 1]@);
            assert(all.take(n as int).drop_last() =~= all.take(n - 1));
            if self.entries[n - 1].key == key {
                return Some(n - 1);
            }
            n -= 1;
        }
        None
    }

    /// The render of a key, which thereby becomes the most recent.
    pub fn get(&mut self, key: u64) -> (r: Option<ProcessedDelta>)
        requires
            old(self).wf(),
        ensures
            final(self).wf(),
            final(self).max() == old(self).max(),
            final(self).entries() == touched(old(self).entries(), key),
            match r {
                Some(result) => key_at(old(self).entries(), key) >= 0 && result@ == old(
                    self,
                ).entries()[key_at(old(self).entries(), key)].result,
                None => key_at(old(self).entries(), key) < 0,
            },
    {
        let ghost before = self.entries();
        let at: usize = match self.position(key) {
            Some(i) => i,
            None => {
                return None;
            },
        };
        let entry = self.entries.remove(at);
        let result = entry.result.share();
        self.entries.push(entry);
        proof {
            assert(self.entries() =~= touched(before, key));
            lemma_total_remove(before, at as int);
            lemma_total_push(before.remove(at as int), before[at as int]);
            lemma_distinct_remove(before, at as int);
        }
        Some(result)
    }

    /// Add a render, replacing the one of the same key.
    pub fn insert(&mut self, key: u64, result: ProcessedDelta)
        requires
            old(self).wf(),
        ensures
            final(self).wf(),
            final(self).max() == old(self).max(),
            final(self).entries() == inserted(
                old(self).entries(),
                (EntryView { key, result: result@ }),
                old(self).max(),
            ),
    {
        let ghost before = self.entries();
        let weight: usize = result.estimated_size();
        proof {
            lemma_key_at(before, key);
        }
        match self.position(key) {
            Some(at) => {
                proof {
                    lemma_total_remove(before, at as int);
                    lemma_distinct_remove(before, at as int);
                    lemma_total_nonneg(before.remove(at as int));
                }
                let removed = self.entries.remove(at);
                self.current_weight = self.current_weight - removed.weight;
                assert(self.entries() =~= before.remove(at as int));
            },
            None => {},
        }
        let ghost rest = self.entries();
        assert(rest == without_key(before, key));
        assert(forall|i: int| 0 <= i < rest.len() ==> (#[trigger] rest[i]).key != key);
        if weight > self.max_weight {
            return;
        }
        while self.entries.len() > 0 && self.current_weight > self.max_weight - weight
            invariant
                self.wf(),
                self.max_weight == old(self).max_weight,
                weight <= self.max_weight,
                weight == delta_weight(result@),
                evicted(self.entries(), weight as int, self.max()) == evicted(
                    rest,
                    weight as int,
                    self.max(),
                ),
                forall|i: int| 0 <= i < self.entries().len() ==> (#[trigger] self.entries()[i]).key != key,
            decreases self.entries@.len(),
        {
            let ghost all = self.entries();
            proof {
                lemma_total_remove(all, 0);
                lemma_distinct_remove(all, 0);
                lemma_total_nonneg(all.remove(0));
                assert(all.remove(0) =~= all.drop_first());
            }
            let removed = self.entries.remove(0);
            self.current_weight = self.current_weight - removed.weight;
            assert(self.entries() =~= all.drop_first());
        }
        let ghost kept = self.entries();
        proof {
            if kept.len() == 0 {
                assert(total_weight(kept) == 0);
            }
            lemma_total_push(kept, EntryView { key, result: result@ });
        }
        self.current_weight = self.current_weight + weight;
        self.entries.push(Entry { key, result, weight });
        assert(self.entries() =~= kept.push(EntryView { key, result: result@ }));
    }
}

proof fn lemma_distinct_remove(entries: Seq<EntryView>, at: int)
    requires
        distinct_keys(entries),
        0 <= at < entries.len(),
    ensures
        distinct_keys(entries.remove(at)),
        forall|i: int|
            0 <= i < entries.len() - 1 ==> (#[trigger] entries.remove(at)[i]).key
                != entries[at].key,
{
    let r = entries.remove(at);
    assert forall|i: int, j: int| 0 <= i < j < r.len() implies (#[trigger] r[i]).key != (
    #[trigger] r[j]).key by {
        let a = if i < at {
            i
        } else {
            i + 1
        };
        let b = if j < at {
            j
        } else {
            j + 1
        };
        assert(r[i] == entries[a] && r[j] == entries[b]);
    }
    assert forall|i: int| 0 <= i < entries.len() - 1 implies (#[trigger] r[i]).key
        != entries[at].key by {
        let a = if i < at {
            i
        } else {
            i + 1
        };
        assert(r[i] == entries[a]);
    }
}

/// A render that fits into the cache is found again after it was added.
pub proof fn lemma_inserted_is_found(entries: Seq<EntryView>, e: EntryView, max: int)
    requires
        delta_weight(e.result) <= max,
    ensures
        key_at(inserted(entries, e, max), e.key) >= 0,
        inserted(entries, e, max)[key_at(inserted(entries, e, max), e.key)] == e,
{
}

/// Making room drops the least recently used renders and no others: what is
/// left is the most recent part.
pub proof fn lemma_eviction_keeps_the_most_recent(entries: Seq<EntryView>, weight: int, max: int)
    ensures
        evicted(entries, weight, max).len() <= entries.len(),
        evicted(entries, weight, max) == entries.skip(
            entries.len() - evicted(entries, weight, max).len(),
        ),
        evicted(entries, weight, max).len() > 0 ==> total_weight(evicted(entries, weight, max))
            + weight <= max,
    decreases entries.len(),
{
    if entries.len() > 0 && total_weight(entries) + weight > max {
        lemma_eviction_keeps_the_most_recent(entries.drop_first(), weight, max);
        let rest = evicted(entries.drop_first(), weight, max);
        assert(entries.drop_first().skip(entries.len() - 1 - rest.len()) =~= entries.skip(
            entries.len() - rest.len(),
        ));
    } else {
        assert(entries.skip(0) =~= entries);
    }
}

/// Looking up a render changes the order of the cache, never its contents.
pub proof fn lemma_lookup_keeps_the_entries(entries: Seq<EntryView>, key: u64)
    ensures
        touched(entries, key).to_multiset() == entries.to_multiset(),
        touched(entries, key).len() == entries.len(),
{
    lemma_key_at(entries, key);
    let at = key_at(entries, key);
    if at >= 0 {
        broadcast use vstd::seq_lib::group_to_multiset_ensures;

        assert(touched(entries, key).to_multiset() =~= entries.to_multiset());
    }
}

// ------------------------------------------------------------------- worker

/// How a request for a render is met.
#[derive(Debug, PartialEq, Eq)]
pub enum DeltaRequest {
    /// the render was in the cache
    Hit(ProcessedDelta),
    /// a job for the same render is running already
    InFlight,
    /// a job has to be started
    Spawn,
}

/// Renders that are cached, running and wanted.
pub struct AsyncDelta {
    cache: LruCache,
    in_flight: HashSet<u64>,
    latest_requested: u64,
    last_completed: Option<(u64, ProcessedDelta)>,
    pending_count: u64,
}

/// What an [`AsyncDelta`] knows.
#[verifier::ext_equal]
pub struct DeltaJobs {
    pub cache: Seq<EntryView>,
    pub max: int,
    pub in_flight: Set<u64>,
    pub latest: u64,
    pub completed: Option<(u64, DeltaView)>,
    pub pending: int,
}

impl View for AsyncDelta {
    type V = DeltaJobs;

    closed spec fn view(&self) -> DeltaJobs {
        DeltaJobs {
            cache: self.cache.entries(),
            max: self.cache.max(),
            in_flight: self.in_flight@,
            latest: self.latest_requested,
            completed: match self.last_completed {
                Some((key, result)) => Some((key, result@)),
                None => None,
            },
            pending: self.pending_count as int,
        }
    }
}

impl DeltaJobs {
    /// A render was asked for.
    pub open spec fn requested(self, key: u64) -> DeltaJobs {
        if key_at(self.cache, key) >= 0 {
            DeltaJobs { latest: key, cache: touched(self.cache, key), ..self }
        } else if self.in_flight.contains(key) {
            DeltaJobs { latest: key, ..self }
        } else {
            DeltaJobs {
                latest: key,
                in_flight: self.in_flight.insert(key),
                pending: self.pending + 1,
                ..self
            }
        }
    }

    /// A job ended, with or without a render.
    pub open spec fn finished(self, key: u64, result: Option<DeltaView>) -> DeltaJobs {
        let ended = DeltaJobs {
            in_flight: self.in_flight.remove(key),
            pending: self.pending - 1,
            ..self
        };
        match result {
            Some(r) => DeltaJobs {
                cache: inserted(self.cache, EntryView { key, result: r }, self.max),
                completed: if self.latest == key {
                    Some((key, r))
                } else {
                    self.completed
                },
                ..ended
            },
            None => ended,
        }
    }

    /// The render of a key, if it is there: the last completed one, which is
    /// handed out once, or else the cached one.
    pub open spec fn available(self, key: u64) -> Option<DeltaView> {
        match self.completed {
            Some((k, r)) if k == key => Some(r),
            _ => if key_at(self.cache, key) >= 0 {
                Some(self.cache[key_at(self.cache, key)].result)
            } else {
                None
            },
        }
    }

    pub open spec fn taken(self, key: u64) -> DeltaJobs {
        match self.completed {
            Some((k, r)) if k == key => DeltaJobs { completed: None, ..self },
            _ => DeltaJobs { cache: touched(self.cache, key), ..self },
        }
    }
}

impl AsyncDelta {
    pub closed spec fn wf(&self) -> bool {
        self.cache.wf()
    }

    /// A worker without renders and without jobs.
    pub fn new() -> (r: AsyncDelta)
        ensures
            r.wf(),
            r@ == (DeltaJobs {
                cache: Seq::empty(),
                max: 33554432,
                in_flight: Set::empty(),
                latest: 0,
                completed: None,
                pending: 0,
            }),
    {
        let r = AsyncDelta {
            cache: LruCache::new(33554432),
            in_flight: HashSet::new(),
            latest_requested: 0,
            last_completed: None,
            pending_count: 0,
        };
        assert(r@.in_flight =~= Set::empty());
        r
    }

    /// Ask for the render with the given key. A second request for a render
    /// that is on its way starts no second job.
    pub fn request(&mut self, key: u64) -> (r: DeltaRequest)
        requires
            old(self).wf(),
            old(self)@.pending < u64::MAX,
        ensures
            final(self).wf(),
            final(self)@ == old(self)@.requested(key),
            match r {
                DeltaRequest::Hit(result) => key_at(old(self)@.cache, key) >= 0 && result@ == old(
                    self,
                )@.cache[key_at(old(self)@.cache, key)].result,
                DeltaRequest::InFlight => key_at(old(self)@.cache, key) < 0 && old(
                    self,
                )@.in_flight.contains(key),
                DeltaRequest::Spawn => key_at(old(self)@.cache, key) < 0 && !old(
                    self,
                )@.in_flight.contains(key),
            },
    {
        broadcast use vstd::std_specs::hash::group_hash_axioms;

        self.latest_requested = key;
        match self.cache.get(key) {
            Some(result) => {
                assert(self@ =~= old(self)@.requested(key));
                return DeltaRequest::Hit(result);
            },
            None => {},
        }
        if self.in_flight.contains(&key) {
            assert(self@ =~= old(self)@.requested(key));
            return DeltaRequest::InFlight;
        }
        self.in_flight.insert(key);
        self.pending_count = self.pending_count + 1;
        assert(self@ =~= old(self)@.requested(key));
        DeltaRequest::Spawn
    }

    /// A job ended. Its render is cached; it is also kept aside if it is the
    /// one that is wanted now, since it may be too heavy for the cache.
    pub fn finish(&mut self, key: u64, result: Option<ProcessedDelta>)
        requires
            old(self).wf(),
            old(self)@.pending > 0,
        ensures
            final(self).wf(),
            final(self)@ == old(self)@.finished(
                key,
                match result {
                    Some(r) => Some(r@),
                    None => None,
                },
            ),
    {
        broadcast use vstd::std_specs::hash::group_hash_axioms;

        self.in_flight.remove(&key);
        self.pending_count = self.pending_count - 1;
        match result {
            Some(processed) => {
                let shared = processed.share();
                self.cache.insert(key, shared);
                if self.latest_requested == key {
                    self.last_completed = Some((key, processed));
                }
            },
            None => {},
        }
        assert(self@ =~= old(self)@.finished(
            key,
            match result {
                Some(r) => Some(r@),
                None => None,
            },
        ));
    }

    /// Take in a render that was made on the spot, without a job: it is cached
    /// and handed back.
    pub fn request_sync(&mut self, key: u64, rendered: Option<ProcessedDelta>) -> (r: Option<
        ProcessedDelta,
    >)
        requires
            old(self).wf(),
        ensures
            final(self).wf(),
            r == rendered,
            final(self)@ == match rendered {
                Some(result) => DeltaJobs {
                    cache: inserted(
                        old(self)@.cache,
                        EntryView { key, result: result@ },
                        old(self)@.max,
                    ),
                    ..old(self)@
                },
                None => old(self)@,
            },
    {
        match &rendered {
            Some(result) => {
                self.cache.insert(key, result.share());
            },
            None => {},
        }
        rendered
    }

    /// Whether a job is running.
    pub fn is_pending(&self) -> (r: bool)
        ensures
            r == (self@.pending > 0),
    {
        self.pending_count > 0
    }

    /// Whether the render with the given key is on its way.
    pub fn is_delta_pending(&self, key: u64) -> (r: bool)
        ensures
            r == self@.in_flight.contains(key),
    {
        broadcast use vstd::std_specs::hash::group_hash_axioms;

        self.in_flight.contains(&key)
    }

    /// The finished render with the given key. Looking it up by key keeps jobs
    /// that end out of order from replacing what is wanted.
    pub fn take_if_matches(&mut self, key: u64) -> (r: Option<ProcessedDelta>)
        requires
            old(self).wf(),
        ensures
            final(self).wf(),
            final(self)@ == old(self)@.taken(key),
            match r {
                Some(result) => old(self)@.available(key) == Some(result@),
                None => old(self)@.available(key) is None,
            },
    {
        let matches = match &self.last_completed {
            Some((k, _)) => *k == key,
            None => false,
        };
        if matches {
            let taken = self.last_completed.take();
            match taken {
                Some((_, result)) => {
                    assert(self@ =~= old(self)@.taken(key));
                    Some(result)
                },
                None => None,
            }
        } else {
            let result = self.cache.get(key);
            assert(self@ =~= old(self)@.taken(key));
            result
        }
    }
}

/// The render of the latest request is available once its job has delivered
/// it, whatever other jobs have delivered meanwhile and however heavy it is.
pub proof fn lemma_wanted_render_arrives(jobs: DeltaJobs, key: u64, result: DeltaView)
    requires
        jobs.latest == key,
    ensures
        jobs.finished(key, Some(result)).available(key) == Some(result),
{
}

/// A job that ends for another key than the wanted one does not change what
/// has been completed.
pub proof fn lemma_stale_jobs_do_not_interfere(
    jobs: DeltaJobs,
    key: u64,
    other: u64,
    result: Option<DeltaView>,
)
    requires
        jobs.latest == key,
        other != key,
    ensures
        jobs.finished(other, result).completed == jobs.completed,
        jobs.finished(other, result).latest == key,
{
}

/// While a job for a key runs, no request for that key starts another.
pub proof fn lemma_no_duplicate_jobs(jobs: DeltaJobs, key: u64)
    requires
        jobs.in_flight.contains(key),
    ensures
        jobs.requested(key).pending == jobs.pending,
        jobs.requested(key).in_flight == jobs.in_flight,
{
}

// --------------------------------------------------------- laws of the output

/// Whether a line is the upper border of the header of a hunk.
spec fn starts_hunk(line: Seq<SpanView>) -> bool {
    is_top_border(text::line_text(line))
}

/// Whether places are those of the upper borders in some lines, from the first to
/// the last.
pub open spec fn are_tops(lines: Seq<Seq<SpanView>>, tops: Seq<int>) -> bool {
    &&& forall|k: int| 0 <= k < tops.len() ==> 0 <= #[trigger] tops[k] < lines.len()
    &&& forall|j: int, k: int| 0 <= j < k < tops.len() ==> #[trigger] tops[j] < #[trigger] tops[k]
    &&& forall|k: int| 0 <= k < tops.len() ==> is_top_border(text::line_text(lines[#[trigger] tops[k]]))
    &&& forall|i: int|
        0 <= i < lines.len() && is_top_border(text::line_text(#[trigger] lines[i]))
            ==> tops.contains(i)
}

proof fn lemma_borders_are_tops(lines: Seq<Seq<SpanView>>, tops: Seq<int>, n: int, j: int)
    requires
        are_tops(lines, tops),
        0 <= n <= lines.len(),
        0 <= j <= tops.len(),
        j > 0 ==> tops[j - 1] < n,
        j < tops.len() ==> tops[j] >= n,
    ensures
        borders(lines, n) == j,
    decreases n,
{
    if n > 0 {
        if is_top_border(text::line_text(lines[n - 1])) {
            assert(tops.contains(n - 1));
            let k = choose|k: int| 0 <= k < tops.len() && tops[k] == n - 1;
            if k >= j {
                assert(j == k || tops[j] < tops[k]);
            }
            if k < j - 1 {
                assert(tops[k] < tops[j - 1]);
            }
            assert(k == j - 1);
            if j - 1 > 0 {
                assert(tops[j - 2] < tops[j - 1]);
            }
            lemma_borders_are_tops(lines, tops, n - 1, j - 1);
        } else {
            if j > 0 {
                assert(tops[j - 1] != n - 1);
            }
            lemma_borders_are_tops(lines, tops, n - 1, j);
        }
    } else if j > 0 {
        assert(tops[j - 1] >= 0);
    }
}

proof fn lemma_hunk_by_tops(lines: Seq<Seq<SpanView>>, tops: Seq<int>, i: int) -> (j: int)
    requires
        are_tops(lines, tops),
        0 <= i < lines.len(),
    ensures
        0 <= j <= tops.len(),
        j > 0 ==> tops[j - 1] <= i,
        j < tops.len() ==> tops[j] > i,
        hunk_of(lines, i) == if j == 0 {
            0
        } else {
            j - 1
        },
    decreases tops.len(),
{
    let j = first_above(tops, i, 0);
    lemma_first_above(tops, i, 0);
    lemma_borders_are_tops(lines, tops, i + 1, j);
    j
}

spec fn first_above(tops: Seq<int>, i: int, k: int) -> int
    decreases tops.len() - k,
{
    if k >= tops.len() || tops[k] > i {
        k
    } else {
        first_above(tops, i, k + 1)
    }
}

proof fn lemma_first_above(tops: Seq<int>, i: int, k: int)
    requires
        0 <= k <= tops.len(),
        k > 0 ==> tops[k - 1] <= i,
    ensures
        k <= first_above(tops, i, k) <= tops.len(),
        first_above(tops, i, k) > 0 ==> tops[first_above(tops, i, k) - 1] <= i,
        first_above(tops, i, k) < tops.len() ==> tops[first_above(tops, i, k)] > i,
    decreases tops.len() - k,
{
    if k < tops.len() && tops[k] <= i {
        lemma_first_above(tops, i, k + 1);
    }
}

/// Hunks are numbered from zero by their place: what stands from one upper border
/// to before the next belongs to the hunk of that border, and what stands before
/// the first border to the first hunk.
pub proof fn lemma_hunks_are_numbered_by_their_borders(
    lines: Seq<Seq<SpanView>>,
    bgs: Seq<Option<Color>>,
    positions: Positions,
    width: int,
    tops: Seq<int>,
    i: int,
    j: int,
)
    requires
        are_tops(lines, tops),
        0 <= i < lines.len(),
        0 <= j < tops.len(),
    ensures
        ({
            let hunks = rebuilt(lines, bgs, positions, width, true).hunks;
            &&& hunks.len() == lines.len()
            &&& i < tops[0] ==> hunks[i] == 0
            &&& tops[j] <= i && (j + 1 == tops.len() || i < tops[j + 1]) ==> hunks[i] == j
        }),
{
    let k = lemma_hunk_by_tops(lines, tops, i);
    if i < tops[0] {
        if k > 0 {
            assert(k == 1 || tops[0] < tops[k - 1]);
        }
    }
    if tops[j] <= i && (j + 1 == tops.len() || i < tops[j + 1]) {
        if k < j + 1 {
            assert(k == j || tops[k] < tops[j]);
        }
        if k > j + 1 {
            assert(k - 1 == j + 1 || tops[j + 1] < tops[k - 1]);
        }
    }
}

/// With one upper border for each hunk of a diff, every row belongs to a hunk that
/// the diff has, in any layout; without a border all rows belong to the first.
pub proof fn lemma_rows_belong_to_hunks_that_exist(
    lines: Seq<Seq<SpanView>>,
    bgs: Seq<Option<Color>>,
    positions: Positions,
    width: int,
    side_by_side: bool,
    tops: Seq<int>,
    i: int,
)
    requires
        are_tops(lines, tops),
        0 <= width,
        0 <= i < rebuilt(lines, bgs, positions, width, side_by_side).hunks.len(),
    ensures
        ({
            let hunk = rebuilt(lines, bgs, positions, width, side_by_side).hunks[i];
            &&& 0 <= hunk
            &&& tops.len() == 0 ==> hunk == 0
            &&& tops.len() > 0 ==> hunk < tops.len()
        }),
{
    if side_by_side || width == 0 {
        let _ = lemma_hunk_by_tops(lines, tops, i);
    } else {
        lemma_fitted_aligned(lines, bgs, positions, width, lines.len() as int);
        if lines.len() > 0 {
            let _ = lemma_hunk_by_tops(lines, tops, lines.len() - 1);
        }
    }
}

proof fn lemma_borders_prefix(lines: Seq<Seq<SpanView>>, line: Seq<SpanView>, n: int)
    requires
        n <= lines.len(),
    ensures
        borders(lines.push(line), n) == borders(lines, n),
    decreases n,
{
    if n > 0 {
        lemma_borders_prefix(lines, line, n - 1);
    }
}

proof fn lemma_fitted_prefix(
    lines: Seq<Seq<SpanView>>,
    line: Seq<SpanView>,
    bgs: Seq<Option<Color>>,
    positions: Positions,
    width: int,
    n: int,
)
    requires
        n <= lines.len(),
    ensures
        fitted(lines.push(line), bgs, positions, width, n) == fitted(
            lines,
            bgs,
            positions,
            width,
            n,
        ),
    decreases n,
{
    if n > 0 {
        lemma_fitted_prefix(lines, line, bgs, positions, width, n - 1);
        lemma_borders_prefix(lines, line, n);
        assert(lines.push(line)[n - 1] == lines[n - 1]);
        assert(fitted(lines.push(line), bgs, positions, width, n) =~= fitted(
            lines,
            bgs,
            positions,
            width,
            n,
        ));
    }
}

proof fn lemma_no_borders(lines: Seq<Seq<SpanView>>, n: int)
    requires
        0 <= n <= lines.len(),
    ensures
        borders(lines, n) == 0 <==> forall|i: int|
            0 <= i < n ==> !starts_hunk(#[trigger] lines[i]),
    decreases n,
{
    if n > 0 {
        lemma_no_borders(lines, n - 1);
        assert(starts_hunk(lines[n - 1]) == is_top_border(text::line_text(lines[n - 1])));
        if borders(lines, n - 1) > 0 {
            let i = choose|i: int| 0 <= i < n - 1 && starts_hunk(#[trigger] lines[i]);
            assert(starts_hunk(lines[i]));
        }
    }
}

/// A further line of delta's output leaves the rows before it as they are, with
/// their hunks and positions. Its own rows share one hunk: the next one if the
/// line is an upper border and not the first, else the one before it.
pub proof fn lemma_lines_are_shown_one_after_the_other(
    lines: Seq<Seq<SpanView>>,
    line: Seq<SpanView>,
    bgs: Seq<Option<Color>>,
    positions: Positions,
    width: int,
    side_by_side: bool,
    i: int,
)
    requires
        0 <= width,
    ensures
        ({
            let before = rebuilt(lines, bgs, positions, width, side_by_side);
            let after = rebuilt(lines.push(line), bgs, positions, width, side_by_side);
            let n = before.rows.len() as int;
            let opened = exists|k: int|
                0 <= k < lines.len() && is_top_border(text::line_text(#[trigger] lines[k]));
            &&& n < after.rows.len()
            &&& after.rows.take(n) == before.rows
            &&& after.hunks.take(n) == before.hunks
            &&& after.positions.take(n) == before.positions
            &&& lines.len() > 0 ==> before.hunks.len() > 0
            &&& n <= i < after.rows.len() ==> after.positions[i] == positions.shown(line)
            &&& n <= i < after.rows.len() && !opened ==> after.hunks[i] == 0
            &&& n <= i < after.rows.len() && opened ==> after.hunks[i] == before.hunks.last() + if is_top_border(
                text::line_text(line),
            ) {
                1int
            } else {
                0
            }
        }),
{
    let all = lines.push(line);
    let before = rebuilt(lines, bgs, positions, width, side_by_side);
    let after = rebuilt(all, bgs, positions, width, side_by_side);
    let n = before.rows.len() as int;
    lemma_rows_are_mapped(lines, bgs, positions, width, side_by_side);
    lemma_rows_are_mapped(all, bgs, positions, width, side_by_side);
    lemma_no_borders(lines, lines.len() as int);
    lemma_borders_prefix(lines, line, lines.len() as int);
    assert(all[lines.len() as int] == line);
    let opened = exists|k: int|
        0 <= k < lines.len() && is_top_border(text::line_text(#[trigger] lines[k]));
    assert(opened == (borders(lines, lines.len() as int) > 0)) by {
        if borders(lines, lines.len() as int) > 0 {
            let k = choose|k: int| 0 <= k < lines.len() && starts_hunk(#[trigger] lines[k]);
            assert(is_top_border(text::line_text(lines[k])));
        }
        if opened {
            let k = choose|k: int|
                0 <= k < lines.len() && is_top_border(text::line_text(#[trigger] lines[k]));
            assert(starts_hunk(lines[k]));
        }
    }
    if side_by_side || width == 0 {
        assert forall|k: int| 0 <= k < lines.len() implies hunk_of(all, k) == hunk_of(lines, k) by {
            lemma_borders_prefix(lines, line, k + 1);
        }
        assert(after.rows.take(n) =~= before.rows);
        assert(after.hunks.take(n) =~= before.hunks);
        assert(after.positions.take(n) =~= before.positions);
    } else {
        lemma_fitted_prefix(lines, line, bgs, positions, width, lines.len() as int);
        assert(after.rows.take(n) =~= before.rows);
        assert(after.hunks.take(n) =~= before.hunks);
        assert(after.positions.take(n) =~= before.positions);
        if lines.len() > 0 {
            let last = lines.len() - 1;
            assert(rows_of(lines[last], width, bg_at(bgs, last)).len() > 0);
            assert(before.hunks.last() == hunk_of(lines, last));
        }
    }
}

/// Whether a position is that of a line of a diff.
pub open spec fn is_position(hunks: Seq<Hunk>, position: DiffLinePosition) -> bool {
    exists|h: int, k: int|
        0 <= h < hunks.len() && 0 <= k < hunks[h].lines@.len() && (
        #[trigger] hunks[h].lines@[k]).position == position
}

/// The same for a line of a certain kind.
pub open spec fn is_position_of(
    hunks: Seq<Hunk>,
    position: DiffLinePosition,
    kind: DiffLineType,
) -> bool {
    exists|h: int, k: int|
        0 <= h < hunks.len() && 0 <= k < hunks[h].lines@.len() && (
        #[trigger] hunks[h].lines@[k]).position == position && hunks[h].lines@[k].line_type == kind
}

impl Positions {
    spec fn is_of(self, hunks: Seq<Hunk>) -> bool {
        &&& forall|n: u32| #[trigger]
            self.old.dom().contains(n) ==> self.old[n].old_lineno == Some(n) && is_position(
                hunks,
                self.old[n],
            )
        &&& forall|n: u32| #[trigger]
            self.new.dom().contains(n) ==> self.new[n].new_lineno == Some(n) && is_position(
                hunks,
                self.new[n],
            )
    }

    spec fn has(self, line: DiffLine, hunks: Seq<Hunk>) -> bool {
        let p = line.position;
        &&& line.line_type != DiffLineType::Delete && p.new_lineno is Some
            ==> self.new.dom().contains(p.new_lineno->0)
        &&& line.line_type != DiffLineType::Add && p.old_lineno is Some
            ==> self.old.dom().contains(p.old_lineno->0)
        &&& line.line_type == DiffLineType::Add && p.new_lineno is Some ==> is_position_of(
            hunks,
            self.new[p.new_lineno->0],
            DiffLineType::Add,
        )
        &&& line.line_type == DiffLineType::Delete && p.old_lineno is Some ==> is_position_of(
            hunks,
            self.old[p.old_lineno->0],
            DiffLineType::Delete,
        )
    }
}

proof fn lemma_with_lines(positions: Positions, hunks: Seq<Hunk>, h: int, n: int)
    requires
        0 <= h < hunks.len(),
        0 <= n <= hunks[h].lines@.len(),
        positions.is_of(hunks),
    ensures
        positions.with_lines(hunks[h].lines@.take(n)).is_of(hunks),
        forall|line: DiffLine| #[trigger]
            positions.has(line, hunks) ==> positions.with_lines(hunks[h].lines@.take(n)).has(
                line,
                hunks,
            ),
        forall|k: int|
            0 <= k < n ==> positions.with_lines(hunks[h].lines@.take(n)).has(
                #[trigger] hunks[h].lines@[k],
                hunks,
            ),
    decreases n,
{
    let lines = hunks[h].lines@;
    if n > 0 {
        lemma_with_lines(positions, hunks, h, n - 1);
        let before = positions.with_lines(lines.take(n - 1));
        let line = lines[n - 1];
        assert(lines.take(n).drop_last() =~= lines.take(n - 1));
        assert(lines.take(n).last() == line);
        let after = before.with(line);
        assert(hunks[h].lines@[n - 1].position == line.position);
        assert(is_position(hunks, line.position));
        assert(is_position_of(hunks, line.position, line.line_type));
        assert(after.is_of(hunks));
        assert(after.has(line, hunks));
        assert forall|other: DiffLine| #[trigger] before.has(other, hunks) implies after.has(
            other,
            hunks,
        ) by {}
        assert forall|k: int| 0 <= k < n implies after.has(#[trigger] lines[k], hunks) by {
            if k < n - 1 {
                assert(before.has(lines[k], hunks));
            }
        }
        assert forall|other: DiffLine| #[trigger] positions.has(other, hunks) implies after.has(
            other,
            hunks,
        ) by {
            assert(before.has(other, hunks));
        }
    }
}

proof fn lemma_with_hunks(hunks: Seq<Hunk>, n: int)
    requires
        0 <= n <= hunks.len(),
    ensures
        Positions::empty().with_hunks(hunks.take(n)).is_of(hunks),
        forall|h: int, k: int|
            0 <= h < n && 0 <= k < hunks[h].lines@.len() ==> Positions::empty().with_hunks(
                hunks.take(n),
            ).has(#[trigger] hunks[h].lines@[k], hunks),
    decreases n,
{
    if n > 0 {
        lemma_with_hunks(hunks, n - 1);
        let before = Positions::empty().with_hunks(hunks.take(n - 1));
        assert(hunks.take(n).drop_last() =~= hunks.take(n - 1));
        assert(hunks.take(n).last() == hunks[n - 1]);
        let lines = hunks[n - 1].lines@;
        lemma_with_lines(before, hunks, n - 1, lines.len() as int);
        assert(lines.take(lines.len() as int) =~= lines);
        let after = before.with_lines(lines);
        assert forall|h: int, k: int|
            0 <= h < n && 0 <= k < hunks[h].lines@.len() implies after.has(
            #[trigger] hunks[h].lines@[k],
            hunks,
        ) by {
            if h < n - 1 {
                assert(before.has(hunks[h].lines@[k], hunks));
            }
        }
    }
}

/// The position of a row is that of a line of the diff, and has the number that
/// the gutter of the row shows: the new one, or the old one if there is no new one.
pub proof fn lemma_positions_come_from_the_diff(hunks: Seq<Hunk>, row: Seq<SpanView>)
    ensures
        Positions::empty().with_hunks(hunks).shown(row) matches Some(p) ==> is_position(hunks, p)
            && match gutter_numbers(row) {
            (_, Some(n)) => p.new_lineno == Some(n),
            (Some(n), None) => p.old_lineno == Some(n),
            (None, None) => false,
        },
{
    lemma_with_hunks(hunks, hunks.len() as int);
    assert(hunks.take(hunks.len() as int) =~= hunks);
}

/// Every line of a diff is found by its number: by the new one unless it was
/// deleted, and by the old one unless it was added. Where lines share a number, a
/// changed one is found.
pub proof fn lemma_lines_are_found_by_their_number(
    hunks: Seq<Hunk>,
    h: int,
    k: int,
    row: Seq<SpanView>,
)
    requires
        0 <= h < hunks.len(),
        0 <= k < hunks[h].lines@.len(),
    ensures
        ({
            let line = hunks[h].lines@[k];
            let shown = Positions::empty().with_hunks(hunks).shown(row);
            let (old, new) = gutter_numbers(row);
            let by_new = new is Some && line.position.new_lineno == new;
            let by_old = new is None && old is Some && line.position.old_lineno == old;
            &&& by_new && line.line_type != DiffLineType::Delete ==> shown is Some
            &&& by_old && line.line_type != DiffLineType::Add ==> shown is Some
            &&& by_new && line.line_type == DiffLineType::Add ==> is_position_of(
                hunks,
                shown->0,
                DiffLineType::Add,
            )
            &&& by_old && line.line_type == DiffLineType::Delete ==> is_position_of(
                hunks,
                shown->0,
                DiffLineType::Delete,
            )
        }),
{
    lemma_with_hunks(hunks, hunks.len() as int);
    assert(hunks.take(hunks.len() as int) =~= hunks);
    assert(Positions::empty().with_hunks(hunks).has(hunks[h].lines@[k], hunks));
}

/// The numbers in a gutter are read as they are written, with blanks around them;
/// a blank column stands for no number.
pub proof fn lemma_gutters_are_read(old: u32, new: u32, blank: Seq<char>, row: Seq<SpanView>)
    requires
        row.len() >= 4,
        row[1].content == seq!['\u{22ee}'],
        forall|i: int| 0 <= i < blank.len() ==> text::whitespace(#[trigger] blank[i]),
    ensures
        row[0].content == text::digits(old as nat) && row[2].content == text::digits(new as nat)
            ==> gutter_numbers(row) == (Some(old), Some(new)),
        row[0].content == text::digits(old as nat) && row[2].content == blank
            ==> gutter_numbers(row) == (Some(old), None::<u32>),
        row[0].content == blank && row[2].content == text::digits(new as nat)
            ==> gutter_numbers(row) == (None::<u32>, Some(new)),
{
    text::lemma_trimming_ends(seq!['\u{22ee}']);
    text::lemma_trimming_ends(blank);
    text::lemma_trimming_ends(text::digits(old as nat));
    text::lemma_trimming_ends(text::digits(new as nat));
    text::lemma_digits_read_back(old as nat);
    text::lemma_digits_read_back(new as nat);
    text::lemma_blanks();
    let (a, b) = (text::digits(old as nat), text::digits(new as nat));
    assert(text::is_digit(a[0]) && text::is_digit(a[a.len() - 1]));
    assert(text::is_digit(b[0]) && text::is_digit(b[b.len() - 1]));
}

/// A line drawn to an upper right corner is an upper border; one that holds
/// anything else, such as the lower right corner, is none.
pub proof fn lemma_upper_borders(n: nat, content: Seq<char>, i: int)
    requires
        0 <= i < content.len(),
        content[i] != '\u{2500}',
        content[i] != '\u{2510}',
        !text::whitespace(content[i]),
    ensures
        is_top_border(Seq::new(n, |k: int| '\u{2500}').push('\u{2510}')),
        !is_top_border(content),
        !is_top_border(Seq::empty()),
{
    let border = Seq::new(n, |k: int| '\u{2500}').push('\u{2510}');
    text::lemma_trimming_ends(border);
    text::lemma_trimming_ends(Seq::empty());
    assert(border[0] == '\u{2500}' || border[0] == '\u{2510}');
    text::lemma_trimming_keeps_what_is_not_blank(content);
    let t = text::trimmed(content);
    let k = choose|k: int| 0 <= k < t.len() && t[k] == content[i];
    assert(t[k] == content[i]);
}

/// Blank lines at the start of delta's output are not shown, and nothing else is
/// left out.
pub proof fn lemma_blank_start(lines: Seq<Seq<SpanView>>, i: int, k: int)
    requires
        0 <= i <= k < lines.len(),
        lines[k].len() > 0,
    ensures
        i <= blank_start(lines, i) <= k,
        lines[blank_start(lines, i)].len() > 0,
        forall|j: int| i <= j < blank_start(lines, i) ==> (#[trigger] lines[j]).len() == 0,
    decreases k - i,
{
    if lines[i].len() == 0 {
        lemma_blank_start(lines, i + 1, k);
    }
}

// ------------------------------------------------------- laws of the rendering

/// Every call of `git` asks for the difference of one path, given behind the
/// options; the index is compared exactly where what is staged is asked for,
/// a commit with its parent, and two commits from the old one to the new one.
pub proof fn lemma_the_asked_difference_is_taken(diff_type: DiffType, path: Seq<char>)
    ensures
        ({
            let args = git_args(diff_type, path);
            &&& args.len() >= 3
            &&& args[0] == "diff"@
            &&& args[args.len() - 2] == "--"@
            &&& args.last() == path
            &&& diff_type == DiffType::WorkDir ==> args.len() == 3
            &&& diff_type == DiffType::Stage ==> args.len() == 4 && args[1] == "--cached"@
            &&& diff_type is Commit ==> {
                let hex = diff_type->Commit_0.hex();
                &&& args.len() == 4
                &&& args[1].take(hex.len() as int) == hex
                &&& args[1].skip(hex.len() as int + 3) == hex
                &&& args[1].subrange(hex.len() as int, hex.len() as int + 3) == "^.."@
            }
            &&& diff_type is Commits ==> args.len() == 5 && args[1]
                == diff_type->Commits_0.old.hex() && args[2] == diff_type->Commits_0.new.hex()
        }),
{
    if diff_type is Commit {
        let hex = diff_type->Commit_0.hex();
        let args = git_args(diff_type, path);
        reveal_strlit("^..");
        assert(args[1].take(hex.len() as int) =~= hex);
        assert(args[1].skip(hex.len() as int + 3) =~= hex);
        assert(args[1].subrange(hex.len() as int, hex.len() as int + 3) =~= "^.."@);
    }
}

/// Delta always numbers lines, leaves the name of the file out and writes all
/// colors. It is given a width exactly where two panels are asked for, and a
/// scheme exactly where one is known.
pub proof fn lemma_delta_is_told_what_to_draw(
    width: u16,
    side_by_side: bool,
    scheme: ColorScheme,
)
    ensures
        ({
            let args = delta_args(width, side_by_side, scheme);
            let themed: int = if scheme == ColorScheme::Unknown {
                0
            } else {
                1
            };
            &&& args[0] == "--file-style"@ && args[1] == "omit"@
            &&& args[2] == "--line-numbers"@
            &&& args.last() == "--true-color=always"@
            &&& !side_by_side ==> args.len() == 4 + themed
            &&& side_by_side ==> {
                &&& args.len() == 7 + themed
                &&& args[3] == "--width"@
                &&& text::decimal(args[4]) >= 20
                &&& width >= 20 ==> text::decimal(args[4]) == width
                &&& args[5] == "--side-by-side"@
            }
            &&& scheme == ColorScheme::Light ==> args[args.len() - 2] == "--light"@
            &&& scheme == ColorScheme::Dark ==> args[args.len() - 2] == "--dark"@
        }),
{
    let columns = if width < 20 {
        20
    } else {
        width as int
    };
    text::lemma_digits_read_back(columns as nat);
}

/// Without a path nothing is run; else `git` is asked first.
pub proof fn lemma_git_comes_first(params: DeltaParams)
    ensures
        params.path@.len() == 0 ==> params.first() is Nothing,
        params.path@.len() > 0 ==> params.first() == DeltaStepView::Git(
            DeltaStage::Plain,
            git_args(params.diff_type, params.path@),
        ),
{
}

/// A difference that `git` has found is drawn, whichever call found it.
pub proof fn lemma_found_differences_are_drawn(
    params: DeltaParams,
    stage: DeltaStage,
    reply: GitReply,
    scheme: ColorScheme,
)
    requires
        reply.started,
        !reply.empty,
    ensures
        reply.success ==> params.after(stage, reply, scheme) == DeltaStepView::Delta(
            delta_args(params.width, params.side_by_side, scheme),
        ),
        stage == DeltaStage::Untracked && reply.differs ==> params.after(stage, reply, scheme)
            == DeltaStepView::Delta(delta_args(params.width, params.side_by_side, scheme)),
        params.after(stage, reply, scheme) is Delta ==> reply.success || (stage
            == DeltaStage::Untracked && reply.differs),
{
}

/// A commit without a parent is compared with nothing, and a file that `git`
/// does not know yet with an empty one. Nothing else is tried, and an empty
/// difference is never drawn.
pub proof fn lemma_what_is_tried_next(
    params: DeltaParams,
    stage: DeltaStage,
    reply: GitReply,
    scheme: ColorScheme,
)
    ensures
        ({
            let next = params.after(stage, reply, scheme);
            &&& !reply.started ==> next is Nothing
            &&& reply.empty ==> !(next is Delta)
            &&& next is Git ==> stage == DeltaStage::Plain
            &&& next is Git && next->Git_0 == DeltaStage::Root ==> params.diff_type is Commit
                && !reply.success && next->Git_1[2] == params.diff_type->Commit_0.hex()
                && next->Git_1.last() == params.path@
            &&& next is Git && next->Git_0 == DeltaStage::Untracked ==> params.diff_type
                == DiffType::WorkDir && reply.success && reply.empty && next->Git_1[1]
                == "--no-index"@ && next->Git_1.last() == params.path@
            &&& stage == DeltaStage::Plain && reply.started && !reply.success
                && params.diff_type is Commit ==> next is Git && next->Git_0 == DeltaStage::Root
            &&& stage == DeltaStage::Plain && reply.started && reply.success && reply.empty
                && params.diff_type == DiffType::WorkDir ==> next is Git && next->Git_0
                == DeltaStage::Untracked
        }),
{
}

/// Nothing before the last background changes, and what is behind it keeps its
/// attributes.
pub proof fn lemma_padding_changes_colors_only(
    line: Seq<SpanView>,
    width: int,
    is_sbs: bool,
    dominant: Option<Color>,
    i: int,
)
    requires
        0 <= i < line.len(),
    ensures
        ({
            let out = padded(line, width, is_sbs, dominant);
            &&& i <= last_bg(line, line.len() as int) ==> out[i] == line[i]
            &&& out[i].style.add_modifier == line[i].style.add_modifier
            &&& out[i].style.sub_modifier == line[i].style.sub_modifier
            &&& (forall|k: int| 0 <= k < line.len() ==> (#[trigger] line[k]).style.bg is None)
                ==> out == line
        }),
{
    lemma_last_bg(line, line.len() as int);
}

/// A line with a background is filled up with blanks to the width, and no
/// further.
pub proof fn lemma_backgrounds_fill_the_width(
    line: Seq<SpanView>,
    width: int,
    dominant: Option<Color>,
)
    requires
        last_bg(line, line.len() as int) >= 0,
        0 <= width,
    ensures
        ({
            let out = padded(line, width, false, dominant);
            let taken = columns_before(line, line.len() as int);
            &&& taken >= width ==> out.len() == line.len()
            &&& taken < width ==> out.len() == line.len() + 1 && out.last().content.len() + taken
                == width
        }),
{
}

/// The last background is that of a span, and no span behind it has one.
pub proof fn lemma_the_last_background(line: Seq<SpanView>, n: int, i: int)
    requires
        0 <= i < n <= line.len(),
    ensures
        last_bg(line, n) < n,
        line[i].style.bg is Some ==> i <= last_bg(line, n),
        last_bg(line, n) >= 0 ==> line[last_bg(line, n)].style.bg is Some,
    decreases n,
{
    if n > 1 {
        lemma_the_last_background(
            line,
            n - 1,
            if i < n - 1 {
                i
            } else {
                0
            },
        );
    } else {
        reveal_with_fuel(last_bg, 2);
    }
}

/// The color of the text is that of the last span with a background that has
/// one.
pub proof fn lemma_the_color_of_the_text(line: Seq<SpanView>, n: int, i: int)
    requires
        0 <= i < n <= line.len(),
        line[i].style.bg is Some,
        line[i].style.fg is Some,
        forall|k: int|
            i < k < n ==> (#[trigger] line[k]).style.bg is None || line[k].style.fg is None,
    ensures
        content_fg(line, n) == line[i].style.fg,
    decreases n,
{
    if i < n - 1 {
        lemma_the_color_of_the_text(line, n - 1, i);
    }
}

/// A line that is not too long stays whole, and from one that is only blanks
/// at its end are taken.
pub proof fn lemma_only_blanks_overhang(line: Seq<SpanView>, width: int, k: int)
    ensures
        columns_before(line, line.len() as int) <= width ==> without_overhang(line, width) == line,
        without_overhang(line, width).is_prefix_of(line),
        without_overhang(line, width).len() <= k < line.len() ==> text::trimmed(
            line[k].content,
        ).len() == 0,
{
    lemma_blank_end(line, k);
}

proof fn lemma_blank_end(line: Seq<SpanView>, k: int)
    ensures
        without_blank_end(line).is_prefix_of(line),
        without_blank_end(line).len() <= k < line.len() ==> text::trimmed(line[k].content).len()
            == 0,
        without_blank_end(line).len() > 0 ==> text::trimmed(
            without_blank_end(line).last().content,
        ).len() > 0,
    decreases line.len(),
{
    if line.len() > 0 && text::trimmed(line.last().content).len() == 0 {
        lemma_blank_end(line.drop_last(), k);
    }
}

// ----------------------------------------------------------- laws of the cache

proof fn lemma_key_is_found(entries: Seq<EntryView>, key: u64, i: int)
    requires
        0 <= i < entries.len(),
        entries[i].key == key,
    ensures
        i <= key_at(entries, key) < entries.len(),
        entries[key_at(entries, key)].key == key,
    decreases entries.len(),
{
    if entries.last().key != key {
        lemma_key_is_found(entries.drop_last(), key, i);
    }
}

/// A render is found where one is kept for the key, and no other is.
pub proof fn lemma_renders_are_found_by_their_key(entries: Seq<EntryView>, key: u64, i: int)
    requires
        distinct_keys(entries),
        0 <= i < entries.len(),
    ensures
        key_at(entries, key) == i <==> entries[i].key == key,
        key_at(entries, key) >= 0 ==> key_at(entries, key) < entries.len() && entries[key_at(
            entries,
            key,
        )].key == key,
{
    lemma_key_at(entries, key);
    if entries[i].key == key {
        lemma_key_is_found(entries, key, i);
    }
}

/// Where there is room, nothing is lost but the older render for the same key.
pub proof fn lemma_there_is_room(entries: Seq<EntryView>, e: EntryView, max: int, i: int)
    requires
        total_weight(entries) + delta_weight(e.result) <= max,
        0 <= i < entries.len(),
        entries[i].key != e.key,
    ensures
        inserted(entries, e, max).contains(entries[i]),
        inserted(entries, e, max).last() == e,
{
    let rest = without_key(entries, e.key);
    let at = key_at(entries, e.key);
    lemma_key_at(entries, e.key);
    lemma_weight_nonneg(e.result);
    lemma_total_nonneg(entries);
    if at >= 0 {
        lemma_total_remove(entries, at);
        lemma_weight_nonneg(entries[at].result);
    }
    assert(evicted(rest, delta_weight(e.result), max) == rest);
    let all = inserted(entries, e, max);
    let j = if at < 0 || i < at {
        i
    } else {
        i - 1
    };
    assert(all[j] == entries[i]);
}

/// A render that is too heavy for the cache is not kept, and neither is the one
/// that it replaces.
pub proof fn lemma_heavy_renders_are_not_kept(entries: Seq<EntryView>, e: EntryView, max: int)
    requires
        delta_weight(e.result) > max,
        distinct_keys(entries),
    ensures
        key_at(inserted(entries, e, max), e.key) < 0,
        inserted(entries, e, max).len() >= entries.len() - 1,
{
    let at = key_at(entries, e.key);
    lemma_key_at(entries, e.key);
    let rest = inserted(entries, e, max);
    lemma_key_at(rest, e.key);
    let found = key_at(rest, e.key);
    if found >= 0 && at >= 0 {
        let other = if found < at {
            found
        } else {
            found + 1
        };
        assert(rest[found] == entries[other]);
    }
}

/// A render that is used is the last to be dropped.
pub proof fn lemma_used_renders_move_to_the_end(entries: Seq<EntryView>, key: u64)
    requires
        key_at(entries, key) >= 0,
    ensures
        touched(entries, key).last() == entries[key_at(entries, key)],
        touched(entries, key).last().key == key,
{
    lemma_key_at(entries, key);
}

/// A heavier text weighs more: every row, every mark and every byte counts.
pub proof fn lemma_longer_texts_weigh_more(rows: Seq<Seq<SpanView>>, row: Seq<SpanView>, span: SpanView)
    ensures
        text_bytes(rows.push(row)) == text_bytes(rows) + line_bytes(row),
        line_bytes(row.push(span)) == line_bytes(row) + vstd::utf8::encode_utf8(
            span.content,
        ).len() as usize,
        text_bytes(Seq::empty()) == 0,
        line_bytes(Seq::empty()) == 0,
{
    assert(rows.push(row).drop_last() =~= rows);
    assert(row.push(span).drop_last() =~= row);
}

// ------------------------------------------------------------ laws of the jobs

/// A request is met from the cache, or by the job that runs for it, or by a new
/// one; the latest key is remembered in any case.
pub proof fn lemma_requests_are_met(jobs: DeltaJobs, key: u64)
    ensures
        ({
            let after = jobs.requested(key);
            let cached = key_at(jobs.cache, key) >= 0;
            &&& after.latest == key
            &&& after.completed == jobs.completed
            &&& after.max == jobs.max
            &&& cached ==> after.pending == jobs.pending && after.in_flight == jobs.in_flight
            &&& !cached ==> after.in_flight.contains(key)
            &&& !cached && !jobs.in_flight.contains(key) ==> after.pending == jobs.pending + 1
            &&& forall|k: u64|
                k != key ==> (after.in_flight.contains(k) <==> #[trigger] jobs.in_flight.contains(
                    k,
                ))
        }),
{
}

/// A job that ended runs no more, whether it delivered something or not; where
/// it did not, nothing else changes and the render can be asked for again.
pub proof fn lemma_ended_jobs_are_counted(jobs: DeltaJobs, key: u64, result: DeltaView)
    ensures
        jobs.finished(key, None).pending == jobs.pending - 1,
        jobs.finished(key, Some(result)).pending == jobs.pending - 1,
        !jobs.finished(key, None).in_flight.contains(key),
        !jobs.finished(key, Some(result)).in_flight.contains(key),
        jobs.finished(key, None).cache == jobs.cache,
        jobs.finished(key, None).completed == jobs.completed,
        jobs.finished(key, None).latest == jobs.latest,
        key_at(jobs.cache, key) < 0 ==> jobs.finished(key, None).requested(key).pending
            == jobs.pending,
{
}

/// A render that fits is at hand for later requests, even where another one was
/// wanted when it came.
pub proof fn lemma_delivered_renders_are_kept(jobs: DeltaJobs, key: u64, result: DeltaView)
    requires
        delta_weight(result) <= jobs.max,
    ensures
        ({
            let after = jobs.finished(key, Some(result)).requested(key);
            &&& after.pending == jobs.pending - 1
            &&& !after.in_flight.contains(key)
        }),
        jobs.completed is None || (jobs.completed->0).0 != key ==> jobs.finished(
            key,
            Some(result),
        ).available(key) == Some(result),
{
    lemma_inserted_is_found(jobs.cache, EntryView { key, result }, jobs.max);
}

/// What is handed out is what was rendered for the key, and it is handed out
/// once where it is not in the cache.
pub proof fn lemma_renders_are_handed_out(jobs: DeltaJobs, key: u64)
    ensures
        jobs.available(key) is Some ==> (jobs.completed is Some && jobs.completed->0 == (
            key,
            jobs.available(key)->0,
        )) || jobs.cache.contains(EntryView { key, result: jobs.available(key)->0 }),
        key_at(jobs.cache, key) < 0 ==> jobs.taken(key).available(key) is None,
        key_at(jobs.cache, key) >= 0 ==> jobs.available(key) is Some,
{
    lemma_key_at(jobs.cache, key);
    let at = key_at(jobs.cache, key);
    if at >= 0 {
        assert(jobs.cache[at] == EntryView { key, result: jobs.cache[at].result });
    }
}

/// What is filled behind the last background is drawn in the color of the text
/// before it, and keeps its own only where that text has none.
pub proof fn lemma_filled_spans_have_the_color_of_the_text(
    line: Seq<SpanView>,
    width: int,
    dominant: Option<Color>,
    i: int,
)
    requires
        0 <= last_bg(line, line.len() as int) < i < line.len(),
    ensures
        ({
            let idx = last_bg(line, line.len() as int);
            let out = padded(line, width, false, dominant);
            let fg = content_fg(line, idx + 1);
            &&& fg is Some ==> out[i].style.fg == fg
            &&& fg is None ==> out[i].style.fg == line[i].style.fg
        }),
{
}

/// The blanks that fill a line up look like the last span with a background, or,
/// where another background is the line's own, like the first span that has it, or
/// like that background with the color of the text.
pub proof fn lemma_how_blanks_look(
    line: Seq<SpanView>,
    width: int,
    dominant: Option<Color>,
    k: int,
)
    requires
        last_bg(line, line.len() as int) >= 0,
        columns_before(line, line.len() as int) < width,
    ensures
        ({
            let idx = last_bg(line, line.len() as int);
            let blanks = padded(line, width, false, dominant).last().style;
            let fg = content_fg(line, idx + 1);
            &&& dominant is None ==> blanks == line[idx].style
            &&& dominant is Some && 0 <= k <= idx && line[k].style.bg == dominant && (forall|j: int|
                0 <= j < k ==> (#[trigger] line[j]).style.bg != dominant) ==> blanks
                == line[k].style
            &&& dominant is Some && (forall|j: int|
                0 <= j <= idx ==> (#[trigger] line[j]).style.bg != dominant) ==> blanks.bg
                == dominant && blanks.fg == fg && blanks.add_modifier == text::Modifier::none()
        }),
{
    let idx = last_bg(line, line.len() as int);
    lemma_last_bg(line, line.len() as int);
    if dominant is Some {
        let bg = dominant->0;
        if 0 <= k <= idx && line[k].style.bg == dominant && (forall|j: int|
            0 <= j < k ==> (#[trigger] line[j]).style.bg != dominant) {
            lemma_first_of_bg(line, 0, idx + 1, bg, k);
        }
        if forall|j: int| 0 <= j <= idx ==> (#[trigger] line[j]).style.bg != dominant {
            lemma_none_of_bg(line, 0, idx + 1, bg);
        }
    }
}

proof fn lemma_first_of_bg(line: Seq<SpanView>, i: int, to: int, bg: Color, k: int)
    requires
        0 <= i <= k < to <= line.len(),
        line[k].style.bg == Some(bg),
        forall|j: int| i <= j < k ==> (#[trigger] line[j]).style.bg != Some(bg),
    ensures
        style_of_bg(line, i, to, bg) == Some(line[k].style),
    decreases k - i,
{
    if i < k {
        assert(line[i].style.bg != Some(bg));
        lemma_first_of_bg(line, i + 1, to, bg, k);
    }
}

proof fn lemma_none_of_bg(line: Seq<SpanView>, i: int, to: int, bg: Color)
    requires
        0 <= i,
        to <= line.len(),
        forall|j: int| i <= j < to ==> (#[trigger] line[j]).style.bg != Some(bg),
    ensures
        style_of_bg(line, i, to, bg) is None,
    decreases to - i,
{
    if i < to {
        assert(line[i].style.bg != Some(bg));
        lemma_none_of_bg(line, i + 1, to, bg);
    }
}

} // verus!
