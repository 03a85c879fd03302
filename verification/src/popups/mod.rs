//! The popups: their state, what they show and how they react.
pub mod content_search;
pub mod fuzzy_find;
pub mod inspect_commit;
pub mod match_list;
pub mod options;
pub mod push;

use crate::text::{self, Line, Span, SpanView, Style};
use crate::unicode::{self, display_width, graphemes};
use vstd::prelude::*;
use vstd::string::*;

verus! {

// ----------------------------------------------------------------- wrapping

/// A character as a reader sees it, with its columns and the span that it comes
/// from.
#[derive(Debug, PartialEq, Eq)]
pub struct Cluster {
    pub content: String,
    pub style: Style,
    pub width: usize,
    pub span: usize,
}

/// What a [`Cluster`] holds.
pub struct ClusterView {
    pub content: Seq<char>,
    pub style: Style,
    pub width: int,
    pub span: int,
}

impl View for Cluster {
    type V = ClusterView;

    open spec fn view(&self) -> ClusterView {
        ClusterView {
            content: self.content@,
            style: self.style,
            width: self.width as int,
            span: self.span as int,
        }
    }
}

/// A text being filled into rows: the finished rows, the current row and the
/// columns that it takes up.
#[verifier::ext_equal]
pub struct Filling {
    pub rows: Seq<Seq<ClusterView>>,
    pub row: Seq<ClusterView>,
    pub used: int,
}

impl Filling {
    pub open spec fn start() -> Filling {
        Filling { rows: Seq::empty(), row: Seq::empty(), used: 0 }
    }

    pub open spec fn broken(self) -> Filling {
        Filling { rows: self.rows.push(self.row), row: Seq::empty(), used: 0 }
    }

    pub open spec fn with(self, c: ClusterView) -> Filling {
        Filling { row: self.row.push(c), used: self.used + c.width, ..self }
    }

    /// What takes up no columns stays with what stands before it. What fits no
    /// row is left out, and ends the row. Anything else goes to the next row if
    /// it does not fit any more.
    pub open spec fn placed(self, c: ClusterView, max: int) -> Filling {
        if c.width == 0 {
            self.with(c)
        } else if c.width > max {
            if self.row.len() > 0 {
                self.broken()
            } else {
                self
            }
        } else if self.used + c.width > max {
            self.broken().with(c)
        } else {
            self.with(c)
        }
    }
}

/// The first `n` characters, filled into rows.
pub open spec fn filled(clusters: Seq<ClusterView>, max: int, n: int) -> Filling
    decreases n,
{
    if n <= 0 {
        Filling::start()
    } else {
        filled(clusters, max, n - 1).placed(clusters[n - 1], max)
    }
}

/// The rows of a text, of which the last may be empty.
pub open spec fn filled_rows(clusters: Seq<ClusterView>, max: int) -> Seq<Seq<ClusterView>> {
    filled(clusters, max, clusters.len() as int).broken().rows
}

/// The spans of a row: what stands side by side and comes from one span stays
/// together.
pub open spec fn row_spans(row: Seq<ClusterView>) -> Seq<SpanView>
    decreases row.len(),
{
    if row.len() == 0 {
        Seq::empty()
    } else {
        let before = row_spans(row.drop_last());
        let c = row.last();
        if row.len() > 1 && row[row.len() - 2].span == c.span {
            before.drop_last().push(
                SpanView {
                    content: before.last().content + c.content,
                    style: before.last().style,
                },
            )
        } else {
            before.push(SpanView { content: c.content, style: c.style })
        }
    }
}

/// The characters of a span.
pub open spec fn span_clusters(span: SpanView, index: int) -> Seq<ClusterView> {
    let parts = unicode::grapheme_clusters(span.content);
    Seq::new(
        parts.len(),
        |i: int|
            ClusterView {
                content: parts[i],
                style: span.style,
                width: unicode::str_width(parts[i]) as int,
                span: index,
            },
    )
}

/// The characters of the first `n` spans.
pub open spec fn line_clusters(line: Seq<SpanView>, n: int) -> Seq<ClusterView>
    decreases n,
{
    if n <= 0 {
        Seq::empty()
    } else {
        line_clusters(line, n - 1) + span_clusters(line[n - 1], n - 1)
    }
}

fn clusters_of(line: &Line) -> (r: Vec<Cluster>)
    ensures
        text::views(r@) == line_clusters(line@, line@.len() as int),
        forall|i: int| 0 <= i < r@.len() ==> (#[trigger] r@[i]).content@.len() > 0,
{
    let mut out: Vec<Cluster> = Vec::new();
    assert(text::views(out@) =~= Seq::empty());
    for i in 0..line.spans.len()
        invariant
            text::views(out@) == line_clusters(line@, i as int),
            forall|k: int| 0 <= k < out@.len() ==> (#[trigger] out@[k]).content@.len() > 0,
    {
        let parts = graphemes(line.spans[i].content.as_str());
        let ghost before = text::views(out@);
        let ghost whole = span_clusters(line@[i as int], i as int);
        assert(line@[i as int] == line.spans@[i as int]@);
        assert(before + whole.take(0) =~= before);
        for j in 0..parts.len()
            invariant
                i < line.spans@.len(),
                text::views(parts@) == unicode::grapheme_clusters(line.spans@[i as int].content@),
                whole == span_clusters(line.spans@[i as int]@, i as int),
                text::views(out@) == before + whole.take(j as int),
                forall|k: int| 0 <= k < out@.len() ==> (#[trigger] out@[k]).content@.len() > 0,
                forall|k: int| 0 <= k < parts@.len() ==> (#[trigger] parts@[k])@.len() > 0,
        {
            assert(text::views(parts@)[j as int] == parts@[j as int]@);
            let cluster = Cluster {
                content: parts[j].clone(),
                style: line.spans[i].style,
                width: display_width(parts[j].as_str()),
                span: i,
            };
            proof {
                text::lemma_views_push(out@, cluster);
            }
            assert(cluster@ == whole[j as int]);
            out.push(cluster);
            assert(before + whole.take(j + 1) =~= (before + whole.take(j as int)).push(
                whole[j as int],
            ));
        }
        assert(text::views(parts@).len() == parts@.len());
        assert(whole.take(parts@.len() as int) =~= whole);
    }
    out
}

struct Filler {
    rows: Vec<Vec<Cluster>>,
    row: Vec<Cluster>,
    used: usize,
}

/// The characters of rows.
pub open spec fn row_views(rows: Seq<Vec<Cluster>>) -> Seq<Seq<ClusterView>> {
    Seq::new(rows.len(), |i: int| text::views(rows[i]@))
}

impl View for Filler {
    type V = Filling;

    closed spec fn view(&self) -> Filling {
        Filling { rows: row_views(self.rows@), row: text::views(self.row@), used: self.used as int }
    }
}

impl Filler {
    fn break_row(&mut self)
        ensures
            final(self)@ == old(self)@.broken(),
    {
        let mut row: Vec<Cluster> = Vec::new();
        std::mem::swap(&mut row, &mut self.row);
        self.rows.push(row);
        self.used = 0;
        assert(self@ =~= old(self)@.broken());
    }

    fn put(&mut self, c: Cluster)
        requires
            old(self)@.used + c.width <= usize::MAX,
        ensures
            final(self)@ == old(self)@.with(c@),
    {
        proof {
            text::lemma_views_push(self.row@, c);
        }
        self.used = self.used + c.width;
        self.row.push(c);
        assert(self@ =~= old(self)@.with(c@));
    }
}

proof fn lemma_filled_used(clusters: Seq<ClusterView>, max: int, n: int)
    requires
        0 < max,
        n <= clusters.len(),
        forall|i: int| 0 <= i < clusters.len() ==> (#[trigger] clusters[i]).width >= 0,
    ensures
        0 <= filled(clusters, max, n).used <= max,
    decreases n,
{
    if n > 0 {
        lemma_filled_used(clusters, max, n - 1);
        assert(clusters[n - 1].width >= 0);
    }
}

/// Fill characters into rows of at most `max` columns.
pub fn wrap_clusters(clusters: Vec<Cluster>, max: usize) -> (r: Vec<Vec<Cluster>>)
    requires
        max > 0,
    ensures
        row_views(r@) == filled_rows(text::views(clusters@), max as int),
{
    let ghost all = text::views(clusters@);
    let ghost list = clusters@;
    let mut rest = clusters;
    let n: usize = rest.len();
    let mut f = Filler { rows: Vec::new(), row: Vec::new(), used: 0 };
    assert(f@ =~= Filling::start());
    for i in 0..n
        invariant
            max > 0,
            n == list.len(),
            all == text::views(list),
            rest@ == list.skip(i as int),
            f@ == filled(all, max as int, i as int),
    {
        let c = rest.remove(0);
        assert(rest@ =~= list.skip(i + 1));
        assert(c@ == all[i as int]);
        proof {
            lemma_filled_used(all, max as int, i as int);
        }
        if c.width == 0 {
            f.put(c);
        } else if c.width > max {
            if f.row.len() > 0 {
                f.break_row();
            }
        } else {
            if f.used > max - c.width {
                f.break_row();
            }
            f.put(c);
        }
    }
    f.break_row();
    f.rows
}

/// A row as a line: what comes from one span stays together.
fn row_line(row: &Vec<Cluster>) -> (r: Line)
    ensures
        r@ == row_spans(text::views(row@)),
{
    let ghost all = text::views(row@);
    let mut spans: Vec<Span> = Vec::new();
    assert(text::views(spans@) =~= row_spans(all.take(0)));
    for i in 0..row.len()
        invariant
            all == text::views(row@),
            text::views(spans@) == row_spans(all.take(i as int)),
            i > 0 ==> spans@.len() > 0,
    {
        let ghost before = spans@;
        let ghost part = all.take(i + 1);
        assert(part.drop_last() =~= all.take(i as int));
        assert(part.last() == row@[i as int]@);
        assert(i > 0 ==> part[i - 1] == row@[i - 1]@);
        if i > 0 && row[i - 1].span == row[i].span {
            match spans.pop() {
                Some(last) => {
                    let content = text::join2(last.content.as_str(), row[i].content.as_str());
                    spans.push(Span::styled(content, last.style));
                    assert(text::views(before).last() == last@);
                },
                None => {},
            }
        } else {
            spans.push(Span::styled(row[i].content.clone(), row[i].style));
        }
        assert(text::views(spans@) =~= row_spans(part));
    }
    assert(all.take(row@.len() as int) =~= all);
    Line { spans }
}

/// The lines that a line is wrapped to. A width of zero does not wrap.
pub open spec fn wrapped_lines(line: Seq<SpanView>, max: int) -> Seq<Seq<SpanView>> {
    if max == 0 {
        seq![line]
    } else {
        let rows = filled_rows(line_clusters(line, line.len() as int), max);
        Seq::new(rows.len(), |i: int| row_spans(rows[i]))
    }
}

/// Wrap a line at the width of a popup. A width of zero does not wrap.
pub fn wrap_line(line: &Line, max_width: usize) -> (r: Vec<Line>)
    ensures
        text::views(r@) == wrapped_lines(line@, max_width as int),
{
    let mut out: Vec<Line> = Vec::new();
    if max_width == 0 {
        out.push(line.clone());
        assert(text::views(out@) =~= seq![line@]);
        return out;
    }
    let rows = wrap_clusters(clusters_of(line), max_width);
    for i in 0..rows.len()
        invariant
            out@.len() == i,
            forall|k: int| 0 <= k < i ==> (#[trigger] out@[k])@ == row_spans(row_views(rows@)[k]),
    {
        out.push(row_line(&rows[i]));
    }
    assert(text::views(out@) =~= wrapped_lines(line@, max_width as int));
    out
}

/// The columns of a row.
pub open spec fn row_width(row: Seq<ClusterView>) -> int
    decreases row.len(),
{
    if row.len() == 0 {
        0
    } else {
        row_width(row.drop_last()) + row.last().width
    }
}

proof fn lemma_row_width_push(row: Seq<ClusterView>, c: ClusterView)
    ensures
        row_width(row.push(c)) == row_width(row) + c.width,
{
    assert(row.push(c).drop_last() =~= row);
}

proof fn lemma_filling_fits(clusters: Seq<ClusterView>, max: int, n: int)
    requires
        0 < max,
        n <= clusters.len(),
        forall|i: int| 0 <= i < clusters.len() ==> (#[trigger] clusters[i]).width >= 0,
    ensures
        ({
            let f = filled(clusters, max, n);
            &&& row_width(f.row) == f.used
            &&& 0 <= f.used <= max
            &&& forall|i: int| 0 <= i < f.rows.len() ==> row_width(#[trigger] f.rows[i]) <= max
        }),
    decreases n,
{
    if n > 0 {
        lemma_filling_fits(clusters, max, n - 1);
        let f = filled(clusters, max, n - 1);
        let c = clusters[n - 1];
        lemma_row_width_push(f.row, c);
        lemma_row_width_push(Seq::empty(), c);
    }
}

/// No row is wider than the popup.
pub proof fn lemma_rows_fit(clusters: Seq<ClusterView>, max: int, i: int)
    requires
        0 < max,
        0 <= i < filled_rows(clusters, max).len(),
        forall|i: int| 0 <= i < clusters.len() ==> (#[trigger] clusters[i]).width >= 0,
    ensures
        row_width(filled_rows(clusters, max)[i]) <= max,
{
    lemma_filling_fits(clusters, max, clusters.len() as int);
}

/// The characters that fit into some row.
pub open spec fn fitting(clusters: Seq<ClusterView>, max: int, n: int) -> Seq<ClusterView>
    decreases n,
{
    if n <= 0 {
        Seq::empty()
    } else if clusters[n - 1].width > max {
        fitting(clusters, max, n - 1)
    } else {
        fitting(clusters, max, n - 1).push(clusters[n - 1])
    }
}

/// Rows put together.
pub open spec fn flat(rows: Seq<Seq<ClusterView>>) -> Seq<ClusterView>
    decreases rows.len(),
{
    if rows.len() == 0 {
        Seq::empty()
    } else {
        flat(rows.drop_last()) + rows.last()
    }
}

proof fn lemma_flat_push(rows: Seq<Seq<ClusterView>>, row: Seq<ClusterView>)
    ensures
        flat(rows.push(row)) == flat(rows) + row,
{
    assert(rows.push(row).drop_last() =~= rows);
}

proof fn lemma_filling_keeps(clusters: Seq<ClusterView>, max: int, n: int)
    requires
        0 < max,
        n <= clusters.len(),
    ensures
        flat(filled(clusters, max, n).rows) + filled(clusters, max, n).row == fitting(
            clusters,
            max,
            n,
        ),
    decreases n,
{
    let f = filled(clusters, max, n);
    if n <= 0 {
        assert(flat(f.rows) + f.row =~= Seq::empty());
    } else {
        lemma_filling_keeps(clusters, max, n - 1);
        let g = filled(clusters, max, n - 1);
        let c = clusters[n - 1];
        lemma_flat_push(g.rows, g.row);
        assert(flat(f.rows) + f.row =~= fitting(clusters, max, n));
    }
}

/// The rows hold the characters in their order, but for those that are wider
/// than the popup.
pub proof fn lemma_wrapping_keeps_what_fits(clusters: Seq<ClusterView>, max: int)
    requires
        0 < max,
    ensures
        flat(filled_rows(clusters, max)) == fitting(clusters, max, clusters.len() as int),
{
    let f = filled(clusters, max, clusters.len() as int);
    lemma_filling_keeps(clusters, max, clusters.len() as int);
    lemma_flat_push(f.rows, f.row);
}

// ---------------------------------------------------------------- placement

/// A row of a wrapped line and where it is drawn.
#[derive(Clone, Copy, Debug, PartialEq, Eq, Structural)]
pub struct PlacedRow {
    pub line: usize,
    pub row: usize,
    pub y: u16,
}

/// The rows of the first `n` lines, from the first to the last: each the number
/// of its line and its own among the rows of the line.
pub open spec fn rows_of(counts: Seq<usize>, n: int) -> Seq<(usize, usize)>
    decreases n,
{
    if n <= 0 {
        Seq::empty()
    } else {
        rows_of(counts, n - 1) + Seq::new(
            counts[n - 1] as nat,
            |j: int| ((n - 1) as usize, j as usize),
        )
    }
}

/// Where the rows of lines are drawn: one below the other from `top` on, as many
/// as there is room for above `bottom`.
pub open spec fn placed_rows(counts: Seq<usize>, top: int, bottom: int) -> Seq<PlacedRow> {
    let all = rows_of(counts, counts.len() as int);
    let count = if bottom <= top {
        0
    } else if all.len() < bottom - top {
        all.len() as int
    } else {
        bottom - top
    };
    Seq::new(
        count as nat,
        |k: int| PlacedRow { line: all[k].0, row: all[k].1, y: (top + k) as u16 },
    )
}

proof fn lemma_rows_prefix(counts: Seq<usize>, m: int, n: int)
    requires
        0 <= m <= n <= counts.len(),
    ensures
        rows_of(counts, m).len() <= rows_of(counts, n).len(),
        forall|k: int|
            0 <= k < rows_of(counts, m).len() ==> #[trigger] rows_of(counts, m)[k] == rows_of(
                counts,
                n,
            )[k],
    decreases n,
{
    if m < n {
        lemma_rows_prefix(counts, m, n - 1);
    }
}

/// Where the rows of wrapped lines are drawn. `counts` holds the number of rows
/// of each line; nothing is drawn from `bottom` on.
pub fn place_rows(counts: &Vec<usize>, top: u16, bottom: u16) -> (r: Vec<PlacedRow>)
    ensures
        r@ == placed_rows(counts@, top as int, bottom as int),
{
    let mut out: Vec<PlacedRow> = Vec::new();
    let n: usize = counts.len();
    let ghost all = rows_of(counts@, n as int);
    let mut y: u16 = top;
    let mut line: usize = 0;
    let mut row: usize = 0;
    while line < n && y < bottom
        invariant
            n == counts@.len(),
            line <= n,
            line < n ==> row <= counts@[line as int],
            line == n ==> row == 0,
            y <= bottom || out@.len() == 0,
            y == top + out@.len(),
            all == rows_of(counts@, n as int),
            out@.len() <= all.len(),
            out@.len() == rows_of(counts@, line as int).len() + row,
            forall|k: int|
                0 <= k < out@.len() ==> #[trigger] out@[k] == (PlacedRow {
                    line: all[k].0,
                    row: all[k].1,
                    y: (top + k) as u16,
                }),
        decreases n - line, (if line < n {
            counts@[line as int] - row
        } else {
            0
        }),
    {
        if row >= counts[line] {
            line += 1;
            row = 0;
        } else {
            proof {
                lemma_rows_prefix(counts@, line + 1, n as int);
                let upto = rows_of(counts@, line + 1);
                let k = out@.len() as int;
                assert(upto.len() == rows_of(counts@, line as int).len() + counts@[line as int]);
                assert(upto[k] == (line, row));
                assert(all[k] == upto[k]);
            }
            out.push(PlacedRow { line, row, y });
            y += 1;
            row += 1;
        }
    }
    assert(out@ =~= placed_rows(counts@, top as int, bottom as int));
    out
}

/// Every row that there is room for is drawn in a place of its own.
pub proof fn lemma_rows_do_not_cover_each_other(
    counts: Seq<usize>,
    top: u16,
    bottom: u16,
    i: int,
    j: int,
)
    requires
        0 <= i < j < placed_rows(counts, top as int, bottom as int).len(),
    ensures
        placed_rows(counts, top as int, bottom as int)[i].y < placed_rows(
            counts,
            top as int,
            bottom as int,
        )[j].y < bottom,
{
}

/// The text of clusters, one after the other.
pub open spec fn cluster_text(row: Seq<ClusterView>) -> Seq<char>
    decreases row.len(),
{
    if row.len() == 0 {
        Seq::empty()
    } else {
        cluster_text(row.drop_last()) + row.last().content
    }
}

/// Putting clusters together again keeps their text; clusters of the same span
/// share one, and no others do.
pub proof fn lemma_spans_keep_the_text(row: Seq<ClusterView>)
    ensures
        text::line_text(row_spans(row)) == cluster_text(row),
        row.len() > 0 ==> row_spans(row).len() > 0,
        row_spans(row).len() <= row.len(),
        row.len() > 1 ==> row_spans(row).len() == row_spans(row.drop_last()).len() + if row[row.len()
            - 2].span == row.last().span {
            0int
        } else {
            1int
        },
    decreases row.len(),
{
    if row.len() > 0 {
        let rest = row.drop_last();
        lemma_spans_keep_the_text(rest);
        let before = row_spans(rest);
        let all = row_spans(row);
        let c = row.last();
        if row.len() > 1 && row[row.len() - 2].span == c.span {
            assert(all.drop_last() =~= before.drop_last());
            assert(text::line_text(all) =~= text::line_text(before) + c.content);
        } else {
            assert(all.drop_last() =~= before);
        }
    }
}

/// The clusters of a line are those of its spans, each in the style of its span.
pub proof fn lemma_clusters_keep_their_style(line: Seq<SpanView>, n: int, k: int)
    requires
        0 <= n <= line.len(),
        0 <= k < line_clusters(line, n).len(),
    ensures
        ({
            let c = line_clusters(line, n)[k];
            &&& 0 <= c.span < n
            &&& c.style == line[c.span].style
            &&& c.width == unicode::str_width(c.content)
            &&& unicode::grapheme_clusters(line[c.span].content).contains(c.content)
        }),
    decreases n,
{
    let before = line_clusters(line, n - 1);
    if n > 0 {
        if k < before.len() {
            lemma_clusters_keep_their_style(line, n - 1, k);
        } else {
            let parts = unicode::grapheme_clusters(line[n - 1].content);
            let c = line_clusters(line, n)[k];
            assert(c == span_clusters(line[n - 1], n - 1)[k - before.len()]);
            assert(parts[k - before.len()] == c.content);
        }
    }
}

/// A row ends only where the next cluster does not fit on it.
pub proof fn lemma_rows_are_filled(f: Filling, c: ClusterView, max: int)
    requires
        0 <= c.width <= max,
    ensures
        f.used + c.width <= max ==> f.placed(c, max) == f.with(c),
        c.width > 0 && f.used + c.width > max ==> f.placed(c, max).rows == f.rows.push(f.row)
            && f.placed(c, max).row == seq![c] && f.placed(c, max).used == c.width,
{
    assert(c.width > 0 && f.used + c.width > max ==> f.placed(c, max).row =~= seq![c]);
}

/// Without a width a line is not wrapped, and else each row is one of clusters.
pub proof fn lemma_wrapped_rows(line: Seq<SpanView>, max: int, i: int)
    requires
        0 < max,
        0 <= i < wrapped_lines(line, max).len(),
    ensures
        wrapped_lines(line, 0) == seq![line],
        text::line_text(wrapped_lines(line, max)[i]) == cluster_text(
            filled_rows(line_clusters(line, line.len() as int), max)[i],
        ),
{
    lemma_spans_keep_the_text(filled_rows(line_clusters(line, line.len() as int), max)[i]);
}

/// The rows of lines are taken line by line, each from its first row on.
pub proof fn lemma_rows_are_taken_in_order(counts: Seq<usize>, n: int, k: int, j: int)
    requires
        0 <= k < n <= counts.len() <= usize::MAX,
        0 <= j < counts[k],
    ensures
        ({
            let at = rows_of(counts, k).len() + j;
            at < rows_of(counts, n).len() && rows_of(counts, n)[at as int] == (k as usize, j as usize)
        }),
        rows_of(counts, k + 1).len() == rows_of(counts, k).len() + counts[k],
    decreases n,
{
    if k < n - 1 {
        lemma_rows_are_taken_in_order(counts, n - 1, k, j);
    }
}

/// Rows are drawn from the top on, one below the other, as long as there is room.
pub proof fn lemma_rows_are_drawn_from_the_top(counts: Seq<usize>, top: u16, bottom: u16, k: int)
    requires
        0 <= k < placed_rows(counts, top as int, bottom as int).len(),
    ensures
        ({
            let rows = placed_rows(counts, top as int, bottom as int);
            let all = rows_of(counts, counts.len() as int);
            &&& rows[k].y == top + k
            &&& rows[k].line == all[k].0
            &&& rows[k].row == all[k].1
            &&& rows.len() == all.len() || rows.len() == bottom - top
        }),
{
}

} // verus!
