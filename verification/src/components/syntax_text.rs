//! The preview of a file: highlighted text that can be searched, or an image.
use crate::asyncgit::progress::ProgressPercent;
use crate::components::statustree::MoveSelection;
use crate::components::{
    Command, CommandBlocking, CommandInfo, CommandOrder, EventState, Key, KeyPress,
};
use crate::paths::{self, compare_paths};
use crate::text::{self, Line, Modifier, Span, SpanView, Style};
use crate::ui::images::{self, is_image};
use crate::ui::stateful_paragraph::{ParagraphState, ScrollPos};
use crate::ui::syntax_text::SyntaxText;
use crate::unicode;
use vstd::prelude::*;
use vstd::string::*;

verus! {

// ------------------------------------------------------------------- ranges

/// Where the lower case of character `i` starts in the lower case of a text.
pub open spec fn lower_start(content: Seq<char>, i: int) -> int
    decreases i,
{
    if i <= 0 {
        0
    } else {
        lower_start(content, i - 1) + unicode::lower_char(content[i - 1]).len()
    }
}

/// The character, from `c` on, whose lower case holds a position.
pub open spec fn holder(content: Seq<char>, position: int, c: int) -> int
    decreases content.len() - c,
{
    if 0 <= c && c + 1 < content.len() && lower_start(content, c + 1) <= position {
        holder(content, position, c + 1)
    } else {
        c
    }
}

/// The first character, from `e` on, whose lower case starts at a position or
/// behind it.
pub open spec fn stop(content: Seq<char>, position: int, e: int) -> int
    decreases content.len() - e,
{
    if 0 <= e < content.len() && lower_start(content, e) < position {
        stop(content, position, e + 1)
    } else {
        e
    }
}

/// The characters whose lower case a match touches.
pub open spec fn touched(content: Seq<char>, start: int, len: int) -> (int, int) {
    let first = holder(content, start, 0);
    (first, stop(content, start + len, first + 1))
}

/// The characters that the first `k` matches touch, with ranges that meet
/// joined.
pub open spec fn joined_ranges(content: Seq<char>, matches: Seq<int>, len: int, k: int) -> Seq<
    (int, int),
>
    decreases k,
{
    if k <= 0 {
        Seq::empty()
    } else {
        let before = joined_ranges(content, matches, len, k - 1);
        let range = touched(content, matches[k - 1], len);
        if before.len() > 0 && range.0 <= before.last().1 {
            before.update(before.len() - 1, (before.last().0, range.1))
        } else {
            before.push(range)
        }
    }
}

/// The ranges of characters that match a text in lower case, whatever their own
/// case. A character whose lower case is longer than it counts as a whole.
pub open spec fn case_ranges(content: Seq<char>, needle: Seq<char>) -> Seq<(int, int)> {
    let matches = text::matches_from(unicode::lower_text(content), needle, 0);
    if unicode::is_ascii(content) {
        Seq::new(matches.len(), |i: int| (matches[i], matches[i] + needle.len()))
    } else {
        joined_ranges(content, matches, needle.len() as int, matches.len() as int)
    }
}

/// Whether ranges lie in a text, one after the other, and none is empty.
pub open spec fn ranges_fit(ranges: Seq<(int, int)>, len: int) -> bool {
    &&& forall|i: int| 0 <= i < ranges.len() ==> 0 <= (#[trigger] ranges[i]).0 < ranges[i].1 <= len
    &&& forall|i: int, j: int|
        0 <= i < j < ranges.len() ==> (#[trigger] ranges[i]).1 <= (#[trigger] ranges[j]).0
}

pub open spec fn pairs(s: Seq<(usize, usize)>) -> Seq<(int, int)> {
    Seq::new(s.len(), |i: int| (s[i].0 as int, s[i].1 as int))
}

proof fn lemma_holder_resumes(content: Seq<char>, near: int, far: int, c: int)
    requires
        0 <= c < content.len(),
        near <= far,
    ensures
        holder(content, far, holder(content, near, c)) == holder(content, far, c),
        c <= holder(content, near, c) < content.len(),
    decreases content.len() - c,
{
    if c + 1 < content.len() && lower_start(content, c + 1) <= near {
        lemma_holder_resumes(content, near, far, c + 1);
    }
}

fn lower_starts(content: &Vec<char>) -> (r: Vec<u128>)
    ensures
        r@.len() == content@.len() + 1,
        forall|i: int| 0 <= i < r@.len() ==> #[trigger] r@[i] == lower_start(content@, i),
{
    let mut starts: Vec<u128> = Vec::new();
    let mut total: u128 = 0;
    starts.push(0);
    for i in 0..content.len()
        invariant
            total == lower_start(content@, i as int),
            total <= i * 0xffff_ffff_ffff_ffff,
            starts@.len() == i + 1,
            forall|j: int|
                0 <= j < starts@.len() ==> #[trigger] starts@[j] == lower_start(content@, j),
    {
        let lower = unicode::char_to_lower(content[i]);
        total += lower.len() as u128;
        starts.push(total);
    }
    starts
}

/// The ranges of characters of a text that match another, which is in lower
/// case, whatever their own case.
pub fn case_insensitive_ranges(content: &Vec<char>, needle: &Vec<char>) -> (r: Vec<
    (usize, usize),
>)
    ensures
        pairs(r@) == case_ranges(content@, needle@),
        ranges_fit(pairs(r@), content@.len() as int),
{
    let mut ranges: Vec<(usize, usize)> = Vec::new();
    let lower = text::chars_of(
        unicode::to_lower(text::string_of(content).as_str()).as_str(),
    );
    let matches = text::match_indices(&lower, needle);
    let len: usize = needle.len();
    let n: usize = content.len();
    let lower_len: usize = lower.len();
    let ghost found = text::matches_from(lower@, needle@, 0);
    proof {
        text::lemma_matches_fit(lower@, needle@, 0);
        assert(text::ints(matches@) == found);
    }
    if unicode::all_ascii(content) {
        assert(lower@.len() == content@.len());
        for i in 0..matches.len()
            invariant
                text::ints(matches@) == found,
                text::matches_fit(found, 0, len as int, content@.len() as int),
                n == content@.len(),
                pairs(ranges@) =~= Seq::new(i as nat, |k: int| (found[k], found[k] + len)),
        {
            let ghost before = pairs(ranges@);
            assert(found[i as int] == matches@[i as int]);
            ranges.push((matches[i], matches[i] + len));
            assert(pairs(ranges@) =~= before.push((found[i as int], found[i as int] + len)));
        }
        proof {
            if found.len() > 0 && len == 0 {
                assert(found =~= Seq::<int>::empty());
            }
            let p = pairs(ranges@);
            assert(p =~= case_ranges(content@, needle@));
            assert forall|i: int| 0 <= i < p.len() implies 0 <= (#[trigger] p[i]).0 < p[i].1
                <= content@.len() by {
                assert(p[i] == (found[i], found[i] + len));
            }
            assert forall|i: int, j: int| 0 <= i < j < p.len() implies (#[trigger] p[i]).1 <= (
            #[trigger] p[j]).0 by {
                assert(p[i] == (found[i], found[i] + len));
                assert(p[j] == (found[j], found[j] + len));
            }
        }
        return ranges;
    }
    let starts = lower_starts(content);
    proof {
        if n == 0 {
            assert(unicode::is_ascii(content@));
        }
    }
    let mut cursor: usize = 0;
    for i in 0..matches.len()
        invariant
            n == content@.len(),
            n > 0,
            len == needle@.len(),
            starts@.len() == n + 1,
            forall|j: int|
                0 <= j < starts@.len() ==> #[trigger] starts@[j] == lower_start(content@, j),
            text::ints(matches@) == found,
            text::matches_fit(found, 0, len as int, lower_len as int),
            cursor < n,
            cursor == if i == 0 {
                0
            } else {
                holder(content@, found[i - 1], 0)
            },
            pairs(ranges@) == joined_ranges(content@, found, len as int, i as int),
            ranges_fit(pairs(ranges@), n as int),
    {
        let start: usize = matches[i];
        assert(found[i as int] == start);
        proof {
            if i > 0 {
                assert(found[i - 1] + len <= found[i as int]);
                lemma_holder_resumes(content@, found[i - 1], start as int, 0);
            }
            lemma_holder_resumes(content@, start as int, start as int, 0);
        }
        while cursor + 1 < n && starts[cursor + 1] <= start as u128
            invariant
                n == content@.len(),
                starts@.len() == n + 1,
                forall|j: int|
                    0 <= j < starts@.len() ==> #[trigger] starts@[j] == lower_start(content@, j),
                cursor < n,
                holder(content@, start as int, cursor as int) == holder(
                    content@,
                    start as int,
                    0,
                ),
            decreases n - cursor,
        {
            cursor += 1;
        }
        let end: usize = start + len;
        let mut end_cursor: usize = cursor + 1;
        while end_cursor < n && starts[end_cursor] < end as u128
            invariant
                n == content@.len(),
                starts@.len() == n + 1,
                forall|j: int|
                    0 <= j < starts@.len() ==> #[trigger] starts@[j] == lower_start(content@, j),
                cursor < end_cursor <= n,
                stop(content@, end as int, end_cursor as int) == stop(
                    content@,
                    end as int,
                    cursor + 1,
                ),
            decreases n - end_cursor,
        {
            end_cursor += 1;
        }
        let ghost before = pairs(ranges@);
        assert(touched(content@, start as int, len as int) == (cursor as int, end_cursor as int));
        let count: usize = ranges.len();
        if count > 0 && cursor <= ranges[count - 1].1 {
            let first: usize = ranges[count - 1].0;
            proof {
                assert(before.last() == (first as int, ranges@[count - 1].1 as int));
                lemma_range_starts(content@, found, len as int, i as int);
            }
            ranges.set(count - 1, (first, end_cursor));
            assert(pairs(ranges@) =~= before.update(
                count - 1,
                (first as int, end_cursor as int),
            ));
        } else {
            ranges.push((cursor, end_cursor));
            assert(pairs(ranges@) =~= before.push((cursor as int, end_cursor as int)));
            proof {
                let p = pairs(ranges@);
                assert forall|a: int, b: int| 0 <= a < b < p.len() implies (#[trigger] p[a]).1 <= (
                #[trigger] p[b]).0 by {
                    if b == count {
                        if a < count - 1 {
                            assert(before[a].1 <= before[count - 1].0);
                        }
                        assert(before[a] == p[a]);
                        assert(before[count - 1] == p[count - 1]);
                    } else {
                        assert(before[a] == p[a]);
                        assert(before[b] == p[b]);
                    }
                }
            }
        }
    }
    ranges
}

/// The last range starts at a character that an earlier match touches first.
proof fn lemma_range_starts(content: Seq<char>, matches: Seq<int>, len: int, k: int)
    requires
        0 < k < matches.len(),
        content.len() > 0,
        forall|a: int, b: int| 0 <= a < b < matches.len() ==> matches[a] <= matches[b],
    ensures
        joined_ranges(content, matches, len, k).len() > 0,
        joined_ranges(content, matches, len, k).last().0 <= holder(content, matches[k], 0),
    decreases k,
{
    let before = joined_ranges(content, matches, len, k - 1);
    lemma_holder_resumes(content, matches[k - 1], matches[k], 0);
    lemma_holder_resumes(
        content,
        matches[k],
        matches[k],
        holder(content, matches[k - 1], 0),
    );
    if k > 1 {
        lemma_range_starts(content, matches, len, k - 1);
    }
}

// ------------------------------------------------------------------- highlighting

/// A span, and whether it is a match.
pub struct Marked {
    pub span: SpanView,
    pub hit: bool,
}

/// The style of a match in text of a given style.
pub open spec fn hit_style(style: Style) -> Style {
    style.with_modifier(Modifier { reversed: true, ..Modifier::none() })
}

/// The style of a match that the search is at.
pub open spec fn active_style(style: Style) -> Style {
    style.with_modifier(Modifier { bold: true, ..Modifier::none() })
}

/// A text from position `last` on, cut at its ranges from number `i` on.
pub open spec fn marked_from(
    content: Seq<char>,
    ranges: Seq<(int, int)>,
    i: int,
    last: int,
    style: Style,
) -> Seq<Marked>
    decreases ranges.len() - i,
{
    if i < 0 || i >= ranges.len() {
        if last < content.len() || content.len() == 0 {
            seq![
                Marked {
                    span: SpanView { content: content.subrange(last, content.len() as int), style },
                    hit: false,
                },
            ]
        } else {
            Seq::empty()
        }
    } else {
        (if ranges[i].0 > last {
            seq![
                Marked {
                    span: SpanView { content: content.subrange(last, ranges[i].0), style },
                    hit: false,
                },
            ]
        } else {
            Seq::empty()
        }) + seq![
            Marked {
                span: SpanView {
                    content: content.subrange(ranges[i].0, ranges[i].1),
                    style: hit_style(style),
                },
                hit: true,
            },
        ] + marked_from(content, ranges, i + 1, ranges[i].1, style)
    }
}

/// A span cut at what matches a text in lower case.
pub open spec fn marked_span(span: SpanView, needle: Seq<char>) -> Seq<Marked> {
    marked_from(span.content, case_ranges(span.content, needle), 0, 0, span.style)
}

/// The first `n` spans of a line, cut at what matches.
pub open spec fn marked_line(line: Seq<SpanView>, needle: Seq<char>, n: int) -> Seq<Marked>
    decreases n,
{
    if n <= 0 {
        Seq::empty()
    } else {
        marked_line(line, needle, n - 1) + marked_span(line[n - 1], needle)
    }
}

pub open spec fn marked_spans(marked: Seq<Marked>) -> Seq<SpanView> {
    Seq::new(marked.len(), |i: int| marked[i].span)
}

/// The places and styles of the matches among the first `n` spans.
pub open spec fn hits(marked: Seq<Marked>, n: int) -> Seq<(usize, Style)>
    decreases n,
{
    if n <= 0 {
        Seq::empty()
    } else if marked[n - 1].hit {
        hits(marked, n - 1).push(((n - 1) as usize, marked[n - 1].span.style))
    } else {
        hits(marked, n - 1)
    }
}

proof fn lemma_hits_of_prefix(a: Seq<Marked>, b: Seq<Marked>, n: int)
    requires
        0 <= n <= a.len(),
        n <= b.len(),
        forall|i: int| 0 <= i < n ==> a[i] == b[i],
    ensures
        hits(a, n) == hits(b, n),
    decreases n,
{
    if n > 0 {
        lemma_hits_of_prefix(a, b, n - 1);
    }
}

proof fn lemma_hits_push(marked: Seq<Marked>, m: Marked)
    ensures
        hits(marked.push(m), marked.len() as int + 1) == if m.hit {
            hits(marked, marked.len() as int).push((marked.len() as usize, m.span.style))
        } else {
            hits(marked, marked.len() as int)
        },
{
    lemma_hits_of_prefix(marked.push(m), marked, marked.len() as int);
}

fn push_span(out: &mut Vec<Span>, content: String, style: Style)
    ensures
        final(out)@.len() == old(out)@.len() + 1,
        text::views(final(out)@) == text::views(old(out)@).push(
            SpanView { content: content@, style },
        ),
{
    let span = Span::styled(content, style);
    proof {
        text::lemma_views_push(out@, span);
    }
    out.push(span);
}

/// Whether spans and matches are those of some marked spans.
spec fn holds_marked(
    out: Seq<Span>,
    matched: Seq<(usize, Style)>,
    marked: Seq<Marked>,
) -> bool {
    text::views(out) == marked_spans(marked) && matched == hits(marked, marked.len() as int)
}

/// Add a span, cut at what matches a text in lower case. The places and styles
/// of the matches are kept.
fn split_and_highlight(
    span: &Span,
    needle: &Vec<char>,
    out: &mut Vec<Span>,
    matched: &mut Vec<(usize, Style)>,
    Ghost(before): Ghost<Seq<Marked>>,
)
    requires
        holds_marked(old(out)@, old(matched)@, before),
    ensures
        holds_marked(final(out)@, final(matched)@, before + marked_span(span@, needle@)),
        text::line_text(marked_spans(marked_span(span@, needle@))) == span@.content,
{
    let content = text::chars_of(span.content.as_str());
    let n: usize = content.len();
    let base = span.style;
    let reversed = Modifier { reversed: true, ..Modifier::empty() };
    let hit = base.add_modifier(reversed);
    let ranges = case_insensitive_ranges(&content, needle);
    let ghost all = pairs(ranges@);
    let ghost wanted = before + marked_span(span@, needle@);
    let ghost mut done = before;
    let mut last: usize = 0;
    proof {
        lemma_marking_keeps_the_text(content@, all, 0, 0, base);
        assert(content@.subrange(0, n as int) =~= content@);
        assert(done + marked_from(content@, all, 0, 0, base) =~= wanted);
    }
    for i in 0..ranges.len()
        invariant
            n == content@.len(),
            all == pairs(ranges@),
            ranges_fit(all, n as int),
            hit == hit_style(base),
            last <= n,
            i < all.len() ==> last <= all[i as int].0,
            i > 0 ==> last == all[i - 1].1,
            holds_marked(out@, matched@, done),
            done + marked_from(content@, all, i as int, last as int, base) == wanted,
    {
        let (start, end) = ranges[i];
        assert(all[i as int] == (start as int, end as int));
        let ghost rest = marked_from(content@, all, i + 1, end as int, base);
        let ghost was = done;
        if start > last {
            let m = text::string_of_range(&content, last, start);
            let ghost part = Marked { span: SpanView { content: m@, style: base }, hit: false };
            push_span(out, m, base);
            proof {
                lemma_hits_push(done, part);
                assert(marked_spans(done.push(part)) =~= marked_spans(done).push(part.span));
                done = done.push(part);
            }
        }
        let m = text::string_of_range(&content, start, end);
        let ghost part = Marked { span: SpanView { content: m@, style: hit }, hit: true };
        assert(text::views(out@).len() == marked_spans(done).len());
        matched.push((out.len(), hit));
        push_span(out, m, hit);
        proof {
            lemma_hits_push(done, part);
            assert(marked_spans(done.push(part)) =~= marked_spans(done).push(part.span));
            done = done.push(part);
            assert(done + rest =~= was + marked_from(
                content@,
                all,
                i as int,
                last as int,
                base,
            ));
            if i + 1 < all.len() {
                assert(all[i as int].1 <= all[i + 1].0);
            }
        }
        last = end;
    }
    if last < n || n == 0 {
        let m = text::string_of_range(&content, last, n);
        let ghost part = Marked { span: SpanView { content: m@, style: base }, hit: false };
        push_span(out, m, base);
        proof {
            lemma_hits_push(done, part);
            assert(marked_spans(done.push(part)) =~= marked_spans(done).push(part.span));
            assert(done.push(part) =~= done + seq![part]);
            done = done.push(part);
        }
    } else {
        assert(done + Seq::<Marked>::empty() =~= done);
    }
}

/// Mark what matches in some lines. Returns the places and styles of the
/// matches, line by line; nothing is marked without a text to look for.
pub fn highlight_search(lines: &mut Vec<Line>, query: &str) -> (r: Vec<Vec<(usize, Style)>>)
    ensures
        text::views(final(lines)@) == searched(text::views(old(lines)@), query@),
        rows(r@) == searched_hits(text::views(old(lines)@), query@),
        hits_fit(text::views(final(lines)@), rows(r@)),
        countable(text::views(final(lines)@)),
        forall|i: int|
            0 <= i < final(lines)@.len() ==> text::line_text((#[trigger] final(lines)@[i])@)
                == text::line_text(old(lines)@[i]@),
{
    let needle = text::chars_of(unicode::to_lower(query).as_str());
    let mut styles: Vec<Vec<(usize, Style)>> = Vec::new();
    let ghost before = text::views(lines@);
    if needle.len() == 0 {
        proof {
            lemma_line_lengths(lines@);
        }
        assert(rows(styles@) =~= searched_hits(before, query@));
        return styles;
    }
    let n: usize = lines.len();
    for i in 0..n
        invariant
            n == lines@.len() == before.len(),
            needle@ == unicode::lower_text(query@),
            needle@.len() > 0,
            styles@.len() == i,
            forall|j: int|
                0 <= j < i ==> (#[trigger] lines@[j])@ == searched(before, query@)[j],
            forall|j: int| i <= j < n ==> (#[trigger] lines@[j])@ == before[j],
            forall|j: int|
                0 <= j < i ==> (#[trigger] styles@[j])@ == searched_hits(before, query@)[j],
            forall|j: int|
                0 <= j < i ==> text::line_text((#[trigger] lines@[j])@) == text::line_text(
                    before[j],
                ),
    {
        let mut matched: Vec<(usize, Style)> = Vec::new();
        let mut spans: Vec<Span> = Vec::new();
        let count: usize = lines[i].spans.len();
        let ghost line = lines@[i as int]@;
        assert(line == before[i as int]);
        assert(text::views(spans@) =~= marked_spans(marked_line(line, needle@, 0)));
        for k in 0..count
            invariant
                i < n == lines@.len(),
                line == lines@[i as int]@,
                count == lines@[i as int].spans@.len(),
                holds_marked(spans@, matched@, marked_line(line, needle@, k as int)),
                text::line_text(marked_spans(marked_line(line, needle@, k as int)))
                    == text::line_text(line.take(k as int)),
        {
            assert(line[k as int] == lines@[i as int].spans@[k as int]@);
            proof {
                let done = marked_line(line, needle@, k as int);
                let next = marked_span(line[k as int], needle@);
                assert(marked_spans(done + next) =~= marked_spans(done) + marked_spans(next));
                text::lemma_line_text_add(marked_spans(done), marked_spans(next));
                assert(line.take(k + 1).drop_last() =~= line.take(k as int));
            }
            split_and_highlight(
                &lines[i].spans[k],
                &needle,
                &mut spans,
                &mut matched,
                Ghost(marked_line(line, needle@, k as int)),
            );
        }
        assert(line.take(count as int) =~= line);
        lines.set(i, Line { spans });
        styles.push(matched);
    }
    assert(text::views(lines@) =~= searched(before, query@));
    assert(rows(styles@) =~= searched_hits(before, query@));
    proof {
        lemma_line_lengths(lines@);
        lemma_hits_fit(before, query@);
    }
    styles
}

/// Lines with what matches a text, whatever its case, marked.
pub open spec fn searched(lines: Seq<Seq<SpanView>>, query: Seq<char>) -> Seq<Seq<SpanView>> {
    let needle = unicode::lower_text(query);
    if needle.len() == 0 {
        lines
    } else {
        Seq::new(
            lines.len(),
            |i: int| marked_spans(marked_line(lines[i], needle, lines[i].len() as int)),
        )
    }
}

/// The places and styles of the matches in some lines.
pub open spec fn searched_hits(lines: Seq<Seq<SpanView>>, query: Seq<char>) -> Seq<
    Seq<(usize, Style)>,
> {
    let needle = unicode::lower_text(query);
    if needle.len() == 0 {
        Seq::empty()
    } else {
        Seq::new(
            lines.len(),
            |i: int|
                {
                    let marked = marked_line(lines[i], needle, lines[i].len() as int);
                    hits(marked, marked.len() as int)
                },
        )
    }
}

pub open spec fn rows(styles: Seq<Vec<(usize, Style)>>) -> Seq<Seq<(usize, Style)>> {
    Seq::new(styles.len(), |i: int| styles[i]@)
}

/// A line with its first `n` matches shown as those that the search is at, or
/// not.
pub open spec fn activated(
    line: Seq<SpanView>,
    styles: Seq<(usize, Style)>,
    active: bool,
    n: int,
) -> Seq<SpanView>
    decreases n,
{
    if n <= 0 {
        line
    } else {
        let before = activated(line, styles, active, n - 1);
        let i = styles[n - 1].0 as int;
        before.update(
            i,
            SpanView {
                style: if active {
                    active_style(styles[n - 1].1)
                } else {
                    styles[n - 1].1
                },
                ..before[i]
            },
        )
    }
}

/// Lines with the matches of one of them shown as those that the search is at,
/// or not.
pub open spec fn activated_line(
    lines: Seq<Seq<SpanView>>,
    styles: Seq<Seq<(usize, Style)>>,
    line: Option<usize>,
    active: bool,
) -> Seq<Seq<SpanView>> {
    match line {
        Some(i) => if i < lines.len() && i < styles.len() {
            lines.update(
                i as int,
                activated(
                    lines[i as int],
                    styles[i as int],
                    active,
                    styles[i as int].len() as int,
                ),
            )
        } else {
            lines
        },
        None => lines,
    }
}

/// Whether the spans of lines can be counted.
pub open spec fn countable(lines: Seq<Seq<SpanView>>) -> bool {
    forall|i: int| 0 <= i < lines.len() ==> (#[trigger] lines[i]).len() <= usize::MAX
}

/// Whether the places of matches lie in their lines.
pub open spec fn hits_fit(
    lines: Seq<Seq<SpanView>>,
    styles: Seq<Seq<(usize, Style)>>,
) -> bool {
    forall|i: int, k: int|
        0 <= i < lines.len() && i < styles.len() && 0 <= k < styles[i].len() ==> (
        #[trigger] styles[i][k]).0 < lines[i].len()
}

/// Show the matches of a line as those that the search is at, or not.
pub fn set_active_match_line(
    lines: &mut Vec<Line>,
    styles: &Vec<Vec<(usize, Style)>>,
    line: Option<usize>,
    active: bool,
)
    requires
        hits_fit(text::views(old(lines)@), rows(styles@)),
    ensures
        text::views(final(lines)@) == activated_line(
            text::views(old(lines)@),
            rows(styles@),
            line,
            active,
        ),
{
    let i: usize = match line {
        Some(i) => i,
        None => {
            return ;
        },
    };
    if i >= lines.len() || i >= styles.len() {
        return ;
    }
    let ghost before = text::views(lines@);
    let row = &styles[i];
    assert(rows(styles@)[i as int] == row@);
    let mut spans = text::clone_spans(&lines[i].spans);
    let bold = Modifier { bold: true, ..Modifier::empty() };
    assert(text::views(spans@) == before[i as int]);
    for k in 0..row.len()
        invariant
            bold == (Modifier { bold: true, ..Modifier::none() }),
            spans@.len() == before[i as int].len(),
            text::views(spans@) == activated(before[i as int], row@, active, k as int),
            forall|k: int|
                0 <= k < row@.len() ==> (#[trigger] row@[k]).0 < before[i as int].len(),
    {
        let (index, style) = row[k];
        assert(row@[k as int].0 < before[i as int].len());
        let shown = if active {
            style.add_modifier(bold)
        } else {
            style
        };
        let ghost was = text::views(spans@);
        let content = spans[index].content.clone();
        spans.set(index, Span { content, style: shown });
        assert(text::views(spans@) =~= was.update(
            index as int,
            SpanView { style: shown, ..was[index as int] },
        ));
    }
    lines.set(i, Line { spans });
    assert(text::views(lines@) =~= activated_line(before, rows(styles@), line, active));
}

// ------------------------------------------------------------------- laws of highlighting

proof fn lemma_line_text_push(line: Seq<SpanView>, span: SpanView)
    ensures
        text::line_text(line.push(span)) == text::line_text(line) + span.content,
{
    assert(line.push(span).drop_last() =~= line);
}

/// Marking what matches keeps the text.
pub proof fn lemma_marking_keeps_the_text(
    content: Seq<char>,
    ranges: Seq<(int, int)>,
    i: int,
    last: int,
    style: Style,
)
    requires
        ranges_fit(ranges, content.len() as int),
        0 <= i <= ranges.len(),
        0 <= last <= content.len(),
        i < ranges.len() ==> last <= ranges[i].0,
    ensures
        text::line_text(marked_spans(marked_from(content, ranges, i, last, style)))
            == content.subrange(last, content.len() as int),
    decreases ranges.len() - i,
{
    let all = marked_from(content, ranges, i, last, style);
    if i >= ranges.len() {
        if last < content.len() || content.len() == 0 {
            let span = SpanView { content: content.subrange(last, content.len() as int), style };
            assert(marked_spans(all) =~= Seq::<SpanView>::empty().push(span));
            lemma_line_text_push(Seq::empty(), span);
            assert(text::line_text(Seq::<SpanView>::empty()) + span.content =~= span.content);
        } else {
            assert(marked_spans(all) =~= Seq::empty());
            assert(content.subrange(last, content.len() as int) =~= Seq::empty());
        }
    } else {
        let (start, end) = ranges[i];
        if i + 1 < ranges.len() {
            assert(ranges[i].1 <= ranges[i + 1].0);
        }
        lemma_marking_keeps_the_text(content, ranges, i + 1, end, style);
        let rest = marked_from(content, ranges, i + 1, end, style);
        let hit = SpanView {
            content: content.subrange(start, end),
            style: hit_style(style),
        };
        let plain = SpanView { content: content.subrange(last, start), style };
        let head = if start > last {
            seq![plain]
        } else {
            Seq::empty()
        };
        assert(marked_spans(all) =~= head.push(hit) + marked_spans(rest));
        text::lemma_line_text_add(head.push(hit), marked_spans(rest));
        lemma_line_text_push(head, hit);
        if start > last {
            assert(head =~= Seq::<SpanView>::empty().push(plain));
            lemma_line_text_push(Seq::empty(), plain);
        }
        assert(text::line_text(head) =~= content.subrange(last, start));
        assert(content.subrange(last, start) + content.subrange(start, end) + content.subrange(
            end,
            content.len() as int,
        ) =~= content.subrange(last, content.len() as int));
    }
}

proof fn lemma_activated_prefix(
    line: Seq<SpanView>,
    a: Seq<(usize, Style)>,
    b: Seq<(usize, Style)>,
    active: bool,
    n: int,
)
    requires
        0 <= n <= a.len(),
        n <= b.len(),
        forall|i: int| 0 <= i < n ==> a[i] == b[i],
    ensures
        activated(line, a, active, n) == activated(line, b, active, n),
    decreases n,
{
    if n > 0 {
        lemma_activated_prefix(line, a, b, active, n - 1);
    }
}

/// What activating the matches of marked spans does to a line of as many spans.
proof fn lemma_activated(line: Seq<SpanView>, marked: Seq<Marked>, active: bool, n: int)
    requires
        line.len() == marked.len(),
        marked.len() <= usize::MAX,
        0 <= n <= marked.len(),
    ensures
        ({
            let h = hits(marked, n);
            let after = activated(line, h, active, h.len() as int);
            &&& after.len() == line.len()
            &&& forall|k: int| 0 <= k < h.len() ==> (#[trigger] h[k]).0 < n
            &&& forall|i: int|
                0 <= i < line.len() ==> #[trigger] after[i] == if i < n && marked[i].hit {
                    SpanView {
                        style: if active {
                            active_style(marked[i].span.style)
                        } else {
                            marked[i].span.style
                        },
                        ..line[i]
                    }
                } else {
                    line[i]
                }
        }),
    decreases n,
{
    if n > 0 {
        lemma_activated(line, marked, active, n - 1);
        let before = hits(marked, n - 1);
        let h = hits(marked, n);
        if marked[n - 1].hit {
            lemma_activated_prefix(line, h, before, active, before.len() as int);
            assert(h.last() == ((n - 1) as usize, marked[n - 1].span.style));
        }
    }
}

/// Showing matches as those that the search is at can be undone: what was bold
/// before stays bold, and nothing else does.
pub proof fn lemma_activation_can_be_undone(marked: Seq<Marked>)
    requires
        marked.len() <= usize::MAX,
    ensures
        ({
            let h = hits(marked, marked.len() as int);
            let n = h.len() as int;
            activated(activated(marked_spans(marked), h, true, n), h, false, n) == marked_spans(
                marked,
            )
        }),
{
    let n = marked.len() as int;
    let spans = marked_spans(marked);
    let h = hits(marked, n);
    lemma_activated(spans, marked, true, n);
    let on = activated(spans, h, true, h.len() as int);
    lemma_activated(on, marked, false, n);
    assert(activated(on, h, false, h.len() as int) =~= spans);
}

proof fn lemma_hits_fit(lines: Seq<Seq<SpanView>>, query: Seq<char>)
    requires
        countable(searched(lines, query)),
    ensures
        hits_fit(searched(lines, query), searched_hits(lines, query)),
{
    let needle = unicode::lower_text(query);
    if needle.len() > 0 {
        let shown = searched(lines, query);
        let styles = searched_hits(lines, query);
        assert forall|i: int, k: int|
            0 <= i < shown.len() && i < styles.len() && 0 <= k < styles[i].len() implies (
        #[trigger] styles[i][k]).0 < shown[i].len() by {
            let marked = marked_line(lines[i], needle, lines[i].len() as int);
            assert(shown[i] == marked_spans(marked));
            lemma_activated(marked_spans(marked), marked, true, marked.len() as int);
        }
    }
}

// ------------------------------------------------------------------- component

/// What is previewed.
#[derive(Debug)]
pub enum PreviewContent {
    Highlighted(SyntaxText),
    Plain(String),
    Image,
}

/// What a [`PreviewContent`] holds.
pub enum ContentView {
    Highlighted(SyntaxText),
    Plain(Seq<char>),
    Image,
}

impl View for PreviewContent {
    type V = ContentView;

    open spec fn view(&self) -> ContentView {
        match self {
            PreviewContent::Highlighted(syntax) => ContentView::Highlighted(*syntax),
            PreviewContent::Plain(s) => ContentView::Plain(s@),
            PreviewContent::Image => ContentView::Image,
        }
    }
}

/// The preview of a file.
pub struct SyntaxTextComponent {
    pub current_file: Option<(String, PreviewContent)>,
    /// tells which revision of the file is being highlighted
    pub highlight_generation: u64,
    pub syntax_progress: Option<ProgressPercent>,
    pub paragraph_state: ParagraphState,
    pub focused: bool,
    pub search_query: String,
    /// the lines that hold a match
    pub search_matches: Vec<usize>,
    /// the match that the view is at
    pub search_cursor: usize,
    /// the width of the preview without its borders
    pub render_width: u16,
    /// changes whenever what is shown changes
    pub render_generation: u64,
    pub content_hash: Option<u64>,
    /// the lines of the file, once they were asked for
    pub source_lines_cache: Option<Vec<String>>,
    /// the rows that lines start at in a width, once they were asked for
    pub visual_offsets_cache: Option<(u16, Vec<usize>)>,
    /// what is shown, and the places and styles of its matches
    pub render_cache: Option<(Vec<Line>, Vec<Vec<(usize, Style)>>)>,
}

/// What a [`SyntaxTextComponent`] holds besides its caches.
pub struct PreviewView {
    pub file: Option<(Seq<char>, ContentView)>,
    pub highlight_generation: u64,
    pub progress: Option<ProgressPercent>,
    pub paragraph: ParagraphState,
    pub focused: bool,
    pub query: Seq<char>,
    pub matches: Seq<usize>,
    pub cursor: usize,
    pub width: u16,
    pub render_generation: u64,
    pub hash: Option<u64>,
}

impl View for SyntaxTextComponent {
    type V = PreviewView;

    open spec fn view(&self) -> PreviewView {
        PreviewView {
            file: match self.current_file {
                Some((path, content)) => Some((path@, content@)),
                None => None,
            },
            highlight_generation: self.highlight_generation,
            progress: self.syntax_progress,
            paragraph: self.paragraph_state,
            focused: self.focused,
            query: self.search_query@,
            matches: self.search_matches@,
            cursor: self.search_cursor,
            width: self.render_width,
            render_generation: self.render_generation,
            hash: self.content_hash,
        }
    }
}

/// What has to be done outside.
#[derive(Debug)]
pub enum PreviewAction {
    /// give up the highlighting that is under way
    CancelHighlighting,
    ClearImage,
    /// preview the image with this hash
    SetImage(u64),
    /// highlight a text of a file; the result belongs to a generation
    Highlight(String, String, u64),
}

/// What a [`PreviewAction`] holds.
pub enum PreviewActionView {
    CancelHighlighting,
    ClearImage,
    SetImage(u64),
    Highlight(Seq<char>, Seq<char>, u64),
}

impl View for PreviewAction {
    type V = PreviewActionView;

    open spec fn view(&self) -> PreviewActionView {
        match self {
            PreviewAction::CancelHighlighting => PreviewActionView::CancelHighlighting,
            PreviewAction::ClearImage => PreviewActionView::ClearImage,
            PreviewAction::SetImage(hash) => PreviewActionView::SetImage(*hash),
            PreviewAction::Highlight(content, path, generation) => PreviewActionView::Highlight(
                content@,
                path@,
                *generation,
            ),
        }
    }
}

/// A text as lines of plain spans; a text without characters is one empty line.
pub open spec fn plain_lines(s: Seq<char>) -> Seq<Seq<SpanView>> {
    if s.len() == 0 {
        seq![Seq::empty()]
    } else {
        let lines = text::lines_of(s);
        Seq::new(
            lines.len(),
            |i: int|
                if lines[i].len() == 0 {
                    Seq::empty()
                } else {
                    seq![SpanView { content: lines[i], style: Style::plain() }]
                },
        )
    }
}

fn to_plain_lines(s: &str) -> (r: Vec<Line>)
    ensures
        text::views(r@) == plain_lines(s@),
{
    let mut out: Vec<Line> = Vec::new();
    if s.unicode_len() == 0 {
        let line = Line { spans: Vec::new() };
        assert(line@ =~= Seq::empty());
        out.push(line);
        assert(text::views(out@) =~= plain_lines(s@));
        return out;
    }
    let lines = text::lines(s);
    let ghost all = text::lines_of(s@);
    for i in 0..lines.len()
        invariant
            s@.len() > 0,
            all == text::lines_of(s@),
            text::views(lines@) == all,
            out@.len() == i,
            forall|j: int| 0 <= j < i ==> (#[trigger] out@[j])@ == plain_lines(s@)[j],
    {
        let mut spans: Vec<Span> = Vec::new();
        assert(all[i as int] == lines@[i as int]@);
        if lines[i].as_str().unicode_len() > 0 {
            let span = Span::styled(lines[i].clone(), Style::new());
            spans.push(span);
        }
        let line = Line { spans };
        assert(line@ =~= plain_lines(s@)[i as int]);
        out.push(line);
    }
    assert(text::views(out@) =~= plain_lines(s@));
    out
}

/// How many rows a line takes up in a width.
pub open spec fn row_count(line: Seq<char>, width: int) -> int {
    let columns = unicode::str_width(line) as int;
    let rows = columns / width + if columns % width == 0 {
        0int
    } else {
        1int
    };
    if rows < 1 {
        1
    } else {
        rows
    }
}

/// The row that line `i` starts at in a width.
pub open spec fn row_offset(lines: Seq<Seq<char>>, width: int, i: int) -> int
    decreases i,
{
    if i <= 0 {
        0
    } else {
        let sum = row_offset(lines, width, i - 1) + row_count(lines[i - 1], width);
        if sum > usize::MAX {
            usize::MAX as int
        } else {
            sum
        }
    }
}

pub open spec fn row_offsets(lines: Seq<Seq<char>>, width: int) -> Seq<usize> {
    Seq::new(lines.len(), |i: int| row_offset(lines, width, i) as usize)
}

/// The first of the matches, from `i` on, at a line or behind it.
pub open spec fn match_from(matches: Seq<usize>, line: usize, i: int) -> usize
    decreases matches.len() - i,
{
    if i < 0 || i >= matches.len() {
        0
    } else if matches[i] >= line {
        i as usize
    } else {
        match_from(matches, line, i + 1)
    }
}

pub open spec fn wrapped_next(n: u64) -> u64 {
    if n == u64::MAX {
        0
    } else {
        (n + 1) as u64
    }
}

impl PreviewView {
    /// What holds of every preview: the highlighted parts lie in their lines,
    /// and the view is at one of the matches, if there are any.
    pub open spec fn wf(self) -> bool {
        &&& self.file matches Some((_, ContentView::Highlighted(syntax))) ==> syntax.wf()
        &&& if self.matches.len() == 0 {
            self.cursor == 0
        } else {
            self.cursor < self.matches.len()
        }
    }

    pub open spec fn is_image(self) -> bool {
        self.file matches Some((_, content)) && content is Image
    }

    /// The lines of the file.
    pub open spec fn source(self) -> Seq<Seq<char>> {
        match self.file {
            Some((_, content)) => match content {
                ContentView::Highlighted(syntax) => syntax.source(),
                ContentView::Plain(s) => text::lines_of(s),
                ContentView::Image => Seq::empty(),
            },
            None => Seq::empty(),
        }
    }

    /// The lines of the preview before anything is marked.
    pub open spec fn unmarked(self) -> Seq<Seq<SpanView>> {
        match self.file {
            Some((_, content)) => match content {
                ContentView::Highlighted(syntax) => syntax.shown(),
                ContentView::Plain(s) => plain_lines(s),
                ContentView::Image => Seq::empty(),
            },
            None => plain_lines(Seq::empty()),
        }
    }

    /// The line that the view is at.
    pub open spec fn active_line(self) -> Option<usize> {
        if self.cursor < self.matches.len() {
            Some(self.matches[self.cursor as int])
        } else {
            None
        }
    }

    /// The places and styles of the matches.
    pub open spec fn hit_styles(self) -> Seq<Seq<(usize, Style)>> {
        searched_hits(self.unmarked(), self.query)
    }

    /// What is shown: the text with the matches marked, those of the line that
    /// the view is at more than the others.
    pub open spec fn rendered(self) -> Seq<Seq<SpanView>> {
        activated_line(
            searched(self.unmarked(), self.query),
            self.hit_styles(),
            self.active_line(),
            true,
        )
    }

    pub open spec fn changed(self) -> PreviewView {
        PreviewView { render_generation: wrapped_next(self.render_generation), ..self }
    }

    /// The preview without a search.
    pub open spec fn unsearched(self) -> PreviewView {
        PreviewView { query: Seq::empty(), matches: Seq::empty(), cursor: 0, ..self }.changed()
    }

    /// The preview after it gave up the highlighting that was under way.
    pub open spec fn unhighlighted(self) -> PreviewView {
        PreviewView {
            highlight_generation: wrapped_next(self.highlight_generation),
            progress: None,
            ..self
        }
    }

    /// The preview of another content, without a search.
    pub open spec fn loaded(
        self,
        file: Option<(Seq<char>, ContentView)>,
        hash: Option<u64>,
    ) -> PreviewView {
        PreviewView { file, hash, ..self.unhighlighted() }.changed().unsearched()
    }

    /// The preview of a source that is being highlighted. The source itself
    /// shows meanwhile, unless the wait for a better picture is short.
    pub open spec fn sourced(
        self,
        path: Seq<char>,
        content: Seq<char>,
        bat: bool,
        hash: Option<u64>,
    ) -> PreviewView {
        PreviewView {
            progress: Some(ProgressPercent { progress: 0 }),
            ..self.loaded(
                Some(
                    (
                        path,
                        ContentView::Plain(
                            if bat {
                                Seq::empty()
                            } else {
                                content
                            },
                        ),
                    ),
                ),
                hash,
            )
        }
    }

    /// Whether a result of the highlighting is one of what is previewed.
    pub open spec fn wants(self, generation: u64, syntax: SyntaxText) -> bool {
        &&& generation == self.highlight_generation
        &&& self.file matches Some((path, content))
        &&& content !is Image
        &&& paths::parts(syntax.path@) == paths::parts(path)
    }

    /// The preview with its text highlighted.
    pub open spec fn highlighted(self, generation: u64, syntax: SyntaxText) -> PreviewView {
        if self.wants(generation, syntax) {
            PreviewView {
                file: Some(((self.file->0).0, ContentView::Highlighted(syntax))),
                progress: None,
                ..self
            }.changed()
        } else {
            self
        }
    }

    /// The preview scrolled to a row, as far as there is text.
    pub open spec fn scrolled(self, pos: u16) -> PreviewView {
        let last = self.paragraph.last_start();
        let y = if pos < last {
            pos
        } else {
            last
        };
        if y == self.paragraph.scroll.y {
            self
        } else {
            PreviewView {
                paragraph: ParagraphState { scroll: ScrollPos { x: 0, y }, ..self.paragraph },
                ..self
            }
        }
    }

    /// The row that a line starts at.
    pub open spec fn visual_row(self, line: usize) -> usize {
        let width = if self.width < 1 {
            1
        } else {
            self.width as int
        };
        let offsets = row_offsets(self.source(), width);
        if line < offsets.len() {
            offsets[line as int]
        } else {
            0
        }
    }

    /// The preview scrolled to the match that the view is at.
    pub open spec fn at_match(self) -> PreviewView {
        match self.active_line() {
            Some(line) => {
                let row = self.visual_row(line);
                self.scrolled(
                    if row > u16::MAX {
                        u16::MAX
                    } else {
                        row as u16
                    },
                )
            },
            None => self,
        }
    }

    /// The preview with a search whose matches are in the given lines, at the
    /// first match from a line on.
    pub open spec fn searching(self, query: Seq<char>, line: usize, matches: Seq<usize>) -> PreviewView {
        PreviewView {
            query,
            matches,
            cursor: match_from(matches, line, 0),
            ..self
        }.changed().at_match()
    }

    /// The match after or before the one that the view is at; after the last
    /// comes the first.
    pub open spec fn stepped_cursor(self, forward: bool) -> int {
        if forward {
            if self.cursor + 1 == self.matches.len() {
                0
            } else {
                self.cursor + 1
            }
        } else if self.cursor == 0 {
            self.matches.len() - 1
        } else {
            self.cursor - 1
        }
    }

    pub open spec fn stepped(self, forward: bool) -> PreviewView {
        if self.matches.len() == 0 {
            self
        } else {
            PreviewView { cursor: self.stepped_cursor(forward) as usize, ..self }.at_match()
        }
    }

    /// The preview after a key press. Keys step through the matches where there are
    /// some; `nav` is the move that the key stands for, if it stands for one.
    pub open spec fn keyed(self, press: KeyPress, nav: Option<MoveSelection>) -> PreviewView {
        if self.is_image() {
            self
        } else if self.matches.len() > 0 && press.has(Key::DiffHunkNext) {
            self.stepped(true)
        } else if self.matches.len() > 0 && press.has(Key::DiffHunkPrev) {
            self.stepped(false)
        } else {
            match nav {
                Some(nav) => self.scrolled(self.nav_target(nav)),
                None => self,
            }
        }
    }

    /// Whether a key press is used up: by a step to another match, or by a move
    /// that scrolls the text.
    pub open spec fn uses(self, press: KeyPress, nav: Option<MoveSelection>) -> bool {
        !self.is_image() && {
            ||| self.matches.len() > 0 && (press.has(Key::DiffHunkNext) || press.has(
                Key::DiffHunkPrev,
            ))
            ||| self.keyed(press, nav).paragraph.scroll.y != self.paragraph.scroll.y
        }
    }

    /// The row that a move leads to, before it is bounded.
    pub open spec fn nav_target(self, nav: MoveSelection) -> u16 {
        let y = self.paragraph.scroll.y as int;
        let page = if self.paragraph.height >= 2 {
            self.paragraph.height - 2
        } else {
            0
        };
        let target = match nav {
            MoveSelection::Down => y + 1,
            MoveSelection::Up => y - 1,
            MoveSelection::Home => 0,
            MoveSelection::End => self.paragraph.last_start() as int,
            MoveSelection::PageUp => y - page,
            MoveSelection::PageDown => y + page,
            _ => y,
        };
        if target < 0 {
            0
        } else if target > u16::MAX {
            u16::MAX
        } else {
            target as u16
        }
    }
}

/// The text of a file as it is previewed.
pub open spec fn source_text(bytes: Seq<u8>) -> Seq<char> {
    text::without_tabs(text::lossy_text(bytes))
}

/// Whether a zero is among the first bytes of a file, which no text has.
pub open spec fn looks_binary(bytes: Seq<u8>) -> bool {
    exists|i: int| 0 <= i < bytes.len() && i < 8000 && #[trigger] bytes[i] == 0
}

fn has_zero(bytes: &Vec<u8>) -> (r: bool)
    ensures
        r == looks_binary(bytes@),
{
    let mut i: usize = 0;
    while i < bytes.len() && i < 8000
        invariant
            i <= bytes@.len(),
            i <= 8000,
            forall|j: int| 0 <= j < i ==> bytes@[j] != 0,
        decreases bytes@.len() - i,
    {
        if bytes[i] == 0 {
            assert(bytes@[i as int] == 0);
            return true;
        }
        i += 1;
    }
    false
}

impl SyntaxTextComponent {
    /// What holds of every preview: its caches are up to date.
    pub open spec fn wf(self) -> bool {
        &&& self@.wf()
        &&& self.source_lines_cache matches Some(lines) ==> text::views(lines@) == self@.source()
        &&& self.visual_offsets_cache matches Some((width, offsets)) ==> width > 0 && offsets@
            == row_offsets(self@.source(), width as int)
        &&& self.render_cache matches Some((lines, styles)) ==> text::views(lines@)
            == self@.rendered() && rows(styles@) == self@.hit_styles() && hits_fit(
            text::views(lines@),
            rows(styles@),
        ) && countable(searched(self@.unmarked(), self@.query))
    }

    /// A preview of nothing.
    pub fn new() -> (r: SyntaxTextComponent)
        ensures
            r.wf(),
            r@.file is None,
            r@.highlight_generation == 0,
            r@.progress is None,
            r@.paragraph.scroll == (ScrollPos { x: 0, y: 0 }),
            r@.paragraph.lines == 0,
            r@.paragraph.height == 0,
            !r@.paragraph.lines_valid,
            !r@.focused,
            r@.query.len() == 0,
            r@.matches.len() == 0,
            r@.cursor == 0,
            r@.width == 0,
            r@.render_generation == 1,
            r@.hash is None,
    {
        SyntaxTextComponent {
            current_file: None,
            highlight_generation: 0,
            syntax_progress: None,
            paragraph_state: ParagraphState::default(),
            focused: false,
            search_query: String::new(),
            search_matches: Vec::new(),
            search_cursor: 0,
            render_width: 0,
            render_generation: 1,
            content_hash: None,
            source_lines_cache: None,
            visual_offsets_cache: None,
            render_cache: None,
        }
    }

    fn invalidate_render_cache(&mut self)
        ensures
            final(self)@ == old(self)@.changed(),
            final(self).render_cache is None,
            final(self).source_lines_cache == old(self).source_lines_cache,
            final(self).visual_offsets_cache == old(self).visual_offsets_cache,
    {
        self.render_generation = self.render_generation.wrapping_add(1);
        self.render_cache = None;
    }

    fn invalidate_content_caches(&mut self)
        ensures
            final(self)@ == old(self)@.changed(),
            final(self).render_cache is None,
            final(self).source_lines_cache is None,
            final(self).visual_offsets_cache is None,
    {
        self.source_lines_cache = None;
        self.visual_offsets_cache = None;
        self.invalidate_render_cache();
    }

    fn reset_search(&mut self)
        ensures
            final(self)@ == old(self)@.unsearched(),
            final(self).render_cache is None,
            final(self).source_lines_cache == old(self).source_lines_cache,
            final(self).visual_offsets_cache == old(self).visual_offsets_cache,
    {
        self.search_query = String::new();
        self.search_matches = Vec::new();
        self.search_cursor = 0;
        assert(self.search_query@ =~= Seq::empty());
        assert(self.search_matches@ =~= Seq::empty());
        self.invalidate_render_cache();
    }

    fn cancel_highlighting(&mut self)
        ensures
            final(self)@ == old(self)@.unhighlighted(),
            final(self).source_lines_cache == old(self).source_lines_cache,
            final(self).visual_offsets_cache == old(self).visual_offsets_cache,
            final(self).render_cache == old(self).render_cache,
    {
        self.highlight_generation = self.highlight_generation.wrapping_add(1);
        self.syntax_progress = None;
    }

    fn replace_content(&mut self, file: Option<(String, PreviewContent)>, hash: Option<u64>)
        requires
            file matches Some((_, PreviewContent::Highlighted(syntax))) ==> syntax.wf(),
        ensures
            final(self).wf(),
            final(self)@ == old(self)@.loaded(
                match file {
                    Some((path, content)) => Some((path@, content@)),
                    None => None,
                },
                hash,
            ),
    {
        self.cancel_highlighting();
        self.current_file = file;
        self.content_hash = hash;
        self.invalidate_content_caches();
        self.reset_search();
    }

    /// Preview nothing.
    pub fn clear(&mut self) -> (r: Vec<PreviewAction>)
        ensures
            final(self).wf(),
            final(self)@ == old(self)@.loaded(None, None),
            text::views(r@) == seq![
                PreviewActionView::CancelHighlighting,
                PreviewActionView::ClearImage,
            ],
    {
        self.replace_content(None, None);
        let mut out: Vec<PreviewAction> = Vec::new();
        out.push(PreviewAction::CancelHighlighting);
        out.push(PreviewAction::ClearImage);
        assert(text::views(out@) =~= seq![
            PreviewActionView::CancelHighlighting,
            PreviewActionView::ClearImage,
        ]);
        out
    }

    /// Preview text that is highlighted already, such as a list of files. What
    /// was being highlighted can no longer replace it.
    pub fn load_text(&mut self, path: String, content: SyntaxText) -> (r: Vec<PreviewAction>)
        requires
            content.wf(),
        ensures
            final(self).wf(),
            final(self)@ == old(self)@.loaded(
                Some((path@, ContentView::Highlighted(content))),
                None,
            ),
            text::views(r@) == seq![
                PreviewActionView::ClearImage,
                PreviewActionView::CancelHighlighting,
            ],
    {
        self.replace_content(Some((path, PreviewContent::Highlighted(content))), None);
        Self::stop_all()
    }

    fn stop_all() -> (r: Vec<PreviewAction>)
        ensures
            text::views(r@) == seq![
                PreviewActionView::ClearImage,
                PreviewActionView::CancelHighlighting,
            ],
    {
        let mut out: Vec<PreviewAction> = Vec::new();
        out.push(PreviewAction::ClearImage);
        out.push(PreviewAction::CancelHighlighting);
        assert(text::views(out@) =~= seq![
            PreviewActionView::ClearImage,
            PreviewActionView::CancelHighlighting,
        ]);
        out
    }

    /// Preview a message in place of a file.
    pub fn load_error(&mut self, path: String, message: String) -> (r: Vec<PreviewAction>)
        ensures
            final(self).wf(),
            final(self)@ == old(self)@.loaded(Some((path@, ContentView::Plain(message@))), None),
            text::views(r@) == seq![
                PreviewActionView::ClearImage,
                PreviewActionView::CancelHighlighting,
            ],
    {
        self.replace_content(Some((path, PreviewContent::Plain(message))), None);
        Self::stop_all()
    }

    /// Preview why a file could not be read.
    pub fn load_failed(&mut self, path: String, error: &str) -> (r: Vec<PreviewAction>)
        ensures
            final(self).wf(),
            final(self)@ == old(self)@.loaded(
                Some((path@, ContentView::Plain("error loading file: "@ + error@))),
                None,
            ),
            text::views(r@) == seq![
                PreviewActionView::ClearImage,
                PreviewActionView::CancelHighlighting,
            ],
    {
        self.load_error(path, text::join2("error loading file: ", error))
    }

    pub open spec fn previews(self, path: Seq<char>) -> bool {
        self@.file matches Some((current, _)) && current == path
    }

    /// Whether a file is previewed already.
    pub fn already_loaded(&self, path: &str) -> (r: bool)
        ensures
            r == self.previews(path@),
    {
        match &self.current_file {
            Some((current, _)) => text::same(current.as_str(), path),
            None => false,
        }
    }

    /// The preview after a file was read.
    pub open spec fn bytes_loaded(
        self,
        path: Seq<char>,
        bytes: Seq<u8>,
        hash: u64,
        bat: bool,
    ) -> PreviewView {
        if self@.hash == Some(hash) && self.previews(path) {
            self@
        } else if images::has_image_signature(bytes) {
            self@.loaded(Some((path, ContentView::Image)), Some(hash))
        } else if looks_binary(bytes) {
            self@.loaded(Some((path, ContentView::Plain("binary file"@))), Some(hash))
        } else {
            self@.sourced(path, source_text(bytes), bat, Some(hash))
        }
    }

    pub open spec fn bytes_actions(
        self,
        path: Seq<char>,
        bytes: Seq<u8>,
        hash: u64,
    ) -> Seq<PreviewActionView> {
        if self@.hash == Some(hash) && self.previews(path) {
            Seq::empty()
        } else if images::has_image_signature(bytes) {
            seq![PreviewActionView::CancelHighlighting, PreviewActionView::SetImage(hash)]
        } else if looks_binary(bytes) {
            seq![PreviewActionView::ClearImage, PreviewActionView::CancelHighlighting]
        } else {
            seq![
                PreviewActionView::CancelHighlighting,
                PreviewActionView::ClearImage,
                PreviewActionView::Highlight(
                    source_text(bytes),
                    path,
                    wrapped_next(self@.highlight_generation),
                ),
            ]
        }
    }

    /// The preview after a file was or was not read.
    pub open spec fn file_loaded(
        self,
        path: Seq<char>,
        read: Result<(Vec<u8>, u64), String>,
        bat: bool,
    ) -> PreviewView {
        match read {
            Ok((bytes, hash)) => self.bytes_loaded(path, bytes@, hash, bat),
            Err(e) => self@.loaded(
                Some((path, ContentView::Plain("error loading file: "@ + e@))),
                None,
            ),
        }
    }

    pub open spec fn file_actions(self, path: Seq<char>, read: Result<(Vec<u8>, u64), String>) -> Seq<
        PreviewActionView,
    > {
        match read {
            Ok((bytes, hash)) => self.bytes_actions(path, bytes@, hash),
            Err(_) => seq![PreviewActionView::ClearImage, PreviewActionView::CancelHighlighting],
        }
    }

    /// Preview a file, unless it is previewed already with the same content.
    /// `bat` tells whether highlighting is quick to come.
    pub fn load_hashed_bytes(
        &mut self,
        path: String,
        bytes: &Vec<u8>,
        content_hash: u64,
        bat: bool,
    ) -> (r: Vec<PreviewAction>)
        requires
            old(self).wf(),
        ensures
            final(self).wf(),
            final(self)@ == old(self).bytes_loaded(path@, bytes@, content_hash, bat),
            text::views(r@) == old(self).bytes_actions(path@, bytes@, content_hash),
    {
        let mut out: Vec<PreviewAction> = Vec::new();
        let same = match self.content_hash {
            Some(hash) => hash == content_hash,
            None => false,
        };
        if same && self.already_loaded(path.as_str()) {
            assert(text::views(out@) =~= Seq::empty());
            return out;
        }
        if is_image(bytes.as_slice()) {
            self.replace_content(Some((path, PreviewContent::Image)), Some(content_hash));
            out.push(PreviewAction::CancelHighlighting);
            out.push(PreviewAction::SetImage(content_hash));
        } else if has_zero(bytes) {
            let message = "binary file".to_owned();
            self.replace_content(Some((path, PreviewContent::Plain(message))), Some(content_hash));
            out.push(PreviewAction::ClearImage);
            out.push(PreviewAction::CancelHighlighting);
        } else {
            let read = text::from_utf8_lossy(bytes.as_slice());
            let content = text::tabs_to_spaces(read.as_str());
            let shown = if bat {
                String::new()
            } else {
                content.clone()
            };
            assert(shown@ =~= if bat {
                Seq::empty()
            } else {
                content@
            });
            self.replace_content(
                Some((path.clone(), PreviewContent::Plain(shown))),
                Some(content_hash),
            );
            self.syntax_progress = Some(ProgressPercent::empty());
            out.push(PreviewAction::CancelHighlighting);
            out.push(PreviewAction::ClearImage);
            out.push(PreviewAction::Highlight(content, path, self.highlight_generation));
        }
        assert(text::views(out@) =~= old(self).bytes_actions(
            path@,
            bytes@,
            content_hash,
        ));
        out
    }

    /// Preview a file of a commit: its bytes and their hash, or why it could not
    /// be read.
    pub fn load_commit_file(
        &mut self,
        path: String,
        read: Result<(Vec<u8>, u64), String>,
        bat: bool,
    ) -> (r: Vec<PreviewAction>)
        requires
            old(self).wf(),
        ensures
            final(self).wf(),
            final(self)@ == old(self).file_loaded(path@, read, bat),
            text::views(r@) == old(self).file_actions(path@, read),
    {
        match read {
            Ok((bytes, hash)) => self.load_hashed_bytes(path, &bytes, hash, bat),
            Err(error) => self.load_failed(path, error.as_str()),
        }
    }

    /// Preview a file of a tree, unless it is previewed already.
    pub fn load_file(&mut self, path: String, read: Result<(Vec<u8>, u64), String>, bat: bool) -> (r:
        Vec<PreviewAction>)
        requires
            old(self).wf(),
        ensures
            final(self).wf(),
            if old(self).previews(path@) {
                final(self)@ == old(self)@ && r@.len() == 0
            } else {
                &&& final(self)@ == old(self).file_loaded(path@, read, bat)
                &&& text::views(r@) == old(self).file_actions(path@, read)
            },
    {
        if self.already_loaded(path.as_str()) {
            return Vec::new();
        }
        self.load_commit_file(path, read, bat)
    }

    /// Take in highlighted text, if it is of the revision that is previewed.
    pub fn apply_highlighting(&mut self, generation: u64, syntax: SyntaxText)
        requires
            old(self).wf(),
            syntax.wf(),
        ensures
            final(self).wf(),
            final(self)@ == old(self)@.highlighted(generation, syntax),
    {
        if generation != self.highlight_generation {
            return ;
        }
        let wanted = match &self.current_file {
            Some((path, content)) => {
                let is_text = match content {
                    PreviewContent::Image => false,
                    _ => true,
                };
                let same: i8 = compare_paths(syntax.path.as_str(), path.as_str());
                proof {
                    paths::lemma_path_order(syntax.path@, path@, path@);
                    if paths::parts(syntax.path@) == paths::parts(path@) {
                        paths::lemma_path_order(syntax.path@, syntax.path@, path@);
                    }
                }
                is_text && same == 0
            },
            None => false,
        };
        if wanted {
            match self.current_file.take() {
                Some((path, _)) => {
                    self.current_file = Some((path, PreviewContent::Highlighted(syntax)));
                },
                None => {},
            }
            self.syntax_progress = None;
            self.invalidate_content_caches();
        }
    }

    /// Note how far the highlighting is.
    pub fn set_progress(&mut self, progress: Option<ProgressPercent>)
        requires
            old(self).wf(),
        ensures
            final(self).wf(),
            final(self)@ == (PreviewView { progress, ..old(self)@ }),
    {
        self.syntax_progress = progress;
    }

    // -------------------------------------------------------------- drawing

    /// Bring what is shown up to date.
    pub fn rebuild_render_cache(&mut self)
        requires
            old(self).wf(),
        ensures
            final(self).wf(),
            final(self)@ == old(self)@,
            final(self).render_cache is Some,
            old(self).render_cache is Some ==> *final(self) == *old(self),
    {
        if self.render_cache.is_some() {
            return ;
        }
        let mut lines: Vec<Line> = match &self.current_file {
            None => {
                proof {
                    reveal_strlit("");
                }
                assert(""@ =~= Seq::<char>::empty());
                to_plain_lines("")
            },
            Some((_, content)) => match content {
                PreviewContent::Highlighted(syntax) => syntax.to_owned_text(),
                PreviewContent::Plain(s) => to_plain_lines(s.as_str()),
                PreviewContent::Image => {
                    let none: Vec<Line> = Vec::new();
                    assert(text::views(none@) =~= Seq::empty());
                    none
                },
            },
        };
        assert(text::views(lines@) == self@.unmarked());
        let styles = highlight_search(&mut lines, self.search_query.as_str());
        let line: Option<usize> = if self.search_cursor < self.search_matches.len() {
            Some(self.search_matches[self.search_cursor])
        } else {
            None
        };
        let ghost marked = text::views(lines@);
        set_active_match_line(&mut lines, &styles, line, true);
        proof {
            lemma_activation_fits(marked, rows(styles@), line, true);
        }
        self.render_cache = Some((lines, styles));
    }

    /// The title above the preview.
    pub fn title(&self) -> (r: String)
        ensures
            r@ == (match self@.file {
                Some((path, _)) => path,
                None => Seq::empty(),
            }) + match self@.progress {
                Some(p) => " ("@ + text::digits(p.progress as nat) + "%)"@,
                None => Seq::empty(),
            },
    {
        let mut out = match &self.current_file {
            Some((path, _)) => path.clone(),
            None => String::new(),
        };
        match self.syntax_progress {
            Some(p) => {
                out.append(" (");
                out.append(text::number(p.progress as u64).as_str());
                out.append("%)");
            },
            None => {},
        }
        assert(out@ =~= (match self@.file {
            Some((path, _)) => path,
            None => Seq::empty(),
        }) + match self@.progress {
            Some(p) => " ("@ + text::digits(p.progress as nat) + "%)"@,
            None => Seq::empty(),
        });
        out
    }

    /// Take in the width of the preview, borders included.
    pub fn set_width(&mut self, width: u16)
        requires
            old(self).wf(),
        ensures
            final(self).wf(),
            final(self)@ == (PreviewView {
                width: if width >= 2 {
                    (width - 2) as u16
                } else {
                    0
                },
                ..old(self)@
            }),
    {
        self.render_width = width.saturating_sub(2);
    }

    /// Scroll back to the text, if it became shorter.
    pub fn clamp_scroll(&mut self)
        requires
            old(self).wf(),
        ensures
            final(self).wf(),
            final(self)@ == if old(self)@.paragraph.scroll.y
                > old(self)@.paragraph.last_start() {
                PreviewView {
                    paragraph: ParagraphState {
                        scroll: ScrollPos { x: 0, y: old(self)@.paragraph.last_start() },
                        ..old(self)@.paragraph
                    },
                    ..old(self)@
                }
            } else {
                old(self)@
            },
    {
        let max: u16 = self.paragraph_state.max_scroll();
        if self.paragraph_state.scroll.y > max {
            self.paragraph_state.set_scroll(ScrollPos { x: 0, y: max });
        }
    }

    // -------------------------------------------------------------- search

    /// Whether there are matches to move between.
    pub fn has_search(&self) -> (r: bool)
        ensures
            r == (self@.matches.len() > 0),
    {
        self.search_matches.len() > 0
    }

    fn fill_source_lines(&mut self)
        requires
            old(self).wf(),
        ensures
            final(self).wf(),
            final(self).render_cache == old(self).render_cache,
            final(self)@ == old(self)@,
            final(self).source_lines_cache is Some,
    {
        if self.source_lines_cache.is_some() {
            return ;
        }
        let lines: Vec<String> = match &self.current_file {
            None => Vec::new(),
            Some((_, content)) => match content {
                PreviewContent::Highlighted(syntax) => syntax.source_lines(),
                PreviewContent::Plain(s) => text::lines(s.as_str()),
                PreviewContent::Image => Vec::new(),
            },
        };
        assert(text::views(lines@) =~= self@.source());
        self.source_lines_cache = Some(lines);
    }

    /// The lines of the file.
    pub fn file_lines(&mut self) -> (r: Vec<String>)
        requires
            old(self).wf(),
        ensures
            final(self).wf(),
            final(self)@ == old(self)@,
            text::views(r@) == old(self)@.source(),
    {
        self.fill_source_lines();
        match &self.source_lines_cache {
            Some(lines) => text::clone_strings(lines),
            None => Vec::new(),
        }
    }

    fn fill_visual_offsets(&mut self)
        requires
            old(self).wf(),
        ensures
            final(self).wf(),
            final(self).render_cache == old(self).render_cache,
            final(self)@ == old(self)@,
            final(self).visual_offsets_cache matches Some((width, _)) && width == if old(
                self)@.width < 1 {
                1
            } else {
                old(self)@.width
            },
    {
        let width: u16 = if self.render_width < 1 {
            1
        } else {
            self.render_width
        };
        let known = match &self.visual_offsets_cache {
            Some((cached, _)) => *cached == width,
            None => false,
        };
        if known {
            return ;
        }
        self.fill_source_lines();
        let mut offsets: Vec<usize> = Vec::new();
        let mut visual: usize = 0;
        match &self.source_lines_cache {
            Some(lines) => {
                let ghost source = self@.source();
                for i in 0..lines.len()
                    invariant
                        width > 0,
                        text::views(lines@) == source,
                        visual == row_offset(source, width as int, i as int),
                        offsets@ =~= row_offsets(source, width as int).take(i as int),
                {
                    assert(source[i as int] == lines@[i as int]@);
                    offsets.push(visual);
                    let columns: usize = unicode::display_width(lines[i].as_str());
                    let w: usize = width as usize;
                    let mut count: usize = columns / w;
                    if columns % w != 0 {
                        assert(columns / w < usize::MAX) by (nonlinear_arith)
                            requires
                                w > 0,
                                columns % w != 0,
                        ;
                        count += 1;
                    }
                    if count < 1 {
                        count = 1;
                    }
                    visual = visual.saturating_add(count);
                }
                assert(row_offsets(source, width as int).take(lines@.len() as int) =~= row_offsets(
                    source,
                    width as int,
                ));
            },
            None => {},
        }
        self.visual_offsets_cache = Some((width, offsets));
    }

    fn line_to_visual(&mut self, line: usize) -> (r: usize)
        requires
            old(self).wf(),
        ensures
            final(self).wf(),
            final(self).render_cache == old(self).render_cache,
            final(self)@ == old(self)@,
            r == old(self)@.visual_row(line),
    {
        self.fill_visual_offsets();
        match &self.visual_offsets_cache {
            Some((_, offsets)) => if line < offsets.len() {
                offsets[line]
            } else {
                0
            },
            None => 0,
        }
    }

    fn set_scroll(&mut self, pos: u16) -> (moved: bool)
        requires
            old(self).wf(),
        ensures
            final(self).wf(),
            final(self).render_cache == old(self).render_cache,
            final(self)@ == old(self)@.scrolled(pos),
            moved == (final(self)@.paragraph.scroll.y != old(self)@.paragraph.scroll.y),
    {
        let max: u16 = self.paragraph_state.max_scroll();
        let y: u16 = if pos < max {
            pos
        } else {
            max
        };
        if y == self.paragraph_state.scroll.y {
            return false;
        }
        self.paragraph_state.set_scroll(ScrollPos { x: 0, y });
        true
    }

    fn scroll_to_current_match(&mut self)
        requires
            old(self).wf(),
        ensures
            final(self).wf(),
            final(self).render_cache == old(self).render_cache,
            final(self)@ == old(self)@.at_match(),
    {
        if self.search_cursor < self.search_matches.len() {
            let line: usize = self.search_matches[self.search_cursor];
            let row: usize = self.line_to_visual(line);
            let target: u16 = if row > u16::MAX as usize {
                u16::MAX
            } else {
                row as u16
            };
            self.set_scroll(target);
        }
    }

    /// Show the matches of a search, and scroll to the first from a line on.
    pub fn set_search_result(&mut self, query: &str, line: usize, matching_lines: &Vec<usize>)
        requires
            old(self).wf(),
        ensures
            final(self).wf(),
            final(self)@ == old(self)@.searching(query@, line, matching_lines@),
    {
        let mut matches: Vec<usize> = Vec::new();
        for i in 0..matching_lines.len()
            invariant
                matches@ =~= matching_lines@.take(i as int),
        {
            matches.push(matching_lines[i]);
        }
        assert(matches@ =~= matching_lines@);
        let mut cursor: usize = 0;
        let mut i: usize = 0;
        while i < matches.len()
            invariant_except_break
                cursor == 0,
            invariant
                i <= matches@.len(),
                match_from(matches@, line, i as int) == match_from(matches@, line, 0),
            ensures
                cursor == match_from(matches@, line, 0),
                cursor == 0 || cursor < matches@.len(),
            decreases matches@.len() - i,
        {
            if matches[i] >= line {
                cursor = i;
                break;
            }
            i += 1;
        }
        self.search_query = query.to_owned();
        self.search_matches = matches;
        self.search_cursor = cursor;
        self.invalidate_render_cache();
        self.scroll_to_current_match();
    }

    /// Move to the next match or to the previous one, and scroll to it. What is
    /// shown is not built again.
    pub fn move_match(&mut self, forward: bool)
        requires
            old(self).wf(),
        ensures
            final(self).wf(),
            final(self)@ == old(self)@.stepped(forward),
            old(self).render_cache is Some ==> final(self).render_cache is Some,
    {
        let len: usize = self.search_matches.len();
        if len == 0 {
            return ;
        }
        let previous: usize = self.search_matches[self.search_cursor];
        let cursor: usize = if forward {
            if self.search_cursor + 1 == len {
                0
            } else {
                self.search_cursor + 1
            }
        } else if self.search_cursor == 0 {
            len - 1
        } else {
            self.search_cursor - 1
        };
        self.search_cursor = cursor;
        let next: usize = self.search_matches[cursor];
        match self.render_cache.take() {
            Some((lines, styles)) => {
                let mut lines = lines;
                let ghost was = text::views(lines@);
                let ghost base = searched(self@.unmarked(), self@.query);
                let ghost all = rows(styles@);
                proof {
                    lemma_hits_fit(self@.unmarked(), self@.query);
                    lemma_searched_undone(self@.unmarked(), self@.query, previous);
                    lemma_activation_fits(was, all, Some(previous), false);
                }
                set_active_match_line(&mut lines, &styles, Some(previous), false);
                assert(text::views(lines@) == base);
                proof {
                    lemma_activation_fits(base, all, Some(next), true);
                }
                set_active_match_line(&mut lines, &styles, Some(next), true);
                self.render_cache = Some((lines, styles));
            },
            None => {},
        }
        self.scroll_to_current_match();
    }

    // -------------------------------------------------------------- keys

    /// Add the commands that the preview offers.
    pub fn commands(&self, out: &mut Vec<CommandInfo>, force_all: bool) -> (r: CommandBlocking)
        ensures
            final(out)@ == old(out)@ + if (self@.focused || force_all) && !self@.is_image() {
                seq![
                    CommandInfo::of(Command::Scroll, true, true).placed(CommandOrder::Navigation),
                ]
            } else {
                Seq::empty()
            },
            r == CommandBlocking::PassingOn,
    {
        if (self.focused || force_all) && !self.shows_image() {
            out.push(
                CommandInfo::new(Command::Scroll, true, true).order(CommandOrder::Navigation),
            );
        }
        assert(out@ =~= old(out)@ + if (self@.focused || force_all) && !self@.is_image() {
            seq![CommandInfo::of(Command::Scroll, true, true).placed(CommandOrder::Navigation)]
        } else {
            Seq::empty()
        });
        CommandBlocking::PassingOn
    }

    /// Whether an image is previewed.
    pub fn shows_image(&self) -> (r: bool)
        ensures
            r == self@.is_image(),
    {
        match &self.current_file {
            Some((_, content)) => match content {
                PreviewContent::Image => true,
                _ => false,
            },
            None => false,
        }
    }

    fn scroll(&mut self, nav: MoveSelection) -> (moved: bool)
        requires
            old(self).wf(),
        ensures
            final(self).wf(),
            final(self)@ == old(self)@.scrolled(old(self)@.nav_target(nav)),
            moved == (final(self)@.paragraph.scroll.y != old(self)@.paragraph.scroll.y),
    {
        let y: u16 = self.paragraph_state.scroll.y;
        let page: u16 = self.paragraph_state.height.saturating_sub(2);
        let target: u16 = match nav {
            MoveSelection::Down => y.saturating_add(1),
            MoveSelection::Up => y.saturating_sub(1),
            MoveSelection::Home => 0,
            MoveSelection::End => self.paragraph_state.max_scroll(),
            MoveSelection::PageUp => y.saturating_sub(page),
            MoveSelection::PageDown => y.saturating_add(page),
            _ => y,
        };
        self.set_scroll(target)
    }

    /// React to a key press; `nav` is the move that it stands for in every
    /// list. An image reacts to none.
    pub fn event(&mut self, press: &KeyPress, nav: Option<MoveSelection>) -> (r: EventState)
        requires
            old(self).wf(),
        ensures
            final(self).wf(),
            final(self)@ == old(self)@.keyed(*press, nav),
            r == EventState::of(old(self)@.uses(*press, nav)),
    {
        if self.shows_image() {
            return EventState::NotConsumed;
        }
        if self.search_matches.len() > 0 {
            if press.is(Key::DiffHunkNext) {
                self.move_match(true);
                return EventState::Consumed;
            } else if press.is(Key::DiffHunkPrev) {
                self.move_match(false);
                return EventState::Consumed;
            }
        }
        match nav {
            Some(nav) => {
                let moved = self.scroll(nav);
                EventState::from_bool(moved)
            },
            None => EventState::NotConsumed,
        }
    }

    pub fn is_focused(&self) -> (r: bool)
        ensures
            r == self@.focused,
    {
        self.focused
    }

    /// Give the preview the focus or take it away.
    pub fn focus(&mut self, focus: bool)
        requires
            old(self).wf(),
        ensures
            final(self).wf(),
            final(self)@ == (PreviewView { focused: focus, ..old(self)@ }),
    {
        self.focused = focus;
    }
}

proof fn lemma_line_lengths(lines: Seq<Line>)
    ensures
        countable(text::views(lines)),
{
    assert forall|i: int| 0 <= i < lines.len() implies (#[trigger] text::views(lines)[i]).len()
        <= usize::MAX by {
        assert(lines[i].spans.len() == lines[i].spans@.len());
    }
}

proof fn lemma_activated_len(
    line: Seq<SpanView>,
    styles: Seq<(usize, Style)>,
    active: bool,
    n: int,
)
    requires
        n <= styles.len(),
        forall|k: int| 0 <= k < styles.len() ==> (#[trigger] styles[k]).0 < line.len(),
    ensures
        activated(line, styles, active, n).len() == line.len(),
    decreases n,
{
    if n > 0 {
        lemma_activated_len(line, styles, active, n - 1);
    }
}

/// Activation keeps the number of lines and of the spans in them.
proof fn lemma_activation_lengths(
    lines: Seq<Seq<SpanView>>,
    styles: Seq<Seq<(usize, Style)>>,
    line: Option<usize>,
    active: bool,
)
    requires
        hits_fit(lines, styles),
    ensures
        ({
            let after = activated_line(lines, styles, line, active);
            &&& after.len() == lines.len()
            &&& forall|i: int|
                0 <= i < lines.len() ==> (#[trigger] after[i]).len() == lines[i].len()
        }),
{
    match line {
        Some(i) => {
            if i < lines.len() && i < styles.len() {
                assert forall|k: int| 0 <= k < styles[i as int].len() implies (
                #[trigger] styles[i as int][k]).0 < lines[i as int].len() by {
                }
                lemma_activated_len(
                    lines[i as int],
                    styles[i as int],
                    active,
                    styles[i as int].len() as int,
                );
            }
        },
        None => {},
    }
}

proof fn lemma_activation_fits(
    lines: Seq<Seq<SpanView>>,
    styles: Seq<Seq<(usize, Style)>>,
    line: Option<usize>,
    active: bool,
)
    requires
        hits_fit(lines, styles),
    ensures
        hits_fit(activated_line(lines, styles, line, active), styles),
{
    lemma_activation_lengths(lines, styles, line, active);
    let after = activated_line(lines, styles, line, active);
    assert forall|i: int, k: int|
        0 <= i < after.len() && i < styles.len() && 0 <= k < styles[i].len() implies (
    #[trigger] styles[i][k]).0 < after[i].len() by {
        assert(after[i].len() == lines[i].len());
    }
}

/// Showing the matches of a line as those that the search is at can be undone.
proof fn lemma_searched_undone(lines: Seq<Seq<SpanView>>, query: Seq<char>, line: usize)
    requires
        countable(searched(lines, query)),
    ensures
        ({
            let base = searched(lines, query);
            let all = searched_hits(lines, query);
            activated_line(activated_line(base, all, Some(line), true), all, Some(line), false)
                == base
        }),
{
    let base = searched(lines, query);
    let all = searched_hits(lines, query);
    let needle = unicode::lower_text(query);
    if needle.len() > 0 && line < base.len() {
        let marked = marked_line(lines[line as int], needle, lines[line as int].len() as int);
        assert(base[line as int] == marked_spans(marked));
        lemma_activation_can_be_undone(marked);
    }
    assert(activated_line(activated_line(base, all, Some(line), true), all, Some(line), false)
        =~= base);
}

// ------------------------------------------------------------------- laws

/// Highlighted text of an earlier revision never replaces what is previewed.
pub proof fn lemma_stale_highlighting_is_dropped(v: PreviewView, syntax: SyntaxText)
    ensures
        v.unhighlighted().highlighted(v.highlight_generation, syntax) == v.unhighlighted(),
{
}

/// Moving to the next match and back leads to the match that the view was at,
/// and so does the other way round.
pub proof fn lemma_matches_step_back(v: PreviewView, forward: bool)
    requires
        v.wf(),
        v.matches.len() <= usize::MAX,
    ensures
        v.stepped(forward).stepped(!forward).cursor == v.cursor,
{
}

/// Moving between matches changes neither the text nor the search.
pub proof fn lemma_moving_keeps_the_text(v: PreviewView, forward: bool)
    ensures
        v.stepped(forward).unmarked() == v.unmarked(),
        v.stepped(forward).query == v.query,
        v.stepped(forward).matches == v.matches,
        v.stepped(forward).render_generation == v.render_generation,
{
}

// ------------------------------------------------------------ laws of marking

proof fn lemma_lower_starts_rise(content: Seq<char>, i: int, j: int)
    requires
        0 <= i <= j,
    ensures
        lower_start(content, i) <= lower_start(content, j),
    decreases j - i,
{
    if i < j {
        lemma_lower_starts_rise(content, i, j - 1);
    }
}

/// The character that holds a position of the text in lower case starts at or
/// before that position, and the next one behind it.
pub proof fn lemma_positions_are_held(content: Seq<char>, position: int, c: int)
    requires
        0 <= c < content.len(),
        lower_start(content, c) <= position,
    ensures
        ({
            let r = holder(content, position, c);
            &&& c <= r < content.len()
            &&& lower_start(content, r) <= position
            &&& r + 1 < content.len() ==> position < lower_start(content, r + 1)
        }),
    decreases content.len() - c,
{
    if c + 1 < content.len() && lower_start(content, c + 1) <= position {
        lemma_positions_are_held(content, position, c + 1);
    }
}

/// The characters before the stop start before the position, and the one at
/// the stop does not.
pub proof fn lemma_stops(content: Seq<char>, position: int, e: int)
    requires
        0 <= e <= content.len(),
    ensures
        ({
            let r = stop(content, position, e);
            &&& e <= r <= content.len()
            &&& r < content.len() ==> position <= lower_start(content, r)
            &&& forall|j: int| e <= j < r ==> #[trigger] lower_start(content, j) < position
        }),
    decreases content.len() - e,
{
    if e < content.len() && lower_start(content, e) < position {
        lemma_stops(content, position, e + 1);
        let r = stop(content, position, e);
        assert forall|j: int| e <= j < r implies #[trigger] lower_start(content, j) < position by {
            if j > e {
                assert(e + 1 <= j);
            }
        }
    }
}

/// A match touches the character that holds its start, those whose letters
/// it covers, and none that starts behind its end.
pub proof fn lemma_matches_touch_what_they_cover(content: Seq<char>, start: int, len: int)
    requires
        content.len() > 0,
        0 <= start,
        0 < len,
    ensures
        ({
            let (first, end) = touched(content, start, len);
            &&& 0 <= first < end <= content.len()
            &&& lower_start(content, first) <= start
            &&& first + 1 < content.len() ==> start < lower_start(content, first + 1)
            &&& end < content.len() ==> start + len <= lower_start(content, end)
            &&& forall|j: int|
                first <= j < end ==> #[trigger] lower_start(content, j) < start + len
        }),
{
    lemma_positions_are_held(content, start, 0);
    let first = holder(content, start, 0);
    lemma_stops(content, start + len, first + 1);
}

proof fn lemma_touched_in_order(content: Seq<char>, a: int, b: int, len: int)
    requires
        content.len() > 0,
        0 <= a <= b,
        0 < len,
    ensures
        touched(content, a, len).0 <= touched(content, b, len).0,
        touched(content, a, len).1 <= touched(content, b, len).1,
{
    lemma_matches_touch_what_they_cover(content, a, len);
    lemma_matches_touch_what_they_cover(content, b, len);
    let (first_a, end_a) = touched(content, a, len);
    let (first_b, end_b) = touched(content, b, len);
    if first_b < first_a {
        lemma_lower_starts_rise(content, first_b + 1, first_a);
    }
    if end_b < end_a {
        assert(first_a <= end_b < end_a);
        assert(lower_start(content, end_b) < a + len);
    }
}

/// Whether one range lies within another.
pub open spec fn lies_within(inner: (int, int), outer: (int, int)) -> bool {
    outer.0 <= inner.0 && inner.1 <= outer.1
}

/// Ranges that meet are joined: whatever a match touches lies within one of
/// them, and the ranges neither meet nor overlap.
pub proof fn lemma_joined_ranges_cover_the_matches(
    content: Seq<char>,
    matches: Seq<int>,
    len: int,
    k: int,
)
    requires
        content.len() > 0,
        0 < len,
        0 <= k <= matches.len(),
        forall|a: int| 0 <= a < matches.len() ==> 0 <= #[trigger] matches[a],
        forall|a: int, b: int| 0 <= a < b < matches.len() ==> matches[a] <= matches[b],
    ensures
        ({
            let ranges = joined_ranges(content, matches, len, k);
            &&& k > 0 ==> ranges.len() > 0
            &&& k > 0 ==> ranges.last().1 == touched(content, matches[k - 1], len).1
            &&& k > 0 ==> ranges.last().0 <= touched(content, matches[k - 1], len).0
            &&& ranges.len() <= k
            &&& forall|j: int|
                0 <= j < k ==> exists|i: int|
                    0 <= i < ranges.len() && lies_within(
                        touched(content, #[trigger] matches[j], len),
                        #[trigger] ranges[i],
                    )
            &&& forall|i: int| 0 <= i < ranges.len() - 1 ==> (#[trigger] ranges[i]).1 < ranges[i
                + 1].0
        }),
    decreases k,
{
    if k > 0 {
        lemma_joined_ranges_cover_the_matches(content, matches, len, k - 1);
        let before = joined_ranges(content, matches, len, k - 1);
        let ranges = joined_ranges(content, matches, len, k);
        let range = touched(content, matches[k - 1], len);
        if k > 1 {
            lemma_touched_in_order(content, matches[k - 2], matches[k - 1], len);
        }
        let last = ranges.len() - 1;
        assert(lies_within(range, ranges[last]));
        assert forall|j: int| 0 <= j < k implies exists|i: int|
            0 <= i < ranges.len() && lies_within(
                touched(content, #[trigger] matches[j], len),
                #[trigger] ranges[i],
            ) by {
            if j < k - 1 {
                let i = choose|i: int|
                    0 <= i < before.len() && lies_within(
                        touched(content, matches[j], len),
                        #[trigger] before[i],
                    );
                assert(0 <= i < ranges.len());
                assert(lies_within(touched(content, matches[j], len), ranges[i]));
            } else {
                assert(0 <= last < ranges.len());
                assert(j == k - 1);
            }
        }
        assert forall|i: int| 0 <= i < ranges.len() - 1 implies (#[trigger] ranges[i]).1 < ranges[i
            + 1].0 by {
            assert(ranges[i] == before[i]);
            if i + 1 < before.len() {
                assert(ranges[i + 1].0 == before[i + 1].0);
            } else {
                assert(before.last() == before[i]);
            }
        }
    }
}

/// In plain English text a range is a place where the query stands, whatever
/// the case of its letters.
pub proof fn lemma_ranges_of_plain_text(content: Seq<char>, needle: Seq<char>, k: int)
    requires
        unicode::is_ascii(content),
        needle.len() > 0,
        0 <= k < case_ranges(content, needle).len(),
    ensures
        ({
            let lower = unicode::lower_text(content);
            let range = case_ranges(content, needle)[k];
            &&& 0 <= range.0 < range.1 <= lower.len()
            &&& lower.subrange(range.0, range.1) == needle
        }),
{
    text::lemma_matches_are_occurrences(unicode::lower_text(content), needle, 0, k);
}

/// Where the query stands in plain English text, something is marked.
pub proof fn lemma_occurrences_are_found(content: Seq<char>, needle: Seq<char>, at: int)
    requires
        needle.len() > 0,
        content.len() > 0,
        0 <= at,
        at + needle.len() <= unicode::lower_text(content).len(),
        unicode::lower_text(content).subrange(at, at + needle.len()) == needle,
    ensures
        case_ranges(content, needle).len() > 0,
{
    let lower = unicode::lower_text(content);
    text::lemma_matches_are_occurrences(lower, needle, 0, at);
    let matches = text::matches_from(lower, needle, 0);
    if !unicode::is_ascii(content) {
        lemma_ranges_remain(content, matches, needle.len() as int, matches.len() as int);
    }
}

proof fn lemma_ranges_remain(content: Seq<char>, matches: Seq<int>, len: int, k: int)
    requires
        0 < k,
    ensures
        joined_ranges(content, matches, len, k).len() > 0,
    decreases k,
{
    if k > 1 {
        lemma_ranges_remain(content, matches, len, k - 1);
    }
}

/// What is marked is drawn in reverse and keeps its colors; all else keeps its
/// style. There are as many marks as ranges.
pub proof fn lemma_marks_are_drawn_in_reverse(
    content: Seq<char>,
    ranges: Seq<(int, int)>,
    i: int,
    last: int,
    style: Style,
)
    requires
        0 <= i <= ranges.len(),
    ensures
        ({
            let marked = marked_from(content, ranges, i, last, style);
            &&& forall|k: int|
                0 <= k < marked.len() ==> {
                    let m = #[trigger] marked[k];
                    &&& m.span.style.fg == style.fg
                    &&& m.span.style.bg == style.bg
                    &&& m.hit ==> m.span.style.add_modifier.reversed
                    &&& !m.hit ==> m.span.style == style
                }
            &&& hits(marked, marked.len() as int).len() == ranges.len() - i
        }),
    decreases ranges.len() - i,
{
    let marked = marked_from(content, ranges, i, last, style);
    reveal_with_fuel(hits, 3);
    if i < ranges.len() {
        lemma_marks_are_drawn_in_reverse(content, ranges, i + 1, ranges[i].1, style);
        let rest = marked_from(content, ranges, i + 1, ranges[i].1, style);
        let head = marked.take(marked.len() - rest.len());
        assert(marked =~= head + rest);
        lemma_hits_add(head, rest, rest.len() as int);
        assert forall|k: int| 0 <= k < marked.len() implies ({
            let m = #[trigger] marked[k];
            &&& m.span.style.fg == style.fg
            &&& m.span.style.bg == style.bg
            &&& m.hit ==> m.span.style.add_modifier.reversed
            &&& !m.hit ==> m.span.style == style
        }) by {
            if k >= head.len() {
                assert(marked[k] == rest[k - head.len()]);
            }
        }
    }
}

proof fn lemma_hits_add(a: Seq<Marked>, b: Seq<Marked>, n: int)
    requires
        0 <= n <= b.len(),
    ensures
        hits(a + b, a.len() + n).len() == hits(a, a.len() as int).len() + hits(b, n).len(),
    decreases n,
{
    if n > 0 {
        lemma_hits_add(a, b, n - 1);
        assert((a + b)[a.len() + n - 1] == b[n - 1]);
    } else {
        lemma_hits_of_prefix(a + b, a, a.len() as int);
    }
}

/// A search changes neither the number of lines nor, without a query, anything
/// at all.
pub proof fn lemma_searches_keep_the_lines(lines: Seq<Seq<SpanView>>, query: Seq<char>)
    ensures
        searched(lines, query).len() == lines.len(),
        unicode::lower_text(query).len() == 0 ==> searched(lines, query) == lines && searched_hits(
            lines,
            query,
        ).len() == 0,
        unicode::lower_text(query).len() > 0 ==> searched_hits(lines, query).len() == lines.len(),
{
}

/// The active match is drawn bold and every other span as before; the text
/// stays.
pub proof fn lemma_the_active_match_is_bold(
    lines: Seq<Seq<SpanView>>,
    query: Seq<char>,
    line: usize,
    at: int,
    i: int,
)
    requires
        countable(searched(lines, query)),
        unicode::lower_text(query).len() > 0,
        line < lines.len(),
        0 <= at < lines.len(),
        0 <= i < searched(lines, query)[at].len(),
    ensures
        ({
            let base = searched(lines, query);
            let after = activated_line(base, searched_hits(lines, query), Some(line), true);
            let needle = unicode::lower_text(query);
            let marked = marked_line(lines[at], needle, lines[at].len() as int);
            &&& after.len() == base.len()
            &&& after[at][i].content == base[at][i].content
            &&& after[at][i].style.fg == base[at][i].style.fg
            &&& at != line || !marked[i].hit ==> after[at][i] == base[at][i]
            &&& at == line && marked[i].hit ==> after[at][i].style.add_modifier.bold
        }),
{
    let base = searched(lines, query);
    let needle = unicode::lower_text(query);
    let marked = marked_line(lines[at], needle, lines[at].len() as int);
    assert(base[at] == marked_spans(marked));
    if at == line {
        assert(base[at].len() <= usize::MAX);
        lemma_activated(base[at], marked, true, marked.len() as int);
    }
}

/// Plain lines are the lines of the text, without a style.
pub proof fn lemma_plain_lines_hold_the_text(s: Seq<char>, i: int, k: int)
    requires
        s.len() > 0,
        0 <= i < text::lines_of(s).len(),
    ensures
        plain_lines(s).len() == text::lines_of(s).len(),
        text::line_text(plain_lines(s)[i]) == text::lines_of(s)[i],
        0 <= k < plain_lines(s)[i].len() ==> plain_lines(s)[i][k].style == Style::plain(),
        plain_lines(Seq::empty()) == seq![Seq::<SpanView>::empty()],
{
    let line = plain_lines(s)[i];
    reveal_with_fuel(text::line_text, 2);
    if line.len() > 0 {
        assert(line.drop_last() =~= Seq::empty());
        assert(text::line_text(line) =~= text::lines_of(s)[i]);
    } else {
        assert(text::line_text(line) =~= text::lines_of(s)[i]);
    }
}

// ------------------------------------------------------------- laws of moving

/// A line takes as many rows as its columns need, and never none.
pub proof fn lemma_rows_hold_their_line(line: Seq<char>, width: int)
    requires
        0 < width,
    ensures
        unicode::str_width(line) <= row_count(line, width) * width,
        row_count(line, width) >= 1,
        row_count(line, width) > 1 ==> (row_count(line, width) - 1) * width < unicode::str_width(
            line,
        ),
{
    let columns = unicode::str_width(line) as int;
    assert(columns == width * (columns / width) + columns % width && 0 <= columns % width < width)
        by (nonlinear_arith)
        requires
            0 < width,
            0 <= columns,
    ;
    let q = columns / width;
    assert((q + 1) * width == width * q + width && q * width == width * q && (q - 1) * width
        == width * q - width) by (nonlinear_arith);
    if q < 0 {
        assert(width * q <= -width) by (nonlinear_arith)
            requires
                q < 0,
                0 < width,
        ;
    }
}

/// A line starts where the one before it ends, and the first at the top.
pub proof fn lemma_lines_follow_each_other(lines: Seq<Seq<char>>, width: int, i: int)
    requires
        0 < width,
        0 <= i < lines.len(),
        row_offset(lines, width, i) + row_count(lines[i], width) <= usize::MAX,
    ensures
        row_offset(lines, width, 0) == 0,
        row_offset(lines, width, i + 1) == row_offset(lines, width, i) + row_count(
            lines[i],
            width,
        ),
{
}

/// A search goes on at the first match that is not above the line, or else at
/// the first of all.
pub proof fn lemma_the_next_match_is_taken(matches: Seq<usize>, line: usize, i: int, k: int)
    requires
        0 <= i <= matches.len() <= usize::MAX,
        i <= k < matches.len(),
    ensures
        ({
            let r = match_from(matches, line, i);
            &&& matches[k] >= line ==> i <= r <= k && matches[r as int] >= line
            &&& k < r ==> matches[k] < line
            &&& (forall|j: int| i <= j < matches.len() ==> (#[trigger] matches[j]) < line) ==> r
                == 0
        }),
    decreases matches.len() - i,
{
    if matches[i] < line && i < k {
        lemma_the_next_match_is_taken(matches, line, i + 1, k);
    } else if matches[i] < line {
        if i + 1 < matches.len() {
            lemma_the_next_match_is_taken(matches, line, i + 1, i + 1);
        }
    }
}

/// A new file replaces the one before it and whatever was looked for in it,
/// and work that is still under way is for nothing.
pub proof fn lemma_new_files_start_afresh(
    v: PreviewView,
    file: Option<(Seq<char>, ContentView)>,
    hash: Option<u64>,
)
    ensures
        ({
            let after = v.loaded(file, hash);
            &&& after.file == file
            &&& after.hash == hash
            &&& after.query.len() == 0
            &&& after.matches.len() == 0
            &&& after.cursor == 0
            &&& after.progress is None
            &&& after.highlight_generation != v.highlight_generation
            &&& after.render_generation != v.render_generation
            &&& after.focused == v.focused
            &&& after.paragraph == v.paragraph
        }),
{
}

/// Source text is drawn as it is until it is highlighted, unless an outside
/// program draws it from the start.
pub proof fn lemma_source_text_is_shown(
    v: PreviewView,
    path: Seq<char>,
    content: Seq<char>,
    hash: Option<u64>,
)
    ensures
        v.sourced(path, content, false, hash).file == Some((path, ContentView::Plain(content))),
        v.sourced(path, content, true, hash).file == Some(
            (path, ContentView::Plain(Seq::empty())),
        ),
        v.sourced(path, content, false, hash).progress == Some(ProgressPercent { progress: 0 }),
        v.sourced(path, content, false, hash).query.len() == 0,
        v.sourced(path, content, false, hash).hash == hash,
{
}

/// Highlighted text is taken where it is the latest that was asked for and of
/// the file that is shown; else nothing changes.
pub proof fn lemma_highlighting_is_taken_in(v: PreviewView, generation: u64, syntax: SyntaxText)
    ensures
        v.highlighted(generation, syntax) != v ==> v.file is Some && generation
            == v.highlight_generation && paths::parts(syntax.path@) == paths::parts((v.file->0).0),
        v.file is Some && !((v.file->0).1 is Image) && generation == v.highlight_generation
            && paths::parts(syntax.path@) == paths::parts((v.file->0).0) ==> {
            let after = v.highlighted(generation, syntax);
            &&& after.file == Some(((v.file->0).0, ContentView::Highlighted(syntax)))
            &&& after.progress is None
            &&& after.source() == syntax.source()
            &&& after.unmarked() == syntax.shown()
            &&& after.query == v.query
            &&& after.render_generation != v.render_generation
        },
{
}

/// The text is scrolled to the row that is asked for, but not past its end.
pub proof fn lemma_the_end_stops_scrolling(v: PreviewView, pos: u16)
    ensures
        pos <= v.paragraph.last_start() ==> v.scrolled(pos).paragraph.scroll.y == pos,
        pos > v.paragraph.last_start() ==> v.scrolled(pos).paragraph.scroll.y
            == v.paragraph.last_start(),
        v.scrolled(pos).file == v.file,
        v.scrolled(pos).query == v.query,
        v.scrolled(pos).matches == v.matches,
        v.scrolled(pos).cursor == v.cursor,
{
}

/// The line of the active match is brought into view.
pub proof fn lemma_matches_are_brought_into_view(v: PreviewView)
    requires
        v.cursor < v.matches.len(),
        v.visual_row(v.matches[v.cursor as int]) <= v.paragraph.last_start(),
    ensures
        v.active_line() == Some(v.matches[v.cursor as int]),
        v.at_match().paragraph.scroll.y == v.visual_row(v.matches[v.cursor as int]),
        v.at_match().cursor == v.cursor,
{
}

/// A search takes the first match at or below the line that is seen.
pub proof fn lemma_searches_start_where_one_is(
    v: PreviewView,
    query: Seq<char>,
    line: usize,
    matches: Seq<usize>,
    k: int,
)
    requires
        0 <= k < matches.len() <= usize::MAX,
        matches[k] >= line,
    ensures
        ({
            let after = v.searching(query, line, matches);
            &&& after.query == query
            &&& after.matches == matches
            &&& after.cursor <= k
            &&& matches[after.cursor as int] >= line
            &&& after.active_line() == Some(matches[after.cursor as int])
            &&& after.render_generation != v.render_generation
            &&& after.file == v.file
        }),
{
    lemma_the_next_match_is_taken(matches, line, 0, k);
}

/// Matches are gone through one by one, and round from one end to the other.
pub proof fn lemma_matches_go_round(v: PreviewView)
    requires
        v.wf(),
        0 < v.matches.len() <= usize::MAX,
    ensures
        v.cursor + 1 < v.matches.len() ==> v.stepped(true).cursor == v.cursor + 1,
        v.cursor + 1 == v.matches.len() ==> v.stepped(true).cursor == 0,
        v.cursor > 0 ==> v.stepped(false).cursor == v.cursor - 1,
        v.cursor == 0 ==> v.stepped(false).cursor == v.matches.len() - 1,
        v.stepped(true).wf(),
        v.stepped(false).wf(),
{
}

/// Each way to move leads its own distance through the text.
pub proof fn lemma_where_moves_scroll_to(v: PreviewView)
    requires
        v.paragraph.height >= 2,
        v.paragraph.scroll.y + v.paragraph.height <= u16::MAX,
    ensures
        v.nav_target(MoveSelection::Down) == v.paragraph.scroll.y + 1,
        v.paragraph.scroll.y > 0 ==> v.nav_target(MoveSelection::Up) == v.paragraph.scroll.y - 1,
        v.paragraph.scroll.y == 0 ==> v.nav_target(MoveSelection::Up) == 0,
        v.nav_target(MoveSelection::Home) == 0,
        v.nav_target(MoveSelection::End) == v.paragraph.last_start(),
        v.nav_target(MoveSelection::PageDown) == v.paragraph.scroll.y + (v.paragraph.height - 2),
        v.paragraph.scroll.y >= v.paragraph.height - 2 ==> v.nav_target(MoveSelection::PageUp)
            == v.paragraph.scroll.y - (v.paragraph.height - 2),
        v.paragraph.scroll.y < v.paragraph.height - 2 ==> v.nav_target(MoveSelection::PageUp) == 0,
{
}

// ------------------------------------------------------------ laws of loading

/// A file that is shown and has not changed is left alone: nothing is loaded
/// and nothing is asked for.
pub proof fn lemma_unchanged_files_are_left_alone(
    c: SyntaxTextComponent,
    path: Seq<char>,
    bytes: Seq<u8>,
    hash: u64,
    bat: bool,
)
    requires
        c.previews(path),
        c@.hash == Some(hash),
    ensures
        c.bytes_loaded(path, bytes, hash, bat) == c@,
        c.bytes_actions(path, bytes, hash).len() == 0,
{
}

/// What a file holds decides how it is shown: a picture as one, other binary
/// data by a note, text as text. Whatever it is, it is the file at the path.
pub proof fn lemma_what_a_file_is_shown_as(
    c: SyntaxTextComponent,
    path: Seq<char>,
    bytes: Seq<u8>,
    hash: u64,
    bat: bool,
)
    requires
        !c.previews(path) || c@.hash != Some(hash),
    ensures
        ({
            let after = c.bytes_loaded(path, bytes, hash, bat);
            let actions = c.bytes_actions(path, bytes, hash);
            &&& after.file is Some
            &&& (after.file->0).0 == path
            &&& after.hash == Some(hash)
            &&& images::has_image_signature(bytes) <==> after.is_image()
            &&& images::has_image_signature(bytes) ==> actions.contains(
                PreviewActionView::SetImage(hash),
            )
            &&& !images::has_image_signature(bytes) ==> actions.contains(
                PreviewActionView::ClearImage,
            )
            &&& actions.contains(PreviewActionView::CancelHighlighting)
            &&& !images::has_image_signature(bytes) && (exists|i: int|
                0 <= i < bytes.len() && i < 8000 && #[trigger] bytes[i] == 0) ==> (after.file->0).1
                == ContentView::Plain("binary file"@)
            &&& !images::has_image_signature(bytes) && (forall|i: int|
                0 <= i < bytes.len() && i < 8000 ==> #[trigger] bytes[i] != 0) ==> {
                &&& !bat ==> (after.file->0).1 == ContentView::Plain(source_text(bytes))
                &&& actions.contains(
                    PreviewActionView::Highlight(
                        source_text(bytes),
                        path,
                        after.highlight_generation,
                    ),
                )
            }
        }),
{
    let actions = c.bytes_actions(path, bytes, hash);
    let after = c.bytes_loaded(path, bytes, hash, bat);
    if images::has_image_signature(bytes) {
        assert(actions[0] == PreviewActionView::CancelHighlighting);
        assert(actions[1] == PreviewActionView::SetImage(hash));
    } else if looks_binary(bytes) {
        assert(actions[0] == PreviewActionView::ClearImage);
        assert(actions[1] == PreviewActionView::CancelHighlighting);
    } else {
        assert(actions[0] == PreviewActionView::CancelHighlighting);
        assert(actions[1] == PreviewActionView::ClearImage);
        assert(actions[2] == PreviewActionView::Highlight(
            source_text(bytes),
            path,
            after.highlight_generation,
        ));
    }
}

/// A file that cannot be read is told with its error and looked at again the
/// next time.
pub proof fn lemma_unreadable_files_are_told(
    c: SyntaxTextComponent,
    path: Seq<char>,
    error: String,
    bat: bool,
)
    ensures
        ({
            let after = c.file_loaded(path, Err(error), bat);
            &&& after.file == Some((path, ContentView::Plain("error loading file: "@ + error@)))
            &&& after.hash is None
            &&& c.file_actions(path, Err(error)).contains(PreviewActionView::ClearImage)
            &&& c.file_actions(path, Err(error)).contains(PreviewActionView::CancelHighlighting)
        }),
{
    let actions = c.file_actions(path, Err(error));
    assert(actions[0] == PreviewActionView::ClearImage);
    assert(actions[1] == PreviewActionView::CancelHighlighting);
}

/// Keys step through the matches where there are some, other moves scroll, and an
/// image takes no keys.
pub proof fn lemma_keys_of_the_preview(v: PreviewView, press: KeyPress, nav: MoveSelection)
    ensures
        v.is_image() ==> v.keyed(press, Some(nav)) == v && !v.uses(press, Some(nav)),
        !v.is_image() && v.matches.len() > 0 && press.is_only(Key::DiffHunkNext) ==> v.keyed(
            press,
            None,
        ) == v.stepped(true) && v.uses(press, None),
        !v.is_image() && v.matches.len() > 0 && press.is_only(Key::DiffHunkPrev) ==> v.keyed(
            press,
            None,
        ) == v.stepped(false) && v.uses(press, None),
        !v.is_image() && v.matches.len() == 0 ==> v.keyed(press, Some(nav)) == v.scrolled(
            v.nav_target(nav),
        ),
        !press.has(Key::DiffHunkNext) && !press.has(Key::DiffHunkPrev) ==> v.keyed(press, None)
            == v && !v.uses(press, None),
        v.keyed(press, Some(nav)).file == v.file,
        v.keyed(press, Some(nav)).query == v.query,
{
}

} // verus!
