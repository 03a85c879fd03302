//! A paragraph of wrapped text that can be scrolled.
use crate::popups::PlacedRow;
use vstd::prelude::*;

verus! {

/// How a line stands in its area.
#[derive(Clone, Copy, Debug, PartialEq, Eq, Structural)]
pub enum Alignment {
    Left,
    Center,
    Right,
}

/// The column that a line starts at.
pub open spec fn line_offset(line_width: int, area_width: int, alignment: Alignment) -> int {
    let offset = match alignment {
        Alignment::Center => area_width / 2 - line_width / 2,
        Alignment::Right => area_width - line_width,
        Alignment::Left => 0,
    };
    if offset < 0 {
        0
    } else {
        offset
    }
}

/// The column that a line starts at.
pub fn get_line_offset(line_width: u16, text_area_width: u16, alignment: Alignment) -> (r: u16)
    ensures
        r == line_offset(line_width as int, text_area_width as int, alignment),
{
    match alignment {
        Alignment::Center => (text_area_width / 2).saturating_sub(line_width / 2),
        Alignment::Right => text_area_width.saturating_sub(line_width),
        Alignment::Left => 0,
    }
}

/// How far a paragraph is scrolled.
#[derive(Clone, Copy, Debug, PartialEq, Eq, Structural)]
pub struct ScrollPos {
    pub x: u16,
    pub y: u16,
}

impl Default for ScrollPos {
    fn default() -> (r: ScrollPos)
        ensures
            r == (ScrollPos { x: 0, y: 0 }),
    {
        ScrollPos { x: 0, y: 0 }
    }
}

/// How a paragraph was laid out last.
#[derive(Clone, Debug)]
pub struct ParagraphState {
    pub scroll: ScrollPos,
    /// how many rows the text takes up
    pub lines: u16,
    /// the height that the paragraph was last drawn in
    pub height: u16,
    pub layout_width: u16,
    /// what content was laid out
    pub layout_key: u64,
    pub lines_valid: bool,
    /// the row that each line of the text starts at
    pub line_offsets: Vec<u16>,
}

impl Default for ParagraphState {
    fn default() -> (r: ParagraphState)
        ensures
            r.scroll == (ScrollPos { x: 0, y: 0 }),
            r.lines == 0,
            r.height == 0,
            r.layout_width == 0,
            r.layout_key == 0,
            !r.lines_valid,
            r.line_offsets@.len() == 0,
    {
        ParagraphState {
            scroll: ScrollPos { x: 0, y: 0 },
            lines: 0,
            height: 0,
            layout_width: 0,
            layout_key: 0,
            lines_valid: false,
            line_offsets: Vec::new(),
        }
    }
}

/// How many rows the first `n` lines take up, as far as that can be counted.
pub open spec fn rows_before(rows: Seq<usize>, n: int) -> int
    decreases n,
{
    if n <= 0 {
        0
    } else {
        let sum = rows_before(rows, n - 1) + rows[n - 1];
        if sum > u16::MAX {
            u16::MAX as int
        } else {
            sum
        }
    }
}

/// How many of the offsets from the start are at most `y`.
pub open spec fn offsets_up_to(offsets: Seq<u16>, y: u16, i: int) -> int
    decreases offsets.len() - i,
{
    if 0 <= i < offsets.len() && offsets[i] <= y {
        offsets_up_to(offsets, y, i + 1)
    } else {
        i
    }
}

/// The rows of an area, from a row of a line on that is row `at` of the text, if
/// rows before `scroll` are scrolled away and `height` rows fit.
pub open spec fn placed_from(
    rows: Seq<usize>,
    line: int,
    row: int,
    at: int,
    scroll: int,
    height: int,
) -> Seq<PlacedRow>
    decreases rows.len() - line, rows[line] - row,
{
    if line < 0 || line >= rows.len() {
        Seq::empty()
    } else if row >= rows[line] {
        placed_from(rows, line + 1, 0, at, scroll, height)
    } else {
        let here = if at >= scroll {
            seq![PlacedRow { line: line as usize, row: row as usize, y: (at - scroll) as u16 }]
        } else {
            Seq::empty()
        };
        if at + 1 >= scroll + height {
            here
        } else {
            here + placed_from(rows, line, row + 1, at + 1, scroll, height)
        }
    }
}

/// The line that the part of a text after some rows starts in, and the row that
/// this line starts at.
pub open spec fn start_of(offsets: Seq<u16>, scroll: u16) -> (int, u16) {
    let n = offsets_up_to(offsets, scroll, 0);
    let line = if n > 0 {
        n - 1
    } else {
        0
    };
    (
        line,
        if line < offsets.len() {
            offsets[line]
        } else {
            0
        },
    )
}

/// The rows of an area: they start in the line that the scroll position lies in.
pub open spec fn placed(offsets: Seq<u16>, rows: Seq<usize>, scroll: u16, height: u16) -> Seq<
    PlacedRow,
> {
    let (line, at) = start_of(offsets, scroll);
    placed_from(rows, line, 0, at as int, scroll as int, height as int)
}

/// The row that each line starts at.
pub open spec fn offsets_of(rows: Seq<usize>) -> Seq<u16> {
    Seq::new(rows.len(), |i: int| rows_before(rows, i) as u16)
}

impl ParagraphState {
    /// How many rows the text takes up.
    pub fn lines(&self) -> (r: u16)
        ensures
            r == self.lines,
    {
        self.lines
    }

    /// The height that the paragraph was last drawn in.
    pub fn height(&self) -> (r: u16)
        ensures
            r == self.height,
    {
        self.height
    }

    /// How far the paragraph is scrolled.
    pub fn scroll(&self) -> (r: ScrollPos)
        ensures
            r == self.scroll,
    {
        self.scroll
    }

    /// Scroll the paragraph.
    pub fn set_scroll(&mut self, scroll: ScrollPos)
        ensures
            *final(self) == (ParagraphState { scroll, ..*old(self) }),
    {
        self.scroll = scroll;
    }

    /// Whether the text has to be laid out again.
    pub open spec fn is_outdated(self, width: u16, key: u64) -> bool {
        !self.lines_valid || self.layout_width != width || self.layout_key != key
    }

    /// Whether the text has to be laid out again.
    pub fn layout_changed(&self, width: u16, key: u64) -> (r: bool)
        ensures
            r == self.is_outdated(width, key),
    {
        !self.lines_valid || self.layout_width != width || self.layout_key != key
    }

    /// Take in how many rows each line of the text is wrapped to.
    pub fn measure_layout(&mut self, width: u16, key: u64, rows: &Vec<usize>)
        ensures
            final(self).line_offsets@ == offsets_of(rows@),
            *final(self) == (ParagraphState {
                lines: rows_before(rows@, rows@.len() as int) as u16,
                layout_width: width,
                layout_key: key,
                lines_valid: true,
                line_offsets: final(self).line_offsets,
                ..*old(self)
            }),
    {
        let mut offsets: Vec<u16> = Vec::new();
        let mut total: u16 = 0;
        for i in 0..rows.len()
            invariant
                total == rows_before(rows@, i as int),
                offsets@ =~= Seq::new(i as nat, |j: int| rows_before(rows@, j) as u16),
        {
            offsets.push(total);
            let room: u16 = u16::MAX - total;
            if rows[i] > room as usize {
                total = u16::MAX;
            } else {
                total = total + rows[i] as u16;
            }
        }
        self.line_offsets = offsets;
        self.lines = total;
        self.layout_width = width;
        self.layout_key = key;
        self.lines_valid = true;
    }

    /// The line that the shown part starts in, and the row that this line
    /// starts at.
    pub open spec fn start(self) -> (int, u16) {
        start_of(self.line_offsets@, self.scroll.y)
    }

    /// The line that the shown part starts in, and the row that this line
    /// starts at. Offsets only grow, so those up to the scroll position come
    /// first.
    pub fn start_line(&self) -> (r: (usize, u16))
        ensures
            (r.0 as int, r.1) == self.start(),
    {
        let offsets = &self.line_offsets;
        let mut n: usize = 0;
        while n < offsets.len() && offsets[n] <= self.scroll.y
            invariant
                offsets@ == self.line_offsets@,
                n <= offsets@.len(),
                offsets_up_to(offsets@, self.scroll.y, n as int) == offsets_up_to(
                    offsets@,
                    self.scroll.y,
                    0,
                ),
            decreases offsets@.len() - n,
        {
            n += 1;
        }
        let line: usize = n.saturating_sub(1);
        let row: u16 = if line < offsets.len() {
            offsets[line]
        } else {
            0
        };
        (line, row)
    }

    /// How many columns of each row are scrolled away: only rows that are not
    /// wrapped and start on the left can be.
    pub fn horizontal_offset(&self, wrap: bool, alignment: Alignment) -> (r: u16)
        ensures
            r == if !wrap && alignment == Alignment::Left {
                self.scroll.x
            } else {
                0
            },
    {
        match (wrap, alignment) {
            (false, Alignment::Left) => self.scroll.x,
            _ => 0,
        }
    }

    /// Lay the text out again if it has to be, and tell which rows of which lines
    /// the area shows, from the top down. `rows` tells how many rows each line is
    /// wrapped to. An area without room for a row shows none and changes nothing.
    pub fn render(
        &mut self,
        area_height: u16,
        text_width: u16,
        text_height: u16,
        key: u64,
        rows: &Vec<usize>,
    ) -> (r: Vec<PlacedRow>)
        requires
            old(self).scroll.y + text_height <= u16::MAX,
        ensures
            text_height < 1 ==> r@.len() == 0 && *final(self) == *old(self),
            text_height >= 1 ==> {
                let outdated = old(self).is_outdated(text_width, key);
                &&& final(self).line_offsets@ == if outdated {
                    offsets_of(rows@)
                } else {
                    old(self).line_offsets@
                }
                &&& *final(self) == (ParagraphState {
                    scroll: old(self).scroll,
                    lines: if outdated {
                        rows_before(rows@, rows@.len() as int) as u16
                    } else {
                        old(self).lines
                    },
                    height: area_height,
                    layout_width: text_width,
                    layout_key: key,
                    lines_valid: true,
                    line_offsets: final(self).line_offsets,
                })
                &&& r@ == placed(
                    final(self).line_offsets@,
                    rows@,
                    old(self).scroll.y,
                    text_height,
                )
            },
    {
        let mut out: Vec<PlacedRow> = Vec::new();
        if text_height < 1 {
            return out;
        }
        if self.layout_changed(text_width, key) {
            self.measure_layout(text_width, key, rows);
        }
        let (start, offset) = self.start_line();
        let ghost expected = placed(self.line_offsets@, rows@, self.scroll.y, text_height);
        let scroll: u16 = self.scroll.y;
        let mut line: usize = start;
        let mut row: usize = 0;
        let mut at: u16 = offset;
        let mut full = false;
        while line < rows.len() && !full
            invariant
                scroll == self.scroll.y,
                scroll + text_height <= u16::MAX,
                full ==> out@ == expected,
                !full ==> expected == out@ + placed_from(
                    rows@,
                    line as int,
                    row as int,
                    at as int,
                    scroll as int,
                    text_height as int,
                ),
            decreases rows@.len() - line, (if full { 0int } else { 1int }), if line < rows@.len() {
                rows@[line as int] - row
            } else {
                0
            },
        {
            if row >= rows[line] {
                line += 1;
                row = 0;
            } else {
                let ghost before = out@;
                if at >= scroll {
                    out.push(PlacedRow { line, row, y: at - scroll });
                }
                assert(out@ =~= before + if at >= scroll {
                    seq![PlacedRow { line, row, y: (at - scroll) as u16 }]
                } else {
                    Seq::empty()
                });
                full = at as u32 + 1 >= scroll as u32 + text_height as u32;
                if !full {
                    at += 1;
                    row += 1;
                }
                assert(full ==> out@ =~= expected);
                assert(!full ==> expected =~= out@ + placed_from(
                    rows@,
                    line as int,
                    row as int,
                    at as int,
                    scroll as int,
                    text_height as int,
                ));
            }
        }
        assert(out@ =~= expected);
        self.height = area_height;
        out
    }

    /// The last row that the paragraph can be scrolled to.
    pub open spec fn last_start(self) -> u16 {
        let rows = if self.height >= 2 {
            self.height - 2
        } else {
            0
        };
        if self.lines >= rows {
            (self.lines - rows) as u16
        } else {
            0
        }
    }

    /// The last row that the paragraph can be scrolled to, so that its area,
    /// borders left out, stays full.
    pub fn max_scroll(&self) -> (r: u16)
        ensures
            r == self.last_start(),
    {
        self.lines.saturating_sub(self.height.saturating_sub(2))
    }
}

proof fn lemma_placed_from(
    rows: Seq<usize>,
    line: int,
    row: int,
    at: int,
    scroll: int,
    height: int,
    total: int,
)
    requires
        0 <= line <= rows.len(),
        line < rows.len() ==> 0 <= row <= rows[line],
        line == rows.len() ==> row == 0,
        at == rows_before(rows, line) + row,
        rows.len() <= usize::MAX,
        total == rows_before(rows, rows.len() as int) < u16::MAX,
        0 <= at < scroll + height <= u16::MAX,
        0 <= scroll,
        height >= 1,
    ensures
        ({
            let all = placed_from(rows, line, row, at, scroll, height);
            let first = if at >= scroll {
                at
            } else {
                scroll
            };
            let end = if total < scroll + height {
                total
            } else {
                scroll + height
            };
            &&& all.len() == if first < end {
                end - first
            } else {
                0
            }
            &&& forall|k: int|
                0 <= k < all.len() ==> {
                    let p = #[trigger] all[k];
                    &&& p.line < rows.len()
                    &&& p.row < rows[p.line as int]
                    &&& p.y == first - scroll + k
                    &&& rows_before(rows, p.line as int) + p.row == scroll + p.y
                }
        }),
    decreases rows.len() - line, rows[line] - row,
{
    lemma_offsets_grow(rows, line, rows.len() as int);
    if line < rows.len() {
        lemma_offsets_grow(rows, line + 1, rows.len() as int);
        if row >= rows[line] {
            lemma_placed_from(rows, line + 1, 0, at, scroll, height, total);
        } else if at + 1 < scroll + height {
            lemma_placed_from(rows, line, row + 1, at + 1, scroll, height, total);
            let all = placed_from(rows, line, row, at, scroll, height);
            let rest = placed_from(rows, line, row + 1, at + 1, scroll, height);
            if at >= scroll {
                assert forall|k: int| 0 <= k < all.len() implies {
                    let p = #[trigger] all[k];
                    &&& p.line < rows.len()
                    &&& p.row < rows[p.line as int]
                    &&& p.y == at - scroll + k
                    &&& rows_before(rows, p.line as int) + p.row == scroll + p.y
                } by {
                    if k > 0 {
                        assert(all[k] == rest[k - 1]);
                    }
                }
            } else {
                assert(all =~= rest);
            }
        }
    }
}

proof fn lemma_start(rows: Seq<usize>, scroll: u16, i: int)
    requires
        0 <= i <= rows.len(),
    ensures
        i <= offsets_up_to(offsets_of(rows), scroll, i) <= rows.len(),
        i < offsets_up_to(offsets_of(rows), scroll, i) ==> offsets_of(rows)[offsets_up_to(
            offsets_of(rows),
            scroll,
            i,
        ) - 1] <= scroll,
    decreases rows.len() - i,
{
    if i < rows.len() && offsets_of(rows)[i] <= scroll {
        lemma_start(rows, scroll, i + 1);
    }
}

/// The area shows the rows of the text from the scroll position on, each in its
/// place: as many as fit, or as there are. Texts with more rows than can be
/// counted are left out.
pub proof fn lemma_rows_follow_the_scroll(rows: Seq<usize>, scroll: u16, height: u16)
    requires
        rows.len() <= usize::MAX,
        rows_before(rows, rows.len() as int) < u16::MAX,
        height >= 1,
        scroll + height <= u16::MAX,
    ensures
        ({
            let all = placed(offsets_of(rows), rows, scroll, height);
            let total = rows_before(rows, rows.len() as int);
            &&& all.len() == if total <= scroll {
                0
            } else if total < scroll + height {
                total - scroll
            } else {
                height as int
            }
            &&& forall|k: int|
                0 <= k < all.len() ==> {
                    let p = #[trigger] all[k];
                    &&& p.y == k
                    &&& p.line < rows.len()
                    &&& p.row < rows[p.line as int]
                    &&& rows_before(rows, p.line as int) + p.row == scroll + k
                }
        }),
{
    let offsets = offsets_of(rows);
    lemma_start(rows, scroll, 0);
    let (line, at) = start_of(offsets, scroll);
    if rows.len() > 0 {
        lemma_offsets_grow(rows, 0, line);
        assert(offsets[0] == 0);
        assert(offsets_up_to(offsets, scroll, 0) == offsets_up_to(offsets, scroll, 1));
        lemma_start(rows, scroll, 1);
    }
    lemma_placed_from(
        rows,
        line,
        0,
        at as int,
        scroll as int,
        height as int,
        rows_before(rows, rows.len() as int),
    );
}

/// Offsets never shrink from line to line.
pub proof fn lemma_offsets_grow(rows: Seq<usize>, i: int, j: int)
    requires
        0 <= i <= j <= rows.len(),
    ensures
        0 <= rows_before(rows, i) <= rows_before(rows, j) <= u16::MAX,
    decreases j,
{
    if i < j {
        lemma_offsets_grow(rows, i, j - 1);
    } else if j > 0 {
        lemma_offsets_grow(rows, i - 1, j - 1);
    }
}

/// A line stands at the left, at the right, or with as much room on either side
/// up to a column; one that is too wide starts at the left.
pub proof fn lemma_lines_are_aligned(line_width: int, area_width: int)
    requires
        0 <= line_width <= area_width,
    ensures
        line_offset(line_width, area_width, Alignment::Left) == 0,
        line_offset(line_width, area_width, Alignment::Right) + line_width == area_width,
        ({
            let left = line_offset(line_width, area_width, Alignment::Center);
            let right = area_width - line_width - left;
            -1 <= left - right <= 1
        }),
{
}

/// A line that is too wide starts at the left.
pub proof fn lemma_wide_lines_start_at_the_left(
    line_width: int,
    area_width: int,
    alignment: Alignment,
)
    requires
        0 <= area_width <= line_width,
    ensures
        line_offset(line_width, area_width, alignment) == 0,
{
}

/// At the last start the last row stands at the lower border; a text that fits
/// starts at its top.
pub proof fn lemma_the_last_row_is_reached(p: ParagraphState)
    ensures
        p.height >= 2 && p.lines >= p.height - 2 ==> p.last_start() + (p.height - 2) == p.lines,
        p.height >= 2 && p.lines < p.height - 2 ==> p.last_start() == 0,
        p.height < 2 ==> p.last_start() == p.lines,
{
}

/// A text is laid out anew where it has changed or where the width has.
pub proof fn lemma_when_a_layout_is_outdated(p: ParagraphState, width: u16, key: u64)
    ensures
        !p.is_outdated(width, key) <==> p.lines_valid && p.layout_width == width && p.layout_key
            == key,
{
}

/// A line starts behind all rows of the lines before it.
pub proof fn lemma_offsets_add_up(rows: Seq<usize>, i: int)
    requires
        0 <= i < rows.len(),
        rows_before(rows, i) + rows[i] <= u16::MAX,
    ensures
        offsets_of(rows)[0] == 0,
        rows_before(rows, i + 1) == rows_before(rows, i) + rows[i],
        i + 1 < rows.len() ==> offsets_of(rows)[i + 1] == offsets_of(rows)[i] + rows[i],
{
    lemma_offsets_grow(rows, 0, i);
    lemma_offsets_grow(rows, i, i + 1);
    lemma_offsets_grow(rows, i + 1, rows.len() as int);
}

} // verus!
