//! The diff of one file: what is selected in it, what is shown of it and how
//! it reacts to keys.
use crate::asyncgit::diff::DiffType;
use crate::asyncgit::sync::{DiffLine, DiffLinePosition, DiffLineType, FileDiff, Hunk};
use crate::components::async_delta::{self, DeltaParams, ProcessedDelta};
use crate::components::{
    Command, CommandBlocking, CommandInfo, Direction, EventState, HorizontalScrollType, Key,
    KeyPress, ScrollType,
};
use crate::text::{self, chars_of, Line, Span, SpanView, Style};
use crate::unicode;
use vstd::prelude::*;
use vstd::string::*;

verus! {

/// How a diff is displayed.
#[derive(Clone, Copy, Debug, PartialEq, Eq, Structural)]
pub enum DiffMode {
    Unified,
    DeltaSideBySide,
}

impl Default for DiffMode {
    fn default() -> (r: DiffMode)
        ensures
            r == DiffMode::DeltaSideBySide,
    {
        DiffMode::DeltaSideBySide
    }
}

/// The diff that is shown.
#[derive(Debug, PartialEq, Eq)]
pub struct Current {
    pub path: String,
    pub is_stage: bool,
    pub hash: u64,
    pub diff_type: DiffType,
}

impl Current {
    pub open spec fn is_nothing(self) -> bool {
        self.path@.len() == 0 && !self.is_stage && self.hash == 0 && self.diff_type
            == DiffType::WorkDir
    }
}

impl Default for Current {
    fn default() -> (r: Current)
        ensures
            r.is_nothing(),
    {
        Current { path: String::new(), is_stage: false, hash: 0, diff_type: DiffType::WorkDir }
    }
}

/// One line, or the lines between a start and an end in either order.
#[derive(Clone, Copy, Debug, PartialEq, Eq, Structural)]
pub enum Selection {
    Single(usize),
    Multiple(usize, usize),
}

impl Selection {
    pub open spec fn start(self) -> usize {
        match self {
            Selection::Single(start) => start,
            Selection::Multiple(start, _) => start,
        }
    }

    pub open spec fn end(self) -> usize {
        match self {
            Selection::Single(end) => end,
            Selection::Multiple(_, end) => end,
        }
    }

    pub open spec fn top(self) -> usize {
        if self.start() <= self.end() {
            self.start()
        } else {
            self.end()
        }
    }

    pub open spec fn bottom(self) -> usize {
        if self.start() <= self.end() {
            self.end()
        } else {
            self.start()
        }
    }

    /// Whether a line is selected: it lies between the two ends.
    pub open spec fn has(self, index: int) -> bool {
        self.top() <= index <= self.bottom()
    }

    /// The selection with its end moved by one line.
    pub open spec fn extended(self, direction: Direction, max: usize) -> Selection {
        match direction {
            Direction::Up => Selection::Multiple(
                self.start(),
                if self.end() > 0 {
                    (self.end() - 1) as usize
                } else {
                    0
                },
            ),
            Direction::Down => Selection::Multiple(
                self.start(),
                if self.end() < max {
                    (self.end() + 1) as usize
                } else {
                    max
                },
            ),
        }
    }

    pub fn get_start(&self) -> (r: usize)
        ensures
            r == self.start(),
    {
        match self {
            Selection::Single(start) => *start,
            Selection::Multiple(start, _) => *start,
        }
    }

    pub fn get_end(&self) -> (r: usize)
        ensures
            r == self.end(),
    {
        match self {
            Selection::Single(end) => *end,
            Selection::Multiple(_, end) => *end,
        }
    }

    fn get_top(&self) -> (r: usize)
        ensures
            r == self.top(),
    {
        let start: usize = self.get_start();
        let end: usize = self.get_end();
        if start <= end {
            start
        } else {
            end
        }
    }

    fn get_bottom(&self) -> (r: usize)
        ensures
            r == self.bottom(),
    {
        let start: usize = self.get_start();
        let end: usize = self.get_end();
        if start <= end {
            end
        } else {
            start
        }
    }

    /// Move the end of the selection by one line.
    pub fn modify(&mut self, direction: Direction, max: usize)
        ensures
            *final(self) == old(self).extended(direction, max),
    {
        let start: usize = self.get_start();
        let old_end: usize = self.get_end();
        let end: usize = match direction {
            Direction::Up => old_end.saturating_sub(1),
            Direction::Down => if old_end < max {
                old_end + 1
            } else {
                max
            },
        };
        *self = Selection::Multiple(start, end);
    }

    /// Whether a line is selected.
    pub fn contains(&self, index: usize) -> (r: bool)
        ensures
            r == self.has(index as int),
    {
        self.get_top() <= index && index <= self.get_bottom()
    }
}

/// Extending a selection down and back up, away from the first and the last
/// line, brings it back.
pub proof fn lemma_extending_back(s: Selection, max: usize)
    requires
        s.end() < max,
    ensures
        s.extended(Direction::Down, max).extended(Direction::Up, max).start() == s.start(),
        s.extended(Direction::Down, max).extended(Direction::Up, max).end() == s.end(),
{
}

/// Extending a selection never moves where it started.
pub proof fn lemma_extending_keeps_the_start(s: Selection, direction: Direction, max: usize)
    ensures
        s.extended(direction, max).start() == s.start(),
        s.extended(direction, max).has(s.start() as int),
{
}

// -------------------------------------------------------- lines of a diff

/// All lines of all hunks, in order.
pub open spec fn flat_lines(hunks: Seq<Hunk>) -> Seq<DiffLine>
    decreases hunks.len(),
{
    if hunks.len() == 0 {
        Seq::empty()
    } else {
        flat_lines(hunks.drop_last()) + hunks.last().lines@
    }
}

/// How many lines the first `n` hunks have.
pub open spec fn lines_before(hunks: Seq<Hunk>, n: int) -> int
    decreases n,
{
    if n <= 0 {
        0
    } else {
        lines_before(hunks, n - 1) + hunks[n - 1].lines@.len()
    }
}

/// The first hunk from `i` on that holds the given line.
pub open spec fn hunk_from(hunks: Seq<Hunk>, i: int, line: int) -> Option<usize>
    decreases hunks.len() - i,
{
    if i >= hunks.len() {
        None
    } else if lines_before(hunks, i) <= line < lines_before(hunks, i + 1) {
        Some(i as usize)
    } else {
        hunk_from(hunks, i + 1, line)
    }
}

/// The hunk that holds the given line.
pub open spec fn hunk_at(hunks: Seq<Hunk>, line: int) -> Option<usize> {
    hunk_from(hunks, 0, line)
}

proof fn lemma_flat_len(hunks: Seq<Hunk>)
    ensures
        flat_lines(hunks).len() == lines_before(hunks, hunks.len() as int),
    decreases hunks.len(),
{
    if hunks.len() > 0 {
        lemma_flat_len(hunks.drop_last());
        lemma_before_prefix(hunks, hunks.drop_last(), hunks.len() - 1);
    }
}

proof fn lemma_before_prefix(a: Seq<Hunk>, b: Seq<Hunk>, n: int)
    requires
        n <= a.len(),
        n <= b.len(),
        forall|i: int| 0 <= i < n ==> #[trigger] a[i] == b[i],
    ensures
        lines_before(a, n) == lines_before(b, n),
    decreases n,
{
    if n > 0 {
        lemma_before_prefix(a, b, n - 1);
    }
}

proof fn lemma_lines_grow(hunks: Seq<Hunk>, i: int, n: int)
    requires
        0 <= i <= n <= hunks.len(),
    ensures
        0 <= lines_before(hunks, i) <= lines_before(hunks, n),
    decreases n,
{
    if i < n {
        lemma_lines_grow(hunks, i, n - 1);
    } else if n > 0 {
        lemma_lines_grow(hunks, i - 1, n - 1);
    }
}

/// The lines of all hunks, one after the other.
fn flatten(hunks: &Vec<Hunk>) -> (r: Vec<&DiffLine>)
    ensures
        r@.len() == flat_lines(hunks@).len(),
        forall|i: int| 0 <= i < r@.len() ==> *(#[trigger] r@[i]) == flat_lines(hunks@)[i],
{
    let mut out: Vec<&DiffLine> = Vec::new();
    for h in 0..hunks.len()
        invariant
            out@.len() == flat_lines(hunks@.take(h as int)).len(),
            forall|i: int|
                0 <= i < out@.len() ==> *(#[trigger] out@[i]) == flat_lines(
                    hunks@.take(h as int),
                )[i],
    {
        let ghost before = flat_lines(hunks@.take(h as int));
        assert(hunks@.take(h + 1).drop_last() =~= hunks@.take(h as int));
        let lines = &hunks[h].lines;
        for l in 0..lines.len()
            invariant
                lines@ == hunks@[h as int].lines@,
                out@.len() == before.len() + l,
                forall|i: int| 0 <= i < before.len() ==> *(#[trigger] out@[i]) == before[i],
                forall|i: int|
                    before.len() <= i < out@.len() ==> *(#[trigger] out@[i]) == lines@[i
                        - before.len()],
        {
            out.push(&lines[l]);
        }
    }
    assert(hunks@.take(hunks@.len() as int) =~= hunks@);
    out
}

/// The new file's number of the first line of which the flat index is `i`.
pub open spec fn new_line_at(hunks: Seq<Hunk>, i: int) -> Option<u32> {
    if i < flat_lines(hunks).len() {
        flat_lines(hunks)[i].position.new_lineno
    } else {
        None
    }
}

/// The positions of the selected changed lines among the first `n`.
pub open spec fn changed_positions(lines: Seq<DiffLine>, sel: Selection, n: int) -> Seq<
    DiffLinePosition,
>
    decreases n,
{
    if n <= 0 {
        Seq::empty()
    } else {
        let before = changed_positions(lines, sel, n - 1);
        let t = lines[n - 1].line_type;
        if sel.has(n - 1) && (t == DiffLineType::Add || t == DiffLineType::Delete) {
            before.push(lines[n - 1].position)
        } else {
            before
        }
    }
}

/// The known positions of the selected rows among the first `n`.
pub open spec fn known_positions(rows: Seq<Option<DiffLinePosition>>, sel: Selection, n: int) -> Seq<
    DiffLinePosition,
>
    decreases n,
{
    if n <= 0 {
        Seq::empty()
    } else {
        let before = known_positions(rows, sel, n - 1);
        match rows[n - 1] {
            Some(p) if sel.has(n - 1) => before.push(p),
            _ => before,
        }
    }
}

/// Whether a character ends a line.
pub open spec fn is_line_end(c: char) -> bool {
    c == '\n' || c == '\r'
}

/// `s` without line ends at its start.
pub open spec fn without_leading_ends(s: Seq<char>) -> Seq<char>
    decreases s.len(),
{
    if s.len() > 0 && is_line_end(s[0]) {
        without_leading_ends(s.drop_first())
    } else {
        s
    }
}

/// `s` without line ends at its end.
pub open spec fn without_trailing_ends(s: Seq<char>) -> Seq<char>
    decreases s.len(),
{
    if s.len() > 0 && is_line_end(s.last()) {
        without_trailing_ends(s.drop_last())
    } else {
        s
    }
}

/// The selected lines among the first `n`, without their line ends.
pub open spec fn selected_texts(lines: Seq<DiffLine>, sel: Selection, n: int) -> Seq<Seq<char>>
    decreases n,
{
    if n <= 0 {
        Seq::empty()
    } else {
        let before = selected_texts(lines, sel, n - 1);
        if sel.has(n - 1) {
            before.push(without_trailing_ends(without_leading_ends(lines[n - 1].content@)))
        } else {
            before
        }
    }
}

fn push_without_line_ends(out: &mut Vec<char>, s: &str)
    ensures
        final(out)@ == old(out)@ + without_trailing_ends(without_leading_ends(s@)),
{
    let chars = chars_of(s);
    let n: usize = chars.len();
    let mut from: usize = 0;
    assert(s@.subrange(0, n as int) =~= s@);
    while from < n && (chars[from] == '\n' || chars[from] == '\r')
        invariant
            chars@ == s@,
            n == s@.len(),
            from <= n,
            without_leading_ends(s@.subrange(from as int, n as int)) == without_leading_ends(s@),
        decreases n - from,
    {
        assert(s@.subrange(from as int, n as int).drop_first() =~= s@.subrange(
            from + 1,
            n as int,
        ));
        from += 1;
    }
    let ghost led = without_leading_ends(s@);
    assert(led == s@.subrange(from as int, n as int));
    let mut to: usize = n;
    while to > from && (chars[to - 1] == '\n' || chars[to - 1] == '\r')
        invariant
            chars@ == s@,
            n == s@.len(),
            from <= to <= n,
            without_trailing_ends(s@.subrange(from as int, to as int)) == without_trailing_ends(
                led,
            ),
        decreases to,
    {
        assert(s@.subrange(from as int, to as int).drop_last() =~= s@.subrange(
            from as int,
            to - 1,
        ));
        to -= 1;
    }
    let ghost kept = s@.subrange(from as int, to as int);
    for i in from..to
        invariant
            chars@ == s@,
            from <= to <= n == s@.len(),
            kept == s@.subrange(from as int, to as int),
            out@ =~= old(out)@ + kept.take(i - from),
    {
        out.push(chars[i]);
    }
    assert(kept.take(to - from) =~= kept);
}

/// The selected lines of a diff without their line ends, joined by line breaks.
fn selected_text(hunks: &Vec<Hunk>, sel: Selection) -> (r: String)
    ensures
        r@ == text::joined(
            selected_texts(flat_lines(hunks@), sel, flat_lines(hunks@).len() as int),
            seq!['\n'],
        ),
{
    let ghost all = flat_lines(hunks@);
    let lines = flatten(hunks);
    let mut out: Vec<char> = Vec::new();
    let mut empty = true;
    for i in 0..lines.len()
        invariant
            lines@.len() == all.len(),
            forall|i: int| 0 <= i < all.len() ==> *(#[trigger] lines@[i]) == all[i],
            empty == (selected_texts(all, sel, i as int).len() == 0),
            out@ == text::joined(selected_texts(all, sel, i as int), seq!['\n']),
    {
        if sel.contains(i) {
            let ghost before = selected_texts(all, sel, i as int);
            let ghost part = without_trailing_ends(without_leading_ends(lines@[i as int].content@));
            proof {
                text::lemma_joined_push(before, seq!['\n'], part);
            }
            if !empty {
                out.push('\n');
            }
            push_without_line_ends(&mut out, lines[i].content.as_str());
            empty = false;
            assert(out@ =~= text::joined(before.push(part), seq!['\n']));
        }
    }
    text::string_of(&out)
}

// ---------------------------------------------------------------- component

/// The diff panel.
pub struct DiffComponent {
    pub diff: Option<FileDiff>,
    /// the bytes of the longest line and its marker
    pub longest_line: usize,
    pub pending: bool,
    pub selection: Selection,
    pub selected_hunk: Option<usize>,
    /// the inner width and height of the panel
    pub current_size: (u16, u16),
    pub focused: bool,
    pub current: Current,
    pub is_immutable: bool,
    pub diff_mode: DiffMode,
    /// what delta rendered, if anything
    pub delta: Option<ProcessedDelta>,
    pub last_delta_width: u16,
}

/// What has to be done outside after a key press.
#[derive(Debug, PartialEq, Eq)]
pub enum DiffAction {
    /// scroll the text sideways
    ScrollSideways(HorizontalScrollType),
    /// scroll so that the lines from `start` to `end` show, in a panel of the
    /// given height
    ShowArea { height: usize, start: usize, end: usize },
    /// unstage a hunk; if that fails, report a hunk error and drop the rest
    UnstageHunk { path: String, hash: u64 },
    /// stage a hunk; if that fails, report a hunk error and drop the rest
    StageHunk { path: String, hash: u64 },
    /// stage a file; if that fails, report a hunk error and drop the rest
    StageFile { path: String },
    /// stage or unstage lines; if that fails, report it and go on
    StageLines { path: String, untracked: bool, is_stage: bool, lines: Vec<DiffLinePosition> },
    /// have everything refreshed
    UpdateAll,
    /// ask whether to throw away a file's changes
    ConfirmReset { path: String },
    /// ask whether to throw away a hunk
    ConfirmResetHunk { path: String, hash: u64 },
    /// ask whether to throw away lines
    ConfirmResetLines { path: String, lines: Vec<DiffLinePosition> },
    /// copy text to the clipboard
    Copy(String),
    /// edit a file, at a line if one is known
    OpenEditor { path: String, line: Option<u32> },
    /// find out whether delta is there and toggle the mode
    ToggleMode,
}

/// What a key press asks of the panel.
#[derive(Clone, Copy, Debug, PartialEq, Eq, Structural)]
pub enum DiffIntent {
    Ignore,
    Move(ScrollType),
    Extend(Direction),
    Sideways(HorizontalScrollType),
    NextHunk,
    PreviousHunk,
    StageHunk,
    ResetItem,
    StageLines,
    ResetLines,
    Copy,
    Edit,
    ToggleMode,
}

pub open spec fn capped_sub(n: usize, k: int) -> usize {
    if n >= k {
        (n - k) as usize
    } else {
        0
    }
}

pub open spec fn last_index(len: int) -> usize {
    if len > 0 {
        (len - 1) as usize
    } else {
        0
    }
}

/// Where a move takes a selection among lines up to `max`.
pub open spec fn move_target(sel: Selection, height: u16, max: usize, how: ScrollType) -> usize {
    let page = if height > 0 {
        height - 1
    } else {
        0
    };
    match how {
        ScrollType::Down => if sel.bottom() < max {
            (sel.bottom() + 1) as usize
        } else {
            max
        },
        ScrollType::Up => capped_sub(sel.top(), 1),
        ScrollType::Home => 0,
        ScrollType::End => max,
        ScrollType::PageDown => if sel.bottom() + page < max {
            (sel.bottom() + page) as usize
        } else {
            max
        },
        ScrollType::PageUp => capped_sub(sel.top(), page),
    }
}

fn calc_move_target(sel: Selection, height: u16, max: usize, how: ScrollType) -> (r: usize)
    ensures
        r == move_target(sel, height, max, how),
{
    let page: usize = height.saturating_sub(1) as usize;
    match how {
        ScrollType::Down => {
            let next: usize = sel.get_bottom().saturating_add(1);
            if next < max {
                next
            } else {
                max
            }
        },
        ScrollType::Up => sel.get_top().saturating_sub(1),
        ScrollType::Home => 0,
        ScrollType::End => max,
        ScrollType::PageDown => {
            let next: usize = sel.get_bottom().saturating_add(page);
            if next < max {
                next
            } else {
                max
            }
        },
        ScrollType::PageUp => sel.get_top().saturating_sub(page),
    }
}

/// The first row from `i` on that belongs to a hunk, or the number of rows.
pub open spec fn first_row_of(hunks: Seq<usize>, i: int, hunk: int) -> int
    decreases hunks.len() - i,
{
    if i >= hunks.len() {
        hunks.len() as int
    } else if hunks[i] == hunk {
        i
    } else {
        first_row_of(hunks, i + 1, hunk)
    }
}

/// The first row from `i` on that belongs to a later hunk, or the number of rows.
pub open spec fn first_row_after(hunks: Seq<usize>, i: int, hunk: int) -> int
    decreases hunks.len() - i,
{
    if i >= hunks.len() {
        hunks.len() as int
    } else if hunks[i] > hunk {
        i
    } else {
        first_row_after(hunks, i + 1, hunk)
    }
}

fn find_row_of(hunks: &Vec<usize>, hunk: usize) -> (r: usize)
    ensures
        r == first_row_of(hunks@, 0, hunk as int),
        r <= hunks@.len(),
{
    let mut i: usize = 0;
    while i < hunks.len()
        invariant
            i <= hunks@.len(),
            first_row_of(hunks@, i as int, hunk as int) == first_row_of(hunks@, 0, hunk as int),
        decreases hunks@.len() - i,
    {
        if hunks[i] == hunk {
            return i;
        }
        i += 1;
    }
    i
}

fn find_row_after(hunks: &Vec<usize>, from: usize, hunk: usize) -> (r: usize)
    requires
        from <= hunks@.len(),
    ensures
        r == first_row_after(hunks@, from as int, hunk as int),
{
    let mut i: usize = from;
    while i < hunks.len()
        invariant
            from <= i <= hunks@.len(),
            first_row_after(hunks@, i as int, hunk as int) == first_row_after(
                hunks@,
                from as int,
                hunk as int,
            ),
        decreases hunks@.len() - i,
    {
        if hunks[i] > hunk {
            return i;
        }
        i += 1;
    }
    i
}

impl DiffComponent {
    pub open spec fn is_delta(self) -> bool {
        self.diff_mode == DiffMode::DeltaSideBySide
    }

    /// The number of rows that delta's render has.
    pub open spec fn delta_rows(self) -> int {
        match self.delta {
            Some(d) => d.display_lines@.len() as int,
            None => 0,
        }
    }

    /// The hunk of every row of delta's render.
    pub open spec fn delta_hunks(self) -> Seq<usize> {
        match self.delta {
            Some(d) => d.display_hunks@,
            None => Seq::empty(),
        }
    }

    /// The position of every row of delta's render.
    pub open spec fn delta_positions(self) -> Seq<Option<DiffLinePosition>> {
        match self.delta {
            Some(d) => d.display_positions@,
            None => Seq::empty(),
        }
    }

    /// The last hunk of the diff.
    pub open spec fn max_hunk(self) -> usize {
        match self.diff {
            Some(d) => last_index(d.hunks@.len() as int),
            None => 0,
        }
    }

    /// The hunk that a row of delta's render belongs to.
    pub open spec fn hunk_of_row(self, row: int) -> Option<usize> {
        if row < self.delta_hunks().len() {
            Some(
                if self.delta_hunks()[row] < self.max_hunk() {
                    self.delta_hunks()[row]
                } else {
                    self.max_hunk()
                },
            )
        } else {
            None
        }
    }

    /// The number of lines that are shown.
    pub open spec fn line_count(self) -> usize {
        if self.is_delta() {
            self.delta_rows() as usize
        } else {
            match self.diff {
                Some(d) => d.lines,
                None => 0,
            }
        }
    }

    /// A line of the diff is selected, as near as there is one.
    pub open spec fn selected(self, line: usize) -> DiffComponent {
        match self.diff {
            Some(d) => {
                let max = last_index(d.lines as int);
                let at = if line < max {
                    line
                } else {
                    max
                };
                DiffComponent {
                    selection: Selection::Single(at),
                    selected_hunk: hunk_at(d.hunks@, at as int),
                    ..self
                }
            },
            None => self,
        }
    }

    /// The selection has moved.
    pub open spec fn moved(self, how: ScrollType) -> DiffComponent {
        let height = self.current_size.1;
        if self.is_delta() {
            let at = move_target(self.selection, height, last_index(self.delta_rows()), how);
            DiffComponent {
                selection: Selection::Single(at),
                selected_hunk: self.hunk_of_row(at as int),
                ..self
            }
        } else {
            match self.diff {
                Some(d) => self.selected(
                    move_target(self.selection, height, last_index(d.lines as int), how),
                ),
                None => self,
            }
        }
    }

    /// The hunk that a step in the given direction leads to.
    pub open spec fn hunk_target(self, forward: bool) -> Option<usize> {
        match self.diff {
            Some(d) => if d.hunks@.len() == 0 {
                None
            } else {
                match self.selected_hunk {
                    None => Some(0),
                    Some(i) => {
                        let max = (d.hunks@.len() - 1) as usize;
                        let target = if !forward {
                            capped_sub(i, 1)
                        } else if i < usize::MAX {
                            (i + 1) as usize
                        } else {
                            i
                        };
                        Some(
                            if target < max {
                                target
                            } else {
                                max
                            },
                        )
                    },
                }
            },
            None => None,
        }
    }

    /// Where a hunk starts and ends among the lines that are shown.
    pub open spec fn hunk_area(self, hunk: usize) -> (int, int) {
        if self.is_delta() {
            let found = first_row_of(self.delta_hunks(), 0, hunk as int);
            let start = if found < self.delta_hunks().len() {
                found
            } else {
                0
            };
            (start, first_row_after(self.delta_hunks(), start, hunk as int))
        } else {
            (
                lines_before(self.diff->0.hunks@, hunk as int),
                lines_before(self.diff->0.hunks@, hunk + 1),
            )
        }
    }

    /// Whether the sum of the lines of all hunks can be counted.
    pub open spec fn countable(self) -> bool {
        self.diff matches Some(d) ==> lines_before(d.hunks@, d.hunks@.len() as int) <= usize::MAX
    }

    /// An empty panel.
    pub fn new(is_immutable: bool, diff_mode: DiffMode) -> (r: DiffComponent)
        ensures
            r.diff is None,
            r.longest_line == 0,
            !r.pending,
            r.selection == Selection::Single(0),
            r.selected_hunk is None,
            r.current_size == (0u16, 0u16),
            !r.focused,
            r.current.is_nothing(),
            r.is_immutable == is_immutable,
            r.diff_mode == diff_mode,
            r.delta is None,
            r.last_delta_width == 0,
    {
        DiffComponent {
            diff: None,
            longest_line: 0,
            pending: false,
            selection: Selection::Single(0),
            selected_hunk: None,
            current_size: (0, 0),
            focused: false,
            current: Current::default(),
            is_immutable,
            diff_mode,
            delta: None,
            last_delta_width: 0,
        }
    }

    pub fn is_delta_preview(&self) -> (r: bool)
        ensures
            r == self.is_delta(),
    {
        self.diff_mode == DiffMode::DeltaSideBySide
    }

    fn delta_len(&self) -> (r: usize)
        ensures
            r == self.delta_rows(),
    {
        match &self.delta {
            Some(d) => d.display_lines.len(),
            None => 0,
        }
    }

    fn last_hunk(&self) -> (r: usize)
        ensures
            r == self.max_hunk(),
    {
        match &self.diff {
            Some(d) => d.hunks.len().saturating_sub(1),
            None => 0,
        }
    }

    fn find_hunk_of_row(&self, row: usize) -> (r: Option<usize>)
        ensures
            r == self.hunk_of_row(row as int),
    {
        let max: usize = self.last_hunk();
        match &self.delta {
            Some(d) => if row < d.display_hunks.len() {
                let hunk: usize = d.display_hunks[row];
                Some(
                    if hunk < max {
                        hunk
                    } else {
                        max
                    },
                )
            } else {
                None
            },
            None => None,
        }
    }

    /// Whether there is more than one line to move over.
    pub open spec fn scrollable(self) -> bool {
        self.line_count() > 1
    }

    fn can_scroll(&self) -> (r: bool)
        ensures
            r == self.scrollable(),
    {
        self.lines_count() > 1
    }

    /// The file that is shown, and whether its staged changes are.
    pub fn current(&self) -> (r: (String, bool))
        ensures
            r.0@ == self.current.path@,
            r.1 == self.current.is_stage,
    {
        (self.current.path.clone(), self.current.is_stage)
    }

    /// Show nothing. The scroll positions have to be reset along with it.
    pub fn clear(&mut self, pending: bool)
        ensures
            final(self).current.is_nothing(),
            *final(self) == (DiffComponent {
                current: final(self).current,
                diff: None,
                delta: None,
                longest_line: 0,
                selection: Selection::Single(0),
                selected_hunk: None,
                pending,
                ..*old(self)
            }),
    {
        self.current = Current::default();
        self.diff = None;
        self.delta = None;
        self.longest_line = 0;
        self.selection = Selection::Single(0);
        self.selected_hunk = None;
        self.pending = pending;
    }

    fn lines_count(&self) -> (r: usize)
        ensures
            r == self.line_count(),
    {
        if self.is_delta_preview() {
            return self.delta_len();
        }
        match &self.diff {
            Some(d) => d.lines,
            None => 0,
        }
    }

    fn find_selected_hunk(hunks: &Vec<Hunk>, line_selected: usize) -> (r: Option<usize>)
        requires
            lines_before(hunks@, hunks@.len() as int) <= usize::MAX,
        ensures
            r == hunk_at(hunks@, line_selected as int),
    {
        let mut line_cursor: usize = 0;
        for i in 0..hunks.len()
            invariant
                lines_before(hunks@, hunks@.len() as int) <= usize::MAX,
                line_cursor == lines_before(hunks@, i as int),
                hunk_from(hunks@, i as int, line_selected as int) == hunk_at(
                    hunks@,
                    line_selected as int,
                ),
        {
            proof {
                lemma_lines_grow(hunks@, i + 1, hunks@.len() as int);
            }
            let hunk_max: usize = line_cursor + hunks[i].lines.len();
            if line_cursor <= line_selected && hunk_max > line_selected {
                return Some(i);
            }
            line_cursor = hunk_max;
        }
        None
    }

    fn update_selection(&mut self, new_start: usize)
        requires
            old(self).countable(),
        ensures
            *final(self) == old(self).selected(new_start),
    {
        if let Some(diff) = &self.diff {
            let max: usize = diff.lines.saturating_sub(1);
            let at: usize = if new_start < max {
                new_start
            } else {
                max
            };
            let hunk = Self::find_selected_hunk(&diff.hunks, at);
            self.selection = Selection::Single(at);
            self.selected_hunk = hunk;
        }
    }

    /// Move the selection.
    pub fn move_selection(&mut self, how: ScrollType)
        requires
            old(self).countable(),
        ensures
            *final(self) == old(self).moved(how),
    {
        if self.is_delta_preview() {
            let max: usize = self.delta_len().saturating_sub(1);
            let at: usize = calc_move_target(self.selection, self.current_size.1, max, how);
            self.selected_hunk = self.find_hunk_of_row(at);
            self.selection = Selection::Single(at);
            return;
        }
        let max: usize = match &self.diff {
            Some(d) => d.lines.saturating_sub(1),
            None => {
                return;
            },
        };
        let at: usize = calc_move_target(self.selection, self.current_size.1, max, how);
        self.update_selection(at);
    }

    /// Extend the selection by one line.
    pub fn modify_selection(&mut self, direction: Direction)
        ensures
            *final(self) == if old(self).diff is Some || old(self).is_delta() {
                DiffComponent {
                    selection: old(self).selection.extended(direction, old(self).line_count()),
                    ..*old(self)
                }
            } else {
                *old(self)
            },
    {
        if self.diff.is_some() || self.is_delta_preview() {
            let max: usize = self.lines_count();
            self.selection.modify(direction, max);
        }
    }

    fn calc_hunk_move_target(&self, forward: bool) -> (r: Option<usize>)
        ensures
            r == self.hunk_target(forward),
    {
        let len: usize = match &self.diff {
            Some(d) => d.hunks.len(),
            None => {
                return None;
            },
        };
        if len == 0 {
            return None;
        }
        let max: usize = len - 1;
        match self.selected_hunk {
            None => Some(0),
            Some(i) => {
                let target: usize = if forward {
                    i.saturating_add(1)
                } else {
                    i.saturating_sub(1)
                };
                Some(
                    if target < max {
                        target
                    } else {
                        max
                    },
                )
            },
        }
    }

    /// Whether a step to another hunk changes anything.
    pub open spec fn steps(self, forward: bool) -> bool {
        self.hunk_target(forward) is Some && self.hunk_target(forward) != self.selected_hunk
    }

    /// The panel after a step to another hunk.
    pub open spec fn stepped(self, forward: bool) -> DiffComponent {
        if self.steps(forward) {
            DiffComponent {
                selection: Selection::Single(
                    self.hunk_area(self.hunk_target(forward)->0).0 as usize,
                ),
                selected_hunk: self.hunk_target(forward),
                ..self
            }
        } else {
            self
        }
    }

    /// Go to the next or the previous hunk. What has to be visible then is
    /// returned: the height of the panel, and where the hunk starts and ends.
    pub fn diff_hunk_move_up_down(&mut self, forward: bool) -> (r: Option<(usize, usize, usize)>)
        requires
            old(self).countable(),
        ensures
            *final(self) == old(self).stepped(forward),
            match r {
                Some((height, start, end)) => old(self).steps(forward) && height == old(
                    self,
                ).current_size.1 && (start as int, end as int) == old(self).hunk_area(
                    old(self).hunk_target(forward)->0,
                ),
                None => !old(self).steps(forward),
            },
    {
        let target = self.calc_hunk_move_target(forward);
        let hunk: usize = match target {
            Some(h) => h,
            None => {
                return None;
            },
        };
        match self.selected_hunk {
            Some(h) => {
                if h == hunk {
                    return None;
                }
            },
            None => {},
        }
        let height: usize = self.current_size.1 as usize;
        let (start, end): (usize, usize) = if self.is_delta_preview() {
            match &self.delta {
                Some(d) => {
                    let found: usize = find_row_of(&d.display_hunks, hunk);
                    let start: usize = if found < d.display_hunks.len() {
                        found
                    } else {
                        0
                    };
                    (start, find_row_after(&d.display_hunks, start, hunk))
                },
                None => (0, 0),
            }
        } else {
            match &self.diff {
                Some(d) => {
                    let mut start: usize = 0;
                    for i in 0..hunk
                        invariant
                            hunk < d.hunks@.len(),
                            lines_before(d.hunks@, d.hunks@.len() as int) <= usize::MAX,
                            start == lines_before(d.hunks@, i as int),
                    {
                        proof {
                            lemma_lines_grow(d.hunks@, i + 1, d.hunks@.len() as int);
                        }
                        start += d.hunks[i].lines.len();
                    }
                    proof {
                        lemma_lines_grow(d.hunks@, hunk + 1, d.hunks@.len() as int);
                    }
                    (start, start + d.hunks[hunk].lines.len())
                },
                None => (0, 0),
            }
        };
        self.selection = Selection::Single(start);
        self.selected_hunk = Some(hunk);
        Some((height, start, end))
    }
}

/// What has to be rendered after an update.
#[derive(Clone, Copy, Debug, PartialEq, Eq, Structural)]
pub enum DiffUpdate {
    /// nothing
    Done,
    /// delta's render; it may come later
    RenderLater,
    /// delta's render, at once, so that the cursor keeps its place
    RenderNow,
}

/// The bytes of a line as it is displayed.
pub open spec fn displayed_bytes(line: DiffLine) -> usize {
    vstd::utf8::encode_utf8(text::without_tabs(line.content@)).len() as usize
}

/// The bytes of the longest of some lines, and one for its marker; nothing if
/// there are none.
pub open spec fn longest_of(lines: Seq<DiffLine>) -> int
    decreases lines.len(),
{
    if lines.len() == 0 {
        0
    } else {
        let before = longest_of(lines.drop_last());
        if before > displayed_bytes(lines.last()) + 1 {
            before
        } else {
            displayed_bytes(lines.last()) + 1
        }
    }
}

/// The same over the lines of the first `n` hunks.
pub open spec fn longest(hunks: Seq<Hunk>, n: int) -> int
    decreases n,
{
    if n <= 0 {
        0
    } else {
        let before = longest(hunks, n - 1);
        let lines = longest_of(hunks[n - 1].lines@);
        if before > lines {
            before
        } else {
            lines
        }
    }
}

/// Whether the length of each line can be counted.
pub open spec fn measurable(lines: Seq<DiffLine>) -> bool {
    forall|i: int| 0 <= i < lines.len() ==> displayed_bytes(#[trigger] lines[i]) < usize::MAX
}

fn longest_line_of(lines: &Vec<DiffLine>) -> (r: usize)
    requires
        measurable(lines@),
    ensures
        r == longest_of(lines@),
{
    let mut best: usize = 0;
    for i in 0..lines.len()
        invariant
            measurable(lines@),
            best == longest_of(lines@.take(i as int)),
    {
        assert(lines@.take(i + 1).drop_last() =~= lines@.take(i as int));
        let content = text::tabs_to_spaces(lines[i].content.as_str());
        let n: usize = content.as_str().len();
        assert(n == displayed_bytes(lines@[i as int]));
        if n + 1 > best {
            best = n + 1;
        }
    }
    assert(lines@.take(lines@.len() as int) =~= lines@);
    best
}

fn find_longest_line(hunks: &Vec<Hunk>) -> (r: usize)
    requires
        forall|i: int| 0 <= i < hunks@.len() ==> measurable((#[trigger] hunks@[i]).lines@),
    ensures
        r == longest(hunks@, hunks@.len() as int),
{
    let mut best: usize = 0;
    for i in 0..hunks.len()
        invariant
            forall|i: int| 0 <= i < hunks@.len() ==> measurable((#[trigger] hunks@[i]).lines@),
            best == longest(hunks@, i as int),
    {
        let n: usize = longest_line_of(&hunks[i].lines);
        if n > best {
            best = n;
        }
    }
    best
}

impl DiffComponent {
    /// The panel once it shows another diff, before delta has rendered it.
    pub open spec fn showing(
        self,
        path: String,
        is_stage: bool,
        diff: FileDiff,
        diff_type: DiffType,
        hash: u64,
    ) -> DiffComponent {
        let next = DiffComponent {
            pending: false,
            current: Current { path, is_stage, hash, diff_type },
            diff: Some(diff),
            longest_line: longest(diff.hunks@, diff.hunks@.len() as int) as usize,
            ..self
        };
        let other_file = self.current.path@ != path@;
        if self.current.hash == hash {
            DiffComponent { pending: false, ..self }
        } else if self.is_delta() {
            if other_file {
                DiffComponent { selection: Selection::Single(0), ..next }
            } else {
                next
            }
        } else if other_file {
            DiffComponent { selection: Selection::Single(0), ..next }.selected(0)
        } else {
            next.selected(self.selection.start())
        }
    }

    /// Show a diff. Its hash tells whether it differs from the one shown. Another
    /// file starts at its top, and its scroll position has to be reset; the same
    /// file keeps the cursor.
    pub fn update(
        &mut self,
        path: String,
        is_stage: bool,
        diff: FileDiff,
        diff_type: DiffType,
        hash: u64,
    ) -> (r: (DiffUpdate, bool))
        requires
            lines_before(diff.hunks@, diff.hunks@.len() as int) <= usize::MAX,
            forall|i: int|
                0 <= i < diff.hunks@.len() ==> measurable((#[trigger] diff.hunks@[i]).lines@),
        ensures
            *final(self) == old(self).showing(path, is_stage, diff, diff_type, hash),
            r.1 == (old(self).current.hash != hash && old(self).current.path@ != path@),
            r.0 == if old(self).current.hash == hash || !old(self).is_delta() {
                DiffUpdate::Done
            } else if old(self).current.path@ != path@ {
                DiffUpdate::RenderLater
            } else {
                DiffUpdate::RenderNow
            },
    {
        self.pending = false;
        if self.current.hash == hash {
            return (DiffUpdate::Done, false);
        }
        let other_file = !text::same(self.current.path.as_str(), path.as_str());
        self.current = Current { path, is_stage, hash, diff_type };
        self.longest_line = find_longest_line(&diff.hunks);
        self.diff = Some(diff);
        if self.is_delta_preview() {
            if other_file {
                self.selection = Selection::Single(0);
                (DiffUpdate::RenderLater, true)
            } else {
                (DiffUpdate::RenderNow, false)
            }
        } else if other_file {
            self.selection = Selection::Single(0);
            self.update_selection(0);
            (DiffUpdate::Done, true)
        } else {
            let start: usize = self.selection.get_start();
            self.update_selection(start);
            (DiffUpdate::Done, false)
        }
    }

    /// The panel after a render has or has not arrived: a single selected line
    /// stays within the rows, and its hunk is selected.
    pub open spec fn settled(self) -> DiffComponent {
        let max = last_index(self.delta_rows());
        let selection = match self.selection {
            Selection::Single(line) if line > max => Selection::Single(max),
            other => other,
        };
        DiffComponent { selection, selected_hunk: self.hunk_of_row(selection.end() as int), ..self }
    }

    pub open spec fn rendered(self, render: ProcessedDelta) -> DiffComponent {
        DiffComponent { delta: Some(render), last_delta_width: self.current_size.0, ..self }
    }

    fn settle(&mut self)
        ensures
            *final(self) == old(self).settled(),
    {
        let max: usize = self.delta_len().saturating_sub(1);
        match self.selection {
            Selection::Single(line) => {
                if line > max {
                    self.selection = Selection::Single(max);
                }
            },
            _ => {},
        }
        let end: usize = self.selection.get_end();
        self.selected_hunk = self.find_hunk_of_row(end);
    }

    /// Finish an update in delta mode with the render that is there, if any.
    /// Without one, what was rendered before stays.
    pub fn finish_update(&mut self, render: Option<ProcessedDelta>)
        ensures
            *final(self) == match render {
                Some(r) => old(self).rendered(r).settled(),
                None => old(self).settled(),
            },
    {
        match render {
            Some(r) => {
                self.apply_delta_result(r);
            },
            None => {},
        }
        self.settle();
    }

    /// Show a render as it came.
    pub fn apply_delta_result(&mut self, render: ProcessedDelta)
        ensures
            *final(self) == old(self).rendered(render),
    {
        self.delta = Some(render);
        self.last_delta_width = self.current_size.0;
    }

    /// A job has ended: show the render of the current parameters, if that is
    /// what it made.
    pub fn apply_delta(&mut self, render: Option<ProcessedDelta>)
        ensures
            *final(self) == match render {
                Some(r) => old(self).rendered(r).settled(),
                None => *old(self),
            },
    {
        match render {
            Some(r) => {
                self.apply_delta_result(r);
                self.settle();
            },
            None => {},
        }
    }

    /// What the current render is identified by.
    pub fn delta_params(&self) -> (r: DeltaParams)
        ensures
            r.path@ == self.current.path@,
            r.diff_type == self.current.diff_type,
            r.width == self.current_size.0,
            r.side_by_side == self.is_delta(),
            r.diff_hash == self.current.hash,
    {
        DeltaParams {
            path: self.current.path.clone(),
            diff_type: self.current.diff_type,
            width: self.current_size.0,
            side_by_side: self.is_delta_preview(),
            diff_hash: self.current.hash,
        }
    }

    /// Whether the render is for another width than the panel has now.
    pub fn needs_refresh(&self) -> (r: bool)
        ensures
            r == (self.is_delta() && self.current_size.0 != self.last_delta_width
                && self.current_size.0 != 0 && self.current.path@.len() != 0),
    {
        let width: u16 = self.current_size.0;
        self.is_delta_preview() && width != self.last_delta_width && width != 0
            && !self.current.path.as_str().is_empty()
    }

    /// Whether switching to the other mode needs delta.
    pub fn toggle_needs_delta(&self) -> (r: bool)
        ensures
            r == !self.is_delta(),
    {
        !self.is_delta_preview()
    }

    /// The panel in the other mode; without delta there is only the unified one.
    pub open spec fn toggled(self, delta_available: bool) -> DiffComponent {
        if !self.is_delta() && delta_available {
            DiffComponent { diff_mode: DiffMode::DeltaSideBySide, ..self }
        } else {
            DiffComponent { diff_mode: DiffMode::Unified, delta: None, ..self }
        }
    }

    /// Switch to the other mode. The result tells whether delta was missing,
    /// which has to be reported. The new mode has to be stored in the options,
    /// and in delta mode a render has to be requested.
    pub fn toggle_diff_mode(&mut self, delta_available: bool) -> (missing: bool)
        ensures
            *final(self) == old(self).toggled(delta_available),
            missing == (!old(self).is_delta() && !delta_available),
    {
        if self.is_delta_preview() {
            self.diff_mode = DiffMode::Unified;
            self.delta = None;
            false
        } else if delta_available {
            self.diff_mode = DiffMode::DeltaSideBySide;
            false
        } else {
            self.diff_mode = DiffMode::Unified;
            self.delta = None;
            true
        }
    }

    /// The positions of the selected changed lines.
    pub open spec fn selected_positions(self) -> Seq<DiffLinePosition> {
        if self.is_delta() {
            known_positions(
                self.delta_positions(),
                self.selection,
                self.delta_positions().len() as int,
            )
        } else {
            match self.diff {
                Some(d) => changed_positions(
                    flat_lines(d.hunks@),
                    self.selection,
                    flat_lines(d.hunks@).len() as int,
                ),
                None => Seq::empty(),
            }
        }
    }

    /// The positions of the selected changed lines.
    pub fn selected_lines(&self) -> (r: Vec<DiffLinePosition>)
        ensures
            r@ == self.selected_positions(),
    {
        let mut out: Vec<DiffLinePosition> = Vec::new();
        if self.is_delta_preview() {
            match &self.delta {
                Some(d) => {
                    let rows = &d.display_positions;
                    for i in 0..rows.len()
                        invariant
                            rows == d.display_positions,
                            out@ == known_positions(rows@, self.selection, i as int),
                    {
                        if self.selection.contains(i) {
                            match rows[i] {
                                Some(p) => {
                                    out.push(p);
                                },
                                None => {},
                            }
                        }
                    }
                },
                None => {},
            }
            return out;
        }
        match &self.diff {
            Some(d) => {
                let ghost all = flat_lines(d.hunks@);
                let lines = flatten(&d.hunks);
                for i in 0..lines.len()
                    invariant
                        lines@.len() == all.len(),
                        forall|i: int| 0 <= i < all.len() ==> *(#[trigger] lines@[i]) == all[i],
                        out@ == changed_positions(all, self.selection, i as int),
                {
                    let t = lines[i].line_type;
                    if self.selection.contains(i) && (t == DiffLineType::Add || t
                        == DiffLineType::Delete) {
                        out.push(lines[i].position);
                    }
                }
            },
            None => {},
        }
        out
    }

    /// The new file's number of the line under the cursor.
    pub open spec fn cursor_line(self) -> Option<u32> {
        let at = self.selection.end() as int;
        if self.is_delta() {
            if at < self.delta_positions().len() {
                match self.delta_positions()[at] {
                    Some(p) => p.new_lineno,
                    None => None,
                }
            } else {
                None
            }
        } else {
            match self.diff {
                Some(d) => new_line_at(d.hunks@, at),
                None => None,
            }
        }
    }

    /// The new file's number of the line under the cursor. Headers, deleted
    /// lines and binary files have none.
    pub fn current_line_number(&self) -> (r: Option<u32>)
        ensures
            r == self.cursor_line(),
    {
        let at: usize = self.selection.get_end();
        if self.is_delta_preview() {
            return match &self.delta {
                Some(d) => if at < d.display_positions.len() {
                    match d.display_positions[at] {
                        Some(p) => p.new_lineno,
                        None => None,
                    }
                } else {
                    None
                },
                None => None,
            };
        }
        match &self.diff {
            Some(d) => {
                let lines = flatten(&d.hunks);
                if at < lines.len() {
                    lines[at].position.new_lineno
                } else {
                    None
                }
            },
            None => None,
        }
    }
}

// ------------------------------------------------------------------- events

impl DiffComponent {
    /// What a key press asks of a panel in this state.
    pub open spec fn intent(self, press: KeyPress) -> DiffIntent {
        let unified = !self.is_delta();
        if !self.focused {
            DiffIntent::Ignore
        } else if press.has(Key::MoveDown) || press.has(Key::PopupDown) {
            DiffIntent::Move(ScrollType::Down)
        } else if press.has(Key::ShiftDown) {
            DiffIntent::Extend(Direction::Down)
        } else if press.has(Key::ShiftUp) {
            DiffIntent::Extend(Direction::Up)
        } else if press.has(Key::End) {
            DiffIntent::Move(ScrollType::End)
        } else if press.has(Key::Home) {
            DiffIntent::Move(ScrollType::Home)
        } else if press.has(Key::MoveUp) || press.has(Key::PopupUp) {
            DiffIntent::Move(ScrollType::Up)
        } else if press.has(Key::PageUp) {
            DiffIntent::Move(ScrollType::PageUp)
        } else if press.has(Key::PageDown) {
            DiffIntent::Move(ScrollType::PageDown)
        } else if unified && press.has(Key::MoveRight) {
            DiffIntent::Sideways(HorizontalScrollType::Right)
        } else if unified && press.has(Key::MoveLeft) {
            DiffIntent::Sideways(HorizontalScrollType::Left)
        } else if unified && (press.has(Key::DiffLineStart) || press.has(Key::Underscore)) {
            DiffIntent::Sideways(HorizontalScrollType::Home)
        } else if unified && press.has(Key::DiffLineEnd) {
            DiffIntent::Sideways(HorizontalScrollType::End)
        } else if press.has(Key::DiffHunkNext) {
            DiffIntent::NextHunk
        } else if press.has(Key::DiffHunkPrev) {
            DiffIntent::PreviousHunk
        } else if press.has(Key::StageUnstageItem) && !self.is_immutable {
            DiffIntent::StageHunk
        } else if press.has(Key::StatusResetItem) && !self.is_immutable && !self.current.is_stage {
            DiffIntent::ResetItem
        } else if press.has(Key::DiffStageLines) && !self.is_immutable {
            DiffIntent::StageLines
        } else if press.has(Key::DiffResetLines) && !self.is_immutable && !self.current.is_stage
            && unified {
            DiffIntent::ResetLines
        } else if press.has(Key::Copy) {
            DiffIntent::Copy
        } else if self.current.path@.len() > 0 && press.has(Key::EditFile) {
            DiffIntent::Edit
        } else if press.has(Key::DiffModeToggle) {
            DiffIntent::ToggleMode
        } else {
            DiffIntent::Ignore
        }
    }

    /// What a key press asks of the panel.
    pub fn key_intent(&self, press: &KeyPress) -> (r: DiffIntent)
        ensures
            r == self.intent(*press),
    {
        let unified = !self.is_delta_preview();
        let is_stage = self.current.is_stage;
        if !self.focused {
            DiffIntent::Ignore
        } else if press.is(Key::MoveDown) || press.is(Key::PopupDown) {
            DiffIntent::Move(ScrollType::Down)
        } else if press.is(Key::ShiftDown) {
            DiffIntent::Extend(Direction::Down)
        } else if press.is(Key::ShiftUp) {
            DiffIntent::Extend(Direction::Up)
        } else if press.is(Key::End) {
            DiffIntent::Move(ScrollType::End)
        } else if press.is(Key::Home) {
            DiffIntent::Move(ScrollType::Home)
        } else if press.is(Key::MoveUp) || press.is(Key::PopupUp) {
            DiffIntent::Move(ScrollType::Up)
        } else if press.is(Key::PageUp) {
            DiffIntent::Move(ScrollType::PageUp)
        } else if press.is(Key::PageDown) {
            DiffIntent::Move(ScrollType::PageDown)
        } else if unified && press.is(Key::MoveRight) {
            DiffIntent::Sideways(HorizontalScrollType::Right)
        } else if unified && press.is(Key::MoveLeft) {
            DiffIntent::Sideways(HorizontalScrollType::Left)
        } else if unified && (press.is(Key::DiffLineStart) || press.is(Key::Underscore)) {
            DiffIntent::Sideways(HorizontalScrollType::Home)
        } else if unified && press.is(Key::DiffLineEnd) {
            DiffIntent::Sideways(HorizontalScrollType::End)
        } else if press.is(Key::DiffHunkNext) {
            DiffIntent::NextHunk
        } else if press.is(Key::DiffHunkPrev) {
            DiffIntent::PreviousHunk
        } else if press.is(Key::StageUnstageItem) && !self.is_immutable {
            DiffIntent::StageHunk
        } else if press.is(Key::StatusResetItem) && !self.is_immutable && !is_stage {
            DiffIntent::ResetItem
        } else if press.is(Key::DiffStageLines) && !self.is_immutable {
            DiffIntent::StageLines
        } else if press.is(Key::DiffResetLines) && !self.is_immutable && !is_stage && unified {
            DiffIntent::ResetLines
        } else if press.is(Key::Copy) {
            DiffIntent::Copy
        } else if !self.current.path.as_str().is_empty() && press.is(Key::EditFile) {
            DiffIntent::Edit
        } else if press.is(Key::DiffModeToggle) {
            DiffIntent::ToggleMode
        } else {
            DiffIntent::Ignore
        }
    }
}

/// What a [`DiffAction`] holds.
pub enum DiffActionView {
    ScrollSideways(HorizontalScrollType),
    ShowArea(int, int, int),
    UnstageHunk(Seq<char>, u64),
    StageHunk(Seq<char>, u64),
    StageFile(Seq<char>),
    StageLines(Seq<char>, bool, bool, Seq<DiffLinePosition>),
    UpdateAll,
    ConfirmReset(Seq<char>),
    ConfirmResetHunk(Seq<char>, u64),
    ConfirmResetLines(Seq<char>, Seq<DiffLinePosition>),
    Copy(Seq<char>),
    OpenEditor(Seq<char>, Option<u32>),
    ToggleMode,
}

impl View for DiffAction {
    type V = DiffActionView;

    open spec fn view(&self) -> DiffActionView {
        match self {
            DiffAction::ScrollSideways(how) => DiffActionView::ScrollSideways(*how),
            DiffAction::ShowArea { height, start, end } => DiffActionView::ShowArea(
                *height as int,
                *start as int,
                *end as int,
            ),
            DiffAction::UnstageHunk { path, hash } => DiffActionView::UnstageHunk(path@, *hash),
            DiffAction::StageHunk { path, hash } => DiffActionView::StageHunk(path@, *hash),
            DiffAction::StageFile { path } => DiffActionView::StageFile(path@),
            DiffAction::StageLines { path, untracked, is_stage, lines } =>
                DiffActionView::StageLines(path@, *untracked, *is_stage, lines@),
            DiffAction::UpdateAll => DiffActionView::UpdateAll,
            DiffAction::ConfirmReset { path } => DiffActionView::ConfirmReset(path@),
            DiffAction::ConfirmResetHunk { path, hash } => DiffActionView::ConfirmResetHunk(
                path@,
                *hash,
            ),
            DiffAction::ConfirmResetLines { path, lines } => DiffActionView::ConfirmResetLines(
                path@,
                lines@,
            ),
            DiffAction::Copy(s) => DiffActionView::Copy(s@),
            DiffAction::OpenEditor { path, line } => DiffActionView::OpenEditor(path@, *line),
            DiffAction::ToggleMode => DiffActionView::ToggleMode,
        }
    }
}

impl DiffComponent {
    /// What staging or unstaging the selected hunk takes.
    pub open spec fn hunk_staging(self) -> Seq<DiffActionView> {
        let path = self.current.path@;
        match (self.diff, self.selected_hunk) {
            (Some(d), Some(h)) => if self.current.is_stage {
                if h < d.hunks@.len() {
                    seq![
                        DiffActionView::UnstageHunk(path, d.hunks@[h as int].header_hash),
                        DiffActionView::UpdateAll,
                    ]
                } else {
                    Seq::empty()
                }
            } else if d.untracked {
                seq![DiffActionView::StageFile(path), DiffActionView::UpdateAll]
            } else if h < d.hunks@.len() {
                seq![
                    DiffActionView::StageHunk(path, d.hunks@[h as int].header_hash),
                    DiffActionView::UpdateAll,
                ]
            } else {
                seq![DiffActionView::UpdateAll]
            },
            _ => Seq::empty(),
        }
    }

    /// What throwing away the selected item takes.
    pub open spec fn item_reset(self) -> Seq<DiffActionView> {
        let path = self.current.path@;
        match self.diff {
            Some(d) => if d.untracked {
                seq![DiffActionView::ConfirmReset(path)]
            } else {
                match self.selected_hunk {
                    Some(h) => seq![
                        DiffActionView::ConfirmResetHunk(path, d.hunks@[h as int].header_hash),
                    ],
                    None => Seq::empty(),
                }
            },
            None => Seq::empty(),
        }
    }

    /// What a key press with the given intent leads to outside.
    pub open spec fn actions(self, intent: DiffIntent) -> Seq<DiffActionView> {
        let path = self.current.path@;
        match intent {
            DiffIntent::Sideways(how) => seq![DiffActionView::ScrollSideways(how)],
            DiffIntent::NextHunk | DiffIntent::PreviousHunk => {
                let forward = intent == DiffIntent::NextHunk;
                if self.steps(forward) {
                    let area = self.hunk_area(self.hunk_target(forward)->0);
                    seq![DiffActionView::ShowArea(self.current_size.1 as int, area.0, area.1)]
                } else {
                    Seq::empty()
                }
            },
            DiffIntent::StageHunk => self.hunk_staging(),
            DiffIntent::ResetItem => self.item_reset(),
            DiffIntent::StageLines => match self.diff {
                Some(d) => seq![
                    DiffActionView::StageLines(
                        path,
                        d.untracked,
                        self.current.is_stage,
                        self.selected_positions(),
                    ),
                    DiffActionView::UpdateAll,
                ],
                None => Seq::empty(),
            },
            DiffIntent::ResetLines => match self.diff {
                Some(d) => if d.untracked {
                    Seq::empty()
                } else {
                    seq![DiffActionView::ConfirmResetLines(path, self.selected_positions())]
                },
                None => Seq::empty(),
            },
            DiffIntent::Copy => match self.diff {
                Some(d) => seq![
                    DiffActionView::Copy(
                        text::joined(
                            selected_texts(
                                flat_lines(d.hunks@),
                                self.selection,
                                flat_lines(d.hunks@).len() as int,
                            ),
                            seq!['\n'],
                        ),
                    ),
                ],
                None => Seq::empty(),
            },
            DiffIntent::Edit => seq![DiffActionView::OpenEditor(path, self.cursor_line())],
            DiffIntent::ToggleMode => seq![DiffActionView::ToggleMode],
            _ => Seq::empty(),
        }
    }

    /// The panel after a key press with the given intent.
    pub open spec fn after(self, intent: DiffIntent) -> DiffComponent {
        match intent {
            DiffIntent::Move(how) => self.moved(how),
            DiffIntent::Extend(direction) => if self.diff is Some || self.is_delta() {
                DiffComponent {
                    selection: self.selection.extended(direction, self.line_count()),
                    ..self
                }
            } else {
                self
            },
            DiffIntent::NextHunk => self.stepped(true),
            DiffIntent::PreviousHunk => self.stepped(false),
            _ => self,
        }
    }

    /// Whether a hunk would have to be reset that the diff does not have.
    pub open spec fn resets_no_hunk(self, intent: DiffIntent) -> bool {
        &&& intent == DiffIntent::ResetItem
        &&& self.diff matches Some(d) && !d.untracked
        &&& self.selected_hunk matches Some(h) && h >= self.diff->0.hunks@.len()
    }

    fn stage_unstage_hunk(&self) -> (r: Vec<DiffAction>)
        ensures
            text::views(r@) == self.hunk_staging(),
    {
        let mut out: Vec<DiffAction> = Vec::new();
        match &self.diff {
            Some(d) => match self.selected_hunk {
                Some(h) => {
                    let path = self.current.path.clone();
                    if self.current.is_stage {
                        if h < d.hunks.len() {
                            out.push(
                                DiffAction::UnstageHunk { path, hash: d.hunks[h].header_hash },
                            );
                            out.push(DiffAction::UpdateAll);
                        }
                    } else {
                        if d.untracked {
                            out.push(DiffAction::StageFile { path });
                        } else if h < d.hunks.len() {
                            out.push(DiffAction::StageHunk { path, hash: d.hunks[h].header_hash });
                        }
                        out.push(DiffAction::UpdateAll);
                    }
                },
                None => {},
            },
            None => {},
        }
        assert(text::views(out@) =~= self.hunk_staging());
        out
    }

    fn reset_item(&self) -> (r: Vec<DiffAction>)
        requires
            !self.resets_no_hunk(DiffIntent::ResetItem),
        ensures
            text::views(r@) == self.item_reset(),
    {
        let mut out: Vec<DiffAction> = Vec::new();
        match &self.diff {
            Some(d) => {
                let path = self.current.path.clone();
                if d.untracked {
                    out.push(DiffAction::ConfirmReset { path });
                } else {
                    match self.selected_hunk {
                        Some(h) => {
                            out.push(
                                DiffAction::ConfirmResetHunk { path, hash: d.hunks[h].header_hash },
                            );
                        },
                        None => {},
                    }
                }
            },
            None => {},
        }
        assert(text::views(out@) =~= self.item_reset());
        out
    }

    /// React to a key press: what changes in the panel, what has to be done
    /// outside, and whether the press was used up.
    pub fn event(&mut self, press: &KeyPress) -> (r: (EventState, Vec<DiffAction>))
        requires
            old(self).countable(),
            !old(self).resets_no_hunk(old(self).intent(*press)),
        ensures
            *final(self) == old(self).after(old(self).intent(*press)),
            text::views(r.1@) == old(self).actions(old(self).intent(*press)),
            r.0 == EventState::of(old(self).intent(*press) != DiffIntent::Ignore),
    {
        let intent = self.key_intent(press);
        let mut out: Vec<DiffAction> = Vec::new();
        match intent {
            DiffIntent::Ignore => {
                assert(text::views(out@) =~= Seq::empty());
                return (EventState::NotConsumed, out);
            },
            DiffIntent::Move(how) => {
                self.move_selection(how);
            },
            DiffIntent::Extend(direction) => {
                self.modify_selection(direction);
            },
            DiffIntent::Sideways(how) => {
                out.push(DiffAction::ScrollSideways(how));
            },
            DiffIntent::NextHunk | DiffIntent::PreviousHunk => {
                let forward = intent == DiffIntent::NextHunk;
                match self.diff_hunk_move_up_down(forward) {
                    Some((height, start, end)) => {
                        out.push(DiffAction::ShowArea { height, start, end });
                    },
                    None => {},
                }
            },
            DiffIntent::StageHunk => {
                out = self.stage_unstage_hunk();
            },
            DiffIntent::ResetItem => {
                out = self.reset_item();
            },
            DiffIntent::StageLines => match &self.diff {
                Some(d) => {
                    out.push(
                        DiffAction::StageLines {
                            path: self.current.path.clone(),
                            untracked: d.untracked,
                            is_stage: self.current.is_stage,
                            lines: self.selected_lines(),
                        },
                    );
                    out.push(DiffAction::UpdateAll);
                },
                None => {},
            },
            DiffIntent::ResetLines => match &self.diff {
                Some(d) => {
                    if !d.untracked {
                        out.push(
                            DiffAction::ConfirmResetLines {
                                path: self.current.path.clone(),
                                lines: self.selected_lines(),
                            },
                        );
                    }
                },
                None => {},
            },
            DiffIntent::Copy => match &self.diff {
                Some(d) => {
                    out.push(DiffAction::Copy(selected_text(&d.hunks, self.selection)));
                },
                None => {},
            },
            DiffIntent::Edit => {
                out.push(
                    DiffAction::OpenEditor {
                        path: self.current.path.clone(),
                        line: self.current_line_number(),
                    },
                );
            },
            DiffIntent::ToggleMode => {
                out.push(DiffAction::ToggleMode);
            },
        }
        assert(text::views(out@) =~= old(self).actions(intent));
        (EventState::Consumed, out)
    }
}

// ----------------------------------------------------------------- commands

impl DiffComponent {
    /// The commands that the panel offers.
    pub open spec fn command_list(self) -> Seq<CommandInfo> {
        let f = self.focused;
        let stage = self.current.is_stage;
        let hunk = self.selected_hunk is Some;
        let moving = seq![
            CommandInfo::of(Command::Scroll, self.scrollable(), f),
            CommandInfo::of(
                Command::DiffHunkNext,
                self.hunk_target(true) != self.selected_hunk,
                f,
            ),
            CommandInfo::of(
                Command::DiffHunkPrev,
                self.hunk_target(false) != self.selected_hunk,
                f,
            ),
            CommandInfo::of(Command::DiffHomeEnd, self.scrollable(), f).concealed(),
        ];
        let revert_lines = if self.is_delta() {
            Seq::empty()
        } else {
            seq![CommandInfo::of(Command::DiffLinesRevert, true, f && !stage)]
        };
        let changing = if self.is_immutable {
            Seq::empty()
        } else {
            seq![
                CommandInfo::of(Command::DiffHunkRemove, hunk, f && stage),
                CommandInfo::of(Command::DiffHunkAdd, hunk, f && !stage),
                CommandInfo::of(Command::DiffHunkRevert, hunk, f && !stage),
            ] + revert_lines + seq![
                CommandInfo::of(Command::DiffLinesStage, true, f && !stage),
                CommandInfo::of(Command::DiffLinesUnstage, true, f && stage),
            ]
        };
        moving + changing + seq![
            CommandInfo::of(Command::EditItem, self.current.path@.len() > 0, f),
            CommandInfo::of(Command::Copy, true, f),
            CommandInfo::of(Command::DiffToggleMode, true, f).concealed(),
        ]
    }

    fn leads_elsewhere(&self, forward: bool) -> (r: bool)
        ensures
            r == (self.hunk_target(forward) != self.selected_hunk),
    {
        match (self.calc_hunk_move_target(forward), self.selected_hunk) {
            (Some(a), Some(b)) => a != b,
            (None, None) => false,
            _ => true,
        }
    }

    /// Add the commands that the panel offers.
    pub fn commands(&self, out: &mut Vec<CommandInfo>) -> (r: CommandBlocking)
        ensures
            final(out)@ == old(out)@ + self.command_list(),
            r == CommandBlocking::PassingOn,
    {
        let f = self.focused;
        let stage = self.current.is_stage;
        let hunk = self.selected_hunk.is_some();
        out.push(CommandInfo::new(Command::Scroll, self.can_scroll(), f));
        out.push(CommandInfo::new(Command::DiffHunkNext, self.leads_elsewhere(true), f));
        out.push(CommandInfo::new(Command::DiffHunkPrev, self.leads_elsewhere(false), f));
        out.push(CommandInfo::new(Command::DiffHomeEnd, self.can_scroll(), f).hidden());
        if !self.is_immutable {
            out.push(CommandInfo::new(Command::DiffHunkRemove, hunk, f && stage));
            out.push(CommandInfo::new(Command::DiffHunkAdd, hunk, f && !stage));
            out.push(CommandInfo::new(Command::DiffHunkRevert, hunk, f && !stage));
            if !self.is_delta_preview() {
                out.push(CommandInfo::new(Command::DiffLinesRevert, true, f && !stage));
            }
            out.push(CommandInfo::new(Command::DiffLinesStage, true, f && !stage));
            out.push(CommandInfo::new(Command::DiffLinesUnstage, true, f && stage));
        }
        out.push(CommandInfo::new(Command::EditItem, !self.current.path.as_str().is_empty(), f));
        out.push(CommandInfo::new(Command::Copy, true, f));
        out.push(CommandInfo::new(Command::DiffToggleMode, true, f).hidden());
        assert(out@ =~= old(out)@ + self.command_list());
        CommandBlocking::PassingOn
    }
}

// ------------------------------------------------------------------ drawing

/// The part that a piece of a drawn line plays, which decides its style.
#[derive(Clone, Copy, Debug, PartialEq, Eq, Structural)]
pub enum DiffStyle {
    Raw,
    Text,
    /// the bar beside a hunk; whether the hunk is selected
    HunkMarker(bool),
    /// a line of the diff; whether it is selected
    Line(DiffLineType, bool),
}

/// A piece of a drawn line.
#[derive(Debug, PartialEq, Eq)]
pub struct DiffSpan {
    pub content: String,
    pub style: DiffStyle,
}

/// What a [`DiffSpan`] holds.
pub struct DiffSpanView {
    pub content: Seq<char>,
    pub style: DiffStyle,
}

impl View for DiffSpan {
    type V = DiffSpanView;

    open spec fn view(&self) -> DiffSpanView {
        DiffSpanView { content: self.content@, style: self.style }
    }
}

/// A line of the diff that is visible.
#[derive(Clone, Copy, Debug, PartialEq, Eq, Structural)]
pub struct VisibleLine {
    pub hunk: usize,
    /// its index in the hunk
    pub line: usize,
    pub selected: bool,
    pub selected_hunk: bool,
    pub end_of_hunk: bool,
}

/// Whether a line shows in a panel that is scrolled to `top`: it lies in the
/// panel, or it goes on below it with a hunk that started in it. A panel without
/// height shows nothing.
pub open spec fn is_shown(line: int, hunk_start: int, top: int, height: int) -> bool {
    height > 0 && top <= line && (line < top + height || line == top + height && hunk_start < top
        + height)
}

/// Whether a hunk touches the lines from `min` to `max`.
pub open spec fn touches(hunk_min: int, hunk_max: int, min: int, max: int) -> bool {
    hunk_min <= max && hunk_max >= min
}

fn hunk_visible(hunk_min: usize, hunk_max: usize, min: usize, max: usize) -> (r: bool)
    requires
        hunk_min <= hunk_max,
        min <= max,
    ensures
        r == touches(hunk_min as int, hunk_max as int, min as int, max as int),
{
    if hunk_min <= min && hunk_max >= max {
        return true;
    }
    (hunk_min >= min && hunk_min <= max) || (hunk_max >= min && hunk_max <= max)
}

impl DiffComponent {
    pub open spec fn visible_line(self, hunk: int, line: int) -> VisibleLine {
        let hunks = self.diff->0.hunks@;
        VisibleLine {
            hunk: hunk as usize,
            line: line as usize,
            selected: self.focused && self.selection.has(lines_before(hunks, hunk) + line),
            selected_hunk: self.focused && self.selected_hunk == Some(hunk as usize),
            end_of_hunk: line == hunks[hunk].lines@.len() - 1,
        }
    }

    /// The visible lines among the first `n` of a hunk.
    pub open spec fn visible_in_hunk(self, hunk: int, top: int, height: int, n: int) -> Seq<
        VisibleLine,
    >
        decreases n,
    {
        let start = lines_before(self.diff->0.hunks@, hunk);
        if n <= 0 {
            Seq::empty()
        } else {
            let before = self.visible_in_hunk(hunk, top, height, n - 1);
            if is_shown(start + n - 1, start, top, height) {
                before.push(self.visible_line(hunk, n - 1))
            } else {
                before
            }
        }
    }

    /// The visible lines of the first `n` hunks.
    pub open spec fn visible(self, top: int, height: int, n: int) -> Seq<VisibleLine>
        decreases n,
    {
        if n <= 0 {
            Seq::empty()
        } else {
            self.visible(top, height, n - 1) + self.visible_in_hunk(
                n - 1,
                top,
                height,
                self.diff->0.hunks@[n - 1].lines@.len() as int,
            )
        }
    }

    proof fn lemma_nothing_visible(self, hunk: int, top: int, height: int, n: int)
        requires
            self.diff is Some,
            0 <= hunk < self.diff->0.hunks@.len(),
            0 <= n <= self.diff->0.hunks@[hunk].lines@.len(),
            !touches(
                lines_before(self.diff->0.hunks@, hunk),
                lines_before(self.diff->0.hunks@, hunk + 1),
                top,
                top + height,
            ),
        ensures
            self.visible_in_hunk(hunk, top, height, n) == Seq::<VisibleLine>::empty(),
        decreases n,
    {
        if n > 0 {
            self.lemma_nothing_visible(hunk, top, height, n - 1);
        }
    }

    /// The lines that show in the unified mode.
    pub fn visible_lines(&self, top: usize, height: u16) -> (r: Vec<VisibleLine>)
        requires
            self.countable(),
            top + height <= usize::MAX,
        ensures
            r@ == match self.diff {
                Some(d) => self.visible(top as int, height as int, d.hunks@.len() as int),
                None => Seq::empty(),
            },
    {
        let mut out: Vec<VisibleLine> = Vec::new();
        let diff = match &self.diff {
            Some(d) => d,
            None => {
                return out;
            },
        };
        let bottom: usize = top + height as usize;
        let mut start: usize = 0;
        for h in 0..diff.hunks.len()
            invariant
                self.diff == Some(*diff),
                self.countable(),
                bottom == top + height,
                start == lines_before(diff.hunks@, h as int),
                out@ == self.visible(top as int, height as int, h as int),
        {
            let len: usize = diff.hunks[h].lines.len();
            proof {
                lemma_lines_grow(diff.hunks@, h + 1, diff.hunks@.len() as int);
            }
            let hunk_selected = self.focused && match self.selected_hunk {
                Some(s) => s == h,
                None => false,
            };
            let ghost before = out@;
            if hunk_visible(start, start + len, top, bottom) {
                for l in 0..len
                    invariant
                        self.diff == Some(*diff),
                        h < diff.hunks@.len(),
                        len == diff.hunks@[h as int].lines@.len(),
                        bottom == top + height,
                        start == lines_before(diff.hunks@, h as int),
                        start + len <= usize::MAX,
                        hunk_selected == (self.focused && self.selected_hunk == Some(h)),
                        out@ == before + self.visible_in_hunk(
                            h as int,
                            top as int,
                            height as int,
                            l as int,
                        ),
                {
                    let at: usize = start + l;
                    if height > 0 && top <= at && (at < bottom || (at == bottom && start < bottom)) {
                        let selected = self.focused && self.selection.contains(at);
                        out.push(
                            VisibleLine {
                                hunk: h,
                                line: l,
                                selected,
                                selected_hunk: hunk_selected,
                                end_of_hunk: l == len - 1,
                            },
                        );
                    }
                    assert(out@ =~= before + self.visible_in_hunk(
                        h as int,
                        top as int,
                        height as int,
                        l + 1,
                    ));
                }
            } else {
                proof {
                    self.lemma_nothing_visible(h as int, top as int, height as int, len as int);
                }
                assert(out@ =~= before + self.visible_in_hunk(
                    h as int,
                    top as int,
                    height as int,
                    len as int,
                ));
            }
            start = start + len;
        }
        out
    }
}

/// The greatest line number in a diff, among its first `n` lines.
pub open spec fn greatest_number(lines: Seq<DiffLine>, n: int) -> u32
    decreases n,
{
    if n <= 0 {
        0
    } else {
        let p = lines[n - 1].position;
        greater(greater(greatest_number(lines, n - 1), p.old_lineno), p.new_lineno)
    }
}

pub open spec fn greater(a: u32, b: Option<u32>) -> u32 {
    match b {
        Some(n) if n > a => n,
        _ => a,
    }
}

fn take_greater(a: u32, b: Option<u32>) -> (r: u32)
    ensures
        r == greater(a, b),
{
    match b {
        Some(n) => if n > a {
            n
        } else {
            a
        },
        None => a,
    }
}

fn digit_count(n: u32) -> (r: usize)
    ensures
        r == text::digits(n as nat).len(),
        r <= 10,
{
    let mut left: u32 = n;
    let mut count: usize = 1;
    while left >= 10
        invariant
            count + text::digits(left as nat).len() == text::digits(n as nat).len() + 1,
            count <= 10,
            count == 1 ==> left <= 4294967295,
            count == 2 ==> left <= 429496729,
            count == 3 ==> left <= 42949672,
            count == 4 ==> left <= 4294967,
            count == 5 ==> left <= 429496,
            count == 6 ==> left <= 42949,
            count == 7 ==> left <= 4294,
            count == 8 ==> left <= 429,
            count == 9 ==> left <= 42,
            count == 10 ==> left <= 4,
            count >= 1,
        decreases left,
    {
        left = left / 10;
        count += 1;
    }
    count
}

/// A line number in its column, or blanks where there is none.
pub open spec fn number_column(n: Option<u32>, width: int) -> Seq<char> {
    match n {
        Some(k) => text::right_aligned(text::digits(k as nat), width),
        None => Seq::new(width as nat, |i: int| ' '),
    }
}

fn format_number_column(n: Option<u32>, width: usize) -> (r: String)
    ensures
        r@ == number_column(n, width as int),
{
    match n {
        Some(k) => text::align_right(text::number(k as u64).as_str(), width),
        None => text::repeat_char(' ', width),
    }
}

/// The columns of both line numbers and the blanks around them.
pub open spec fn number_columns(width: u16, number_width: int) -> int {
    let overhead = number_width * 2 + 2;
    if overhead > width {
        0
    } else {
        width - overhead
    }
}

/// A line of the diff as it is drawn: the bar of its hunk, its line numbers
/// and its text, which fills the panel if the line is selected.
pub open spec fn drawn_line(
    width: u16,
    line: DiffLine,
    shown: VisibleLine,
    number_width: int,
    content: Seq<char>,
) -> Seq<DiffSpanView> {
    let bar = if shown.end_of_hunk {
        '\u{2514}'
    } else if line.line_type == DiffLineType::Header {
        '\u{250c}'
    } else {
        '\u{2502}'
    };
    let filled = if shown.selected {
        text::left_aligned(content, number_columns(width, number_width)).push('\n')
    } else {
        content.push('\n')
    };
    seq![
        DiffSpanView { content: seq![bar], style: DiffStyle::HunkMarker(shown.selected_hunk) },
        DiffSpanView {
            content: number_column(line.position.old_lineno, number_width) + seq![' ']
                + number_column(line.position.new_lineno, number_width) + seq![' '],
            style: DiffStyle::Text,
        },
        DiffSpanView { content: filled, style: DiffStyle::Line(line.line_type, shown.selected) },
    ]
}

/// The text of a line as it is displayed: without tabs and without the columns
/// that are scrolled away. A line that was added or deleted, or is a header, and
/// holds nothing shows the sign of a line break.
pub open spec fn displayed(line: DiffLine, line_break: Seq<char>, scrolled_right: int) -> Seq<char> {
    let content = if line.line_type != DiffLineType::Context && line.content@.len() == 0 {
        line_break
    } else {
        text::without_tabs(line.content@)
    };
    unicode::scrolled(content, scrolled_right)
}

/// Draw a line of the diff. `line_break` is the sign of a line break, and
/// `scrolled_right` tells how many columns are scrolled away.
pub fn get_line_to_add(
    width: u16,
    line: &DiffLine,
    shown: VisibleLine,
    line_break: &str,
    scrolled_right: usize,
    line_num_width: usize,
) -> (r: Vec<DiffSpan>)
    requires
        line_num_width * 2 + 2 <= usize::MAX,
    ensures
        text::views(r@) == drawn_line(
            width,
            *line,
            shown,
            line_num_width as int,
            displayed(*line, line_break@, scrolled_right as int),
        ),
{
    let mut bar = String::new();
    if shown.end_of_hunk {
        bar.push('\u{2514}');
    } else if line.line_type == DiffLineType::Header {
        bar.push('\u{250c}');
    } else {
        bar.push('\u{2502}');
    }
    let mut numbers = format_number_column(line.position.old_lineno, line_num_width);
    numbers.push(' ');
    numbers.append(format_number_column(line.position.new_lineno, line_num_width).as_str());
    numbers.push(' ');
    let content = if line.line_type != DiffLineType::Context && line.content.as_str().is_empty() {
        line_break.to_owned()
    } else {
        text::tabs_to_spaces(line.content.as_str())
    };
    let content = unicode::trim_offset(content.as_str(), scrolled_right);
    let columns: usize = line_num_width * 2 + 2;
    let overhead: u16 = if columns <= u16::MAX as usize {
        columns as u16
    } else {
        u16::MAX
    };
    let content_width: usize = width.saturating_sub(overhead) as usize;
    let mut filled = if shown.selected {
        text::align_left(content.as_str(), content_width)
    } else {
        content.clone()
    };
    filled.push('\n');
    let mut out: Vec<DiffSpan> = Vec::new();
    out.push(DiffSpan { content: bar, style: DiffStyle::HunkMarker(shown.selected_hunk) });
    out.push(DiffSpan { content: numbers, style: DiffStyle::Text });
    out.push(DiffSpan { content: filled, style: DiffStyle::Line(line.line_type, shown.selected) });
    proof {
        let drawn = drawn_line(width, *line, shown, line_num_width as int, content@);
        assert(bar@ =~= drawn[0].content);
        assert(numbers@ =~= drawn[1].content);
        assert(filled@ =~= drawn[2].content);
        assert(text::views(out@) =~= drawn);
    }
    out
}

pub open spec fn diff_text(s: Seq<char>, style: DiffStyle) -> DiffSpanView {
    DiffSpanView { content: s, style }
}

/// The sizes of a binary file before and after, as they are drawn.
pub open spec fn drawn_sizes(sizes: (u64, u64), delta: i64) -> Seq<DiffSpanView> {
    let change = if delta >= 0 {
        "+"@ + unicode::byte_size_text(delta as u64)
    } else {
        "-"@ + unicode::byte_size_text((0 - delta) as u64)
    };
    let kind = if delta >= 0 {
        DiffLineType::Add
    } else {
        DiffLineType::Delete
    };
    seq![
        diff_text("size: "@, DiffStyle::Raw),
        diff_text(unicode::byte_size_text(sizes.0), DiffStyle::Text),
        diff_text(" -> "@, DiffStyle::Raw),
        diff_text(unicode::byte_size_text(sizes.1), DiffStyle::Text),
        diff_text(" ("@, DiffStyle::Raw),
        diff_text(change, DiffStyle::Line(kind, false)),
        diff_text(")"@, DiffStyle::Raw),
    ]
}

fn plain_span(s: &str, style: DiffStyle) -> (r: DiffSpan)
    ensures
        r@ == diff_text(s@, style),
{
    DiffSpan { content: s.to_owned(), style }
}

/// Draw the change in size of a binary file.
pub fn get_text_binary(diff: &FileDiff) -> (r: Vec<DiffSpan>)
    ensures
        text::views(r@) == drawn_sizes(diff.sizes, diff.size_delta),
{
    let grown = diff.size_delta >= 0;
    let amount: u64 = if grown {
        diff.size_delta as u64
    } else {
        (0 - (diff.size_delta as i128)) as u64
    };
    let sign = if grown {
        "+"
    } else {
        "-"
    };
    let kind = if grown {
        DiffLineType::Add
    } else {
        DiffLineType::Delete
    };
    let change = text::join2(sign, unicode::byte_size(amount).as_str());
    let mut out: Vec<DiffSpan> = Vec::new();
    out.push(plain_span("size: ", DiffStyle::Raw));
    out.push(plain_span(unicode::byte_size(diff.sizes.0).as_str(), DiffStyle::Text));
    out.push(plain_span(" -> ", DiffStyle::Raw));
    out.push(plain_span(unicode::byte_size(diff.sizes.1).as_str(), DiffStyle::Text));
    out.push(plain_span(" (", DiffStyle::Raw));
    out.push(plain_span(change.as_str(), DiffStyle::Line(kind, false)));
    out.push(plain_span(")", DiffStyle::Raw));
    assert(text::views(out@) =~= drawn_sizes(diff.sizes, diff.size_delta));
    out
}

/// What the parts of drawn lines hold.
pub open spec fn span_views(lines: Seq<Vec<DiffSpan>>) -> Seq<Seq<DiffSpanView>> {
    Seq::new(lines.len(), |i: int| text::views(lines[i]@))
}

impl DiffComponent {
    /// The width of the column for line numbers: that of the greatest one.
    pub open spec fn number_width(self) -> int {
        match self.diff {
            Some(d) => text::digits(
                greatest_number(flat_lines(d.hunks@), flat_lines(d.hunks@).len() as int) as nat,
            ).len() as int,
            None => 1,
        }
    }

    /// The width of the column for line numbers.
    pub fn get_line_num_width(&self) -> (r: usize)
        ensures
            r == self.number_width(),
            r <= 10,
    {
        match &self.diff {
            Some(d) => {
                let ghost all = flat_lines(d.hunks@);
                let lines = flatten(&d.hunks);
                let mut most: u32 = 0;
                for i in 0..lines.len()
                    invariant
                        lines@.len() == all.len(),
                        forall|i: int| 0 <= i < all.len() ==> *(#[trigger] lines@[i]) == all[i],
                        most == greatest_number(all, i as int),
                {
                    let p = lines[i].position;
                    most = take_greater(take_greater(most, p.old_lineno), p.new_lineno);
                }
                digit_count(most)
            },
            None => 1,
        }
    }

    /// The lines that fill the panel in the unified mode: the sizes of a file
    /// without hunks, or the visible lines of the hunks.
    pub open spec fn text(
        self,
        width: u16,
        height: int,
        top: int,
        line_break: Seq<char>,
        right: int,
    ) -> Seq<Seq<DiffSpanView>> {
        match self.diff {
            Some(d) => if d.hunks@.len() == 0 {
                seq![drawn_sizes(d.sizes, d.size_delta)]
            } else {
                let shown = self.visible(top, height, d.hunks@.len() as int);
                Seq::new(
                    shown.len(),
                    |i: int|
                        {
                            let line = d.hunks@[shown[i].hunk as int].lines@[shown[i].line as int];
                            drawn_line(
                                width,
                                line,
                                shown[i],
                                self.number_width(),
                                displayed(line, line_break, right),
                            )
                        },
                )
            },
            None => Seq::empty(),
        }
    }

    proof fn lemma_visible_in_hunk_exists(self, hunk: int, top: int, height: int, n: int)
        requires
            self.diff is Some,
            0 <= hunk < self.diff->0.hunks@.len() <= usize::MAX,
            0 <= n <= self.diff->0.hunks@[hunk].lines@.len() <= usize::MAX,
        ensures
            forall|i: int|
                0 <= i < self.visible_in_hunk(hunk, top, height, n).len() ==> (
                #[trigger] self.visible_in_hunk(hunk, top, height, n)[i]).hunk == hunk
                    && self.visible_in_hunk(hunk, top, height, n)[i].line < n,
        decreases n,
    {
        if n > 0 {
            self.lemma_visible_in_hunk_exists(hunk, top, height, n - 1);
            let before = self.visible_in_hunk(hunk, top, height, n - 1);
            let after = self.visible_in_hunk(hunk, top, height, n);
            assert forall|i: int| 0 <= i < after.len() implies (#[trigger] after[i]).hunk == hunk
                && after[i].line < n by {
                if i < before.len() {
                    assert(after[i] == before[i]);
                }
            }
        }
    }

    /// The lines that are visible are lines of the diff.
    pub proof fn lemma_visible_exists(self, top: int, height: int, n: int)
        requires
            self.countable(),
            self.diff is Some,
            0 <= n <= self.diff->0.hunks@.len(),
        ensures
            forall|i: int|
                0 <= i < self.visible(top, height, n).len() ==> {
                    let at = #[trigger] self.visible(top, height, n)[i];
                    at.hunk < n && at.line < self.diff->0.hunks@[at.hunk as int].lines@.len()
                },
        decreases n,
    {
        if n > 0 {
            let hunks = self.diff->0.hunks;
            self.lemma_visible_exists(top, height, n - 1);
            assert(hunks.len() <= usize::MAX);
            assert(hunks@[n - 1].lines.len() <= usize::MAX);
            self.lemma_visible_in_hunk_exists(
                n - 1,
                top,
                height,
                hunks@[n - 1].lines@.len() as int,
            );
            let before = self.visible(top, height, n - 1);
            let more = self.visible_in_hunk(n - 1, top, height, hunks@[n - 1].lines@.len() as int);
            let after = self.visible(top, height, n);
            assert forall|i: int| 0 <= i < after.len() implies {
                let at = #[trigger] after[i];
                at.hunk < n && at.line < hunks@[at.hunk as int].lines@.len()
            } by {
                if i < before.len() {
                    assert(after[i] == before[i]);
                } else {
                    assert(after[i] == more[i - before.len()]);
                }
            }
        }
    }

    /// Draw the lines that fill the panel in the unified mode. `line_break` is
    /// the sign of a line break, and `right` tells how many columns are scrolled
    /// away.
    pub fn get_text(
        &self,
        width: u16,
        height: u16,
        top: usize,
        line_break: &str,
        right: usize,
    ) -> (r: Vec<Vec<DiffSpan>>)
        requires
            self.countable(),
            self.diff matches Some(d) ==> d.hunks@.len() > 0 ==> top + height <= usize::MAX,
        ensures
            span_views(r@) == self.text(
                width,
                height as int,
                top as int,
                line_break@,
                right as int,
            ),
    {
        let mut out: Vec<Vec<DiffSpan>> = Vec::new();
        let ghost expected = self.text(width, height as int, top as int, line_break@, right as int);
        let diff = match &self.diff {
            Some(d) => d,
            None => {
                assert(span_views(out@) =~= expected);
                return out;
            },
        };
        if diff.hunks.len() == 0 {
            out.push(get_text_binary(diff));
            assert(span_views(out@) =~= expected);
            return out;
        }
        let number_width: usize = self.get_line_num_width();
        let shown = self.visible_lines(top, height);
        proof {
            self.lemma_visible_exists(top as int, height as int, diff.hunks@.len() as int);
        }
        for i in 0..shown.len()
            invariant
                self.diff == Some(*diff),
                diff.hunks@.len() > 0,
                number_width == self.number_width(),
                number_width <= 10,
                shown@ == self.visible(top as int, height as int, diff.hunks@.len() as int),
                expected == self.text(
                    width,
                    height as int,
                    top as int,
                    line_break@,
                    right as int,
                ),
                forall|k: int|
                    0 <= k < shown@.len() ==> (#[trigger] shown@[k]).hunk < diff.hunks@.len()
                        && shown@[k].line < diff.hunks@[shown@[k].hunk as int].lines@.len(),
                out@.len() == i,
                forall|k: int| 0 <= k < i ==> text::views((#[trigger] out@[k])@) == expected[k],
        {
            let at = shown[i];
            let line = &diff.hunks[at.hunk].lines[at.line];
            out.push(get_line_to_add(width, line, at, line_break, right, number_width));
        }
        assert(span_views(out@) =~= expected);
        out
    }

    /// The columns that the text of the diff has beside the line numbers.
    pub open spec fn content_columns(self) -> int {
        let overhead = self.number_width() * 2 + 3;
        if overhead > self.current_size.0 {
            0
        } else {
            self.current_size.0 - overhead
        }
    }

    /// The columns that the text of the diff has beside the line numbers.
    pub fn content_width(&self) -> (r: usize)
        ensures
            r == self.content_columns(),
    {
        let overhead: u16 = self.get_line_num_width() as u16 * 2 + 3;
        self.current_size.0.saturating_sub(overhead) as usize
    }

    /// How far the text can be scrolled to the right.
    pub fn max_scroll_right(&self) -> (r: usize)
        ensures
            r == if self.longest_line > self.content_columns() {
                self.longest_line - self.content_columns()
            } else {
                0
            },
    {
        self.longest_line.saturating_sub(self.content_width())
    }
}

/// How many of the first `n` lines are of a kind.
pub open spec fn count_kind(lines: Seq<DiffLine>, kind: DiffLineType, n: int) -> nat
    decreases n,
{
    if n <= 0 {
        0
    } else if lines[n - 1].line_type == kind {
        count_kind(lines, kind, n - 1) + 1
    } else {
        count_kind(lines, kind, n - 1)
    }
}

/// The counts of added and of deleted lines, if there are any.
pub open spec fn stats_text(added: nat, deleted: nat) -> Seq<char> {
    if added == 0 && deleted == 0 {
        Seq::empty()
    } else {
        " (+"@ + text::digits(added) + " -"@ + text::digits(deleted) + ")"@
    }
}

fn format_stats(added: usize, deleted: usize) -> (r: String)
    ensures
        r@ == stats_text(added as nat, deleted as nat),
{
    let mut out = String::new();
    if added > 0 || deleted > 0 {
        out.append(" (+");
        out.append(text::number(added as u64).as_str());
        out.append(" -");
        out.append(text::number(deleted as u64).as_str());
        out.append(")");
        assert(out@ =~= stats_text(added as nat, deleted as nat));
    } else {
        assert(out@ =~= Seq::empty());
    }
    out
}

/// What fills the panel.
#[derive(Clone, Copy, Debug, PartialEq, Eq, Structural)]
pub enum DiffBody {
    Delta,
    Loading,
    Unified,
}

impl DiffComponent {
    /// The place of the selected hunk among all, if there is one.
    pub open spec fn hunk_info(self) -> Seq<char> {
        match (self.diff, self.selected_hunk) {
            (Some(d), Some(h)) => if d.hunks@.len() == 0 {
                Seq::empty()
            } else {
                " ["@ + text::digits((h + 1) as nat) + "/"@ + text::digits(d.hunks@.len())
                    + "]"@
            },
            _ => Seq::empty(),
        }
    }

    /// The counts of changed lines.
    pub open spec fn line_stats(self) -> Seq<char> {
        match self.diff {
            Some(d) => {
                let lines = flat_lines(d.hunks@);
                let n = lines.len() as int;
                stats_text(
                    count_kind(lines, DiffLineType::Add, n),
                    count_kind(lines, DiffLineType::Delete, n),
                )
            },
            None => Seq::empty(),
        }
    }

    /// The title of the panel: the file, how much of it changed, and which
    /// hunk is selected.
    pub fn title(&self, prefix: &str) -> (r: String)
        requires
            self.selected_hunk matches Some(h) ==> h < usize::MAX,
        ensures
            r@ == prefix@ + self.current.path@ + self.line_stats() + self.hunk_info(),
    {
        let mut out = text::join2(prefix, self.current.path.as_str());
        match &self.diff {
            Some(d) => {
                let ghost all = flat_lines(d.hunks@);
                let lines = flatten(&d.hunks);
                let mut added: usize = 0;
                let mut deleted: usize = 0;
                for i in 0..lines.len()
                    invariant
                        lines@.len() == all.len(),
                        forall|i: int| 0 <= i < all.len() ==> *(#[trigger] lines@[i]) == all[i],
                        added == count_kind(all, DiffLineType::Add, i as int),
                        deleted == count_kind(all, DiffLineType::Delete, i as int),
                        added <= i,
                        deleted <= i,
                {
                    match lines[i].line_type {
                        DiffLineType::Add => {
                            added += 1;
                        },
                        DiffLineType::Delete => {
                            deleted += 1;
                        },
                        _ => {},
                    }
                }
                out.append(format_stats(added, deleted).as_str());
                match self.selected_hunk {
                    Some(h) => {
                        if d.hunks.len() > 0 {
                            let ghost before = out@;
                            out.append(" [");
                            out.append(text::number((h + 1) as u64).as_str());
                            out.append("/");
                            out.append(text::number(d.hunks.len() as u64).as_str());
                            out.append("]");
                            assert(out@ =~= before + self.hunk_info());
                        }
                    },
                    None => {},
                }
            },
            None => {},
        }
        assert(out@ =~= prefix@ + self.current.path@ + self.line_stats() + self.hunk_info());
        out
    }

    /// What fills the panel. While a render is on its way, an earlier one
    /// stays visible.
    pub open spec fn shown_body(self, render_running: bool) -> DiffBody {
        let waiting = self.is_delta() && render_running && self.delta_rows() == 0;
        if self.pending || waiting {
            DiffBody::Loading
        } else if self.is_delta() {
            DiffBody::Delta
        } else {
            DiffBody::Unified
        }
    }

    /// What fills the panel. `render_running` tells whether the render of what is
    /// shown is on its way.
    pub fn body(&self, render_running: bool) -> (r: DiffBody)
        ensures
            r == self.shown_body(render_running),
    {
        let delta = self.is_delta_preview();
        let waiting = delta && render_running && self.delta_len() == 0;
        if self.pending || waiting {
            DiffBody::Loading
        } else if delta {
            DiffBody::Delta
        } else {
            DiffBody::Unified
        }
    }

    /// The panel in another size, borders excluded.
    pub fn set_area(&mut self, width: u16, height: u16)
        ensures
            *final(self) == (DiffComponent {
                current_size: (
                    capped_sub(width as usize, 2) as u16,
                    capped_sub(height as usize, 2) as u16,
                ),
                ..*old(self)
            }),
    {
        self.current_size = (width.saturating_sub(2), height.saturating_sub(2));
    }

    /// Give or take the focus.
    pub fn focus(&mut self, focus: bool)
        ensures
            *final(self) == (DiffComponent { focused: focus, ..*old(self) }),
    {
        self.focused = focus;
    }

    /// Whether the panel has the focus.
    pub fn focused(&self) -> (r: bool)
        ensures
            r == self.focused,
    {
        self.focused
    }
}

/// A row under the cursor: all of it in the style of the selection, and as
/// wide as the panel.
pub open spec fn highlighted(row: Seq<SpanView>, width: int, style: Style) -> Seq<SpanView> {
    let plain = Seq::new(row.len(), |i: int| SpanView { content: row[i].content, style });
    let columns = async_delta::columns_before(row, row.len() as int);
    if columns < width {
        plain.push(SpanView { content: Seq::new((width - columns) as nat, |i: int| ' '), style })
    } else {
        plain
    }
}

/// Row `i` of delta's render as it is drawn.
pub open spec fn drawn_row(row: Seq<SpanView>, width: int, cursor: bool, style: Style) -> Seq<
    SpanView,
> {
    let filled = async_delta::padded(row, width, true, None);
    if cursor {
        highlighted(filled, width, style)
    } else {
        filled
    }
}

fn highlight(row: Line, width: usize, style: Style) -> (r: Line)
    ensures
        r@ == highlighted(row@, width as int, style),
{
    let ghost all = row@;
    let columns: usize = async_delta::capped_columns(&row.spans, row.spans.len(), width);
    let mut spans: Vec<Span> = Vec::new();
    for i in 0..row.spans.len()
        invariant
            all == row@,
            spans@.len() == i,
            forall|j: int|
                0 <= j < i ==> (#[trigger] spans@[j])@ == (SpanView {
                    content: all[j].content,
                    style,
                }),
    {
        spans.push(Span { content: row.spans[i].content.clone(), style });
    }
    if columns < width {
        spans.push(Span::styled(text::repeat_char(' ', width - columns), style));
    }
    let out = Line { spans };
    assert(out@ =~= highlighted(all, width as int, style));
    out
}

/// The visible rows of delta's render as they are drawn: the row under the
/// cursor is highlighted. Side by side, backgrounds reach to the gutter. A
/// render without rows is told as such.
pub fn delta_lines(
    display: &Vec<Line>,
    scroll: usize,
    height: u16,
    cursor_line: usize,
    panel_width: usize,
    text_style: Style,
    sel_style: Style,
) -> (r: Vec<Line>)
    ensures
        display@.len() == 0 ==> text::views(r@) == seq![
            seq![SpanView { content: "No delta output available."@, style: text_style }],
        ],
        display@.len() > 0 ==> ({
            let count = if display@.len() <= scroll {
                0
            } else if display@.len() - scroll < height {
                display@.len() - scroll
            } else {
                height as int
            };
            let cursor = if cursor_line >= scroll {
                cursor_line - scroll
            } else {
                0
            };
            text::views(r@) == Seq::new(
                count as nat,
                |i: int|
                    drawn_row(display@[scroll + i]@, panel_width as int, i == cursor, sel_style),
            )
        }),
{
    if display.len() == 0 {
        let mut spans: Vec<Span> = Vec::new();
        spans.push(Span::styled("No delta output available.".to_owned(), text_style));
        let row = Line { spans };
        assert(row@ =~= seq![
            SpanView { content: "No delta output available."@, style: text_style },
        ]);
        let mut out: Vec<Line> = Vec::new();
        out.push(row);
        assert(text::views(out@) =~= seq![row@]);
        return out;
    }
    let cursor: usize = cursor_line.saturating_sub(scroll);
    let count: usize = if display.len() <= scroll {
        0
    } else if display.len() - scroll < height as usize {
        display.len() - scroll
    } else {
        height as usize
    };
    let mut out: Vec<Line> = Vec::new();
    for i in 0..count
        invariant
            count > 0 ==> scroll + count <= display@.len(),
            display@.len() <= usize::MAX,
            out@.len() == i,
            forall|j: int|
                0 <= j < i ==> (#[trigger] out@[j])@ == drawn_row(
                    display@[scroll + j]@,
                    panel_width as int,
                    j == cursor,
                    sel_style,
                ),
    {
        let row = async_delta::pad_line_bg(display[scroll + i].clone(), panel_width, true, None);
        let drawn = if i == cursor {
            highlight(row, panel_width, sel_style)
        } else {
            row
        };
        out.push(drawn);
    }
    let ghost expected = Seq::new(
        count as nat,
        |i: int| drawn_row(display@[scroll + i]@, panel_width as int, i == cursor, sel_style),
    );
    assert(text::views(out@) =~= expected);
    out
}

// --------------------------------------------------------------------- laws

proof fn lemma_hunk_from(hunks: Seq<Hunk>, i: int, line: int)
    requires
        0 <= i <= hunks.len(),
        hunks.len() <= usize::MAX,
        lines_before(hunks, i) <= line,
    ensures
        match hunk_from(hunks, i, line) {
            Some(h) => h < hunks.len() && lines_before(hunks, h as int) <= line < lines_before(
                hunks,
                h + 1,
            ),
            None => line >= lines_before(hunks, hunks.len() as int),
        },
    decreases hunks.len() - i,
{
    if i < hunks.len() && !(lines_before(hunks, i) <= line < lines_before(hunks, i + 1)) {
        lemma_hunk_from(hunks, i + 1, line);
    }
}

/// A line of the diff lies in the hunk that is found for it, and a line
/// behind the last one lies in none.
pub proof fn lemma_lines_lie_in_their_hunk(hunks: Seq<Hunk>, line: int)
    requires
        hunks.len() <= usize::MAX,
        0 <= line,
    ensures
        match hunk_at(hunks, line) {
            Some(h) => h < hunks.len() && lines_before(hunks, h as int) <= line < lines_before(
                hunks,
                h + 1,
            ),
            None => line >= flat_lines(hunks).len(),
        },
{
    lemma_flat_len(hunks);
    lemma_hunk_from(hunks, 0, line);
}

/// However the selection moves, one line is selected then, and it is one of
/// those that are shown.
pub proof fn lemma_moves_stay_inside(c: DiffComponent, how: ScrollType)
    requires
        c.diff is Some || c.is_delta(),
        c.selection.bottom() < c.line_count() || c.selection.bottom() == 0,
        c.delta_rows() <= usize::MAX,
    ensures
        c.moved(how).selection matches Selection::Single(line) && (line < c.line_count() || line
            == 0),
{
}

/// Toggling the mode twice, with delta at hand, leads back to it.
pub proof fn lemma_mode_toggles_back(c: DiffComponent)
    ensures
        c.toggled(true).toggled(true).diff_mode == c.diff_mode,
        c.toggled(false).diff_mode == DiffMode::Unified,
{
}

/// A render that arrives never leaves a single selected line behind its end,
/// and a line that is within it keeps its place.
pub proof fn lemma_renders_keep_the_cursor(c: DiffComponent, render: ProcessedDelta, line: usize)
    requires
        c.selection == Selection::Single(line),
        render.display_lines@.len() <= usize::MAX,
    ensures
        ({
            let next = c.rendered(render).settled();
            &&& next.selection matches Selection::Single(at) && (at < render.display_lines@.len()
                || at == 0)
            &&& line < render.display_lines@.len() ==> next.selection == c.selection
        }),
{
}

/// The hash that a request outside carries, if it is about one hunk.
pub open spec fn asked_hash(action: DiffActionView) -> Option<u64> {
    match action {
        DiffActionView::UnstageHunk(_, hash) => Some(hash),
        DiffActionView::StageHunk(_, hash) => Some(hash),
        DiffActionView::ConfirmResetHunk(_, hash) => Some(hash),
        _ => None,
    }
}

/// The file that a request outside is about, if it changes one.
pub open spec fn asked_path(action: DiffActionView) -> Option<Seq<char>> {
    match action {
        DiffActionView::UnstageHunk(path, _) => Some(path),
        DiffActionView::StageHunk(path, _) => Some(path),
        DiffActionView::StageFile(path) => Some(path),
        DiffActionView::StageLines(path, _, _, _) => Some(path),
        DiffActionView::ConfirmReset(path) => Some(path),
        DiffActionView::ConfirmResetHunk(path, _) => Some(path),
        DiffActionView::ConfirmResetLines(path, _) => Some(path),
        DiffActionView::OpenEditor(path, _) => Some(path),
        _ => None,
    }
}

/// Whatever is asked of one hunk is asked of the one that is selected, and whatever
/// is asked of a file of the one that is shown.
pub proof fn lemma_the_selected_hunk_is_meant(c: DiffComponent, intent: DiffIntent, i: int)
    requires
        !c.resets_no_hunk(intent),
        0 <= i < c.actions(intent).len(),
    ensures
        asked_hash(c.actions(intent)[i]) matches Some(hash) ==> {
            &&& c.diff is Some && c.selected_hunk is Some
            &&& c.selected_hunk->0 < c.diff->0.hunks@.len()
            &&& hash == c.diff->0.hunks@[c.selected_hunk->0 as int].header_hash
        },
        asked_path(c.actions(intent)[i]) matches Some(path) ==> path == c.current.path@,
{
}

/// The key for staging unstages the selected hunk of a staged file, stages that of
/// another, and stages an untracked file as a whole. Everything is looked at again
/// then.
pub proof fn lemma_the_selected_hunk_is_staged(c: DiffComponent, press: KeyPress, h: usize)
    requires
        press.is_only(Key::StageUnstageItem),
        c.focused,
        !c.is_immutable,
        c.diff is Some,
        c.selected_hunk == Some(h),
        h < c.diff->0.hunks@.len(),
    ensures
        ({
            let d = c.diff->0;
            let hash = d.hunks@[h as int].header_hash;
            c.actions(c.intent(press)) == if c.current.is_stage {
                seq![
                    DiffActionView::UnstageHunk(c.current.path@, hash),
                    DiffActionView::UpdateAll,
                ]
            } else if d.untracked {
                seq![DiffActionView::StageFile(c.current.path@), DiffActionView::UpdateAll]
            } else {
                seq![
                    DiffActionView::StageHunk(c.current.path@, hash),
                    DiffActionView::UpdateAll,
                ]
            }
        }),
{
}

/// Nothing is thrown away without being asked for, nor of a staged file. The
/// selected hunk is what would be, or an untracked file as a whole.
pub proof fn lemma_resets_are_confirmed(c: DiffComponent, press: KeyPress, h: usize)
    requires
        press.is_only(Key::StatusResetItem),
        c.focused,
        c.diff is Some,
        c.selected_hunk == Some(h),
        h < c.diff->0.hunks@.len(),
    ensures
        ({
            let d = c.diff->0;
            let hash = d.hunks@[h as int].header_hash;
            c.actions(c.intent(press)) == if c.is_immutable || c.current.is_stage {
                Seq::empty()
            } else if d.untracked {
                seq![DiffActionView::ConfirmReset(c.current.path@)]
            } else {
                seq![DiffActionView::ConfirmResetHunk(c.current.path@, hash)]
            }
        }),
{
}

/// The keys for lines stage and throw away the selected lines: the latter only
/// after a question, and only of a tracked file that is not staged.
pub proof fn lemma_the_selected_lines_are_meant(c: DiffComponent, press: KeyPress)
    requires
        c.focused,
        !c.is_immutable,
        c.diff is Some,
    ensures
        press.is_only(Key::DiffStageLines) ==> c.actions(c.intent(press)) == seq![
            DiffActionView::StageLines(
                c.current.path@,
                c.diff->0.untracked,
                c.current.is_stage,
                c.selected_positions(),
            ),
            DiffActionView::UpdateAll,
        ],
        press.is_only(Key::DiffResetLines) && !c.is_delta() && !c.current.is_stage
            && !c.diff->0.untracked ==> c.actions(c.intent(press)) == seq![
            DiffActionView::ConfirmResetLines(c.current.path@, c.selected_positions()),
        ],
        press.is_only(Key::DiffResetLines) && (c.current.is_stage || c.diff->0.untracked)
            ==> c.actions(c.intent(press)).len() == 0,
{
}

/// A panel that cannot change anything, or is not focused, asks for no change, and
/// nothing but the keys for it asks for one.
pub proof fn lemma_changes_need_their_key(c: DiffComponent, press: KeyPress, i: int)
    requires
        0 <= i < c.actions(c.intent(press)).len(),
    ensures
        ({
            let action = c.actions(c.intent(press))[i];
            &&& asked_hash(action) is Some || action is StageFile || action is StageLines
                || action is ConfirmReset || action is ConfirmResetLines ==> c.focused
                && !c.is_immutable
            &&& action is UnstageHunk ==> c.current.is_stage && press.has(Key::StageUnstageItem)
            &&& action is StageHunk || action is StageFile ==> !c.current.is_stage && press.has(
                Key::StageUnstageItem,
            )
            &&& action is ConfirmReset || action is ConfirmResetHunk ==> !c.current.is_stage
                && press.has(Key::StatusResetItem)
            &&& action is StageLines ==> press.has(Key::DiffStageLines)
            &&& action is ConfirmResetLines ==> !c.current.is_stage && press.has(
                Key::DiffResetLines,
            )
        }),
{
}

/// The keys for moving: by one line, to the ends, and to the hunks beside the
/// selected one.
pub proof fn lemma_keys_move(c: DiffComponent, press: KeyPress)
    requires
        c.focused,
    ensures
        press.is_only(Key::MoveDown) ==> c.after(c.intent(press)) == c.moved(ScrollType::Down),
        press.is_only(Key::MoveUp) ==> c.after(c.intent(press)) == c.moved(ScrollType::Up),
        press.is_only(Key::Home) ==> c.after(c.intent(press)) == c.moved(ScrollType::Home),
        press.is_only(Key::End) ==> c.after(c.intent(press)) == c.moved(ScrollType::End),
        press.is_only(Key::PageDown) ==> c.after(c.intent(press)) == c.moved(ScrollType::PageDown),
        press.is_only(Key::PageUp) ==> c.after(c.intent(press)) == c.moved(ScrollType::PageUp),
        press.is_only(Key::DiffHunkNext) ==> c.after(c.intent(press)) == c.stepped(true),
        press.is_only(Key::DiffHunkPrev) ==> c.after(c.intent(press)) == c.stepped(false),
        press.is_only(Key::DiffModeToggle) ==> c.actions(c.intent(press)) == seq![
            DiffActionView::ToggleMode,
        ],
        press.is_only(Key::EditFile) && c.current.path@.len() > 0 ==> c.actions(c.intent(press))
            == seq![DiffActionView::OpenEditor(c.current.path@, c.cursor_line())],
{
}

/// A single line moves by one, to the first or the last, or by a page without its
/// last line, and stays within the lines that are shown.
pub proof fn lemma_where_moves_lead(c: DiffComponent, line: usize, n: usize)
    requires
        c.selection == Selection::Single(line),
        c.diff is Some || c.is_delta(),
        n == c.line_count(),
        c.delta_rows() <= usize::MAX,
        line < n,
    ensures
        line + 1 < n ==> c.moved(ScrollType::Down).selection == Selection::Single(
            (line + 1) as usize,
        ),
        line + 1 == n ==> c.moved(ScrollType::Down).selection == Selection::Single(line),
        line > 0 ==> c.moved(ScrollType::Up).selection == Selection::Single((line - 1) as usize),
        line == 0 ==> c.moved(ScrollType::Up).selection == Selection::Single(0),
        c.moved(ScrollType::Home).selection == Selection::Single(0),
        c.moved(ScrollType::End).selection == Selection::Single((n - 1) as usize),
        c.current_size.1 > 0 && line + c.current_size.1 <= n ==> c.moved(
            ScrollType::PageDown,
        ).selection == Selection::Single((line + c.current_size.1 - 1) as usize),
        c.current_size.1 > 0 && line + 1 >= c.current_size.1 ==> c.moved(
            ScrollType::PageUp,
        ).selection == Selection::Single((line + 1 - c.current_size.1) as usize),
{
}

/// The hunk that is selected after a move is the one that the selected line lies
/// in: behind all lines of the hunks before it, and before those of the next.
pub proof fn lemma_moves_select_the_hunk(c: DiffComponent, how: ScrollType)
    requires
        c.diff is Some,
        !c.is_delta(),
        c.diff->0.hunks@.len() <= usize::MAX,
    ensures
        ({
            let hunks = c.diff->0.hunks@;
            let after = c.moved(how);
            after.selected_hunk matches Some(h) ==> h < hunks.len() && flat_lines(
                hunks.take(h as int),
            ).len() <= after.selection.start() < flat_lines(hunks.take(h + 1)).len()
        }),
{
    let hunks = c.diff->0.hunks@;
    let after = c.moved(how);
    if after.selected_hunk is Some {
        let h = after.selected_hunk->0;
        lemma_lines_lie_in_their_hunk(hunks, after.selection.start() as int);
        lemma_flat_len(hunks.take(h as int));
        lemma_flat_len(hunks.take(h + 1));
        lemma_before_prefix(hunks, hunks.take(h as int), h as int);
        lemma_before_prefix(hunks, hunks.take(h + 1), h + 1);
    }
}

/// A step leads to the next or the previous hunk and to its first line; at the last
/// and the first hunk nothing changes.
pub proof fn lemma_steps_lead_to_the_hunk_beside(c: DiffComponent, h: usize)
    requires
        c.diff is Some,
        !c.is_delta(),
        c.selected_hunk == Some(h),
        h < c.diff->0.hunks@.len(),
        c.diff->0.hunks@.len() <= usize::MAX,
        flat_lines(c.diff->0.hunks@).len() <= usize::MAX,
    ensures
        ({
            let hunks = c.diff->0.hunks@;
            let (next, previous) = (c.stepped(true), c.stepped(false));
            &&& h + 1 < hunks.len() ==> next.selected_hunk == Some((h + 1) as usize)
                && next.selection.start() == flat_lines(hunks.take(h + 1)).len() && next.selection
                is Single
            &&& h + 1 == hunks.len() ==> next == c
            &&& h > 0 ==> previous.selected_hunk == Some((h - 1) as usize)
                && previous.selection.start() == flat_lines(hunks.take(h - 1)).len()
                && previous.selection is Single
            &&& h == 0 ==> previous == c
        }),
{
    let hunks = c.diff->0.hunks@;
    lemma_flat_len(hunks);
    if h + 1 < hunks.len() {
        lemma_flat_len(hunks.take(h + 1));
        lemma_before_prefix(hunks, hunks.take(h + 1), h + 1);
        lemma_lines_grow(hunks, h + 1, hunks.len() as int);
    }
    if h > 0 {
        lemma_flat_len(hunks.take(h - 1));
        lemma_before_prefix(hunks, hunks.take(h - 1), h - 1);
        lemma_lines_grow(hunks, h - 1, hunks.len() as int);
    }
}

proof fn lemma_first_row_of(hunks: Seq<usize>, i: int, hunk: int)
    requires
        0 <= i <= hunks.len(),
    ensures
        i <= first_row_of(hunks, i, hunk) <= hunks.len(),
        first_row_of(hunks, i, hunk) < hunks.len() ==> hunks[first_row_of(hunks, i, hunk)] == hunk,
        forall|k: int| i <= k < first_row_of(hunks, i, hunk) ==> #[trigger] hunks[k] != hunk,
    decreases hunks.len() - i,
{
    if i < hunks.len() && hunks[i] != hunk {
        lemma_first_row_of(hunks, i + 1, hunk);
    }
}

/// In delta's render a step leads to the first row of the hunk beside, where it has
/// one; and wherever the cursor is, the hunk of its row is selected, as far as the
/// diff has it.
pub proof fn lemma_rows_lead_to_their_hunk(c: DiffComponent, forward: bool, how: ScrollType)
    requires
        c.diff is Some,
        c.is_delta(),
        c.delta_hunks().len() == c.delta_rows() <= usize::MAX,
        0 < c.diff->0.hunks@.len() <= usize::MAX,
    ensures
        ({
            let rows = c.delta_hunks();
            let next = c.stepped(forward);
            let at = next.selection.start() as int;
            &&& c.steps(forward) && rows.contains(next.selected_hunk->0) ==> at < rows.len()
                && rows[at] == next.selected_hunk->0 && forall|k: int|
                0 <= k < at ==> #[trigger] rows[k] != next.selected_hunk->0
        }),
        ({
            let rows = c.delta_hunks();
            let after = c.moved(how);
            let at = after.selection.start() as int;
            at < rows.len() && rows[at] < c.diff->0.hunks@.len() ==> after.selected_hunk == Some(
                rows[at],
            )
        }),
{
    let rows = c.delta_hunks();
    if c.steps(forward) {
        let hunk = c.hunk_target(forward)->0;
        lemma_first_row_of(rows, 0, hunk as int);
        if rows.contains(hunk) {
            let k = choose|k: int| 0 <= k < rows.len() && rows[k] == hunk;
            assert(first_row_of(rows, 0, hunk as int) <= k);
        }
    }
}

proof fn lemma_changed_none(lines: Seq<DiffLine>, sel: Selection, n: int)
    requires
        n <= lines.len(),
        forall|i: int| 0 <= i < n ==> !sel.has(i),
    ensures
        changed_positions(lines, sel, n).len() == 0,
        selected_texts(lines, sel, n).len() == 0,
    decreases n,
{
    if n > 0 {
        assert(!sel.has(n - 1));
        lemma_changed_none(lines, sel, n - 1);
    }
}

/// The selected lines do not depend on the end that the selection was started at,
/// and a selection that goes on behind another adds its own lines.
pub proof fn lemma_selections_add(lines: Seq<DiffLine>, a: usize, b: usize, c: usize, n: int)
    requires
        a <= b < c,
        n <= lines.len(),
    ensures
        changed_positions(lines, Selection::Multiple(a, c), n) == changed_positions(
            lines,
            Selection::Multiple(c, a),
            n,
        ),
        changed_positions(lines, Selection::Multiple(a, c), n) == changed_positions(
            lines,
            Selection::Multiple(a, b),
            n,
        ) + changed_positions(lines, Selection::Multiple((b + 1) as usize, c), n),
        selected_texts(lines, Selection::Multiple(a, c), n) == selected_texts(
            lines,
            Selection::Multiple(c, a),
            n,
        ),
        selected_texts(lines, Selection::Multiple(a, c), n) == selected_texts(
            lines,
            Selection::Multiple(a, b),
            n,
        ) + selected_texts(lines, Selection::Multiple((b + 1) as usize, c), n),
    decreases n,
{
    let both = Selection::Multiple(a, c);
    let first = Selection::Multiple(a, b);
    let second = Selection::Multiple((b + 1) as usize, c);
    if n > 0 {
        lemma_selections_add(lines, a, b, c, n - 1);
        if first.has(n - 1) {
            lemma_changed_none(lines, second, n);
            lemma_changed_none(lines, second, n - 1);
        }
    }
    assert(changed_positions(lines, both, n) =~= changed_positions(lines, first, n)
        + changed_positions(lines, second, n));
    assert(selected_texts(lines, both, n) =~= selected_texts(lines, first, n) + selected_texts(
        lines,
        second,
        n,
    ));
}

proof fn lemma_single_stays(lines: Seq<DiffLine>, i: usize, n: int)
    requires
        i < n <= lines.len(),
    ensures
        changed_positions(lines, Selection::Single(i), n) == changed_positions(
            lines,
            Selection::Single(i),
            i + 1,
        ),
        selected_texts(lines, Selection::Single(i), n) == selected_texts(
            lines,
            Selection::Single(i),
            i + 1,
        ),
    decreases n,
{
    if n > i + 1 {
        lemma_single_stays(lines, i, n - 1);
    }
}

/// Of one selected line the position counts if it was added or deleted, and the
/// text without the line ends around it is what is copied.
pub proof fn lemma_one_selected_line(lines: Seq<DiffLine>, i: usize)
    requires
        i < lines.len(),
    ensures
        ({
            let line = lines[i as int];
            let one = Selection::Single(i);
            &&& line.line_type == DiffLineType::Add || line.line_type == DiffLineType::Delete
                ==> changed_positions(lines, one, lines.len() as int) == seq![line.position]
            &&& line.line_type == DiffLineType::Context || line.line_type == DiffLineType::Header
                ==> changed_positions(lines, one, lines.len() as int).len() == 0
            &&& selected_texts(lines, one, lines.len() as int).len() == 1
            &&& (forall|k: int| 0 <= k < line.content@.len() ==> #[trigger] line.content@[k] != '\n'
                && line.content@[k] != '\r') ==> selected_texts(lines, one, lines.len() as int)
                == seq![line.content@]
        }),
{
    let one = Selection::Single(i);
    lemma_single_stays(lines, i, lines.len() as int);
    lemma_changed_none(lines, one, i as int);
    let line = lines[i as int];
    assert(changed_positions(lines, one, i as int) =~= Seq::empty());
    assert(selected_texts(lines, one, i as int) =~= Seq::empty());
    if forall|k: int| 0 <= k < line.content@.len() ==> #[trigger] line.content@[k] != '\n'
        && line.content@[k] != '\r' {
        if line.content@.len() > 0 {
            assert(!is_line_end(line.content@[0]));
            assert(!is_line_end(line.content@[line.content@.len() - 1]));
        }
    }
}

/// In delta's render the positions of the selected rows count, as far as they are
/// known: all of them and no others.
pub proof fn lemma_known_rows(rows: Seq<Option<DiffLinePosition>>, sel: Selection, n: int, i: int)
    requires
        0 <= i < n <= rows.len(),
    ensures
        sel.top() <= i <= sel.bottom() && rows[i] is Some ==> known_positions(
            rows,
            sel,
            n,
        ).contains(rows[i]->0),
        forall|k: int|
            0 <= k < known_positions(rows, sel, n).len() ==> exists|j: int|
                sel.top() <= j <= sel.bottom() && 0 <= j < n && #[trigger] rows[j] == Some(
                    #[trigger] known_positions(rows, sel, n)[k],
                ),
        known_positions(rows, sel, n).len() <= n,
    decreases n,
{
    let all = known_positions(rows, sel, n);
    let before = known_positions(rows, sel, n - 1);
    if n > 1 {
        lemma_known_rows(rows, sel, n - 1, if i < n - 1 {
            i
        } else {
            0
        });
    }
    if sel.top() <= i <= sel.bottom() && rows[i] is Some {
        if i < n - 1 {
            let k = choose|k: int| 0 <= k < before.len() && before[k] == rows[i]->0;
            assert(all[k] == rows[i]->0);
        } else {
            assert(all[all.len() - 1] == rows[i]->0);
        }
    }
    assert forall|k: int| 0 <= k < all.len() implies exists|j: int|
        sel.top() <= j <= sel.bottom() && 0 <= j < n && #[trigger] rows[j] == Some(
            #[trigger] all[k],
        ) by {
        if k < before.len() {
            assert(all[k] == before[k]);
            let j = choose|j: int|
                sel.top() <= j <= sel.bottom() && 0 <= j < n - 1 && #[trigger] rows[j] == Some(
                    before[k],
                );
            assert(rows[j] == Some(all[k]));
        } else {
            assert(rows[n - 1] == Some(all[k]));
        }
    }
}

// ---------------------------------------------------------- laws of the drawing

proof fn lemma_visible_in_hunk(c: DiffComponent, hunk: int, top: int, height: int, n: int)
    requires
        c.diff is Some,
        0 <= hunk < c.diff->0.hunks@.len() <= usize::MAX,
        0 <= n <= c.diff->0.hunks@[hunk].lines@.len() <= usize::MAX,
    ensures
        ({
            let shown = c.visible_in_hunk(hunk, top, height, n);
            let start = lines_before(c.diff->0.hunks@, hunk);
            &&& forall|i: int|
                0 <= i < shown.len() ==> {
                    let v = #[trigger] shown[i];
                    &&& v.hunk == hunk
                    &&& 0 <= v.line < n
                    &&& is_shown(start + v.line, start, top, height)
                    &&& v == c.visible_line(hunk, v.line as int)
                }
            &&& forall|k: int|
                0 <= k < n && is_shown(start + k, start, top, height) ==> shown.contains(
                    #[trigger] c.visible_line(hunk, k),
                )
            &&& forall|i: int, j: int|
                0 <= i < j < shown.len() ==> (#[trigger] shown[i]).line < (
                #[trigger] shown[j]).line
        }),
    decreases n,
{
    if n > 0 {
        lemma_visible_in_hunk(c, hunk, top, height, n - 1);
        let before = c.visible_in_hunk(hunk, top, height, n - 1);
        let shown = c.visible_in_hunk(hunk, top, height, n);
        let start = lines_before(c.diff->0.hunks@, hunk);
        assert forall|k: int|
            0 <= k < n && is_shown(start + k, start, top, height) implies shown.contains(
            #[trigger] c.visible_line(hunk, k),
        ) by {
            if k < n - 1 {
                let v = c.visible_line(hunk, k);
                assert(before.contains(v));
                let i = choose|i: int| 0 <= i < before.len() && before[i] == v;
                assert(shown[i] == v);
            } else {
                assert(shown[shown.len() - 1] == c.visible_line(hunk, k));
            }
        }
    }
}

/// Every line that lies in the panel is drawn.
pub proof fn lemma_lines_in_the_panel_are_drawn(
    c: DiffComponent,
    top: int,
    height: int,
    n: int,
    h: int,
    k: int,
)
    requires
        c.diff is Some,
        c.diff->0.hunks@.len() <= usize::MAX,
        0 <= h < n <= c.diff->0.hunks@.len(),
        0 <= k < c.diff->0.hunks@[h].lines@.len() <= usize::MAX,
        top <= lines_before(c.diff->0.hunks@, h) + k < top + height,
    ensures
        exists|i: int|
            0 <= i < c.visible(top, height, n).len() && (#[trigger] c.visible(
                top,
                height,
                n,
            )[i]).hunk == h && c.visible(top, height, n)[i].line == k,
    decreases n,
{
    let hunks = c.diff->0.hunks@;
    let all = c.visible(top, height, n);
    let before = c.visible(top, height, n - 1);
    if h < n - 1 {
        lemma_lines_in_the_panel_are_drawn(c, top, height, n - 1, h, k);
        let i = choose|i: int|
            0 <= i < before.len() && (#[trigger] before[i]).hunk == h && before[i].line == k;
        assert(all[i] == before[i]);
    } else {
        lemma_visible_in_hunk(c, h, top, height, hunks[h].lines@.len() as int);
        let here = c.visible_in_hunk(h, top, height, hunks[h].lines@.len() as int);
        let v = c.visible_line(h, k);
        assert(here.contains(v));
        let i = choose|i: int| 0 <= i < here.len() && here[i] == v;
        assert(all[before.len() + i] == v);
    }
}

/// What is drawn are lines of the diff that lie in the panel, or on the row below
/// it, from the first to the last.
pub proof fn lemma_drawn_lines_lie_in_the_panel(c: DiffComponent, top: int, height: int, n: int)
    requires
        c.diff is Some,
        0 <= n <= c.diff->0.hunks@.len() <= usize::MAX,
        forall|h: int|
            0 <= h < c.diff->0.hunks@.len() ==> (#[trigger] c.diff->0.hunks@[h]).lines@.len()
                <= usize::MAX,
    ensures
        ({
            let hunks = c.diff->0.hunks@;
            let shown = c.visible(top, height, n);
            &&& forall|i: int|
                0 <= i < shown.len() ==> {
                    let v = #[trigger] shown[i];
                    &&& v.hunk < n
                    &&& v.line < hunks[v.hunk as int].lines@.len()
                    &&& top <= lines_before(hunks, v.hunk as int) + v.line <= top + height
                    &&& v.selected <==> c.focused && c.selection.has(
                        lines_before(hunks, v.hunk as int) + v.line,
                    )
                    &&& v.selected_hunk <==> c.focused && c.selected_hunk == Some(v.hunk)
                    &&& v.end_of_hunk <==> v.line + 1 == hunks[v.hunk as int].lines@.len()
                }
            &&& forall|i: int, j: int|
                0 <= i < j < shown.len() ==> (#[trigger] shown[i]).hunk < (
                #[trigger] shown[j]).hunk || (shown[i].hunk == shown[j].hunk && shown[i].line
                    < shown[j].line)
        }),
    decreases n,
{
    if n > 0 {
        let hunks = c.diff->0.hunks@;
        lemma_drawn_lines_lie_in_the_panel(c, top, height, n - 1);
        let lines = hunks[n - 1].lines@.len() as int;
        lemma_visible_in_hunk(c, n - 1, top, height, lines);
        let before = c.visible(top, height, n - 1);
        let here = c.visible_in_hunk(n - 1, top, height, lines);
        let shown = c.visible(top, height, n);
        assert forall|i: int| 0 <= i < shown.len() implies ({
            let v = #[trigger] shown[i];
            &&& v.hunk < n
            &&& v.line < hunks[v.hunk as int].lines@.len()
            &&& top <= lines_before(hunks, v.hunk as int) + v.line <= top + height
            &&& v.selected <==> c.focused && c.selection.has(
                lines_before(hunks, v.hunk as int) + v.line,
            )
            &&& v.selected_hunk <==> c.focused && c.selected_hunk == Some(v.hunk)
            &&& v.end_of_hunk <==> v.line + 1 == hunks[v.hunk as int].lines@.len()
        }) by {
            if i < before.len() {
                assert(shown[i] == before[i]);
            } else {
                assert(shown[i] == here[i - before.len()]);
            }
        }
        assert forall|i: int, j: int| 0 <= i < j < shown.len() implies (#[trigger] shown[i]).hunk
            < (#[trigger] shown[j]).hunk || (shown[i].hunk == shown[j].hunk && shown[i].line
            < shown[j].line) by {
            if i < before.len() {
                assert(shown[i] == before[i]);
            } else {
                assert(shown[i] == here[i - before.len()]);
            }
            if j < before.len() {
                assert(shown[j] == before[j]);
            } else {
                assert(shown[j] == here[j - before.len()]);
            }
        }
    }
}

/// A line is drawn as its hunk's bar, its numbers in the old and in the new
/// file, and its text; a selected one fills the panel.
pub proof fn lemma_parts_of_a_drawn_line(
    width: u16,
    line: DiffLine,
    shown: VisibleLine,
    number_width: int,
    content: Seq<char>,
)
    requires
        0 <= number_width,
        line.position.old_lineno is Some ==> text::digits(
            line.position.old_lineno->0 as nat,
        ).len() <= number_width,
        line.position.new_lineno is Some ==> text::digits(
            line.position.new_lineno->0 as nat,
        ).len() <= number_width,
    ensures
        ({
            let row = drawn_line(width, line, shown, number_width, content);
            let numbers = row[1].content;
            &&& row.len() == 3
            &&& row[0].content.len() == 1
            &&& row[0].style == DiffStyle::HunkMarker(shown.selected_hunk)
            &&& numbers.len() == 2 * number_width + 2
            &&& numbers[number_width] == ' '
            &&& numbers.last() == ' '
            &&& line.position.old_lineno is Some ==> text::trimmed(numbers.take(number_width))
                == text::digits(line.position.old_lineno->0 as nat)
            &&& line.position.old_lineno is None ==> text::trimmed(
                numbers.take(number_width),
            ).len() == 0
            &&& line.position.new_lineno is Some ==> text::trimmed(
                numbers.subrange(number_width + 1, 2 * number_width + 1),
            ) == text::digits(line.position.new_lineno->0 as nat)
            &&& line.position.new_lineno is None ==> text::trimmed(
                numbers.subrange(number_width + 1, 2 * number_width + 1),
            ).len() == 0
            &&& row[2].content.take(content.len() as int) == content
            &&& row[2].content.last() == '\n'
            &&& !shown.selected ==> row[2].content.len() == content.len() + 1
            &&& shown.selected && content.len() + 2 * number_width + 2 <= width
                ==> row[2].content.len() + numbers.len() == width + 1
            &&& row[2].style == DiffStyle::Line(line.line_type, shown.selected)
        }),
{
    let row = drawn_line(width, line, shown, number_width, content);
    let numbers = row[1].content;
    let old = number_column(line.position.old_lineno, number_width);
    let new = number_column(line.position.new_lineno, number_width);
    lemma_number_column(line.position.old_lineno, number_width);
    lemma_number_column(line.position.new_lineno, number_width);
    assert(numbers.take(number_width) =~= old);
    assert(numbers.subrange(number_width + 1, 2 * number_width + 1) =~= new);
    assert(row[2].content.take(content.len() as int) =~= content);
}

proof fn lemma_number_column(n: Option<u32>, width: int)
    requires
        0 <= width,
        n is Some ==> text::digits(n->0 as nat).len() <= width,
    ensures
        number_column(n, width).len() == width,
        n is Some ==> text::trimmed(number_column(n, width)) == text::digits(n->0 as nat),
        n is None ==> text::trimmed(number_column(n, width)).len() == 0,
{
    let column = number_column(n, width);
    text::lemma_blanks();
    match n {
        Some(k) => {
            let digits = text::digits(k as nat);
            text::lemma_digits_read_back(k as nat);
            let before = Seq::new((width - digits.len()) as nat, |i: int| ' ');
            assert(column =~= before + digits + Seq::empty());
            assert(digits.last() == digits[digits.len() - 1]);
            text::lemma_blanks_around(before, digits, Seq::empty());
        },
        None => {
            text::lemma_trimming_keeps_what_is_not_blank(column);
            text::lemma_trimming_ends(column);
        },
    }
}

/// The bar starts at a header and ends at the last line of its hunk.
pub proof fn lemma_bars_frame_their_hunk(
    width: u16,
    line: DiffLine,
    shown: VisibleLine,
    number_width: int,
    content: Seq<char>,
)
    ensures
        ({
            let bar = drawn_line(width, line, shown, number_width, content)[0].content[0];
            &&& bar == '\u{2514}' <==> shown.end_of_hunk
            &&& bar == '\u{250c}' <==> !shown.end_of_hunk && line.line_type
                == DiffLineType::Header
            &&& bar == '\u{2502}' <==> !shown.end_of_hunk && line.line_type
                != DiffLineType::Header
        }),
{
}

/// An empty line that was changed shows a sign; every other line its own text.
pub proof fn lemma_what_is_displayed(line: DiffLine, line_break: Seq<char>, right: int)
    ensures
        line.content@.len() > 0 ==> displayed(line, line_break, right) == unicode::scrolled(
            text::without_tabs(line.content@),
            right,
        ),
        line.content@.len() == 0 && line.line_type != DiffLineType::Context ==> displayed(
            line,
            line_break,
            right,
        ) == unicode::scrolled(line_break, right),
        line.content@.len() == 0 && line.line_type == DiffLineType::Context ==> displayed(
            line,
            line_break,
            right,
        ) == unicode::scrolled(Seq::empty(), right),
{
    if line.content@.len() == 0 {
        assert(text::without_tabs(line.content@) =~= Seq::empty());
    }
}

/// No line number of the diff is greater than the greatest, and that is one of
/// them.
pub proof fn lemma_the_greatest_number(lines: Seq<DiffLine>, n: int, i: int)
    requires
        0 <= i < n <= lines.len(),
    ensures
        ({
            let g = greatest_number(lines, n);
            &&& lines[i].position.old_lineno is Some ==> lines[i].position.old_lineno->0 <= g
            &&& lines[i].position.new_lineno is Some ==> lines[i].position.new_lineno->0 <= g
            &&& g > 0 ==> exists|k: int|
                0 <= k < n && ((#[trigger] lines[k]).position.old_lineno == Some(g)
                    || lines[k].position.new_lineno == Some(g))
        }),
    decreases n,
{
    let g = greatest_number(lines, n);
    let before = greatest_number(lines, n - 1);
    if n > 1 {
        lemma_the_greatest_number(
            lines,
            n - 1,
            if i < n - 1 {
                i
            } else {
                0
            },
        );
        if g == before && g > 0 {
            let k = choose|k: int|
                0 <= k < n - 1 && ((#[trigger] lines[k]).position.old_lineno == Some(before)
                    || lines[k].position.new_lineno == Some(before));
            assert(lines[k].position.old_lineno == Some(g) || lines[k].position.new_lineno == Some(
                g,
            ));
        }
    } else {
        reveal_with_fuel(greatest_number, 2);
    }
    if g != before {
        assert(lines[n - 1].position.old_lineno == Some(g) || lines[n - 1].position.new_lineno
            == Some(g));
    }
}

/// The counts are those of the lines that were added and deleted, and nothing is
/// told where there are none.
pub proof fn lemma_lines_are_counted(lines: Seq<DiffLine>, kind: DiffLineType, n: int)
    requires
        0 <= n < lines.len(),
    ensures
        count_kind(lines, kind, 0) == 0,
        lines[n].line_type == kind ==> count_kind(lines, kind, n + 1) == count_kind(lines, kind, n)
            + 1,
        lines[n].line_type != kind ==> count_kind(lines, kind, n + 1) == count_kind(
            lines,
            kind,
            n,
        ),
        stats_text(0, 0).len() == 0,
{
}

/// The counts are told with their signs, first what was added.
pub proof fn lemma_counts_are_told(c: DiffComponent, d: FileDiff)
    requires
        c.diff == Some(d),
    ensures
        ({
            let lines = flat_lines(d.hunks@);
            let added = count_kind(lines, DiffLineType::Add, lines.len() as int);
            let deleted = count_kind(lines, DiffLineType::Delete, lines.len() as int);
            &&& c.line_stats().len() > 0 <==> added > 0 || deleted > 0
            &&& c.line_stats().len() > 0 ==> c.line_stats() == " (+"@ + text::digits(added) + " -"@
                + text::digits(deleted) + ")"@
        }),
{
    reveal_strlit(" (+");
}

/// The place of the selected hunk is told from one on, with the number of all.
pub proof fn lemma_the_place_of_the_hunk_is_told(c: DiffComponent, d: FileDiff, h: usize)
    requires
        c.diff == Some(d),
        d.hunks@.len() > 0,
    ensures
        c.selected_hunk == Some(h) ==> c.hunk_info() == " ["@ + text::digits((h + 1) as nat)
            + "/"@ + text::digits(d.hunks@.len()) + "]"@,
        c.selected_hunk is None ==> c.hunk_info().len() == 0,
{
}

/// The sizes of a file without lines: the one before, the one after, and the
/// change with its sign.
pub proof fn lemma_sizes_are_told(sizes: (u64, u64), delta: i64)
    requires
        delta > i64::MIN,
    ensures
        ({
            let row = drawn_sizes(sizes, delta);
            &&& row.len() == 7
            &&& row[1].content == unicode::byte_size_text(sizes.0)
            &&& row[3].content == unicode::byte_size_text(sizes.1)
            &&& delta >= 0 ==> row[5].content == "+"@ + unicode::byte_size_text(delta as u64)
                && row[5].style == DiffStyle::Line(DiffLineType::Add, false)
            &&& delta < 0 ==> row[5].content == "-"@ + unicode::byte_size_text((0 - delta) as u64)
                && row[5].style == DiffStyle::Line(DiffLineType::Delete, false)
        }),
{
}

/// Something is loading while a diff or the first render of one is awaited; a
/// render that is there stays in sight.
pub proof fn lemma_what_fills_the_panel(c: DiffComponent, running: bool)
    ensures
        c.pending ==> c.shown_body(running) == DiffBody::Loading,
        !c.pending && !c.is_delta() ==> c.shown_body(running) == DiffBody::Unified,
        !c.pending && c.is_delta() && c.delta_rows() > 0 ==> c.shown_body(running)
            == DiffBody::Delta,
        !c.pending && c.is_delta() && !running ==> c.shown_body(running) == DiffBody::Delta,
        !c.pending && c.is_delta() && running && c.delta_rows() == 0 ==> c.shown_body(running)
            == DiffBody::Loading,
{
}

/// The row under the cursor is drawn in the style of the selection from border
/// to border, and its text stays.
pub proof fn lemma_the_cursor_covers_its_row(
    row: Seq<SpanView>,
    width: int,
    style: Style,
    i: int,
)
    requires
        0 <= width,
        0 <= i < highlighted(row, width, style).len(),
    ensures
        ({
            let out = highlighted(row, width, style);
            let columns = async_delta::columns_before(row, row.len() as int);
            &&& out[i].style == style
            &&& i < row.len() ==> out[i].content == row[i].content
            &&& columns < width ==> out.len() == row.len() + 1 && out.last().content.len()
                + columns == width
            &&& columns >= width ==> out.len() == row.len()
        }),
{
}

/// No line is longer than the longest.
pub proof fn lemma_the_longest_line(lines: Seq<DiffLine>, i: int)
    requires
        0 <= i < lines.len(),
    ensures
        displayed_bytes(lines[i]) < longest_of(lines),
        exists|k: int|
            0 <= k < lines.len() && longest_of(lines) == displayed_bytes(#[trigger] lines[k]) + 1,
    decreases lines.len(),
{
    let rest = lines.drop_last();
    let last = lines.len() - 1;
    if rest.len() > 0 {
        lemma_the_longest_line(
            rest,
            if i < last {
                i
            } else {
                0
            },
        );
        let k = choose|k: int|
            0 <= k < rest.len() && longest_of(rest) == displayed_bytes(#[trigger] rest[k]) + 1;
        assert(lines[k] == rest[k]);
        if longest_of(lines) != longest_of(rest) {
            assert(longest_of(lines) == displayed_bytes(lines[last]) + 1);
        } else {
            assert(longest_of(lines) == displayed_bytes(lines[k]) + 1);
        }
    } else {
        assert(longest_of(rest) == 0);
        assert(longest_of(lines) == displayed_bytes(lines[last]) + 1);
    }
}

/// No hunk has a line that is longer than the longest of all.
pub proof fn lemma_the_longest_of_all(hunks: Seq<Hunk>, n: int, h: int)
    requires
        0 <= h < n <= hunks.len(),
    ensures
        longest_of(hunks[h].lines@) <= longest(hunks, n),
        exists|k: int| 0 <= k < n && longest(hunks, n) == longest_of((#[trigger] hunks[k]).lines@),
    decreases n,
{
    lemma_longest_is_no_less(hunks[n - 1].lines@);
    if n > 1 {
        lemma_the_longest_of_all(
            hunks,
            n - 1,
            if h < n - 1 {
                h
            } else {
                0
            },
        );
        let k = choose|k: int|
            0 <= k < n - 1 && longest(hunks, n - 1) == longest_of((#[trigger] hunks[k]).lines@);
        if longest(hunks, n) == longest(hunks, n - 1) {
            assert(longest(hunks, n) == longest_of(hunks[k].lines@));
        } else {
            assert(longest(hunks, n) == longest_of(hunks[n - 1].lines@));
        }
    } else {
        reveal_with_fuel(longest, 2);
        assert(longest(hunks, n) == longest_of(hunks[n - 1].lines@));
    }
}

proof fn lemma_longest_is_no_less(lines: Seq<DiffLine>)
    ensures
        longest_of(lines) >= 0,
    decreases lines.len(),
{
    if lines.len() > 0 {
        lemma_longest_is_no_less(lines.drop_last());
    }
}

/// Another diff is shown as the one of its file; the same diff changes nothing
/// but that it is no longer awaited. Another file is shown from its top.
pub proof fn lemma_the_shown_diff_is_the_given_one(
    c: DiffComponent,
    path: String,
    is_stage: bool,
    diff: FileDiff,
    diff_type: DiffType,
    hash: u64,
)
    ensures
        ({
            let after = c.showing(path, is_stage, diff, diff_type, hash);
            &&& !after.pending
            &&& c.current.hash == hash ==> after.diff == c.diff && after.current == c.current
                && after.selection == c.selection
            &&& c.current.hash != hash ==> {
                &&& after.diff == Some(diff)
                &&& after.current == (Current { path, is_stage, hash, diff_type })
                &&& c.current.path@ != path@ ==> after.selection == Selection::Single(0)
            }
            &&& after.diff_mode == c.diff_mode
            &&& after.focused == c.focused
        }),
{
}

/// The editor is opened at the line under the cursor.
pub proof fn lemma_the_line_under_the_cursor(c: DiffComponent, d: FileDiff, at: usize)
    requires
        c.selection == Selection::Single(at),
        c.diff == Some(d),
    ensures
        !c.is_delta() && at < flat_lines(d.hunks@).len() ==> c.cursor_line() == flat_lines(
            d.hunks@,
        )[at as int].position.new_lineno,
        !c.is_delta() && at >= flat_lines(d.hunks@).len() ==> c.cursor_line() is None,
        c.is_delta() && c.delta is Some && at < c.delta->0.display_positions@.len()
            && c.delta->0.display_positions@[at as int] is Some ==> c.cursor_line()
            == c.delta->0.display_positions@[at as int]->0.new_lineno,
        c.is_delta() && c.delta is None ==> c.cursor_line() is None,
{
}

/// The lines of a hunk, in the flat list, are those from its start on.
pub proof fn lemma_flat_lines_keep_the_hunks(hunks: Seq<Hunk>, h: int, k: int)
    requires
        0 <= h < hunks.len(),
        0 <= k < hunks[h].lines@.len(),
    ensures
        lines_before(hunks, h) + k < flat_lines(hunks).len(),
        flat_lines(hunks)[lines_before(hunks, h) + k] == hunks[h].lines@[k],
    decreases hunks.len(),
{
    let rest = hunks.drop_last();
    lemma_flat_len(rest);
    lemma_flat_len(hunks);
    lemma_before_prefix(rest, hunks, h);
    lemma_before_prefix(rest, hunks, hunks.len() - 1);
    lemma_lines_grow(hunks, 0, h);
    if h < hunks.len() - 1 {
        lemma_flat_lines_keep_the_hunks(rest, h, k);
        assert(rest[h] == hunks[h]);
    }
}

/// A copied line has no line ends around it and nothing else is taken from it.
pub proof fn lemma_line_ends_are_cut_off(s: Seq<char>)
    ensures
        ({
            let head = without_leading_ends(s);
            let r = without_trailing_ends(head);
            &&& r.len() > 0 ==> r[0] != '\n' && r[0] != '\r' && r.last() != '\n' && r.last()
                != '\r'
            &&& r.is_prefix_of(head)
            &&& head.is_suffix_of(s)
            &&& s.len() > 0 && !is_line_end(s[0]) && !is_line_end(s.last()) ==> r == s
        }),
{
    lemma_leading_ends(s);
    lemma_trailing_ends(without_leading_ends(s));
}

proof fn lemma_leading_ends(s: Seq<char>)
    ensures
        without_leading_ends(s).is_suffix_of(s),
        without_leading_ends(s).len() > 0 ==> !is_line_end(without_leading_ends(s)[0]),
    decreases s.len(),
{
    if s.len() > 0 && is_line_end(s[0]) {
        lemma_leading_ends(s.drop_first());
        let r = without_leading_ends(s);
        assert(r =~= s.subrange(s.len() - r.len(), s.len() as int));
    }
}

proof fn lemma_trailing_ends(s: Seq<char>)
    ensures
        without_trailing_ends(s).is_prefix_of(s),
        without_trailing_ends(s).len() > 0 ==> !is_line_end(without_trailing_ends(s).last())
            && without_trailing_ends(s)[0] == s[0],
    decreases s.len(),
{
    if s.len() > 0 && is_line_end(s.last()) {
        lemma_trailing_ends(s.drop_last());
    }
}

/// The commands that change something are offered only where something may be
/// changed: to stage where nothing is staged, and to unstage where it is.
pub proof fn lemma_offered_changes(c: DiffComponent, i: int)
    requires
        0 <= i < c.command_list().len(),
    ensures
        ({
            let command = c.command_list()[i];
            let kind = command.command;
            let changes = kind == Command::DiffHunkAdd || kind == Command::DiffHunkRemove || kind
                == Command::DiffHunkRevert || kind == Command::DiffLinesRevert || kind
                == Command::DiffLinesStage || kind == Command::DiffLinesUnstage;
            &&& changes ==> !c.is_immutable
            &&& !c.focused ==> !command.available
            &&& kind == Command::DiffHunkAdd || kind == Command::DiffHunkRevert || kind
                == Command::DiffLinesStage || kind == Command::DiffLinesRevert ==> (
            command.available <==> c.focused && !c.current.is_stage)
            &&& kind == Command::DiffHunkRemove || kind == Command::DiffLinesUnstage ==> (
            command.available <==> c.focused && c.current.is_stage)
            &&& kind == Command::DiffHunkAdd || kind == Command::DiffHunkRemove || kind
                == Command::DiffHunkRevert ==> (command.enabled <==> c.selected_hunk is Some)
        }),
{
}

/// A selection is extended by one line from its end, the way of the key that was
/// pressed.
pub proof fn lemma_keys_extend_the_selection(c: DiffComponent, press: KeyPress)
    requires
        c.focused,
        c.diff is Some || c.is_delta(),
    ensures
        ({
            let after = c.after(c.intent(press));
            &&& press.is_only(Key::ShiftDown) ==> after.selection.start() == c.selection.start()
                && (c.selection.end() + 1 < c.line_count() ==> after.selection.end()
                == c.selection.end() + 1)
            &&& press.is_only(Key::ShiftUp) ==> after.selection.start() == c.selection.start() && (
            c.selection.end() > 0 ==> after.selection.end() == c.selection.end() - 1)
            &&& press.is_only(Key::ShiftDown) || press.is_only(Key::ShiftUp) ==> after.diff
                == c.diff && c.actions(c.intent(press)).len() == 0
        }),
{
}

} // verus!
