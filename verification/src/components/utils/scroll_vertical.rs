//! Vertical scrolling.
use crate::components::ScrollType;
use crate::ui;
use vstd::prelude::*;

verus! {

/// Which lines of a text a pane shows.
#[derive(Clone, Copy, Debug, PartialEq, Eq, Structural)]
pub struct VerticalScroll {
    /// the first line that is shown
    pub top: usize,
    /// how far the text can be scrolled
    pub max_top: usize,
    /// how many lines fit
    pub visual_height: usize,
}

/// The first line that a move leads to, within bounds.
pub open spec fn scroll_target(scroll: VerticalScroll, how: ScrollType) -> int {
    let top = scroll.top as int;
    let height = scroll.visual_height as int;
    let target = match how {
        ScrollType::Down => top + 1,
        ScrollType::Up => top - 1,
        ScrollType::PageDown => (if top > 0 {
            top - 1
        } else {
            0
        }) + height,
        ScrollType::PageUp => top + 1 - height,
        ScrollType::Home => 0,
        ScrollType::End => scroll.max_top as int,
    };
    if target < 0 {
        0
    } else if target > scroll.max_top {
        scroll.max_top as int
    } else {
        target
    }
}

/// The first line to show so that the selected one of many lines is visible.
/// What fits as a whole is not scrolled.
pub open spec fn top_for(top: int, height: int, selection: int, count: int) -> int {
    if height == 0 || count <= height {
        0
    } else {
        ui::scroll_top(top, height, selection)
    }
}

impl VerticalScroll {
    pub open spec fn at_start() -> VerticalScroll {
        VerticalScroll { top: 0, max_top: 0, visual_height: 0 }
    }

    pub open spec fn to_top(self) -> VerticalScroll {
        VerticalScroll { top: 0, ..self }
    }

    pub open spec fn moved(self, how: ScrollType) -> VerticalScroll {
        VerticalScroll { top: scroll_target(self, how) as usize, ..self }
    }

    /// The scroll of a pane with a selected line.
    pub open spec fn fitted(
        self,
        selection: usize,
        count: usize,
        height: usize,
    ) -> VerticalScroll {
        VerticalScroll {
            top: top_for(self.top as int, height as int, selection as int, count as int) as usize,
            max_top: if height == 0 || count <= height {
                0
            } else {
                (count - height) as usize
            },
            visual_height: height,
        }
    }

    /// A scroll at the start.
    pub fn new() -> (r: VerticalScroll)
        ensures
            r == VerticalScroll::at_start(),
    {
        VerticalScroll { top: 0, max_top: 0, visual_height: 0 }
    }

    /// The first line that is shown.
    pub fn get_top(&self) -> (r: usize)
        ensures
            r == self.top,
    {
        self.top
    }

    /// Go back to the start.
    pub fn reset(&mut self)
        ensures
            *final(self) == old(self).to_top(),
    {
        self.top = 0;
    }

    /// Scroll. Tells whether that changed anything.
    pub fn move_top(&mut self, how: ScrollType) -> (changed: bool)
        ensures
            *final(self) == old(self).moved(how),
            changed == (final(self).top != old(self).top),
    {
        let old_top: usize = self.top;
        let max: usize = self.max_top;
        let target: usize = match how {
            ScrollType::Down => old_top.saturating_add(1),
            ScrollType::Up => old_top.saturating_sub(1),
            ScrollType::PageDown => old_top.saturating_sub(1).saturating_add(self.visual_height),
            ScrollType::PageUp => {
                if self.visual_height == 0 {
                    old_top.saturating_add(1)
                } else {
                    old_top.saturating_sub(self.visual_height - 1)
                }
            },
            ScrollType::Home => 0,
            ScrollType::End => max,
        };
        let target: usize = if target > max {
            max
        } else {
            target
        };
        self.top = target;
        target != old_top
    }

    /// Take in the selected line, the number of lines and how many of them fit.
    pub fn update(&mut self, selection: usize, count: usize, visual_height: usize) -> (top: usize)
        ensures
            *final(self) == old(self).fitted(selection, count, visual_height),
            top == final(self).top,
    {
        self.visual_height = visual_height;
        self.top = if visual_height == 0 || count <= visual_height {
            0
        } else {
            ui::calc_scroll_top(self.top, visual_height, selection)
        };
        self.max_top = if visual_height == 0 {
            0
        } else {
            count.saturating_sub(visual_height)
        };
        self.top
    }

    /// Take in the number of lines and how many of them fit.
    pub fn update_no_selection(&mut self, count: usize, visual_height: usize) -> (top: usize)
        ensures
            *final(self) == old(self).fitted(old(self).top, count, visual_height),
            top == final(self).top,
    {
        let top: usize = self.top;
        self.update(top, count, visual_height)
    }
}

/// Scrolling never leads past the last full page.
pub proof fn lemma_scroll_stays_inside(scroll: VerticalScroll, how: ScrollType)
    ensures
        scroll.moved(how).top <= scroll.max_top,
{
}

/// Each way to scroll moves by its own distance, as far as there is something
/// to show: by one row, by all but one of the rows that are seen, or to an
/// end.
pub proof fn lemma_distances(s: VerticalScroll)
    requires
        s.top <= s.max_top,
    ensures
        s.top < s.max_top ==> s.moved(ScrollType::Down).top == s.top + 1,
        s.top == s.max_top ==> s.moved(ScrollType::Down).top == s.top,
        s.top > 0 ==> s.moved(ScrollType::Up).top == s.top - 1,
        s.top == 0 ==> s.moved(ScrollType::Up).top == 0,
        s.top > 0 && s.top + s.visual_height - 1 <= s.max_top ==> s.moved(
            ScrollType::PageDown,
        ).top == s.top + s.visual_height - 1,
        s.top + s.visual_height - 1 > s.max_top ==> s.moved(ScrollType::PageDown).top
            == s.max_top,
        s.visual_height > 0 && s.top >= s.visual_height - 1 ==> s.moved(ScrollType::PageUp).top
            == s.top - (s.visual_height - 1),
        s.top < s.visual_height - 1 ==> s.moved(ScrollType::PageUp).top == 0,
        s.moved(ScrollType::Home).top == 0,
        s.moved(ScrollType::End).top == s.max_top,
{
}

/// Scrolling changes what is seen, not how much there is.
pub proof fn lemma_scrolling_keeps_the_extent(s: VerticalScroll, how: ScrollType)
    ensures
        s.moved(how).max_top == s.max_top,
        s.moved(how).visual_height == s.visual_height,
        s.to_top().top == 0,
        s.to_top().max_top == s.max_top,
        s.to_top().visual_height == s.visual_height,
{
}

/// Where not everything fits, the selection is in sight and the last row can
/// just be reached; where everything fits, nothing is scrolled.
pub proof fn lemma_the_selection_is_in_sight(
    s: VerticalScroll,
    selection: usize,
    count: usize,
    height: usize,
)
    requires
        selection < count,
        0 < height,
    ensures
        ({
            let after = s.fitted(selection, count, height);
            &&& after.top <= selection < after.top + height
            &&& after.visual_height == height
            &&& count > height ==> after.max_top + height == count
            &&& count <= height ==> after.top == 0 && after.max_top == 0
        }),
{
    ui::lemma_selection_is_shown(s.top as int, height as int, selection as int);
}

} // verus!
