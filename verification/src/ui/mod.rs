//! What drawing needs to know: scroll positions, layouts and previews.
pub mod highlight;
pub mod images;
pub mod stateful_paragraph;
pub mod syntax_text;

use vstd::prelude::*;

verus! {

/// The first line to show so that the selected one is among those that fit:
/// the view moves as little as possible.
pub open spec fn scroll_top(current: int, height: int, selection: int) -> int {
    if current + height <= selection {
        (if selection >= height {
            selection - height
        } else {
            0
        }) + 1
    } else if current > selection {
        selection
    } else {
        current
    }
}

/// The first line to show so that the selected one is visible.
pub fn calc_scroll_top(current_top: usize, height_in_lines: usize, selection: usize) -> (r: usize)
    requires
        height_in_lines > 0 || selection < usize::MAX,
    ensures
        r == scroll_top(current_top as int, height_in_lines as int, selection as int),
{
    if selection >= height_in_lines && current_top <= selection - height_in_lines {
        (selection - height_in_lines) + 1
    } else if current_top > selection {
        selection
    } else {
        current_top
    }
}

/// How many of `len` lines are shown from line `top` on in a given height.
pub open spec fn window(len: int, top: int, height: int) -> int {
    if len <= top {
        0
    } else if len - top < height {
        len - top
    } else {
        height
    }
}

/// How many of `len` lines are shown from line `top` on in a given height.
pub fn window_len(len: usize, top: usize, height: usize) -> (r: usize)
    ensures
        r == window(len as int, top as int, height as int),
{
    if len <= top {
        0
    } else if len - top < height {
        len - top
    } else {
        height
    }
}

/// The selected line is always among those that are shown.
pub proof fn lemma_selection_is_shown(current: int, height: int, selection: int)
    requires
        0 <= current,
        0 < height,
        0 <= selection,
    ensures
        scroll_top(current, height, selection) <= selection < scroll_top(
            current,
            height,
            selection,
        ) + height,
{
}

/// The window moves no further than it has to: not at all where the selection
/// is visible, else until the selection stands at the edge it came over.
pub proof fn lemma_windows_move_as_little_as_needed(current: int, height: int, selection: int)
    requires
        0 <= current,
        0 < height,
        0 <= selection,
    ensures
        current <= selection < current + height ==> scroll_top(current, height, selection)
            == current,
        selection < current ==> scroll_top(current, height, selection) == selection,
        current + height <= selection ==> scroll_top(current, height, selection) + height - 1
            == selection,
{
}

/// As many rows are drawn as there are and as fit.
pub proof fn lemma_windows_show_what_fits(len: int, top: int, height: int, row: int)
    requires
        0 <= top,
        0 <= height,
        0 <= len,
    ensures
        top <= row < top + window(len, top, height) <==> top <= row < len && row < top + height,
        0 <= window(len, top, height),
{
}

} // verus!
