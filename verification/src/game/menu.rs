//! Arrow-key menus: wrap-around option lists and the scrolled list of saved runs.
use vstd::prelude::*;

verus! {

/// Rows of the saved-runs list shown at once.
pub const RECORDS_PAGE: usize = 10;

/// How many of the newest saved runs the list offers.
pub const RECORDS_SHOWN: usize = 50;

/// Up in a wrap-around menu of `n` options: from the first option to the last.
pub open spec fn menu_up_spec(sel: int, n: int) -> int {
    if sel == 0 {
        n - 1
    } else {
        sel - 1
    }
}

/// Down in a wrap-around menu of `n` options: from the last option to the first; a selection
/// past the end comes back to the last option.
pub open spec fn menu_down_spec(sel: int, n: int) -> int {
    if sel == n - 1 {
        0
    } else if sel + 1 < n - 1 {
        sel + 1
    } else {
        n - 1
    }
}

pub fn menu_up(sel: usize, n: usize) -> (r: usize)
    requires
        n >= 1,
    ensures
        r == menu_up_spec(sel as int, n as int),
{
    if sel == 0 {
        n - 1
    } else {
        sel - 1
    }
}

pub fn menu_down(sel: usize, n: usize) -> (r: usize)
    requires
        n >= 1,
        sel < usize::MAX || sel == n - 1,
    ensures
        r == menu_down_spec(sel as int, n as int),
{
    if sel == n - 1 {
        0
    } else if sel < n - 1 && sel + 1 < n - 1 {
        sel + 1
    } else {
        n - 1
    }
}

/// A wrap-around menu never leaves its options, and Down undoes Up (and Up undoes Down).
pub proof fn lemma_menu_wraps(sel: int, n: int)
    requires
        0 <= sel < n,
    ensures
        0 <= menu_up_spec(sel, n) < n,
        0 <= menu_down_spec(sel, n) < n,
        menu_down_spec(menu_up_spec(sel, n), n) == sel,
        menu_up_spec(menu_down_spec(sel, n), n) == sel,
{
}

/// One frame of the saved-runs list with `len` rows: the selection is first kept inside the
/// list, then moved by Up / Down (stopping at the ends), and the scroll offset follows it so
/// that it stays on the visible page, never scrolling past the last full page.
pub open spec fn records_step_spec(sel: int, scroll: int, len: int, up: bool, down: bool) -> (int, int) {
    let s0 = if len == 0 {
        0
    } else if sel < len - 1 {
        sel
    } else {
        len - 1
    };
    let sc0 = if len == 0 {
        0
    } else {
        scroll
    };
    let s1 = if up && s0 > 0 {
        s0 - 1
    } else {
        s0
    };
    let s2 = if down && s1 + 1 < len {
        s1 + 1
    } else {
        s1
    };
    let max_scroll = if len > RECORDS_PAGE {
        len - RECORDS_PAGE
    } else {
        0
    };
    let sc1 = if s2 < sc0 {
        s2
    } else if s2 >= sc0 + RECORDS_PAGE {
        s2 + 1 - RECORDS_PAGE
    } else {
        sc0
    };
    (s2, if sc1 < max_scroll {
        sc1
    } else {
        max_scroll
    })
}

/// The list's selection and scroll offset after one frame.
pub fn records_list_step(sel: usize, scroll: usize, len: usize, up: bool, down: bool) -> (r: (
    usize,
    usize,
))
    requires
        scroll + RECORDS_PAGE <= usize::MAX,
    ensures
        r.0 == records_step_spec(sel as int, scroll as int, len as int, up, down).0,
        r.1 == records_step_spec(sel as int, scroll as int, len as int, up, down).1,
{
    let mut sel = sel;
    let mut scroll = scroll;
    if len == 0 {
        sel = 0;
        scroll = 0;
    } else if sel > len - 1 {
        sel = len - 1;
    }
    if up && sel > 0 {
        sel = sel - 1;
    }
    if down && sel + 1 < len {
        sel = sel + 1;
    }
    let max_scroll = len.saturating_sub(RECORDS_PAGE);
    if sel < scroll {
        scroll = sel;
    } else if sel >= scroll + RECORDS_PAGE {
        scroll = sel + 1 - RECORDS_PAGE;
    }
    if scroll > max_scroll {
        scroll = max_scroll;
    }
    (sel, scroll)
}

/// Whatever the keys, a non-empty list keeps its selection on a row of the list and on the
/// visible page, and an empty list selects and scrolls nothing.
pub proof fn lemma_records_selection_visible(sel: int, scroll: int, len: int, up: bool, down: bool)
    requires
        0 <= sel,
        0 <= scroll,
        0 <= len,
    ensures
        ({
            let (s, sc) = records_step_spec(sel, scroll, len, up, down);
            &&& len == 0 ==> s == 0 && sc == 0
            &&& len > 0 ==> 0 <= sc <= s < len && s < sc + RECORDS_PAGE
        }),
{
}

} // verus!
