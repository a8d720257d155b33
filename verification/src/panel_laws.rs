//! What clicks and keys on the bar, the switcher and the tweaks panel mean.

use crate::bar::{
    button_left, cell_from, click_meaning, drop_from, drop_target, drop_zone, meeting_words,
    minutes_until, number_pairs, BarClick, BarLayout, BarPlace,
};
use crate::calendar::MeetingView;
use crate::control::{moved_count, moved_thickness};
use crate::launch_laws::{in_words, lemma_in_words};
use crate::numerals::decimal;
use crate::scene::Sheet;
use crate::switcher::{clicked, keyed, matching, row_height, row_text, rows_top, SwitcherStep};
use crate::tweaks::{row_top, stepper, TweakClick};
use crate::window::Window;
use crate::wm::command_laws::lemma_around;
use crate::wm::desktop::DeskView;
use vstd::prelude::*;

verus! {

// ---------------------------------------------------------------------- bar

/// Five buttons stand at the right end of the bar, each a button's width and a
/// gap from the next: the keybindings at the very end, then the settings, the
/// tweaks, the manager and the launcher.
pub proof fn law_buttons_stand_at_the_right(
    l: BarLayout,
    w: int,
    chip: Option<(i64, i64)>,
    spans: Seq<(int, int)>,
    x: int,
)
    requires
        l.help_w >= 0,
        l.gap >= 0,
    ensures
        ({
            let b = l.help_w as int;
            let step = b + l.gap;
            let c = click_meaning(l, w, chip, spans, x);
            &&& w - b <= x ==> c == BarClick::Help
            &&& w - b - step <= x < w - b ==> c == BarClick::Settings
            &&& w - b - 2 * step <= x < w - b - step ==> c == BarClick::Tweaks
            &&& w - b - 3 * step <= x < w - b - 2 * step ==> c == BarClick::Manage
            &&& w - b - 4 * step <= x < w - b - 3 * step ==> c == BarClick::Launcher
            &&& x < w - b - 4 * step ==> c is Agenda || c is Workspace || c is Nothing
        }),
{
    assert(button_left(l, w, 0) == w - l.help_w);
}

proof fn lemma_cell_from(spans: Seq<(int, int)>, x: int, i: int)
    requires
        0 <= i,
    ensures
        match cell_from(spans, x, i) {
            Some(k) => i <= k < spans.len() && spans[k].0 <= x < spans[k].0 + spans[k].1
                && forall|j: int|
                i <= j < k ==> !((#[trigger] spans[j]).0 <= x < spans[j].0 + spans[j].1),
            None => forall|j: int|
                i <= j < spans.len() ==> !((#[trigger] spans[j]).0 <= x < spans[j].0 + spans[j].1),
        },
    decreases spans.len() - i,
{
    if i < spans.len() {
        lemma_cell_from(spans, x, i + 1);
    }
}

/// Left of the buttons a click on the meeting opens the agenda, any other means
/// the workspace whose cell is there, if one is.
pub proof fn law_cells_stand_left_of_the_buttons(
    l: BarLayout,
    w: int,
    chip: Option<(i64, i64)>,
    spans: Seq<(int, int)>,
    x: int,
)
    requires
        x < w - 5 * l.help_w - 4 * l.gap,
        l.help_w >= 0,
        l.gap >= 0,
        spans.len() <= usize::MAX,
    ensures
        ({
            let c = click_meaning(l, w, chip, spans, x);
            let met = match chip {
                Some(p) => p.0 <= x < p.1,
                None => false,
            };
            &&& met ==> c == BarClick::Agenda
            &&& !met ==> match c {
                BarClick::Workspace(i) => i < spans.len() && spans[i as int].0 <= x
                    < spans[i as int].0 + spans[i as int].1,
                BarClick::Nothing => forall|j: int|
                    0 <= j < spans.len() ==> !((#[trigger] spans[j]).0 <= x < spans[j].0
                        + spans[j].1),
                _ => false,
            }
        }),
{
    assert(button_left(l, w, 0) == w - l.help_w);
    assert(button_left(l, w, 4) == w - 5 * l.help_w - 4 * l.gap);
    lemma_cell_from(spans, x, 0);
}

/// A point on the bar, or up to half its height below.
pub open spec fn over(b: BarPlace, px: int, py: int) -> bool {
    &&& b.left <= px < b.right
    &&& b.top <= py
    &&& py < b.bottom || 2 * (py - b.bottom) + 1 < b.bottom - b.top
}

proof fn lemma_over(b: BarPlace, px: int, py: int)
    requires
        b.top <= b.bottom,
    ensures
        drop_zone(b, px, py) == over(b, px, py),
{
}

proof fn lemma_drop_from(bars: Seq<BarPlace>, px: int, py: int, i: int, k: int)
    requires
        0 <= i <= k < bars.len(),
        forall|j: int| i <= j < k ==> !drop_zone(#[trigger] bars[j], px, py),
        drop_zone(bars[k], px, py),
    ensures
        drop_from(bars, px, py, i) == match cell_from(
            number_pairs(bars[k].spans@),
            px - bars[k].left,
            0,
        ) {
            Some(c) => Some((bars[k].monitor, c)),
            None => None::<(isize, int)>,
        },
    decreases k - i,
{
    if i < k {
        lemma_drop_from(bars, px, py, i + 1, k);
    }
}

/// A window that is dropped on a cell of a bar, or right below it, is meant for
/// that workspace on the monitor of that bar; where bars overlap the first one
/// counts.
pub proof fn law_drop_means_the_cell(
    bars: Seq<BarPlace>,
    px: int,
    py: int,
    top: int,
    k: int,
    c: int,
)
    requires
        0 <= k < bars.len(),
        forall|j: int|
            0 <= j < bars.len() ==> (#[trigger] bars[j]).top <= bars[j].bottom,
        forall|j: int| 0 <= j < k ==> !over(#[trigger] bars[j], px, py),
        over(bars[k], px, py),
        0 <= c < bars[k].spans.len(),
        ({
            let s = bars[k].spans@;
            let x = px - bars[k].left;
            &&& s[c].0 <= x < s[c].0 + s[c].1
            &&& forall|j: int| 0 <= j < c ==> !((#[trigger] s[j]).0 <= x < s[j].0 + s[j].1)
        }),
    ensures
        drop_target(bars, px, py, top) == Some((bars[k].monitor, c)),
{
    assert forall|j: int| 0 <= j < k implies !drop_zone(#[trigger] bars[j], px, py) by {
        lemma_over(bars[j], px, py);
    }
    lemma_over(bars[k], px, py);
    lemma_drop_from(bars, px, py, 0, k);
    let v = number_pairs(bars[k].spans@);
    let x = px - bars[k].left;
    lemma_cell_from(v, x, 0);
    if let Some(m) = cell_from(v, x, 0) {
        if m < c {
            assert(!(bars[k].spans@[m].0 <= x < bars[k].spans@[m].0 + bars[k].spans@[m].1));
        } else if m > c {
            assert(!(v[c].0 <= x < v[c].0 + v[c].1));
        }
    } else {
        assert(!(v[c].0 <= x < v[c].0 + v[c].1));
    }
}

/// Minutes until a meeting are full or begun ones.
pub proof fn law_minutes_are_rounded_up(seconds: int)
    ensures
        60 * (minutes_until(seconds) - 1) < seconds <= 60 * minutes_until(seconds),
{
}

/// The bar names a meeting that has begun by its subject after a dot. Before,
/// it tells when the meeting starts, and for an hour and a half in how many
/// minutes.
pub proof fn law_bar_tells_the_meeting(m: MeetingView, now: u64, minutes: int)
    requires
        m.start > now ==> 60 * (minutes - 1) < m.start - now <= 60 * minutes,
    ensures
        m.start <= now ==> meeting_words(m, now) == "● "@ + m.subject,
        m.start > now && minutes <= 90 ==> meeting_words(m, now) == m.start_hm + " "@ + m.subject
            + " · "@ + decimal(minutes as nat) + "m"@,
        m.start > now && minutes > 90 ==> meeting_words(m, now) == m.start_hm + " "@ + m.subject,
{
    if m.start > now {
        law_minutes_are_rounded_up(m.start - now);
        assert(minutes == minutes_until(m.start - now));
    }
}

// ----------------------------------------------------------------- switcher

/// The down arrow selects the next row and the up arrow the one before, around
/// the ends; Enter goes to the window of the selected row, Escape closes.
pub proof fn law_switcher_keys(selected: int, shown: Seq<(Window, Seq<char>)>)
    requires
        0 <= selected < shown.len(),
    ensures
        selected + 1 < shown.len() ==> keyed(selected, shown, 0x28) == (
            selected + 1,
            SwitcherStep::Redraw,
        ),
        selected + 1 == shown.len() ==> keyed(selected, shown, 0x28) == (
            0int,
            SwitcherStep::Redraw,
        ),
        selected > 0 ==> keyed(selected, shown, 0x26) == (selected - 1, SwitcherStep::Redraw),
        selected == 0 ==> keyed(selected, shown, 0x26) == (shown.len() - 1, SwitcherStep::Redraw),
        keyed(selected, shown, 0x0D) == (selected, SwitcherStep::Activate(shown[selected].0)),
        keyed(selected, shown, 0x1B) == (selected, SwitcherStep::Close),
{
    lemma_around(selected, shown.len() as int);
}

/// A click on a row goes to the window of that row, one above the rows does
/// nothing.
pub proof fn law_switcher_click(shown: Seq<(Window, Seq<char>)>, sh: Sheet, y: int, i: int)
    requires
        row_height(sh) > 0,
        0 <= i,
        rows_top(sh) + i * row_height(sh) <= y < rows_top(sh) + (i + 1) * row_height(sh),
    ensures
        i < shown.len() ==> clicked(shown, sh, y) == SwitcherStep::Activate(shown[i].0),
        i >= shown.len() ==> clicked(shown, sh, y) == SwitcherStep::Nothing,
{
    let (h, d) = (row_height(sh), y - rows_top(sh));
    assert(i * h >= 0) by (nonlinear_arith)
        requires
            i >= 0,
            h > 0,
    ;
    assert(d / h == i) by (nonlinear_arith)
        requires
            i * h <= d < (i + 1) * h,
            h > 0,
    ;
}

/// The switcher shows exactly the windows whose place, title or program has the
/// characters of the query in order, or all of them without a query.
pub proof fn law_switcher_shows_matches(
    s: Seq<(Window, Seq<char>)>,
    d: DeskView,
    query: Seq<char>,
    e: (Window, Seq<char>),
)
    ensures
        matching(s, d, query).contains(e) <==> s.contains(e) && (query.len() == 0 || in_words(
            e.1 + " "@ + d.title_of(e.0) + " "@ + match d.exe_name_of(e.0) {
                Some(x) => x,
                None => Seq::empty(),
            },
            query,
        )),
    decreases s.len(),
{
    if s.len() > 0 {
        let front = s.drop_last();
        let last = s.last();
        law_switcher_shows_matches(front, d, query, e);
        lemma_in_words(row_text(e, d), query);
        let a = matching(front, d, query);
        let b = matching(s, d, query);
        assert(s.contains(e) <==> front.contains(e) || e == last) by {
            if s.contains(e) {
                let k = choose|k: int| 0 <= k < s.len() && s[k] == e;
                if k < front.len() {
                    assert(front[k] == e);
                }
            }
            if front.contains(e) {
                let k = choose|k: int| 0 <= k < front.len() && front[k] == e;
                assert(s[k] == e);
            }
            if e == last {
                assert(s[s.len() - 1] == e);
            }
        }
        assert(a.push(last).contains(e) <==> a.contains(e) || e == last) by {
            if a.contains(e) {
                let k = choose|k: int| 0 <= k < a.len() && a[k] == e;
                assert(a.push(last)[k] == e);
            }
            if e == last {
                assert(a.push(last)[a.len() as int] == e);
            }
            if a.push(last).contains(e) && e != last {
                let k = choose|k: int| 0 <= k < a.push(last).len() && a.push(last)[k] == e;
                assert(a[k] == e);
            }
        }
    }
}

// ------------------------------------------------------------------- tweaks

/// The minus sign stands left of the value and the plus sign right of it; the
/// first row counts workspaces and the second the pixels of the frame.
pub proof fn law_steppers_count(sh: Sheet, x: int, y: int, row: int)
    requires
        sh.s(28) >= 0,
        sh.s(56) >= 0,
        sh.s(24) >= 0,
        sh.s(34) >= sh.s(24),
    ensures
        ({
            let (minus, val, plus) = stepper(sh, row_top(sh, row));
            &&& minus.right <= plus.left
            &&& minus.top == plus.top
            &&& row_top(sh, row) <= plus.top && plus.bottom <= row_top(sh, row + 1)
        }),
        stepper(sh, row_top(sh, 0)).0.has(x, y) ==> crate::tweaks::clicked(sh, x, y)
            == TweakClick::Workspaces(-1i32),
        stepper(sh, row_top(sh, 0)).2.has(x, y) ==> crate::tweaks::clicked(sh, x, y)
            == TweakClick::Workspaces(1i32),
        stepper(sh, row_top(sh, 1)).0.has(x, y) ==> crate::tweaks::clicked(sh, x, y)
            == TweakClick::Thickness(-1i32),
        stepper(sh, row_top(sh, 1)).2.has(x, y) ==> crate::tweaks::clicked(sh, x, y)
            == TweakClick::Thickness(1i32),
{
    let line = sh.s(34);
    assert((row + 1) * line == row * line + line) by (nonlinear_arith);
    assert(1 * line == line && 0 * line == 0) by (nonlinear_arith);
}

/// The number of workspaces moves by one, between 1 and 24, and the frame by
/// one pixel, between none and 12.
pub proof fn law_counts_are_limited(count: usize, thickness: i32, delta: i32)
    requires
        1 <= count <= 24,
        0 <= thickness <= 12,
        delta == 1 || delta == -1,
    ensures
        1 <= moved_count(count, delta) <= 24,
        1 <= count + delta <= 24 ==> moved_count(count, delta) == count + delta,
        !(1 <= count + delta <= 24) ==> moved_count(count, delta) == count,
        0 <= moved_thickness(thickness, delta) <= 12,
        0 <= thickness + delta <= 12 ==> moved_thickness(thickness, delta) == thickness + delta,
        !(0 <= thickness + delta <= 12) ==> moved_thickness(thickness, delta) == thickness,
{
}

} // verus!
