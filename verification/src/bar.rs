//! The status bar: workspace cells, the title of the focused window, the next
//! meeting, the clock and the buttons.

use crate::calendar::{Meeting, MeetingView};
use crate::config::{colorref, parse_colorref, Config};
use crate::layout::{divided, quot};
use crate::numerals::{decimal, show, show_two, two_digits};
use crate::scene::{
    area, blank, greater, lesser, max2, min2, normal, normal_pen, span, Align, BarStyle, Pen, Quill,
    Scene, Sheet, Sketch, Weight,
};
use crate::text::{is_blank, joined, joined3, nth, owned, text_at, texts};
use crate::window::Window;
use crate::wm::BarSnapshot;
use vstd::prelude::*;

verus! {

/// The style that a configuration asks for.
pub open spec fn configured_style(cfg: Config) -> BarStyle {
    BarStyle {
        height: cfg.bar_height,
        bg: colorref(cfg.bar_background@) as u32,
        fg: colorref(cfg.bar_foreground@) as u32,
        accent: colorref(cfg.active_border_color@) as u32,
        cell_empty: 0x443131,
        cell_occupied: 0x5a4745,
        alpha: cfg.bar_alpha,
    }
}

/// The style that a configuration asks for.
pub fn style_for(cfg: &Config) -> (r: BarStyle)
    ensures
        r == configured_style(*cfg),
{
    BarStyle {
        height: cfg.bar_height,
        bg: parse_colorref(cfg.bar_background.as_str()),
        fg: parse_colorref(cfg.bar_foreground.as_str()),
        accent: parse_colorref(cfg.active_border_color.as_str()),
        cell_empty: 0x443131,
        cell_occupied: 0x5a4745,
        alpha: cfg.bar_alpha,
    }
}

// ------------------------------------------------------------------- layout

/// The measures of the bar, in pixels.
#[derive(Clone, Copy, Debug, PartialEq, Eq, Structural)]
pub struct BarLayout {
    pub cell_w: i32,
    pub cell_h: i64,
    pub gap: i32,
    pub pad: i32,
    pub help_w: i32,
    pub clock_w: i32,
    /// How much width a name may add to its cell.
    pub name_max: i32,
    /// Size of the app icons in the cells, and the space after each.
    pub icon: i32,
    pub icon_pad: i32,
}

/// The measures of a bar on this sheet.
pub open spec fn layout_of(sh: Sheet) -> BarLayout {
    BarLayout {
        cell_w: sh.s(26) as i32,
        cell_h: (sh.h - sh.s(10)) as i64,
        gap: sh.s(4) as i32,
        pad: sh.s(8) as i32,
        help_w: sh.s(36) as i32,
        clock_w: sh.s(56) as i32,
        name_max: sh.s(150) as i32,
        icon: sh.s(16) as i32,
        icon_pad: sh.s(3) as i32,
    }
}

impl BarLayout {
    /// Nothing is negative, but for the cell height of a bar too low.
    pub open spec fn wf(self) -> bool {
        &&& self.cell_w >= 0
        &&& -0x8000_0000 * 2 <= self.cell_h < 0x8000_0000
        &&& self.gap >= 0
        &&& self.pad >= 0
        &&& self.help_w >= 0
        &&& self.clock_w >= 0
        &&& self.name_max >= 0
        &&& self.icon >= 0
        &&& self.icon_pad >= 0
    }
}

/// The measures of a bar on this sheet.
pub fn bar_layout(sh: &Sheet) -> (r: BarLayout)
    ensures
        r == layout_of(*sh),
        r.wf(),
{
    BarLayout {
        cell_w: sh.px(26),
        cell_h: sh.h as i64 - sh.px(10) as i64,
        gap: sh.px(4),
        pad: sh.px(8),
        help_w: sh.px(36),
        clock_w: sh.px(56),
        name_max: sh.px(150),
        icon: sh.px(16),
        icon_pad: sh.px(3),
    }
}

/// The `i`th of the measured widths, 0 where there is none.
pub open spec fn width_at(widths: Seq<i32>, i: int) -> int {
    if 0 <= i < widths.len() {
        widths[i] as int
    } else {
        0
    }
}

pub fn nth_width(widths: &Vec<i32>, i: usize) -> (r: i32)
    ensures
        r == width_at(widths@, i as int),
{
    if i < widths.len() {
        widths[i]
    } else {
        0
    }
}

/// The windows whose icons cell `i` shows.
pub open spec fn icons_at(snap: BarSnapshot, i: int) -> Seq<Window> {
    if 0 <= i < snap.cell_windows.len() {
        snap.cell_windows@[i]@
    } else {
        Seq::empty()
    }
}

/// The width of cell `i`: its number, its icons, and its name up to a limit.
pub open spec fn cell_width(l: BarLayout, snap: BarSnapshot, widths: Seq<i32>, i: int) -> int {
    l.cell_w + icons_at(snap, i).len() * (l.icon + l.icon_pad) + if text_at(
        texts(snap.names@),
        i,
    ).len() > 0 {
        min2(width_at(widths, i), l.name_max as int) + l.gap * 2
    } else {
        0
    }
}

/// Where cell `i` begins: the cells follow each other with gaps.
pub open spec fn cell_left(l: BarLayout, snap: BarSnapshot, widths: Seq<i32>, i: int) -> int
    decreases i,
{
    if i <= 0 {
        l.pad as int
    } else {
        cell_left(l, snap, widths, i - 1) + cell_width(l, snap, widths, i - 1) + l.gap
    }
}

/// The widths of the cells can be added up: every left edge and width leaves
/// room to calculate with.
pub open spec fn countable(l: BarLayout, snap: BarSnapshot, widths: Seq<i32>) -> bool {
    forall|i: int|
        0 <= i < snap.occupied.len() ==> -0x2000_0000_0000_0000 <= #[trigger] cell_left(
            l,
            snap,
            widths,
            i,
        ) <= 0x2000_0000_0000_0000 && -0x2000_0000_0000_0000 <= cell_width(l, snap, widths, i)
            <= 0x2000_0000_0000_0000
}

/// The width of cell `i`.
fn width_of(l: &BarLayout, snap: &BarSnapshot, widths: &Vec<i32>, i: usize) -> (r: i128)
    requires
        l.wf(),
    ensures
        r == cell_width(*l, *snap, widths@, i as int),
        -0x1_0000_0000 <= r <= 0x10_0000_0000_0000_0000_0000_0000,
{
    let icons: i128 = if i < snap.cell_windows.len() {
        snap.cell_windows[i].len() as i128
    } else {
        0
    };
    let each: i128 = l.icon as i128 + l.icon_pad as i128;
    proof {
        let (a, b) = (icons as int, each as int);
        assert(0 <= a * b <= 0x1_0000_0000_0000_0000 * 0x1_0000_0000) by (nonlinear_arith)
            requires
                0 <= a <= 0x1_0000_0000_0000_0000,
                0 <= b <= 0x1_0000_0000,
        ;
    }
    let mut cw: i128 = l.cell_w as i128 + icons * each;
    let name = nth(&snap.names, i);
    if !is_blank(name.as_str()) {
        cw = cw + lesser(nth_width(widths, i) as i64, l.name_max as i64) as i128 + l.gap as i128 * 2;
    }
    cw
}

/// Can the cells of this snapshot be laid out?
pub fn is_countable(l: &BarLayout, snap: &BarSnapshot, widths: &Vec<i32>) -> (r: bool)
    requires
        l.wf(),
    ensures
        r == countable(*l, *snap, widths@),
{
    let most: i128 = 0x2000_0000_0000_0000;
    let mut x: i128 = l.pad as i128;
    let mut i: usize = 0;
    while i < snap.occupied.len()
        invariant
            i <= snap.occupied.len(),
            l.wf(),
            most == 0x2000_0000_0000_0000,
            x == cell_left(*l, *snap, widths@, i as int),
            -0x8000_0000_0000_0000 <= x <= 0x8000_0000_0000_0000,
            forall|k: int|
                0 <= k < i ==> -most <= #[trigger] cell_left(*l, *snap, widths@, k) <= most && -most
                    <= cell_width(*l, *snap, widths@, k) <= most,
        decreases snap.occupied.len() - i,
    {
        let cw = width_of(l, snap, widths, i);
        if x < -most || x > most || cw < -most || cw > most {
            proof {
                assert(!(-most <= cell_left(*l, *snap, widths@, i as int) <= most && -most
                    <= cell_width(*l, *snap, widths@, i as int) <= most));
            }
            return false;
        }
        x = x + cw + l.gap as i128;
        i = i + 1;
    }
    true
}

/// The cells, as pairs of left edge and width.
pub open spec fn spans_of(l: BarLayout, snap: BarSnapshot, widths: Seq<i32>) -> Seq<(int, int)> {
    Seq::new(
        snap.occupied.len() as nat,
        |i: int| (cell_left(l, snap, widths, i), cell_width(l, snap, widths, i)),
    )
}

/// The pairs of numbers in a list.
pub open spec fn number_pairs(v: Seq<(i64, i64)>) -> Seq<(int, int)> {
    v.map_values(|p: (i64, i64)| (p.0 as int, p.1 as int))
}

/// Left edges and widths that leave room to calculate with.
pub open spec fn bounded_spans(v: Seq<(i64, i64)>) -> bool {
    forall|i: int|
        0 <= i < v.len() ==> -0x2000_0000_0000_0000 <= (#[trigger] v[i]).0 <= 0x2000_0000_0000_0000
            && -0x2000_0000_0000_0000 <= v[i].1 <= 0x2000_0000_0000_0000
}

/// The cells, as pairs of left edge and width. `widths` holds how wide the
/// name of each workspace is.
pub fn cell_spans(l: &BarLayout, snap: &BarSnapshot, widths: &Vec<i32>) -> (r: Vec<(i64, i64)>)
    requires
        l.wf(),
        countable(*l, *snap, widths@),
    ensures
        number_pairs(r@) == spans_of(*l, *snap, widths@),
        bounded_spans(r@),
{
    let n = snap.occupied.len();
    let mut r: Vec<(i64, i64)> = Vec::new();
    let mut x: i64 = l.pad as i64;
    let mut i: usize = 0;
    while i < n
        invariant
            i <= n,
            n == snap.occupied.len(),
            l.wf(),
            countable(*l, *snap, widths@),
            r.len() == i,
            x == cell_left(*l, *snap, widths@, i as int),
            forall|k: int|
                0 <= k < i ==> (#[trigger] r@[k]).0 == cell_left(*l, *snap, widths@, k) && r@[k].1
                    == cell_width(*l, *snap, widths@, k),
            bounded_spans(r@),
        decreases n - i,
    {
        proof {
            assert(-0x2000_0000_0000_0000 <= cell_left(*l, *snap, widths@, i as int)
                <= 0x2000_0000_0000_0000);
        }
        let cw: i64 = width_of(l, snap, widths, i) as i64;
        r.push((x, cw));
        x = x + cw + l.gap as i64;
        i = i + 1;
    }
    proof {
        assert(number_pairs(r@) =~= spans_of(*l, *snap, widths@));
    }
    r
}

/// The cell at a place, from the `i`th on.
pub open spec fn cell_from(spans: Seq<(int, int)>, x: int, i: int) -> Option<int>
    decreases spans.len() - i,
{
    if i < 0 || i >= spans.len() {
        None
    } else if spans[i].0 <= x < spans[i].0 + spans[i].1 {
        Some(i)
    } else {
        cell_from(spans, x, i + 1)
    }
}

/// The workspace cell at a place on the bar, if any.
pub fn cell_index_at(spans: &Vec<(i64, i64)>, x: i64) -> (r: Option<usize>)
    requires
        bounded_spans(spans@),
    ensures
        match r {
            Some(i) => cell_from(number_pairs(spans@), x as int, 0) == Some(i as int),
            None => cell_from(number_pairs(spans@), x as int, 0) is None,
        },
{
    let mut i: usize = 0;
    while i < spans.len()
        invariant
            i <= spans.len(),
            bounded_spans(spans@),
            cell_from(number_pairs(spans@), x as int, i as int) == cell_from(
                number_pairs(spans@),
                x as int,
                0,
            ),
        decreases spans.len() - i,
    {
        let c: (i64, i64) = spans[i];
        proof {
            assert(number_pairs(spans@)[i as int] == (c.0 as int, c.1 as int));
        }
        if c.0 <= x && x < c.0 + c.1 {
            return Some(i);
        }
        i = i + 1;
    }
    None
}

// ------------------------------------------------------------------- clicks

/// What a click on the bar is for.
#[derive(Clone, Copy, Debug, PartialEq, Eq, Structural)]
pub enum BarClick {
    Nothing,
    Help,
    Settings,
    Tweaks,
    Manage,
    Launcher,
    Agenda,
    Workspace(usize),
}

/// The left edge of the `k`th button from the right.
pub open spec fn button_left(l: BarLayout, w: int, k: int) -> int {
    w - (k + 1) * l.help_w - k * l.gap
}

proof fn lemma_buttons(l: BarLayout, w: int)
    ensures
        button_left(l, w, 0) == w - l.help_w,
        button_left(l, w, 1) == w - 2 * l.help_w - l.gap,
        button_left(l, w, 2) == w - 3 * l.help_w - 2 * l.gap,
        button_left(l, w, 3) == w - 4 * l.help_w - 3 * l.gap,
        button_left(l, w, 4) == w - 5 * l.help_w - 4 * l.gap,
{
    let (b, g) = (l.help_w as int, l.gap as int);
    assert((0 + 1) * b == b && 0 * g == 0) by (nonlinear_arith);
    assert((1 + 1) * b == 2 * b && 1 * g == g) by (nonlinear_arith);
    assert((2 + 1) * b == 3 * b) by (nonlinear_arith);
    assert((3 + 1) * b == 4 * b) by (nonlinear_arith);
    assert((4 + 1) * b == 5 * b) by (nonlinear_arith);
}

/// What a click is for: the buttons on the right, then the meeting, then the
/// cells.
pub open spec fn click_meaning(
    l: BarLayout,
    w: int,
    chip: Option<(i64, i64)>,
    spans: Seq<(int, int)>,
    x: int,
) -> BarClick {
    if x >= button_left(l, w, 0) {
        BarClick::Help
    } else if x >= button_left(l, w, 1) {
        BarClick::Settings
    } else if x >= button_left(l, w, 2) {
        BarClick::Tweaks
    } else if x >= button_left(l, w, 3) {
        BarClick::Manage
    } else if x >= button_left(l, w, 4) {
        BarClick::Launcher
    } else if chip matches Some(c) && c.0 <= x < c.1 {
        BarClick::Agenda
    } else {
        match cell_from(spans, x, 0) {
            Some(i) => BarClick::Workspace(i as usize),
            None => BarClick::Nothing,
        }
    }
}

/// What a click is for. `chip` is where the next meeting was drawn.
pub fn on_bar_click(
    l: &BarLayout,
    w: i32,
    chip: Option<(i64, i64)>,
    spans: &Vec<(i64, i64)>,
    x: i32,
) -> (r: BarClick)
    requires
        l.wf(),
        bounded_spans(spans@),
    ensures
        r == click_meaning(*l, w as int, chip, number_pairs(spans@), x as int),
{
    proof {
        lemma_buttons(*l, w as int);
    }
    let at: i64 = x as i64;
    let right: i64 = w as i64;
    let b: i64 = l.help_w as i64;
    let g: i64 = l.gap as i64;
    if at >= right - b {
        return BarClick::Help;
    }
    if at >= right - 2 * b - g {
        return BarClick::Settings;
    }
    if at >= right - 3 * b - 2 * g {
        return BarClick::Tweaks;
    }
    if at >= right - 4 * b - 3 * g {
        return BarClick::Manage;
    }
    if at >= right - 5 * b - 4 * g {
        return BarClick::Launcher;
    }
    match chip {
        Some(c) => {
            if c.0 <= at && at < c.1 {
                return BarClick::Agenda;
            }
        },
        None => {},
    }
    match cell_index_at(spans, at) {
        Some(i) => BarClick::Workspace(i),
        None => BarClick::Nothing,
    }
}

/// A bar on the screen.
pub struct BarPlace {
    pub left: i32,
    pub top: i32,
    pub right: i32,
    pub bottom: i32,
    pub monitor: isize,
    /// Its workspace cells.
    pub spans: Vec<(i64, i64)>,
}

/// Is a point on the bar, or up to half its height below it? While a window
/// is dragged the cursor sits at the grab point, a little under the strip.
pub open spec fn drop_zone(b: BarPlace, px: int, py: int) -> bool {
    b.left <= px < b.right && b.top <= py < b.bottom + quot(b.bottom - b.top, 2)
}

/// The cell under a point, on the first bar from the `i`th on that the point
/// belongs to: monitor and workspace.
pub open spec fn drop_from(bars: Seq<BarPlace>, px: int, py: int, i: int) -> Option<(isize, int)>
    decreases bars.len() - i,
{
    if i < 0 || i >= bars.len() {
        None
    } else if drop_zone(bars[i], px, py) {
        match cell_from(number_pairs(bars[i].spans@), px - bars[i].left, 0) {
            Some(c) => Some((bars[i].monitor, c)),
            None => None,
        }
    } else {
        drop_from(bars, px, py, i + 1)
    }
}

/// The workspace cell under a point of the screen: monitor and workspace.
pub fn workspace_cell_at_point(bars: &Vec<BarPlace>, px: i32, py: i32) -> (r: Option<
    (isize, usize),
>)
    requires
        forall|i: int| 0 <= i < bars.len() ==> bounded_spans((#[trigger] bars@[i]).spans@),
    ensures
        match r {
            Some((m, c)) => drop_from(bars@, px as int, py as int, 0) == Some((m, c as int)),
            None => drop_from(bars@, px as int, py as int, 0) is None,
        },
{
    let mut i: usize = 0;
    while i < bars.len()
        invariant
            i <= bars.len(),
            forall|k: int| 0 <= k < bars.len() ==> bounded_spans((#[trigger] bars@[k]).spans@),
            drop_from(bars@, px as int, py as int, i as int) == drop_from(
                bars@,
                px as int,
                py as int,
                0,
            ),
        decreases bars.len() - i,
    {
        let b = &bars[i];
        proof {
            assert(bounded_spans(bars@[i as int].spans@));
        }
        let slack: i64 = divided(b.bottom as i64 - b.top as i64, 2);
        if px >= b.left && px < b.right && py >= b.top && (py as i64) < b.bottom as i64 + slack {
            return match cell_index_at(&b.spans, px as i64 - b.left as i64) {
                Some(c) => Some((b.monitor, c)),
                None => None,
            };
        }
        i = i + 1;
    }
    None
}

/// The cell a window was dropped on: under the cursor, or else under the
/// window's top edge a little further down, twice.
pub open spec fn drop_target(bars: Seq<BarPlace>, px: int, py: int, top: int) -> Option<
    (isize, int),
> {
    match drop_from(bars, px, py, 0) {
        Some(c) => Some(c),
        None => match drop_from(bars, px, top + 8, 0) {
            Some(c) => Some(c),
            None => drop_from(bars, px, top + 30, 0),
        },
    }
}

/// The cell a window was dropped on; `top` is the top of its visible frame.
pub fn dropped_on(bars: &Vec<BarPlace>, px: i32, py: i32, top: i32) -> (r: Option<(isize, usize)>)
    requires
        top <= i32::MAX - 30,
        forall|i: int| 0 <= i < bars.len() ==> bounded_spans((#[trigger] bars@[i]).spans@),
    ensures
        match r {
            Some((m, c)) => drop_target(bars@, px as int, py as int, top as int) == Some(
                (m, c as int),
            ),
            None => drop_target(bars@, px as int, py as int, top as int) is None,
        },
{
    match workspace_cell_at_point(bars, px, py) {
        Some(c) => {
            return Some(c);
        },
        None => {},
    }
    match workspace_cell_at_point(bars, px, top + 8) {
        Some(c) => {
            return Some(c);
        },
        None => {},
    }
    workspace_cell_at_point(bars, px, top + 30)
}

// ----------------------------------------------------------------- painting

/// Division rounding up.
pub open spec fn minutes_until(seconds: int) -> int {
    (seconds + 59) / 60
}

/// The words for the next meeting: running, near with the minutes left, or
/// later.
pub open spec fn meeting_words(m: MeetingView, now: u64) -> Seq<char> {
    if m.start <= now {
        "● "@ + m.subject
    } else if minutes_until(m.start - now) <= 90 {
        m.start_hm + " "@ + m.subject + " · "@ + decimal(minutes_until(m.start - now) as nat)
            + "m"@
    } else {
        m.start_hm + " "@ + m.subject
    }
}

/// The words for the next meeting.
pub fn meeting_label(m: &Meeting, now: u64) -> (r: String)
    ensures
        r@ == meeting_words(m@, now),
{
    if m.start <= now {
        return joined("● ", m.subject.as_str());
    }
    let left: u64 = m.start - now;
    let mins: u64 = if left % 60 == 0 {
        left / 60
    } else {
        left / 60 + 1
    };
    let mut r = joined3(m.start_hm.as_str(), " ", m.subject.as_str());
    if mins <= 90 {
        r.append(" · ");
        let n = show(mins);
        r.append(n.as_str());
        r.append("m");
    }
    r
}

/// The words in the middle of the bar.
pub open spec fn headline(snap: Option<BarSnapshot>) -> Seq<char> {
    match snap {
        Some(s) => if s.paused {
            "⏸  paused — resume with the toggle_pause key"@
        } else {
            s.title@
        },
        None => Seq::empty(),
    }
}

/// The time of day.
pub open spec fn clock_text(hour: u16, minute: u16) -> Seq<char> {
    two_digits(hour as nat) + ":"@ + two_digits(minute as nat)
}

/// The text font of the bar.
pub open spec fn bar_quill(l: BarLayout, h: int) -> Quill {
    normal(quot((h - l.pad) * 55, 100))
}

/// The font of the buttons: the icon font where it exists.
pub open spec fn button_quill(l: BarLayout, h: int, glyphs: bool) -> Quill {
    if glyphs {
        Quill {
            height: quot(l.cell_h * 68, 100),
            weight: Weight::Glyphs,
            align: Align::Center,
            ellipsis: false,
        }
    } else {
        bar_quill(l, h).at(Align::Center)
    }
}

/// What stands on the buttons, from left to right.
pub open spec fn button_text(glyphs: bool, k: int) -> Seq<char> {
    if glyphs {
        if k == 0 {
            "\u{E71D}"@
        } else if k == 1 {
            "\u{E70F}"@
        } else if k == 2 {
            "\u{E790}"@
        } else if k == 3 {
            "\u{E713}"@
        } else {
            "\u{E897}"@
        }
    } else {
        if k == 0 {
            "»"@
        } else if k == 1 {
            "✎"@
        } else if k == 2 {
            "◐"@
        } else if k == 3 {
            "≡"@
        } else {
            "?"@
        }
    }
}

/// The top of the cells.
pub open spec fn cell_top(l: BarLayout, h: int) -> int {
    quot(h - l.cell_h, 2)
}

/// The radius of the corners of cells and buttons.
pub open spec fn corner(l: BarLayout) -> int {
    max2(quot(l.cell_h as int, 5), 4)
}

/// The icons of a cell, from the `j`th on.
pub open spec fn icons_drawn(k: Sketch, l: BarLayout, h: int, icons: Seq<Window>, x: int, j: int) -> Sketch
    decreases icons.len() - j,
{
    if j < 0 || j >= icons.len() {
        k
    } else {
        icons_drawn(
            k.window_icon(
                icons[j],
                x + j * (l.icon + l.icon_pad),
                cell_top(l, h) + quot(l.cell_h - l.icon, 2),
                l.icon as int,
            ),
            l,
            h,
            icons,
            x,
            j + 1,
        )
    }
}

/// One workspace cell: its ground, number, icons and name.
pub open spec fn cell_drawn(
    k: Sketch,
    l: BarLayout,
    h: int,
    st: BarStyle,
    snap: BarSnapshot,
    widths: Seq<i32>,
    i: int,
) -> Sketch {
    let x = cell_left(l, snap, widths, i);
    let cw = cell_width(l, snap, widths, i);
    let (top, bottom) = (cell_top(l, h), cell_top(l, h) + l.cell_h);
    let (ground, ink) = if snap.active == i {
        (st.accent, st.bg)
    } else if snap.occupied@[i] {
        (st.cell_occupied, st.fg)
    } else {
        (st.cell_empty, st.fg)
    };
    let pen = bar_quill(l, h);
    let icons = icons_at(snap, i);
    let base = k.round(span(x, top, x + cw, bottom), ground, corner(l)).text(
        decimal((i + 1) as nat),
        span(x, top, x + l.cell_w, bottom),
        ink,
        pen.at(Align::Center),
    );
    let iconed = icons_drawn(base, l, h, icons, x + l.cell_w, 0);
    let name = text_at(texts(snap.names@), i);
    if name.len() > 0 {
        iconed.text(
            name,
            span(
                x + l.cell_w + icons.len() * (l.icon + l.icon_pad) + l.gap,
                top,
                x + cw - l.gap,
                bottom,
            ),
            ink,
            pen.cut(),
        )
    } else {
        iconed
    }
}

/// The cells, from the `i`th on.
pub open spec fn cells_drawn(
    k: Sketch,
    l: BarLayout,
    h: int,
    st: BarStyle,
    snap: BarSnapshot,
    widths: Seq<i32>,
    i: int,
) -> Sketch
    decreases snap.occupied.len() - i,
{
    if i < 0 || i >= snap.occupied.len() {
        k
    } else {
        cells_drawn(cell_drawn(k, l, h, st, snap, widths, i), l, h, st, snap, widths, i + 1)
    }
}

/// Where the cells end, with the space after them.
pub open spec fn cells_end(l: BarLayout, snap: Option<BarSnapshot>, widths: Seq<i32>) -> int {
    match snap {
        Some(s) => if s.occupied.len() > 0 {
            let last = s.occupied.len() - 1;
            cell_left(l, s, widths, last) + cell_width(l, s, widths, last) + l.pad
        } else {
            2 * l.pad
        },
        None => 2 * l.pad,
    }
}

/// Where the next meeting is drawn.
pub open spec fn chip_span(sh: Sheet, l: BarLayout, label_width: int) -> (int, int) {
    let right = button_left(l, sh.w as int, 4) - l.clock_w - l.pad;
    (right - min2(label_width, sh.s(280)) - 2 * l.gap, right)
}

/// The buttons, from the `k`th on.
pub open spec fn buttons_drawn(s: Sketch, sh: Sheet, l: BarLayout, st: BarStyle, glyphs: bool, k: int) -> Sketch
    decreases 5 - k,
{
    if k < 0 || k >= 5 {
        s
    } else {
        let i = 4 - k;
        let left = button_left(l, sh.w as int, i);
        let right = if i == 0 {
            sh.w - quot(l.pad as int, 2)
        } else {
            left + l.help_w
        };
        let top = cell_top(l, sh.h as int);
        let at = span(left, top, right, top + l.cell_h);
        buttons_drawn(
            s.round(at, st.cell_occupied, corner(l)).text(
                button_text(glyphs, k),
                at,
                st.accent,
                button_quill(l, sh.h as int, glyphs),
            ),
            sh,
            l,
            st,
            glyphs,
            k + 1,
        )
    }
}

/// What is known when the bar is drawn.
pub struct BarFacts {
    /// The monitor; nothing when the manager is not ready.
    pub snap: Option<BarSnapshot>,
    /// How wide the name of each workspace is.
    pub widths: Vec<i32>,
    pub hour: u16,
    pub minute: u16,
    /// Seconds since the epoch.
    pub now: u64,
    pub meeting: Option<Meeting>,
    /// How wide the words for the meeting are.
    pub label_width: i32,
    /// Is there an icon font?
    pub glyphs: bool,
}

/// The bar with its cells and the clock.
pub open spec fn bar_ground(sh: Sheet, l: BarLayout, st: BarStyle, f: BarFacts) -> Sketch {
    let ground = blank().fill(span(0, 0, sh.w as int, sh.h as int), st.bg);
    let celled = match f.snap {
        Some(s) => cells_drawn(ground, l, sh.h as int, st, s, f.widths@, 0),
        None => ground,
    };
    let right = button_left(l, sh.w as int, 4);
    celled.text(
        clock_text(f.hour, f.minute),
        span(right - l.clock_w, 0, right - quot(l.pad as int, 2), sh.h as int),
        st.fg,
        bar_quill(l, sh.h as int).at(Align::Right),
    )
}

/// The next meeting on the bar.
pub open spec fn meeting_drawn(
    k: Sketch,
    sh: Sheet,
    l: BarLayout,
    st: BarStyle,
    m: MeetingView,
    f: BarFacts,
) -> Sketch {
    let (left, right) = chip_span(sh, l, f.label_width as int);
    let (top, bottom) = (cell_top(l, sh.h as int), cell_top(l, sh.h as int) + l.cell_h);
    k.round(span(left, top, right, bottom), st.cell_occupied, corner(l)).text(
        meeting_words(m, f.now),
        span(left + l.gap, top, right - l.gap, bottom),
        if m.start <= f.now + 600 {
            st.accent
        } else {
            st.fg
        },
        bar_quill(l, sh.h as int).cut(),
    )
}

/// The whole bar, with the place of the next meeting on it.
pub open spec fn bar_painted(sh: Sheet, l: BarLayout, st: BarStyle, f: BarFacts) -> (
    Sketch,
    Option<(int, int)>,
) {
    let ground = bar_ground(sh, l, st, f);
    let chip = chip_span(sh, l, f.label_width as int);
    let (met, place, title_right) = match f.meeting {
        Some(m) => (meeting_drawn(ground, sh, l, st, m@, f), Some(chip), chip.0 - l.pad),
        None => (ground, None, chip.1),
    };
    let words = headline(f.snap);
    let titled = if words.len() > 0 {
        met.text(
            words,
            span(cells_end(l, f.snap, f.widths@), 0, title_right, sh.h as int),
            st.fg,
            bar_quill(l, sh.h as int).cut(),
        )
    } else {
        met
    };
    (buttons_drawn(titled, sh, l, st, f.glyphs, 0), place)
}

/// The text font of the bar.
pub fn bar_pen(l: &BarLayout, h: i32) -> (r: Pen)
    requires
        l.wf(),
    ensures
        r@ == bar_quill(*l, h as int),
{
    normal_pen(divided((h as i64 - l.pad as i64) * 55, 100))
}

fn top_of(l: &BarLayout, h: i32) -> (r: i64)
    requires
        l.wf(),
    ensures
        r == cell_top(*l, h as int),
        -0x1_0000_0000 <= r <= 0x1_0000_0000,
{
    divided(h as i64 - l.cell_h, 2)
}

fn radius_of(l: &BarLayout) -> (r: i64)
    requires
        l.wf(),
    ensures
        r == corner(*l),
{
    greater(divided(l.cell_h, 5), 4)
}

fn draw_icons(k: &mut Scene, l: &BarLayout, h: i32, icons: &Vec<Window>, x: i64)
    requires
        l.wf(),
        -0x3000_0000_0000_0000 <= x <= 0x3000_0000_0000_0000,
        icons.len() * (l.icon + l.icon_pad) <= 0x3000_0000_0000_0000,
    ensures
        final(k)@ == icons_drawn(old(k)@, *l, h as int, icons@, x as int, 0),
{
    let y: i64 = top_of(l, h) + divided(l.cell_h - l.icon as i64, 2);
    let each: i64 = l.icon as i64 + l.icon_pad as i64;
    let mut at: i64 = x;
    let mut j: usize = 0;
    while j < icons.len()
        invariant
            j <= icons.len(),
            l.wf(),
            y == cell_top(*l, h as int) + quot(l.cell_h - l.icon, 2),
            each == l.icon + l.icon_pad,
            -0x3000_0000_0000_0000 <= x <= 0x3000_0000_0000_0000,
            at == x + j * each,
            icons.len() * each <= 0x3000_0000_0000_0000,
            icons_drawn(k@, *l, h as int, icons@, x as int, j as int) == icons_drawn(
                old(k)@,
                *l,
                h as int,
                icons@,
                x as int,
                0,
            ),
        decreases icons.len() - j,
    {
        k.window_icon(icons[j], at, y, l.icon as i64);
        proof {
            let (ji, ei, ni) = (j as int, each as int, icons.len() as int);
            assert((ji + 1) * ei == ji * ei + ei) by (nonlinear_arith);
            assert(0 <= (ji + 1) * ei <= ni * ei) by (nonlinear_arith)
                requires
                    0 <= ji < ni,
                    0 <= ei,
            ;
            assert(0 <= ji * ei) by (nonlinear_arith)
                requires
                    0 <= ji,
                    0 <= ei,
            ;
        }
        at = at + each;
        j = j + 1;
    }
}

/// The width that the icons of a cell take.
fn icons_width(l: &BarLayout, snap: &BarSnapshot, Ghost(widths): Ghost<Seq<i32>>, i: usize) -> (r: i64)
    requires
        l.wf(),
        cell_width(*l, *snap, widths, i as int) <= 0x2000_0000_0000_0000,
    ensures
        r == icons_at(*snap, i as int).len() * (l.icon + l.icon_pad),
        0 <= r <= 0x2000_0001_0000_0000,
{
    let icons: i128 = if i < snap.cell_windows.len() {
        snap.cell_windows[i].len() as i128
    } else {
        0
    };
    let each: i128 = l.icon as i128 + l.icon_pad as i128;
    proof {
        let (a, b) = (icons as int, each as int);
        assert(0 <= a * b <= 0x1_0000_0000_0000_0000 * 0x1_0000_0000) by (nonlinear_arith)
            requires
                0 <= a <= 0x1_0000_0000_0000_0000,
                0 <= b <= 0x1_0000_0000,
        ;
    }
    (icons * each) as i64
}

fn draw_cell(
    k: &mut Scene,
    l: &BarLayout,
    h: i32,
    st: &BarStyle,
    snap: &BarSnapshot,
    Ghost(widths): Ghost<Seq<i32>>,
    i: usize,
    c: (i64, i64),
)
    requires
        l.wf(),
        i < snap.occupied.len(),
        c.0 == cell_left(*l, *snap, widths, i as int),
        c.1 == cell_width(*l, *snap, widths, i as int),
        -0x2000_0000_0000_0000 <= c.0 <= 0x2000_0000_0000_0000,
        -0x2000_0000_0000_0000 <= c.1 <= 0x2000_0000_0000_0000,
    ensures
        final(k)@ == cell_drawn(old(k)@, *l, h as int, *st, *snap, widths, i as int),
{
    let x: i64 = c.0;
    let cw: i64 = c.1;
    let top: i64 = top_of(l, h);
    let bottom: i64 = top + l.cell_h;
    let active: bool = snap.active == i;
    let ground: u32 = if active {
        st.accent
    } else if snap.occupied[i] {
        st.cell_occupied
    } else {
        st.cell_empty
    };
    let ink: u32 = if active {
        st.bg
    } else {
        st.fg
    };
    let pen = bar_pen(l, h);
    k.round(area(x, top, x + cw, bottom), ground, radius_of(l));
    let right: i64 = x + l.cell_w as i64;
    k.text(show(i as u64 + 1), area(x, top, right, bottom), ink, pen.to(Align::Center));
    let taken: i64 = icons_width(l, snap, Ghost(widths), i);
    if i < snap.cell_windows.len() {
        draw_icons(k, l, h, &snap.cell_windows[i], right);
    }
    let name = nth(&snap.names, i);
    if !is_blank(name.as_str()) {
        let g: i64 = l.gap as i64;
        k.text(
            name,
            area(right + taken + g, top, x + cw - g, bottom),
            ink,
            pen.cutting(),
        );
    }
}

fn draw_cells(
    k: &mut Scene,
    l: &BarLayout,
    h: i32,
    st: &BarStyle,
    snap: &BarSnapshot,
    widths: &Vec<i32>,
) -> (end: i64)
    requires
        l.wf(),
        countable(*l, *snap, widths@),
    ensures
        final(k)@ == cells_drawn(old(k)@, *l, h as int, *st, *snap, widths@, 0),
        end == cells_end(*l, Some(*snap), widths@),
{
    let spans = cell_spans(l, snap, widths);
    let mut end: i64 = l.pad as i64;
    let mut i: usize = 0;
    proof {
        assert(number_pairs(spans@).len() == spans.len());
    }
    while i < spans.len()
        invariant
            i <= spans.len(),
            l.wf(),
            spans.len() == snap.occupied.len(),
            number_pairs(spans@) == spans_of(*l, *snap, widths@),
            bounded_spans(spans@),
            i == 0 ==> end == l.pad,
            i > 0 ==> end == cell_left(*l, *snap, widths@, i - 1) + cell_width(
                *l,
                *snap,
                widths@,
                i - 1,
            ),
            -0x4000_0000_0000_0000 <= end <= 0x4000_0000_0000_0000,
            cells_drawn(k@, *l, h as int, *st, *snap, widths@, i as int) == cells_drawn(
                old(k)@,
                *l,
                h as int,
                *st,
                *snap,
                widths@,
                0,
            ),
        decreases spans.len() - i,
    {
        let c: (i64, i64) = spans[i];
        proof {
            assert(number_pairs(spans@)[i as int] == (c.0 as int, c.1 as int));
            assert(bounded_spans(spans@));
            assert(spans@[i as int].0 == c.0);
        }
        draw_cell(k, l, h, st, snap, Ghost(widths@), i, c);
        end = c.0 + c.1;
        i = i + 1;
    }
    end + l.pad as i64
}

fn button_word(glyphs: bool, k: usize) -> (r: String)
    ensures
        r@ == button_text(glyphs, k as int),
{
    if glyphs {
        if k == 0 {
            owned("\u{E71D}")
        } else if k == 1 {
            owned("\u{E70F}")
        } else if k == 2 {
            owned("\u{E790}")
        } else if k == 3 {
            owned("\u{E713}")
        } else {
            owned("\u{E897}")
        }
    } else {
        if k == 0 {
            owned("»")
        } else if k == 1 {
            owned("✎")
        } else if k == 2 {
            owned("◐")
        } else if k == 3 {
            owned("≡")
        } else {
            owned("?")
        }
    }
}

fn draw_buttons(s: &mut Scene, sh: &Sheet, l: &BarLayout, st: &BarStyle, glyphs: bool)
    requires
        l.wf(),
    ensures
        final(s)@ == buttons_drawn(old(s)@, *sh, *l, *st, glyphs, 0),
{
    let w: i64 = sh.w as i64;
    let pen = if glyphs {
        Pen {
            height: divided(l.cell_h * 68, 100),
            weight: Weight::Glyphs,
            align: Align::Center,
            ellipsis: false,
        }
    } else {
        bar_pen(l, sh.h).to(Align::Center)
    };
    let radius: i64 = radius_of(l);
    let top: i64 = top_of(l, sh.h);
    let mut k: usize = 0;
    while k < 5
        invariant
            k <= 5,
            l.wf(),
            w == sh.w,
            pen@ == button_quill(*l, sh.h as int, glyphs),
            radius == corner(*l),
            top == cell_top(*l, sh.h as int),
            -0x1_0000_0000 <= top <= 0x1_0000_0000,
            buttons_drawn(s@, *sh, *l, *st, glyphs, k as int) == buttons_drawn(
                old(s)@,
                *sh,
                *l,
                *st,
                glyphs,
                0,
            ),
        decreases 5 - k,
    {
        let i: i64 = 4 - k as i64;
        proof {
            let (ii, b, g) = (i as int, l.help_w as int, l.gap as int);
            assert(0 <= (ii + 1) * b <= 5 * 0x8000_0000) by (nonlinear_arith)
                requires
                    0 <= ii <= 4,
                    0 <= b < 0x8000_0000,
            ;
            assert(0 <= ii * g <= 4 * 0x8000_0000) by (nonlinear_arith)
                requires
                    0 <= ii <= 4,
                    0 <= g < 0x8000_0000,
            ;
        }
        let left: i64 = w - (i + 1) * l.help_w as i64 - i * l.gap as i64;
        let right: i64 = if i == 0 {
            w - divided(l.pad as i64, 2)
        } else {
            left + l.help_w as i64
        };
        let at = area(left, top, right, top + l.cell_h);
        s.round(at, st.cell_occupied, radius);
        s.text(button_word(glyphs, k), at, st.accent, pen);
        k = k + 1;
    }
}

/// The whole bar, with the place of the next meeting on it.
pub fn paint_bar(sh: &Sheet, st: &BarStyle, f: &BarFacts) -> (r: (Scene, Option<(i64, i64)>))
    requires
        f.snap matches Some(s) ==> countable(layout_of(*sh), s, f.widths@),
    ensures
        r.0@ == bar_painted(*sh, layout_of(*sh), *st, *f).0,
        match r.1 {
            Some(c) => bar_painted(*sh, layout_of(*sh), *st, *f).1 == Some(
                (c.0 as int, c.1 as int),
            ),
            None => bar_painted(*sh, layout_of(*sh), *st, *f).1 is None,
        },
{
    let l = bar_layout(sh);
    proof {
        lemma_buttons(l, sh.w as int);
    }
    let w: i64 = sh.w as i64;
    let h: i64 = sh.h as i64;
    let pen = bar_pen(&l, sh.h);
    let mut k = Scene::new();
    k.fill(area(0, 0, w, h), st.bg);
    let mut end: i64 = 2 * l.pad as i64;
    match &f.snap {
        Some(s) => {
            end = draw_cells(&mut k, &l, sh.h, st, s, &f.widths);
        },
        None => {},
    }
    let b: i64 = l.help_w as i64;
    let g: i64 = l.gap as i64;
    let right: i64 = w - 5 * b - 4 * g;
    let hour = show_two(f.hour as u64);
    let minute = show_two(f.minute as u64);
    k.text(
        joined3(hour.as_str(), ":", minute.as_str()),
        area(right - l.clock_w as i64, 0, right - divided(l.pad as i64, 2), h),
        st.fg,
        pen.to(Align::Right),
    );
    proof {
        assert(k@ == bar_ground(*sh, l, *st, *f));
    }
    let edge: i64 = right - l.clock_w as i64 - l.pad as i64;
    let mut title_right: i64 = edge;
    let mut place: Option<(i64, i64)> = None;
    match &f.meeting {
        Some(m) => {
            let left: i64 = edge - lesser(f.label_width as i64, sh.px(280) as i64) - 2 * g;
            let top: i64 = top_of(&l, sh.h);
            let bottom: i64 = top + l.cell_h;
            let soon: bool = m.start <= f.now || m.start - f.now <= 600;
            k.round(area(left, top, edge, bottom), st.cell_occupied, radius_of(&l));
            k.text(
                meeting_label(m, f.now),
                area(left + g, top, edge - g, bottom),
                if soon {
                    st.accent
                } else {
                    st.fg
                },
                pen.cutting(),
            );
            place = Some((left, edge));
            title_right = left - l.pad as i64;
        },
        None => {},
    }
    let words = match &f.snap {
        Some(s) => if s.paused {
            owned("⏸  paused — resume with the toggle_pause key")
        } else {
            s.title.clone()
        },
        None => String::new(),
    };
    if !is_blank(words.as_str()) {
        k.text(words, area(end, 0, title_right, h), st.fg, pen.cutting());
    }
    draw_buttons(&mut k, sh, &l, st, f.glyphs);
    (k, place)
}

// --------------------------------------------------------------------- laws

/// A click hits the cell that was drawn there: left of the buttons, and with
/// no meeting shown, the area of cell `i` answers as cell `i`. No name
/// measures less than nothing.
pub proof fn law_click_hits_drawn_cell(
    l: BarLayout,
    w: int,
    snap: BarSnapshot,
    widths: Seq<i32>,
    i: int,
    x: int,
)
    requires
        0 <= i < snap.occupied.len() <= usize::MAX,
        x < button_left(l, w, 4),
        l.wf(),
        cell_left(l, snap, widths, i) <= x < cell_left(l, snap, widths, i) + cell_width(
            l,
            snap,
            widths,
            i,
        ),
        forall|k: int| 0 <= k < snap.occupied.len() ==> #[trigger] cell_width(l, snap, widths, k) >= 0,
    ensures
        click_meaning(l, w, None, spans_of(l, snap, widths), x) == BarClick::Workspace(i as usize),
{
    lemma_buttons(l, w);
    lemma_cells_ascend(l, snap, widths, 0, i);
    lemma_cell_found(l, snap, widths, i, x, 0);
}

proof fn lemma_cells_ascend(l: BarLayout, snap: BarSnapshot, widths: Seq<i32>, k: int, i: int)
    requires
        0 <= k <= i < snap.occupied.len(),
        l.wf(),
        forall|k: int| 0 <= k < snap.occupied.len() ==> #[trigger] cell_width(l, snap, widths, k) >= 0,
    ensures
        forall|j: int|
            k <= j < i ==> #[trigger] cell_left(l, snap, widths, j) + cell_width(l, snap, widths, j)
                <= cell_left(l, snap, widths, i),
    decreases i - k,
{
    if k < i {
        lemma_cells_ascend(l, snap, widths, k, i - 1);
        assert(cell_width(l, snap, widths, i - 1) >= 0);
    }
}

proof fn lemma_cell_found(
    l: BarLayout,
    snap: BarSnapshot,
    widths: Seq<i32>,
    i: int,
    x: int,
    k: int,
)
    requires
        0 <= k <= i < snap.occupied.len(),
        forall|j: int|
            0 <= j < i ==> #[trigger] cell_left(l, snap, widths, j) + cell_width(l, snap, widths, j)
                <= cell_left(l, snap, widths, i),
        cell_left(l, snap, widths, i) <= x < cell_left(l, snap, widths, i) + cell_width(
            l,
            snap,
            widths,
            i,
        ),
    ensures
        cell_from(spans_of(l, snap, widths), x, k) == Some(i),
    decreases i - k,
{
    if k < i {
        lemma_cell_found(l, snap, widths, i, x, k + 1);
        assert(cell_left(l, snap, widths, k) + cell_width(l, snap, widths, k) <= x);
    }
}

} // verus!
