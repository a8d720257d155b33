//! What is painted where: the marks that panels are made of show what a click
//! there means, and which one is active, selected or awaited.

use crate::bar::{
    bar_ground, bar_painted, bar_quill, button_left, button_quill, button_text, buttons_drawn,
    cell_drawn, cell_left, cell_top, cell_width, cells_drawn, cells_end, chip_span, click_meaning,
    clock_text, corner, headline, icons_at, icons_drawn, meeting_drawn, meeting_words, BarClick,
    BarFacts, BarLayout,
};
use crate::border::{at_dpi, framed};
use crate::config::EntryView;
use crate::help::{HelpRow, HelpView};
use crate::launcher_panel::LauncherView;
use crate::layout::{quot, Rect};
use crate::numerals::decimal;
use crate::overview::{card, card_drawn, card_title, window_drawn};
use crate::panel_laws::law_buttons_stand_at_the_right;
use crate::row_laws::goes_on;
use crate::scene::{perched, span, Align, BarStyle, Mark, Perch, Sheet, Sketch, Span};
use crate::single::{doublings, lemma_sig24, lemma_sig24_shifted, quotient};
use crate::text::texts;
use crate::tweaks::{stepper, stepper_drawn};
use crate::window::Window;
use crate::wm::desktop::DeskView;
use crate::wm::{BarSnapshot, OverviewSnapshot};
use vstd::arithmetic::power2::*;
use vstd::prelude::*;

verus! {

// ---------------------------------------------------------------------- bar

/// The cells of the bar stand side by side, a gap apart, from the left edge.
pub proof fn law_cells_stand_side_by_side(
    l: BarLayout,
    snap: BarSnapshot,
    widths: Seq<i32>,
    i: int,
)
    requires
        0 <= i,
    ensures
        cell_left(l, snap, widths, 0) == l.pad,
        cell_left(l, snap, widths, i + 1) == cell_left(l, snap, widths, i) + cell_width(
            l,
            snap,
            widths,
            i,
        ) + l.gap,
{
}

/// The cell of a workspace is painted over its whole width: the active one in
/// the accent color, one with windows darker than an empty one, each with its
/// number, counted from one.
pub proof fn law_active_cell_is_accented(
    k: Sketch,
    l: BarLayout,
    h: int,
    st: BarStyle,
    snap: BarSnapshot,
    widths: Seq<i32>,
    i: int,
)
    requires
        0 <= i < snap.occupied.len(),
    ensures
        ({
            let m = cell_drawn(k, l, h, st, snap, widths, i).marks;
            let n = k.marks.len() as int;
            let x = cell_left(l, snap, widths, i);
            &&& m.len() >= n + 2
            &&& m[n] matches Mark::Round { area, color, .. } && area.left == x && area.right == x
                + cell_width(l, snap, widths, i) && color == if snap.active == i {
                st.accent
            } else if snap.occupied@[i] {
                st.cell_occupied
            } else {
                st.cell_empty
            }
            &&& m[n + 1] matches Mark::Text { text, area, .. } && text == decimal((i + 1) as nat)
                && area.left == x
        }),
{
    let x = cell_left(l, snap, widths, i);
    let icons = icons_at(snap, i);
    let ink = if snap.active == i {
        st.bg
    } else {
        st.fg
    };
    let ground = if snap.active == i {
        st.accent
    } else if snap.occupied@[i] {
        st.cell_occupied
    } else {
        st.cell_empty
    };
    let (top, bottom) = (cell_top(l, h), cell_top(l, h) + l.cell_h);
    let base = k.round(
        span(x, top, x + cell_width(l, snap, widths, i), bottom),
        ground,
        corner(l),
    ).text(
        decimal((i + 1) as nat),
        span(x, top, x + l.cell_w, bottom),
        ink,
        bar_quill(l, h).at(Align::Center),
    );
    lemma_icons_add(base, l, h, icons, x + l.cell_w, 0);
}

proof fn lemma_icons_add(k: Sketch, l: BarLayout, h: int, icons: Seq<Window>, x: int, j: int)
    requires
        0 <= j,
    ensures
        ({
            let m = icons_drawn(k, l, h, icons, x, j).marks;
            &&& m.len() >= k.marks.len()
            &&& forall|i: int| 0 <= i < k.marks.len() ==> #[trigger] m[i] == k.marks[i]
        }),
    decreases icons.len() - j,
{
    if j < icons.len() {
        let next = k.window_icon(
            icons[j],
            x + j * (l.icon + l.icon_pad),
            cell_top(l, h) + quot(l.cell_h - l.icon, 2),
            l.icon as int,
        );
        lemma_icons_add(next, l, h, icons, x, j + 1);
    }
}

/// What a button of the bar opens, from the left.
pub open spec fn opened_by(k: int) -> BarClick {
    if k == 0 {
        BarClick::Launcher
    } else if k == 1 {
        BarClick::Manage
    } else if k == 2 {
        BarClick::Tweaks
    } else if k == 3 {
        BarClick::Settings
    } else {
        BarClick::Help
    }
}

/// The sign of a button, from the left.
pub open spec fn sign_of(k: int) -> Seq<char> {
    if k == 0 {
        "»"@
    } else if k == 1 {
        "✎"@
    } else if k == 2 {
        "◐"@
    } else if k == 3 {
        "≡"@
    } else {
        "?"@
    }
}

/// The mark is the sign of button `j`, from the left, in its place.
spec fn shows_button(m: Mark, sh: Sheet, l: BarLayout, glyphs: bool, j: int) -> bool {
    let left = button_left(l, sh.w as int, 4 - j);
    m matches Mark::Text { text, area, .. } && text == button_text(glyphs, j) && area.left == left
        && area.right == if j == 4 {
        sh.w - quot(l.pad as int, 2)
    } else {
        left + l.help_w
    }
}

proof fn lemma_buttons_add(
    s: Sketch,
    sh: Sheet,
    l: BarLayout,
    st: BarStyle,
    glyphs: bool,
    k: int,
    j: int,
)
    requires
        0 <= k <= 5,
    ensures
        ({
            let m = buttons_drawn(s, sh, l, st, glyphs, k).marks;
            &&& m.len() == s.marks.len() + 2 * (5 - k)
            &&& forall|i: int| 0 <= i < s.marks.len() ==> #[trigger] m[i] == s.marks[i]
            &&& k <= j < 5 ==> shows_button(
                m[s.marks.len() + 2 * (j - k) + 1],
                sh,
                l,
                glyphs,
                j,
            )
        }),
    decreases 5 - k,
{
    if k < 5 {
        let i = 4 - k;
        let left = button_left(l, sh.w as int, i);
        let right = if i == 0 {
            sh.w - quot(l.pad as int, 2)
        } else {
            left + l.help_w
        };
        let top = cell_top(l, sh.h as int);
        let at = span(left, top, right, top + l.cell_h);
        let next = s.round(at, st.cell_occupied, corner(l)).text(
            button_text(glyphs, k),
            at,
            st.accent,
            button_quill(l, sh.h as int, glyphs),
        );
        lemma_buttons_add(next, sh, l, st, glyphs, k + 1, j);
        let m = buttons_drawn(s, sh, l, st, glyphs, k).marks;
        assert(m == buttons_drawn(next, sh, l, st, glyphs, k + 1).marks);
        let n = s.marks.len() as int;
        assert(m[n + 1] == next.marks[n + 1]);
        assert(next.marks.len() + 2 * (j - (k + 1)) + 1 == s.marks.len() + 2 * (j - k) + 1);
    }
}

/// Every button of the bar is painted where a click on it is understood, with
/// the sign of what it opens.
pub proof fn law_buttons_show_what_they_open(
    s: Sketch,
    sh: Sheet,
    l: BarLayout,
    st: BarStyle,
    chip: Option<(i64, i64)>,
    spans: Seq<(int, int)>,
    k: int,
    x: int,
)
    requires
        0 <= k < 5,
        l.help_w > 0,
        l.gap >= 0,
        l.pad >= 0,
    ensures
        ({
            let m = buttons_drawn(s, sh, l, st, false, 0).marks;
            m[s.marks.len() + 2 * k + 1] matches Mark::Text { text, area, .. } && text == sign_of(k)
                && (area.left <= x < area.right ==> click_meaning(
                l,
                sh.w as int,
                chip,
                spans,
                x,
            ) == opened_by(k))
        }),
{
    lemma_buttons_add(s, sh, l, st, false, 0, k);
    law_buttons_stand_at_the_right(l, sh.w as int, chip, spans, x);
    assert(button_left(l, sh.w as int, 0) == sh.w - l.help_w);
    assert(button_left(l, sh.w as int, 1) == sh.w - 2 * l.help_w - l.gap);
    assert(button_left(l, sh.w as int, 2) == sh.w - 3 * l.help_w - 2 * l.gap);
    assert(button_left(l, sh.w as int, 3) == sh.w - 4 * l.help_w - 3 * l.gap);
    assert(button_left(l, sh.w as int, 4) == sh.w - 5 * l.help_w - 4 * l.gap);
}

/// The bar tells the time; the next meeting, where there is one, in the place
/// that it reports; and the title of the focused window, or that tiling is
/// paused.
pub proof fn law_bar_tells_what_is_on(sh: Sheet, l: BarLayout, st: BarStyle, f: BarFacts)
    ensures
        ({
            let (p, place) = bar_painted(sh, l, st, f);
            let m = p.marks;
            let n = bar_ground(sh, l, st, f).marks.len() as int;
            let at = if f.meeting is Some {
                n + 2
            } else {
                n
            };
            &&& m[n - 1] matches Mark::Text { text, .. } && text == clock_text(f.hour, f.minute)
            &&& place is Some <==> f.meeting is Some
            &&& f.meeting matches Some(meeting) ==> {
                &&& m[n] matches Mark::Round { area, .. } && place == Some((area.left, area.right))
                &&& m[n + 1] matches Mark::Text { text, .. } && text == meeting_words(
                    meeting@,
                    f.now,
                )
            }
            &&& f.snap matches Some(s) ==> !s.paused && s.title@.len() > 0 ==> (m[at]
                matches Mark::Text { text, .. } && text == s.title@)
            &&& f.snap matches Some(s) ==> s.paused ==> (m[at] matches Mark::Text { text, .. }
                && text == "⏸  paused — resume with the toggle_pause key"@)
        }),
{
    reveal_strlit("⏸  paused — resume with the toggle_pause key");
    let ground = bar_ground(sh, l, st, f);
    let chip = chip_span(sh, l, f.label_width as int);
    let (met, title_right) = match f.meeting {
        Some(m) => (meeting_drawn(ground, sh, l, st, m@, f), chip.0 - l.pad),
        None => (ground, chip.1),
    };
    let words = headline(f.snap);
    let titled = if words.len() > 0 {
        met.text(
            words,
            span(cells_end(l, f.snap, f.widths@), 0, title_right, sh.h as int),
            st.fg,
            bar_quill(l, sh.h as int).cut(),
        )
    } else {
        met
    };
    lemma_buttons_add(titled, sh, l, st, f.glyphs, 0, 0);
    let n = ground.marks.len() as int;
    assert(titled.marks[n - 1] == ground.marks[n - 1]);
}

/// A click on the meeting in the bar opens the agenda: it stands left of the
/// clock, and the clock left of the buttons.
pub proof fn law_meeting_opens_the_agenda(
    sh: Sheet,
    l: BarLayout,
    st: BarStyle,
    f: BarFacts,
    chip: (i64, i64),
    spans: Seq<(int, int)>,
    x: int,
)
    requires
        l.clock_w >= 0,
        l.pad >= 0,
        l.gap >= 0,
        l.help_w >= 0,
        bar_painted(sh, l, st, f).1 == Some((chip.0 as int, chip.1 as int)),
        chip.0 <= x < chip.1,
    ensures
        click_meaning(l, sh.w as int, Some(chip), spans, x) == BarClick::Agenda,
{
    let w = sh.w as int;
    assert(button_left(l, w, 4) == w - 5 * l.help_w - 4 * l.gap);
    assert(button_left(l, w, 3) == w - 4 * l.help_w - 3 * l.gap);
    assert(button_left(l, w, 2) == w - 3 * l.help_w - 2 * l.gap);
    assert(button_left(l, w, 1) == w - 2 * l.help_w - l.gap);
    assert(button_left(l, w, 0) == w - l.help_w);
}

/// The title begins right of the last cell, a margin further.
pub proof fn law_title_stands_right_of_the_cells(l: BarLayout, s: BarSnapshot, widths: Seq<i32>)
    ensures
        ({
            let n = s.occupied.len() as int;
            let end = cells_end(l, Some(s), widths);
            &&& n > 0 ==> end == cell_left(l, s, widths, n) - l.gap + l.pad
            &&& n == 0 ==> end == cell_left(l, s, widths, 0) + l.pad
        }),
{
}

proof fn lemma_cell_goes_on(
    k: Sketch,
    l: BarLayout,
    h: int,
    st: BarStyle,
    snap: BarSnapshot,
    widths: Seq<i32>,
    i: int,
)
    ensures
        ({
            let d = cell_drawn(k, l, h, st, snap, widths, i).marks;
            let n = k.marks.len() as int;
            &&& goes_on(k.marks, d)
            &&& d.len() > n + 1
            &&& d[n] matches Mark::Round { area, .. } && area.left == cell_left(l, snap, widths, i)
            &&& d[n + 1] matches Mark::Text { text, .. } && text == decimal((i + 1) as nat)
        }),
{
    let x = cell_left(l, snap, widths, i);
    let cw = cell_width(l, snap, widths, i);
    let (top, bottom) = (cell_top(l, h), cell_top(l, h) + l.cell_h);
    let (ground, ink) = if snap.active == i {
        (st.accent, st.bg)
    } else if snap.occupied@[i] {
        (st.cell_occupied, st.fg)
    } else {
        (st.cell_empty, st.fg)
    };
    let base = k.round(span(x, top, x + cw, bottom), ground, corner(l)).text(
        decimal((i + 1) as nat),
        span(x, top, x + l.cell_w, bottom),
        ink,
        bar_quill(l, h).at(Align::Center),
    );
    lemma_icons_add(base, l, h, icons_at(snap, i), x + l.cell_w, 0);
}

proof fn lemma_cells_go_on(
    k: Sketch,
    l: BarLayout,
    h: int,
    st: BarStyle,
    snap: BarSnapshot,
    widths: Seq<i32>,
    j: int,
)
    ensures
        goes_on(k.marks, cells_drawn(k, l, h, st, snap, widths, j).marks),
    decreases snap.occupied.len() - j,
{
    if 0 <= j < snap.occupied.len() {
        lemma_cell_goes_on(k, l, h, st, snap, widths, j);
        lemma_cells_go_on(cell_drawn(k, l, h, st, snap, widths, j), l, h, st, snap, widths, j + 1);
    }
}

/// Among the marks is a cell that begins there, and that text in it.
pub open spec fn numbered_at(marks: Seq<Mark>, left: int, words: Seq<char>) -> bool {
    exists|n: int|
        0 <= n < marks.len() - 1 && ((#[trigger] marks[n]) matches Mark::Round { area, .. }
            && area.left == left) && (marks[n + 1] matches Mark::Text { text, .. } && text
            == words)
}

/// Every workspace of the monitor has a cell in the bar, with its number.
pub proof fn law_every_workspace_has_a_cell(
    k: Sketch,
    l: BarLayout,
    h: int,
    st: BarStyle,
    snap: BarSnapshot,
    widths: Seq<i32>,
    j: int,
    i: int,
)
    requires
        0 <= j <= i < snap.occupied.len(),
    ensures
        numbered_at(
            cells_drawn(k, l, h, st, snap, widths, j).marks,
            cell_left(l, snap, widths, i),
            decimal((i + 1) as nat),
        ),
    decreases i - j,
{
    let d = cell_drawn(k, l, h, st, snap, widths, j);
    lemma_cell_goes_on(k, l, h, st, snap, widths, j);
    if i == j {
        lemma_cells_go_on(d, l, h, st, snap, widths, j + 1);
        let n = k.marks.len() as int;
        let m = cells_drawn(k, l, h, st, snap, widths, j).marks;
        assert(m[n] == d.marks[n]);
        assert(m[n + 1] == d.marks[n + 1]);
    } else {
        law_every_workspace_has_a_cell(d, l, h, st, snap, widths, j + 1, i);
    }
}

// ----------------------------------------------------------------- overview

/// The selected card has a halo, and the active one the accent color; each has
/// its number, counted from one, and its name.
pub proof fn law_selected_card_has_a_halo(
    k: Sketch,
    sh: Sheet,
    st: BarStyle,
    snap: OverviewSnapshot,
    selected: int,
    i: int,
)
    ensures
        ({
            let m = card_drawn(k, sh, st, snap, selected, i).marks;
            let c = card(sh, snap.workspaces.len() as int, i);
            let n = k.marks.len() as int;
            let at = if i == selected {
                n + 1
            } else {
                n
            };
            &&& m.len() == at + 3
            &&& i == selected ==> (m[n] matches Mark::Fill { area, color } && area.left == c.left
                - sh.s(4) && area.right == c.right + sh.s(4) && color == st.fg)
            &&& m[at] matches Mark::Fill { area, color } && area == c && color == if i
                == snap.active {
                st.accent
            } else {
                st.cell_empty
            }
            &&& m[at + 2] matches Mark::Text { text, .. } && text == card_title(
                texts(snap.names@),
                i,
            )
        }),
{
}

/// The title of a card begins with its number, counted from one, and has its
/// name where it has one.
pub proof fn law_cards_are_numbered(names: Seq<Seq<char>>, i: int)
    requires
        0 <= i,
    ensures
        i < names.len() && names[i].len() > 0 ==> card_title(names, i) == decimal((i + 1) as nat)
            + " · "@ + names[i],
        i >= names.len() || names[i].len() == 0 ==> card_title(names, i) == decimal((i + 1) as nat),
{
}

/// The focused window stands out by the accent color.
pub proof fn law_focused_miniature_is_accented(
    k: Sketch,
    sh: Sheet,
    st: BarStyle,
    d: DeskView,
    w: Window,
    m: Span,
)
    ensures
        ({
            let v = window_drawn(k, sh, st, d, w, m).marks;
            let n = k.marks.len() as int;
            v.len() > n && (v[n] matches Mark::Fill { area, color } && area == m && color
                == if d.foreground == Some(w) {
                st.accent
            } else {
                st.cell_occupied
            })
        }),
{
}

// --------------------------------------------------------------------- lists

/// A row of the switcher shows the place and the title of its window, and a
/// ground where it is selected.
pub proof fn law_switcher_row_is_painted(
    k: Sketch,
    sh: Sheet,
    st: BarStyle,
    d: DeskView,
    e: (Window, Seq<char>),
    chosen: bool,
    y: int,
)
    ensures
        ({
            let m = crate::switcher::row_drawn(k, sh, st, d, e, chosen, y).marks;
            let n = k.marks.len() as int;
            let at = if chosen {
                n + 1
            } else {
                n
            };
            &&& m.len() == at + 3
            &&& chosen ==> m[n] is Round
            &&& m[at] matches Mark::Text { text, .. } && text == e.1
            &&& m[at + 1] matches Mark::WindowIcon { window, .. } && window == e.0
            &&& m[at + 2] matches Mark::Text { text, .. } && text == d.title_of(e.0)
        }),
{
}

/// A row of the help shows the chord of its action, or that keys are awaited
/// for it.
pub proof fn law_help_row_is_painted(
    k: Sketch,
    sh: Sheet,
    st: BarStyle,
    s: HelpView,
    row: HelpRow,
    y: int,
)
    ensures
        ({
            let m = crate::help::row_drawn(k, sh, st, s, row, y).marks;
            let n = k.marks.len() as int;
            let waiting = s.rebinding == Some(row.action);
            let at = if waiting {
                n + 1
            } else {
                n
            };
            &&& m.len() == at + 2
            &&& m[at] matches Mark::Text { text, .. } && text == if waiting {
                "press keys…"@
            } else {
                row.chord
            }
            &&& m[at + 1] matches Mark::Text { text, .. } && text == row.desc
        }),
{
}

/// A row of the launcher shows the name, the command and the shortcut of its
/// entry, and a ground where it is selected.
pub proof fn law_launcher_row_is_painted(
    k: Sketch,
    sh: Sheet,
    st: BarStyle,
    p: LauncherView,
    e: EntryView,
    o: int,
    i: int,
    indented: bool,
    y: int,
)
    ensures
        ({
            let m = crate::launcher_panel::entry_drawn(k, sh, st, p, e, o, i, indented, y).marks;
            let n = k.marks.len() as int;
            let at = if o == p.selected {
                n + 1
            } else {
                n
            };
            &&& m.len() == at + 7
            &&& o == p.selected ==> m[n] is Round
            &&& m[at] matches Mark::FileIcon { path, .. } && path == e.command
            &&& m[at + 1] matches Mark::Text { text, .. } && text == e.name
            &&& m[at + 2] matches Mark::Text { text, .. } && text == e.command
            &&& m[at + 5] matches Mark::Text { text, .. } && text == if p.capturing == Some(
                i as usize,
            ) {
                "press keys…"@
            } else if e.key.len() > 0 {
                e.key
            } else {
                "+ set key"@
            }
        }),
{
}

// ------------------------------------------------------------------- tweaks

/// The signs of a stepper are painted where clicks on them are understood.
pub proof fn law_stepper_is_painted(
    k: Sketch,
    sh: Sheet,
    st: BarStyle,
    y: int,
    value: Seq<char>,
)
    ensures
        ({
            let m = stepper_drawn(k, sh, st, y, value).marks;
            let n = k.marks.len() as int;
            let (minus, val, plus) = stepper(sh, y);
            &&& m.len() == n + 7
            &&& m[n + 2] matches Mark::Text { text, area, .. } && text == "−"@ && area == minus
            &&& m[n + 3] matches Mark::Text { text, area, .. } && text == value && area == val
            &&& m[n + 6] matches Mark::Text { text, area, .. } && text == "+"@ && area == plus
        }),
{
}

// -------------------------------------------------------------------- places

/// A panel stands in the middle from left to right, up to a pixel, and in the
/// middle of the height, or with a third of the free height above it, or a
/// fifth of the monitor.
pub proof fn law_panels_are_centered(bounds: Rect, w: int, h: int)
    requires
        -0x1_0000 < bounds.x < 0x1_0000,
        -0x1_0000 < bounds.y < 0x1_0000,
        0 <= w <= bounds.w < 0x1_0000,
        0 <= h <= bounds.h < 0x1_0000,
    ensures
        ({
            let m = perched(bounds, w, h, Perch::Middle);
            let t = perched(bounds, w, h, Perch::Third);
            let f = perched(bounds, w, h, Perch::Fifth);
            let free = bounds.h - h;
            &&& m.w == w && m.h == h
            &&& 0 <= (2 * bounds.x + bounds.w) - (2 * m.x + w) <= 1
            &&& 0 <= (2 * bounds.y + bounds.h) - (2 * m.y + h) <= 1
            &&& t.x == m.x && t.w == w && t.h == h
            &&& 0 <= free - 3 * (t.y - bounds.y) < 3
            &&& f.x == m.x && f.w == w && f.h == h
            &&& 0 <= bounds.h - 5 * (f.y - bounds.y) < 5
        }),
{
}

// -------------------------------------------------------------------- sizes

proof fn lemma_doublings(n: nat, d: nat, t: nat)
    requires
        d > 0,
        n < d * pow2(t),
    ensures
        doublings(n, d) <= t,
    decreases t,
{
    lemma2_to64();
    if t > 0 && n >= d {
        lemma_pow2_unfold(t);
        assert(d * (2 * pow2((t - 1) as nat)) == (2 * d) * pow2((t - 1) as nat))
            by (nonlinear_arith);
        lemma_doublings(n, 2 * d, (t - 1) as nat);
    } else if t == 0 {
        assert(d * pow2(0) == d) by (nonlinear_arith)
            requires
                pow2(0) == 1,
        ;
    }
}

proof fn lemma_whole_quotient(k: nat)
    requires
        1 <= k < 0x100_0000,
    ensures
        quotient(96 * k, 96) == k * pow2(54),
{
    lemma2_to64();
    lemma2_to64_rest();
    let n = 96 * k;
    lemma_pow2_adds(24, 30);
    assert(n * 0x4000_0000 < 96 * pow2(54)) by (nonlinear_arith)
        requires
            n == 96 * k,
            k < 0x100_0000,
            pow2(54) == 0x100_0000 * 0x4000_0000,
    ;
    lemma_doublings(n * 0x4000_0000, 96, 54);
    let t = doublings(n * 0x4000_0000, 96);
    let p = pow2(t);
    let rest = pow2((54 - t) as nat);
    lemma_pow2_pos(t);
    lemma_pow2_adds(t, (54 - t) as nat);
    let d = (96 * p) as int;
    let q = (k * rest) as int;
    assert((n * 0x40_0000_0000_0000) as int == q * d) by (nonlinear_arith)
        requires
            n == 96 * k,
            p * rest == 0x40_0000_0000_0000,
            d == 96 * p,
            q == k * rest,
    ;
    assert((q * d) / d == q && (q * d) % d == 0) by (nonlinear_arith)
        requires
            d > 0,
    ;
    assert(q * p == k * pow2(54)) by (nonlinear_arith)
        requires
            q == k * rest,
            p * rest == pow2(54),
    ;
}

/// Lengths are as given on a screen of 96 dots per inch, and so many times as
/// long where the resolution is a multiple of that.
pub proof fn law_lengths_grow_with_the_resolution(v: nat, k: nat)
    requires
        1 <= k,
        96 * k < 0x100_0000,
        v * k < 0x100_0000,
    ensures
        at_dpi(v as int, (96 * k) as u32) == v * k,
        at_dpi(-v, (96 * k) as u32) == -(v * k),
        at_dpi(v as int, 96) == v,
{
    lemma2_to64();
    lemma2_to64_rest();
    assert(v <= v * k) by (nonlinear_arith)
        requires
            k >= 1,
    ;
    lemma_sig24(96 * k);
    lemma_sig24(96);
    lemma_sig24(v);
    lemma_whole_quotient(k);
    lemma_whole_quotient(1);
    lemma_sig24_shifted(v * k, 54);
    lemma_sig24_shifted(v, 54);
    assert(v * (k * pow2(54)) == (v * k) * pow2(54)) by (nonlinear_arith);
    let n = v * k;
    let u = pow2(54) as int;
    assert((n * u) / u == n && (v * u) / u == v) by (nonlinear_arith)
        requires
            u > 0,
    ;
}

/// The frame is wider than the window by its thickness on every side, and
/// rounded exactly if the corners are, by as much more.
pub proof fn law_frame_is_of_its_thickness(target: Rect, t: int, r: int)
    requires
        0 <= t < 0x1_0000,
        0 <= r < 0x1_0000,
        -0x1000_0000 < target.x < 0x1000_0000,
        -0x1000_0000 < target.y < 0x1000_0000,
        0 <= target.w < 0x1000_0000,
        0 <= target.h < 0x1000_0000,
    ensures
        ({
            let (f, region) = framed(target, t, r);
            &&& target.x - f.x == t && target.y - f.y == t
            &&& (f.x + f.w) - (target.x + target.w) == t
            &&& (f.y + f.h) - (target.y + target.h) == t
            &&& region.outer.w == f.w && region.outer.h == f.h
            &&& region.inner.w == target.w && region.inner.h == target.h
            &&& r == 0 ==> region.outer_diameter == 0 && region.inner_diameter == 0
            &&& r > 0 ==> region.inner_diameter == 2 * r && region.outer_diameter
                - region.inner_diameter == 2 * t
        }),
{
}

} // verus!
