//! What the bar, the switcher, the overview and the frame are told.

use super::desktop::DeskView;
use super::snapshots::{first_living, listed, miniature, name_row, place_text, space_name};
use super::state::{World, WsView};
use crate::layout::{slots, Rect};
use crate::numerals::decimal;
use crate::window::Window;
use vstd::prelude::*;

verus! {

// -------------------------------------------------------------------- frame

/// The frame is drawn exactly round a focused window on screen, parked or on a
/// shown workspace, but not round a fullscreen one, nor round the only window
/// of a workspace where gaps are smart, nor during a pause.
pub proof fn law_frame_is_round_the_focus(s: World, w: Window)
    requires
        s.desk.foreground == Some(w),
    ensures
        s.border_target() == Some(s.desk.frame_of(w)) || s.border_target() is None,
        s.border_target() is Some <==> {
            &&& !s.wm.paused
            &&& s.desk.visible(w)
            &&& !s.desk.minimized(w)
            &&& s.wm.scratch.contains(w) || match s.wm.find(w) {
                Some((m, i)) => {
                    let ws = s.wm.ws(m, i);
                    &&& i == s.wm.monitors[m].active
                    &&& ws.fullscreen != Some(w)
                    &&& !(s.wm.cfg.smart_gaps && ws.fullscreen is None && ws.floating.len() == 0
                        && ws.tiled.len() == 1 && ws.tiled[0] == w)
                },
                None => false,
            }
        },
{
}

// ----------------------------------------------------------------- switcher

/// A workspace is told by its name, or by its number, counted from one.
pub proof fn law_workspaces_are_told(names: Seq<Seq<char>>, i: int)
    requires
        i >= 0,
    ensures
        i < names.len() && names[i].len() > 0 ==> space_name(names, i) == names[i],
        i >= names.len() || names[i].len() == 0 ==> space_name(names, i) == "ws "@ + decimal(
            (i + 1) as nat,
        ),
{
}

/// The overview has a name for each of its workspaces, none where it was given
/// none.
pub proof fn law_cards_have_their_names(names: Seq<Seq<char>>, count: nat, i: int)
    requires
        0 <= i < count,
    ensures
        name_row(names, count).len() == count,
        i < names.len() ==> name_row(names, count)[i] == names[i],
        i >= names.len() ==> name_row(names, count)[i].len() == 0,
{
}

/// With several monitors the place of a window tells which, counted from one.
pub proof fn law_monitors_are_told(names: Seq<Seq<char>>, m: int, i: int)
    ensures
        place_text(names, false, m, i) == space_name(names, i),
        place_text(names, true, m, i) == "M"@ + decimal((m + 1) as nat) + " · "@ + space_name(
            names,
            i,
        ),
{
}

proof fn lemma_listed(list: Seq<Window>, place: Seq<char>, d: DeskView, w: Window, p: Seq<char>)
    ensures
        listed(list, place, d).contains((w, p)) <==> list.contains(w) && d.valid(w) && p == place,
    decreases list.len(),
{
    if list.len() > 0 {
        let front = list.drop_last();
        let x = list.last();
        lemma_listed(front, place, d, w, p);
        let a = listed(front, place, d);
        assert(list.contains(w) <==> front.contains(w) || w == x) by {
            if list.contains(w) {
                let k = choose|k: int| 0 <= k < list.len() && list[k] == w;
                if k < front.len() {
                    assert(front[k] == w);
                }
            }
            if front.contains(w) {
                let k = choose|k: int| 0 <= k < front.len() && front[k] == w;
                assert(list[k] == w);
            }
            if w == x {
                assert(list[list.len() - 1] == w);
            }
        }
        lemma_pushed(a, (x, place), (w, p));
    }
}

proof fn lemma_pushed(
    s: Seq<(Window, Seq<char>)>,
    p: (Window, Seq<char>),
    q: (Window, Seq<char>),
)
    ensures
        s.push(p).contains(q) <==> s.contains(q) || q == p,
{
    assert(s.push(p)[s.len() as int] == p);
    if s.contains(q) {
        let i = choose|i: int| 0 <= i < s.len() && s[i] == q;
        assert(s.push(p)[i] == q);
    }
    if s.push(p).contains(q) && q != p {
        let i = choose|i: int| 0 <= i < s.push(p).len() && s.push(p)[i] == q;
        assert(s[i] == q);
    }
}

proof fn lemma_added(
    a: Seq<(Window, Seq<char>)>,
    b: Seq<(Window, Seq<char>)>,
    q: (Window, Seq<char>),
)
    ensures
        (a + b).contains(q) <==> a.contains(q) || b.contains(q),
{
    if a.contains(q) {
        let i = choose|i: int| 0 <= i < a.len() && a[i] == q;
        assert((a + b)[i] == q);
    }
    if b.contains(q) {
        let i = choose|i: int| 0 <= i < b.len() && b[i] == q;
        assert((a + b)[a.len() + i] == q);
    }
    if (a + b).contains(q) {
        let i = choose|i: int| 0 <= i < (a + b).len() && (a + b)[i] == q;
        if i < a.len() {
            assert(a[i] == q);
        } else {
            assert(b[i - a.len()] == q);
        }
    }
}

proof fn lemma_held(ws: WsView, w: Window)
    ensures
        ws.all().contains(w) <==> ws.holds(w),
{
    if ws.tiled.contains(w) {
        let i = choose|i: int| 0 <= i < ws.tiled.len() && ws.tiled[i] == w;
        assert(ws.all()[i] == w);
    }
    if ws.floating.contains(w) {
        let i = choose|i: int| 0 <= i < ws.floating.len() && ws.floating[i] == w;
        assert(ws.all()[ws.tiled.len() + i] == w);
    }
    if ws.all().contains(w) {
        let i = choose|i: int| 0 <= i < ws.all().len() && ws.all()[i] == w;
        if i < ws.tiled.len() {
            assert(ws.tiled[i] == w);
        } else {
            assert(ws.floating[i - ws.tiled.len()] == w);
        }
    }
}

proof fn lemma_listed_spaces(s: World, m: int, n: int, w: Window, p: Seq<char>)
    requires
        n <= s.wm.monitors[m].workspaces.len(),
    ensures
        s.listed_spaces(m, n).contains((w, p)) <==> s.desk.valid(w) && exists|i: int|
            0 <= i < n && #[trigger] s.wm.ws(m, i).holds(w) && p == place_text(
                s.wm.cfg.names,
                s.wm.monitors.len() > 1,
                m,
                i,
            ),
    decreases n,
{
    if n > 0 {
        lemma_listed_spaces(s, m, n - 1, w, p);
        let ws = s.wm.ws(m, n - 1);
        let place = place_text(s.wm.cfg.names, s.wm.monitors.len() > 1, m, n - 1);
        lemma_held(ws, w);
        lemma_listed(ws.all(), place, s.desk, w, p);
        lemma_added(s.listed_spaces(m, n - 1), listed(ws.all(), place, s.desk), (w, p));
        if ws.holds(w) && p == place {
            assert(s.wm.ws(m, n - 1).holds(w));
        }
    }
}

/// Some workspace of the first `n` monitors holds `w`, and is told as `p`.
pub open spec fn told_at(s: World, n: int, w: Window, p: Seq<char>) -> bool {
    exists|m: int, i: int|
        0 <= m < n && 0 <= i < s.wm.monitors[m].workspaces.len() && #[trigger] s.wm.ws(m, i).holds(
            w,
        ) && p == place_text(s.wm.cfg.names, s.wm.monitors.len() > 1, m, i)
}

proof fn lemma_listed_monitors(s: World, n: int, w: Window, p: Seq<char>)
    requires
        n <= s.wm.monitors.len(),
    ensures
        s.listed_monitors(n).contains((w, p)) <==> s.desk.valid(w) && told_at(s, n, w, p),
    decreases n,
{
    if n > 0 {
        lemma_listed_monitors(s, n - 1, w, p);
        let k = s.wm.monitors[n - 1].workspaces.len() as int;
        lemma_listed_spaces(s, n - 1, k, w, p);
        lemma_added(s.listed_monitors(n - 1), s.listed_spaces(n - 1, k), (w, p));
        if told_at(s, n, w, p) {
            let (m, i) = choose|m: int, i: int|
                0 <= m < n && 0 <= i < s.wm.monitors[m].workspaces.len() && #[trigger] s.wm.ws(
                    m,
                    i,
                ).holds(w) && p == place_text(s.wm.cfg.names, s.wm.monitors.len() > 1, m, i);
            assert(s.wm.ws(m, i).holds(w));
            if m < n - 1 {
                assert(told_at(s, n - 1, w, p));
            }
        }
        if told_at(s, n - 1, w, p) {
            let (m, i) = choose|m: int, i: int|
                0 <= m < n - 1 && 0 <= i < s.wm.monitors[m].workspaces.len() && #[trigger] s.wm.ws(
                    m,
                    i,
                ).holds(w) && p == place_text(s.wm.cfg.names, s.wm.monitors.len() > 1, m, i);
            assert(s.wm.ws(m, i).holds(w));
        }
        if exists|i: int|
            0 <= i < k && #[trigger] s.wm.ws(n - 1, i).holds(w) && p == place_text(
                s.wm.cfg.names,
                s.wm.monitors.len() > 1,
                n - 1,
                i,
            ) {
            let i = choose|i: int|
                0 <= i < k && #[trigger] s.wm.ws(n - 1, i).holds(w) && p == place_text(
                    s.wm.cfg.names,
                    s.wm.monitors.len() > 1,
                    n - 1,
                    i,
                );
            assert(s.wm.ws(n - 1, i).holds(w));
        }
    }
}

/// The switcher lists exactly the windows that exist: those of every workspace
/// of every monitor, each with its place, and those of the scratchpad.
pub proof fn law_switcher_lists_every_window(s: World, w: Window, p: Seq<char>)
    ensures
        s.window_list().contains((w, p)) <==> s.desk.valid(w) && (told_at(
            s,
            s.wm.monitors.len() as int,
            w,
            p,
        ) || (s.wm.scratch.contains(w) && p == "scratchpad"@)),
{
    let n = s.wm.monitors.len() as int;
    lemma_listed_monitors(s, n, w, p);
    lemma_listed(s.wm.scratch, "scratchpad"@, s.desk, w, p);
    lemma_added(s.listed_monitors(n), listed(s.wm.scratch, "scratchpad"@, s.desk), (w, p));
}

// ----------------------------------------------------------------- overview

/// In the overview the tiled windows have their slots and the floating ones
/// their frames.
pub proof fn law_overview_shows_slots(ws: WsView, area: Rect, gap: int, d: DeskView, i: int)
    ensures
        ({
            let v = miniature(ws, area, gap, d);
            &&& v.len() == ws.tiled.len() + ws.floating.len()
            &&& 0 <= i < ws.tiled.len() && !ws.monocle ==> v[i] == (
                ws.tiled[i],
                slots(area, ws.tiled.len(), ws.ratios, gap)[i],
            )
            &&& 0 <= i < ws.floating.len() ==> v[ws.tiled.len() + i] == (
                ws.floating[i],
                d.frame_of(ws.floating[i]),
            )
        }),
{
}

/// Of a monocle each window peeks out under the one before, by sixteen pixels
/// on every side.
pub proof fn law_stacked_windows_peek_out(ws: WsView, area: Rect, gap: int, d: DeskView, i: int)
    requires
        ws.monocle,
        0 <= i < ws.tiled.len() - 1,
        i < 1000,
        -0x1_0000 < area.x < 0x1_0000,
        -0x1_0000 < area.y < 0x1_0000,
        area.w - 32 * (i + 1) >= 60,
        area.h - 32 * (i + 1) >= 60,
    ensures
        ({
            let v = miniature(ws, area, gap, d);
            &&& v[0] == (ws.tiled[0], area)
            &&& v[i + 1].0 == ws.tiled[i + 1]
            &&& v[i + 1].1.x == v[i].1.x + 16
            &&& v[i + 1].1.y == v[i].1.y + 16
            &&& v[i + 1].1.w == v[i].1.w - 32
            &&& v[i + 1].1.h == v[i].1.h - 32
        }),
{
}

// ---------------------------------------------------------------------- bar

/// A cell of the bar has the first windows of its workspace that exist, up to
/// the number that is asked for.
pub proof fn law_cells_have_the_first_windows(list: Seq<Window>, d: DeskView, n: nat, w: Window)
    ensures
        first_living(list, d, n).len() <= n,
        first_living(list, d, n).contains(w) ==> list.contains(w) && d.valid(w),
        list.contains(w) && d.valid(w) && first_living(list, d, n).len() < n ==> first_living(
            list,
            d,
            n,
        ).contains(w),
    decreases list.len(),
{
    if list.len() > 0 {
        let front = list.drop_last();
        let x = list.last();
        law_cells_have_the_first_windows(front, d, n, w);
        let a = first_living(front, d, n);
        let b = first_living(list, d, n);
        if b.contains(w) {
            let k = choose|k: int| 0 <= k < b.len() && b[k] == w;
            if k < a.len() {
                assert(a[k] == w);
                let j = choose|j: int| 0 <= j < front.len() && front[j] == w;
                assert(list[j] == w);
            } else {
                assert(list[list.len() - 1] == w);
            }
        }
        if list.contains(w) && d.valid(w) && b.len() < n {
            let j = choose|j: int| 0 <= j < list.len() && list[j] == w;
            if j < front.len() {
                assert(front[j] == w);
                let k = choose|k: int| 0 <= k < a.len() && a[k] == w;
                assert(b[k] == w);
            } else {
                assert(b[b.len() - 1] == w);
            }
        }
    }
}

/// The bar shows the title of the focused window if that is managed.
pub proof fn law_bar_shows_the_focused_title(s: World)
    ensures
        s.desk.foreground matches Some(f) ==> (s.wm.is_managed(f) ==> s.bar_title()
            == s.desk.title_of(f)),
        (s.desk.foreground matches Some(f) ==> !s.wm.is_managed(f)) ==> s.bar_title().len() == 0,
{
}

} // verus!
