//! What a retile does: dead windows leave, new splits get the configured
//! ratio, and every window goes to its slot.

use super::arrival_laws::lemma_living_contains;
use super::desktop::{Action, DeskView};
use super::state::World;
use super::tiling::{raises, stacked};
use crate::layout::{slots, Rect};
use crate::window::Window;
use vstd::prelude::*;

verus! {

/// A retile gives every split that had no ratio yet the configured one, and
/// leaves those that there were.
pub proof fn law_new_splits_get_the_configured_ratio(s: World, mi: int)
    requires
        s.wm.wf(),
        !s.wm.paused,
        0 <= mi < s.wm.monitors.len(),
        !s.wm.shown_ws(mi).monocle,
    ensures
        ({
            let a = s.wm.shown_ws(mi);
            let b = s.retiled(mi).wm.shown_ws(mi);
            &&& b.ratios.len() >= b.tiled.len() - 1
            &&& b.ratios.len() >= a.ratios.len()
            &&& forall|i: int|
                a.ratios.len() <= i < b.ratios.len() ==> #[trigger] b.ratios[i]
                    == s.wm.cfg.split_ratio
            &&& forall|i: int|
                a.ratios.len() <= i <= b.tiled.len() - 2 ==> #[trigger] b.ratios[i]
                    == s.wm.cfg.split_ratio
            &&& forall|i: int| 0 <= i < a.ratios.len() ==> #[trigger] b.ratios[i] == a.ratios[i]
        }),
{
}

/// A retile adds no ratio beyond those that the tiled windows need.
pub proof fn law_ratios_grow_as_needed(s: World, mi: int)
    requires
        s.wm.wf(),
        !s.wm.paused,
        0 <= mi < s.wm.monitors.len(),
    ensures
        ({
            let a = s.wm.shown_ws(mi);
            let b = s.retiled(mi).wm.shown_ws(mi);
            &&& b.ratios.len() == a.ratios.len() || b.ratios.len() == b.tiled.len() - 1
            &&& a.monocle ==> b.ratios == a.ratios
            &&& b.monocle == a.monocle
        }),
{
}

/// Exactly the windows that exist remain, tiled or floating as they were, and
/// a window that is gone does not stay fullscreen. No other workspace is
/// touched.
pub proof fn law_only_existing_windows_stay(s: World, mi: int, w: Window, m: int, i: int)
    requires
        s.wm.wf(),
        !s.wm.paused,
        0 <= mi < s.wm.monitors.len(),
        s.wm.has(m, i),
    ensures
        ({
            let a = s.wm.shown_ws(mi);
            let b = s.retiled(mi).wm.shown_ws(mi);
            &&& b.tiled.contains(w) <==> a.tiled.contains(w) && s.desk.valid(w)
            &&& b.floating.contains(w) <==> a.floating.contains(w) && s.desk.valid(w)
            &&& b.fullscreen == Some(w) <==> a.fullscreen == Some(w) && a.holds(w) && s.desk.valid(
                w,
            )
        }),
        m != mi || i != s.wm.monitors[mi].active ==> s.retiled(mi).wm.ws(m, i) == s.wm.ws(m, i),
{
    let a = s.wm.shown_ws(mi);
    lemma_living_contains(a.tiled, s.desk, w);
    lemma_living_contains(a.floating, s.desk, w);
}

/// The area that the windows of a monitor share lies inside its work area, the
/// outer gap away from every edge. A window that is alone, neither fullscreen
/// nor beside a floating one, has the whole work area where gaps are smart.
pub open spec fn shared_area(s: World, mi: int, area: Rect) -> bool {
    let ws = s.retiled(mi).wm.shown_ws(mi);
    let wa = s.wm.monitors[mi].work_area;
    let alone = ws.tiled.len() == 1 && ws.floating.len() == 0 && ws.fullscreen is None;
    let g = s.wm.cfg.outer_gap;
    if s.wm.cfg.smart_gaps && alone {
        area == wa
    } else {
        &&& area.x == wa.x + g
        &&& area.y == wa.y + g
        &&& area.w == wa.w - 2 * g >= 1
        &&& area.h == wa.h - 2 * g >= 1
    }
}

/// A retile sends tiled window `i` to slot `i` of the shared area, cut by the
/// ratios of the workspace with the inner gap between, in the configured time.
pub proof fn law_windows_go_to_their_slots(s: World, mi: int, i: int, area: Rect)
    requires
        s.wm.wf(),
        !s.wm.paused,
        0 <= mi < s.wm.monitors.len(),
        !s.wm.shown_ws(mi).monocle,
        shared_area(s, mi, area),
        0 <= i < s.retiled(mi).wm.shown_ws(mi).tiled.len(),
    ensures
        ({
            let t = s.retiled(mi);
            let ws = t.wm.shown_ws(mi);
            let n = s.desk.actions.len() as int;
            &&& t.desk.actions.len() > n + i
            &&& t.desk.actions[n + i] == Action::Glide(
                ws.tiled[i],
                slots(area, ws.tiled.len(), ws.ratios, s.wm.cfg.inner_gap as int)[i],
                s.wm.cfg.animation_ms,
            )
        }),
{
    let ws = s.wm.shown_ws(mi).settled(s.wm.cfg, s.desk);
    assert(s.retiled(mi).wm.shown_ws(mi) == ws);
    assert(ws.area(s.wm.monitors[mi].work_area, s.wm.cfg) == area);
}

proof fn lemma_stacked(list: Seq<Window>, area: Rect, ms: u32, d: DeskView, w: Window)
    ensures
        stacked(list, area, ms, d).contains(Action::Glide(w, area, ms)) <==> list.contains(w)
            && !d.minimized(w),
        forall|a: Action|
            stacked(list, area, ms, d).contains(a) ==> #[trigger] moves_to(a, area, ms),
    decreases list.len(),
{
    if list.len() > 0 {
        let front = list.drop_last();
        lemma_stacked(front, area, ms, d, w);
        let a = stacked(front, area, ms, d);
        let b = stacked(list, area, ms, d);
        let g = Action::Glide(w, area, ms);
        if list.contains(w) && !d.minimized(w) {
            let i = choose|i: int| 0 <= i < list.len() && list[i] == w;
            if i < front.len() {
                assert(front[i] == w);
                let k = choose|k: int| 0 <= k < a.len() && a[k] == g;
                assert(b[k] == g);
            } else {
                assert(b[b.len() - 1] == g);
            }
        }
        assert forall|x: Action| b.contains(x) implies #[trigger] moves_to(x, area, ms) && (a.contains(x)
            || x == Action::Glide(list.last(), area, ms)) by {
            let k = choose|k: int| 0 <= k < b.len() && b[k] == x;
            if k < a.len() {
                assert(a[k] == x);
            }
        }
        if b.contains(g) {
            assert(moves_to(g, area, ms));
            if a.contains(g) {
                let i = choose|i: int| 0 <= i < front.len() && front[i] == w;
                assert(list[i] == w);
            } else {
                assert(!d.minimized(list.last()));
                assert(list[list.len() - 1] == w);
            }
        }
    }
}

/// A move to that place, in that time.
pub open spec fn moves_to(a: Action, place: Rect, ms: u32) -> bool {
    a matches Action::Glide(_, r, t) && r == place && t == ms
}

/// In monocle every tiled window that is not minimized gets the whole shared
/// area, and no other window is moved there.
pub proof fn law_monocle_stacks_windows(s: World, mi: int, w: Window, area: Rect)
    requires
        s.wm.wf(),
        !s.wm.paused,
        0 <= mi < s.wm.monitors.len(),
        s.wm.shown_ws(mi).monocle,
        s.wm.shown_ws(mi).fullscreen is None,
        shared_area(s, mi, area),
        !s.desk.actions.contains(Action::Glide(w, area, s.wm.cfg.animation_ms)),
    ensures
        s.retiled(mi).desk.actions.contains(Action::Glide(w, area, s.wm.cfg.animation_ms))
            <==> s.retiled(mi).wm.shown_ws(mi).tiled.contains(w) && !s.desk.minimized(w),
{
    let ws = s.wm.shown_ws(mi).settled(s.wm.cfg, s.desk);
    let ms = s.wm.cfg.animation_ms;
    let t = s.retiled(mi);
    let g = Action::Glide(w, area, ms);
    assert(t.wm.shown_ws(mi) == ws);
    assert(ws.area(s.wm.monitors[mi].work_area, s.wm.cfg) == area);
    lemma_stacked(ws.tiled, area, ms, s.desk, w);
    let tiles = stacked(ws.tiled, area, ms, s.desk);
    let mid = s.desk.act_all(tiles);
    let rest = raises(ws.floating, mid);
    assert(t.desk.actions == s.desk.actions + tiles + rest);
    lemma_raises(ws.floating, mid, w);
    if tiles.contains(g) {
        let k = choose|k: int| 0 <= k < tiles.len() && tiles[k] == g;
        assert(t.desk.actions[s.desk.actions.len() + k] == g);
    }
    if t.desk.actions.contains(g) {
        let k = choose|k: int| 0 <= k < t.desk.actions.len() && t.desk.actions[k] == g;
        let n = s.desk.actions.len();
        if k < n {
            assert(s.desk.actions[k] == g);
        } else if k < n + tiles.len() {
            assert(tiles[k - n] == g);
        } else {
            assert(rest[k - n - tiles.len()] == g);
            assert(rest.contains(g));
        }
    }
}

proof fn lemma_raises(list: Seq<Window>, d: DeskView, w: Window)
    ensures
        raises(list, d).contains(Action::Raise(w)) <==> list.contains(w) && d.visible(w)
            && !d.minimized(w),
        forall|a: Action| #[trigger] raises(list, d).contains(a) ==> a is Raise,
    decreases list.len(),
{
    if list.len() > 0 {
        let front = list.drop_last();
        lemma_raises(front, d, w);
        let a = raises(front, d);
        let b = raises(list, d);
        let g = Action::Raise(w);
        if list.contains(w) && d.visible(w) && !d.minimized(w) {
            let i = choose|i: int| 0 <= i < list.len() && list[i] == w;
            if i < front.len() {
                assert(front[i] == w);
                let k = choose|k: int| 0 <= k < a.len() && a[k] == g;
                assert(b[k] == g);
            } else {
                assert(b[b.len() - 1] == g);
            }
        }
        assert forall|x: Action| #[trigger] b.contains(x) implies x is Raise && (a.contains(x)
            || x == Action::Raise(list.last())) by {
            let k = choose|k: int| 0 <= k < b.len() && b[k] == x;
            if k < a.len() {
                assert(a[k] == x);
                assert(raises(front, d).contains(x));
            }
        }
        if b.contains(g) {
            if a.contains(g) {
                let i = choose|i: int| 0 <= i < front.len() && front[i] == w;
                assert(list[i] == w);
            } else {
                assert(list[list.len() - 1] == w);
            }
        }
    }
}

/// A fullscreen window that exists gets the bounds of its monitor, after all
/// tiles were moved.
pub proof fn law_fullscreen_covers_the_monitor(s: World, mi: int, w: Window)
    requires
        s.wm.wf(),
        !s.wm.paused,
        0 <= mi < s.wm.monitors.len(),
        !s.wm.shown_ws(mi).monocle,
        s.wm.shown_ws(mi).fullscreen == Some(w),
        s.wm.shown_ws(mi).holds(w),
        s.desk.valid(w),
    ensures
        ({
            let t = s.retiled(mi);
            let k = s.desk.actions.len() + t.wm.shown_ws(mi).tiled.len();
            &&& k < t.desk.actions.len()
            &&& t.desk.actions[k as int] == Action::Glide(
                w,
                s.wm.monitors[mi].bounds,
                s.wm.cfg.animation_ms,
            )
        }),
{
    law_only_existing_windows_stay(s, mi, w, mi, s.wm.monitors[mi].active as int);
}

/// Floating windows that exist, are on screen and not minimized are raised
/// above the tiles.
pub proof fn law_floating_windows_are_raised(s: World, mi: int, w: Window)
    requires
        s.wm.wf(),
        !s.wm.paused,
        0 <= mi < s.wm.monitors.len(),
        s.wm.shown_ws(mi).floating.contains(w),
        s.desk.valid(w),
        s.desk.visible(w),
        !s.desk.minimized(w),
    ensures
        s.retiled(mi).desk.actions.contains(Action::Raise(w)),
{
    let t = s.retiled(mi);
    law_only_existing_windows_stay(s, mi, w, mi, s.wm.monitors[mi].active as int);
    let ws = s.wm.shown_ws(mi).settled(s.wm.cfg, s.desk);
    assert(t.wm.shown_ws(mi) == ws);
    let mid = s.desk.act_all(
        super::tiling::moves(ws, s.wm.monitors[mi], s.wm.cfg, s.desk),
    );
    let rest = raises(ws.floating, mid);
    lemma_raises(ws.floating, mid, w);
    assert(mid.visible(w) && !mid.minimized(w));
    let k = choose|k: int| 0 <= k < rest.len() && rest[k] == Action::Raise(w);
    assert(t.desk.actions == mid.actions + rest);
    assert(t.desk.actions[mid.actions.len() + k] == Action::Raise(w));
}

/// Nothing is moved, and no workspace changed, while tiling is paused.
pub proof fn law_pause_stops_tiling(s: World, mi: int)
    requires
        s.wm.paused,
    ensures
        s.retiled(mi) == s,
        s.borders_painted() == s,
{
}

} // verus!
