//! Directions: what lies to which side, which of several is the nearest, and
//! where focus and windows go.

use super::arrival_laws::{law_pushed_window_arrives, lemma_all_contains, lemma_living_all};
use super::commands::{center, dir_score, lowest};
use super::state::{lemma_found, WmView, World};
use super::{Command, Dir};
use crate::layout::Rect;
use crate::lists::{lemma_place, place};
use crate::monitor::MonitorInfo;
use crate::window::Window;
use vstd::prelude::*;

verus! {

/// The direction back.
pub open spec fn back(dir: Dir) -> Dir {
    match dir {
        Dir::Left => Dir::Right,
        Dir::Right => Dir::Left,
        Dir::Up => Dir::Down,
        Dir::Down => Dir::Up,
    }
}

/// The center of `b` lies strictly to that side of the center of `a`: smaller
/// coordinates are to the left and up.
pub open spec fn lies(a: Rect, b: Rect, dir: Dir) -> bool {
    match dir {
        Dir::Left => center(b).0 < center(a).0,
        Dir::Right => center(b).0 > center(a).0,
        Dir::Up => center(b).1 < center(a).1,
        Dir::Down => center(b).1 > center(a).1,
    }
}

/// The center of a rectangle lies halfway between its edges, up to half a
/// pixel.
pub proof fn law_center_is_halfway(r: Rect)
    requires
        r.w >= 0,
        r.h >= 0,
    ensures
        0 <= (r.x + r.w - center(r).0) - (center(r).0 - r.x) <= 1,
        0 <= (r.y + r.h - center(r).1) - (center(r).1 - r.y) <= 1,
{
}

/// There is a score exactly for what lies strictly to that side.
pub proof fn law_score_needs_that_side(a: Rect, b: Rect, dir: Dir)
    ensures
        dir_score(a, b, dir) is Some <==> lies(a, b, dir),
        dir_score(a, b, dir) matches Some(n) ==> n > 0,
{
}

/// The way there scores as the way back.
pub proof fn law_score_mirrors(a: Rect, b: Rect, dir: Dir)
    ensures
        dir_score(a, b, dir) == dir_score(b, a, back(dir)),
        dir_score(a, b, Dir::Up) == dir_score(b, a, Dir::Down),
        dir_score(a, b, Dir::Left) == dir_score(b, a, Dir::Right),
{
}

/// A pixel further ahead counts one, and a pixel further aside counts three:
/// the score is the distance of the centers ahead and three times that
/// across.
pub proof fn law_score_counts_aside_thrice(a: Rect, b: Rect, dir: Dir)
    requires
        lies(a, b, dir),
    ensures
        ({
            let dx = center(b).0 - center(a).0;
            let dy = center(b).1 - center(a).1;
            let n = dir_score(a, b, dir)->0;
            match dir {
                Dir::Left => n == -dx + 3 * dy || n == -dx - 3 * dy,
                Dir::Right => n == dx + 3 * dy || n == dx - 3 * dy,
                Dir::Up => n == -dy + 3 * dx || n == -dy - 3 * dx,
                Dir::Down => n == dy + 3 * dx || n == dy - 3 * dx,
            }
        }),
        ({
            let dx = center(b).0 - center(a).0;
            let dy = center(b).1 - center(a).1;
            let n = dir_score(a, b, dir)->0;
            match dir {
                Dir::Left => n >= -dx,
                Dir::Right => n >= dx,
                Dir::Up => n >= -dy,
                Dir::Down => n >= dy,
            }
        }),
{
}

/// The lowest score wins, the first of equal ones; without scores there is
/// none.
pub proof fn law_lowest_is_least(scores: Seq<Option<int>>)
    ensures
        lowest(scores) is None <==> (forall|i: int|
            0 <= i < scores.len() ==> (#[trigger] scores[i]) is None),
        lowest(scores) matches Some(k) ==> {
            &&& 0 <= k < scores.len()
            &&& scores[k] is Some
            &&& forall|i: int|
                0 <= i < scores.len() && (#[trigger] scores[i]) is Some ==> scores[k]->0
                    <= scores[i]->0
            &&& forall|i: int|
                0 <= i < k && (#[trigger] scores[i]) is Some ==> scores[k]->0 < scores[i]->0
        },
    decreases scores.len(),
{
    if scores.len() > 0 {
        let front = scores.drop_last();
        law_lowest_is_least(front);
        assert forall|i: int| 0 <= i < front.len() implies front[i] == #[trigger] scores[i] by {}
        if lowest(scores) is None {
            assert forall|i: int| 0 <= i < scores.len() implies (#[trigger] scores[i]) is None by {
                if i < front.len() {
                    assert(front[i] is None);
                }
            }
        } else {
            let k = lowest(scores)->0;
            assert(scores[k] is Some);
            assert forall|i: int| 0 <= i < scores.len() && (#[trigger] scores[i]) is Some implies scores[k]->0
                <= scores[i]->0 by {
                if i < front.len() {
                    assert(front[i] is Some);
                }
            }
            assert forall|i: int| 0 <= i < k && (#[trigger] scores[i]) is Some implies scores[k]->0
                < scores[i]->0 by {
                assert(front[i] is Some);
            }
        }
    }
}

// -------------------------------------------------------------------- focus

/// Some monitor shows the workspace of `w`.
pub open spec fn on_display(v: WmView, w: Window) -> bool {
    exists|m: int| 0 <= m < v.monitors.len() && #[trigger] v.shown_ws(m).holds(w)
}

/// A window on display, other than `f`, that lies to that side of it.
pub open spec fn seen_towards(s: World, f: Window, w: Window, dir: Dir) -> bool {
    w != f && on_display(s.wm, w) && lies(s.desk.rect_of(f), s.desk.rect_of(w), dir)
}

proof fn lemma_shown_up_to(v: WmView, n: int, w: Window)
    requires
        n <= v.monitors.len(),
    ensures
        v.shown_up_to(n).contains(w) <==> exists|m: int|
            0 <= m < n && #[trigger] v.shown_ws(m).holds(w),
    decreases n,
{
    if n > 0 {
        lemma_shown_up_to(v, n - 1, w);
        let a = v.shown_up_to(n - 1);
        let ws = v.shown_ws(n - 1);
        let b = ws.all();
        lemma_all_contains(ws, w);
        if b.contains(w) {
            let i = choose|i: int| 0 <= i < b.len() && b[i] == w;
            assert((a + b)[a.len() + i] == w);
            if i < ws.tiled.len() {
                assert(ws.tiled[i] == w);
            } else {
                assert(ws.floating[i - ws.tiled.len()] == w);
            }
            assert(ws.holds(w));
        }
        if a.contains(w) {
            let i = choose|i: int| 0 <= i < a.len() && a[i] == w;
            assert((a + b)[i] == w);
            let m = choose|m: int| 0 <= m < n - 1 && #[trigger] v.shown_ws(m).holds(w);
            assert(v.shown_ws(m).holds(w));
        }
        if (a + b).contains(w) {
            let i = choose|i: int| 0 <= i < (a + b).len() && (a + b)[i] == w;
            if i < a.len() {
                assert(a[i] == w);
            } else {
                assert(b[i - a.len()] == w);
            }
        }
    }
}

/// Focus goes from a managed window to the nearest window on display to that
/// side: whatever else lies there scores no lower. With nothing there nothing
/// changes.
pub proof fn law_focus_goes_to_the_nearest(
    s: World,
    dir: Dir,
    fresh: Seq<MonitorInfo>,
    f: Window,
    w: Window,
)
    requires
        !s.wm.paused,
        s.desk.foreground == Some(f),
        s.wm.is_managed(f),
    ensures
        ({
            let t = s.commanded(Command::FocusDir(dir), fresh);
            &&& seen_towards(s, f, w, dir) ==> {
                &&& t.desk.foreground is Some
                &&& seen_towards(s, f, t.desk.foreground->0, dir)
                &&& dir_score(s.desk.rect_of(f), s.desk.rect_of(t.desk.foreground->0), dir)->0
                    <= dir_score(s.desk.rect_of(f), s.desk.rect_of(w), dir)->0
            }
            &&& t.wm == s.wm
            &&& (forall|x: Window| !seen_towards(s, f, x, dir)) ==> t == s
        }),
{
    let n = s.wm.monitors.len() as int;
    let list = s.wm.shown_up_to(n);
    let scores = s.scores(f, list, dir);
    law_lowest_is_least(scores);
    lemma_shown_up_to(s.wm, n, w);
    if seen_towards(s, f, w, dir) {
        let i = choose|i: int| 0 <= i < list.len() && list[i] == w;
        assert(scores[i] is Some);
    }
    if let Some(k) = lowest(scores) {
        assert(list.contains(list[k]));
        lemma_shown_up_to(s.wm, n, list[k]);
        assert(seen_towards(s, f, list[k], dir));
    }
}

/// Where no managed window has the focus, a direction brings it to the first
/// window that the monitor of the cursor shows.
pub proof fn law_focus_comes_to_the_first(s: World, dir: Dir, fresh: Seq<MonitorInfo>)
    requires
        !s.wm.paused,
        s.desk.foreground matches Some(f) ==> !s.wm.is_managed(f),
    ensures
        ({
            let t = s.commanded(Command::FocusDir(dir), fresh);
            let ws = s.wm.shown_ws(s.wm.index_of(s.desk.cursor_monitor));
            &&& ws.tiled.len() > 0 ==> t.desk.foreground == Some(ws.tiled[0])
            &&& ws.tiled.len() == 0 && ws.floating.len() > 0 ==> t.desk.foreground == Some(
                ws.floating[0],
            )
            &&& ws.tiled.len() == 0 && ws.floating.len() == 0 ==> t == s
            &&& t.wm == s.wm
        }),
{
}

// ----------------------------------------------------------------- exchange

/// The focused tiled window changes places with the nearest tiled window to
/// that side. All others stay in place.
pub proof fn law_exchange_is_with_the_nearest(
    s: World,
    dir: Dir,
    fresh: Seq<MonitorInfo>,
    f: Window,
    mi: int,
    wi: int,
    src: int,
    other: int,
) -> (dst: int)
    requires
        s.wm.wf(),
        !s.wm.paused,
        s.focused_window() == Some((f, mi, wi)),
        place(s.wm.ws(mi, wi).tiled, f) == Some(src),
        0 <= other < s.wm.ws(mi, wi).tiled.len(),
        s.wm.ws(mi, wi).tiled[other] != f,
        lies(s.desk.rect_of(f), s.desk.rect_of(s.wm.ws(mi, wi).tiled[other]), dir),
        forall|i: int|
            0 <= i < s.wm.ws(mi, wi).tiled.len() ==> s.desk.valid(
                #[trigger] s.wm.ws(mi, wi).tiled[i],
            ),
    ensures
        ({
            let a = s.wm.ws(mi, wi).tiled;
            let b = s.commanded(Command::SwapDir(dir), fresh).wm.ws(mi, wi).tiled;
            &&& 0 <= dst < a.len()
            &&& a[dst] != f
            &&& lies(s.desk.rect_of(f), s.desk.rect_of(a[dst]), dir)
            &&& dir_score(s.desk.rect_of(f), s.desk.rect_of(a[dst]), dir)->0 <= dir_score(
                s.desk.rect_of(f),
                s.desk.rect_of(a[other]),
                dir,
            )->0
            &&& b.len() == a.len()
            &&& b[dst] == f
            &&& b[src] == a[dst]
            &&& forall|i: int| 0 <= i < a.len() && i != src && i != dst ==> #[trigger] b[i] == a[i]
        }),
{
    lemma_found(s);
    let a = s.wm.ws(mi, wi).tiled;
    lemma_place(a, f);
    let scores = s.scores(f, a, dir);
    law_lowest_is_least(scores);
    assert(scores[other] is Some);
    let dst = lowest(scores)->0;
    let b = crate::lists::swapped(a, src, dst);
    assert forall|i: int| 0 <= i < b.len() implies s.desk.valid(#[trigger] b[i]) by {
        assert(s.desk.valid(a[i]));
        assert(s.desk.valid(a[src]));
        assert(s.desk.valid(a[dst]));
    }
    lemma_living_all(b, s.desk);
    dst
}

/// With no tiled window to that side, the focused window goes to the nearest
/// monitor there, to the workspace that it shows, and keeps the focus.
pub proof fn law_exchange_crosses_monitors(
    s: World,
    dir: Dir,
    fresh: Seq<MonitorInfo>,
    f: Window,
    mi: int,
    wi: int,
    other: int,
) -> (tmi: int)
    requires
        s.wm.wf(),
        !s.wm.paused,
        s.desk.valid(f),
        s.focused_window() == Some((f, mi, wi)),
        forall|i: int|
            0 <= i < s.wm.ws(mi, wi).tiled.len() ==> #[trigger] s.wm.ws(mi, wi).tiled[i] == f
                || !lies(s.desk.rect_of(f), s.desk.rect_of(s.wm.ws(mi, wi).tiled[i]), dir),
        0 <= other < s.wm.monitors.len(),
        other != mi,
        lies(s.wm.monitors[mi].work_area, s.wm.monitors[other].work_area, dir),
    ensures
        ({
            let t = s.commanded(Command::SwapDir(dir), fresh);
            let ms = s.wm.monitors;
            &&& 0 <= tmi < ms.len()
            &&& tmi != mi
            &&& lies(ms[mi].work_area, ms[tmi].work_area, dir)
            &&& dir_score(ms[mi].work_area, ms[tmi].work_area, dir)->0 <= dir_score(
                ms[mi].work_area,
                ms[other].work_area,
                dir,
            )->0
            &&& t.wm.shown_ws(tmi).holds(f)
            &&& t.desk.foreground == Some(f)
        }),
{
    lemma_found(s);
    let a = s.wm.ws(mi, wi).tiled;
    lemma_place(a, f);
    let scores = s.scores(f, a, dir);
    law_lowest_is_least(scores);
    assert forall|i: int| 0 <= i < scores.len() implies (#[trigger] scores[i]) is None by {
        assert(a[i] == f || !lies(s.desk.rect_of(f), s.desk.rect_of(a[i]), dir));
    }
    let mons = s.wm.monitor_scores(mi, dir);
    law_lowest_is_least(mons);
    assert(mons[other] is Some);
    let tmi = lowest(mons)->0;
    law_pushed_window_arrives(s, f, mi, wi, tmi);
    tmi
}

/// With neither a tiled window nor a monitor to that side nothing changes.
pub proof fn law_exchange_needs_a_partner(
    s: World,
    dir: Dir,
    fresh: Seq<MonitorInfo>,
    f: Window,
    mi: int,
    wi: int,
)
    requires
        s.focused_window() == Some((f, mi, wi)),
        forall|i: int|
            0 <= i < s.wm.ws(mi, wi).tiled.len() ==> #[trigger] s.wm.ws(mi, wi).tiled[i] == f
                || !lies(s.desk.rect_of(f), s.desk.rect_of(s.wm.ws(mi, wi).tiled[i]), dir),
        forall|k: int|
            0 <= k < s.wm.monitors.len() && k != mi ==> !lies(
                s.wm.monitors[mi].work_area,
                (#[trigger] s.wm.monitors[k]).work_area,
                dir,
            ),
    ensures
        s.commanded(Command::SwapDir(dir), fresh) == s,
{
    let a = s.wm.ws(mi, wi).tiled;
    let scores = s.scores(f, a, dir);
    law_lowest_is_least(scores);
    assert forall|i: int| 0 <= i < scores.len() implies (#[trigger] scores[i]) is None by {
        assert(a[i] == f || !lies(s.desk.rect_of(f), s.desk.rect_of(a[i]), dir));
    }
    let mons = s.wm.monitor_scores(mi, dir);
    law_lowest_is_least(mons);
    assert forall|k: int| 0 <= k < mons.len() implies (#[trigger] mons[k]) is None by {
        assert(k == mi || !lies(s.wm.monitors[mi].work_area, s.wm.monitors[k].work_area, dir));
    }
}

} // verus!
