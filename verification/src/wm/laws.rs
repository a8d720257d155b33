//! What holds of every step: no window is lost, none is listed twice, and
//! what one step does another one undoes.

use super::census::{
    as_valid, census, count, lemma_acts_valid, lemma_census_at, lemma_census_managed,
    lemma_census_set_ws, lemma_count_contains, lemma_count_insert, lemma_count_living,
    lemma_count_push, lemma_count_remove, lemma_count_swapped, lemma_count_without,
    lemma_lists_same, lemma_loses_then, lemma_mons_update, lemma_retiled_all_safe,
    lemma_retiled_safe, lemma_safe_then, lemma_same_safe, lemma_same_ws, loses_none, mons_count, one, safe,
    same_census, unique, ws_count,
};
use super::desktop::{Action, DeskView};
use super::display_laws::law_refresh_loses_no_window;
use super::displays::lemma_refreshed;
use super::hiding::{disowned, lemma_hiding_keeps, owned_by};
use super::records::{kept, unkept};
use super::spaces::lemma_hide_all_keeps;
use super::state::{handle_from, lemma_found, MonView, WmView, World, WsView};
use super::tiling::living;
use super::{Command, Dir, WmEvent};
use crate::layout::Rect;
use crate::lists::{including, lemma_place, lemma_without, place, swapped, without};
use crate::monitor::MonitorInfo;
use crate::window::Window;
use vstd::prelude::*;

verus! {

// ------------------------------------------------------- hiding and showing

pub proof fn lemma_as_valid_then(a: DeskView, b: DeskView, c: DeskView)
    requires
        as_valid(a, b),
        as_valid(b, c),
    ensures
        as_valid(a, c),
{
    assert forall|w: Window| #[trigger] c.valid(w) == a.valid(w) by {
        assert(b.valid(w) == a.valid(w));
    }
}

proof fn lemma_swept_valid(s: World, w: Window, thread: u32, i: int)
    ensures
        as_valid(s.desk, s.swept(w, thread, i).desk),
    decreases s.desk.order.len() - i,
{
    lemma_acts_valid(s.desk);
    if i < s.desk.order.len() {
        let c = s.desk.order[i];
        if s.pops_up(w, thread, c) {
            let t = World { desk: s.desk.concealed(c), ..s };
            assert(as_valid(s.desk, s.desk.concealed(c)));
            lemma_swept_valid(t, w, thread, i + 1);
            lemma_as_valid_then(s.desk, t.desk, t.swept(w, thread, i + 1).desk);
        } else {
            lemma_swept_valid(s, w, thread, i + 1);
        }
    }
}

proof fn lemma_stowed_valid(s: World, list: Seq<Window>)
    ensures
        as_valid(s.desk, s.stowed_all(list).desk),
        as_valid(s.desk, s.unstowed_all(list).desk),
        as_valid(s.desk, s.released_all(list).desk),
    decreases list.len(),
{
    if list.len() > 0 {
        lemma_stowed_valid(s, list.drop_last());
        let a = s.stowed_all(list.drop_last());
        let b = s.unstowed_all(list.drop_last());
        let c = s.released_all(list.drop_last());
        lemma_acts_valid(a.desk);
        lemma_acts_valid(b.desk);
        lemma_acts_valid(c.desk);
        lemma_as_valid_then(s.desk, a.desk, a.desk.concealed(list.last()));
        lemma_as_valid_then(s.desk, b.desk, b.desk.shown(list.last()));
        lemma_as_valid_then(s.desk, c.desk, c.desk.shown(list.last()));
    }
}

/// Hiding and showing change no list.
pub proof fn lemma_hiding_same(s: World, w: Window)
    requires
        s.wm.wf(),
    ensures
        same_census(s, s.hide_managed(w)),
        same_census(s, s.show_managed(w)),
        same_census(s, s.release_companions(w)),
{
    lemma_hiding_keeps(s, w);
    lemma_acts_valid(s.desk);
    let a = World { desk: s.desk.act(Action::CancelModes(w)), ..s };
    assert(as_valid(s.desk, a.desk));
    let cs = a.attendants(a.desk.order, w);
    let b = a.swept(w, a.desk.thread_of(w), 0);
    lemma_swept_valid(a, w, a.desk.thread_of(w), 0);
    lemma_stowed_valid(b, cs);
    let c = b.stowed_all(cs).remembering(w, cs);
    assert(c.desk == b.stowed_all(cs).desk);
    lemma_acts_valid(c.desk);
    assert(as_valid(c.desk, c.desk.concealed(w)));
    lemma_as_valid_then(s.desk, a.desk, b.desk);
    lemma_as_valid_then(s.desk, b.desk, c.desk);
    lemma_as_valid_then(s.desk, c.desk, s.hide_managed(w).desk);
    let d = World {
        wm: WmView {
            hidden: without(s.wm.hidden, w),
            companions: disowned(s.wm.companions, w),
            ..s.wm
        },
        desk: s.desk.shown(w),
    };
    assert(as_valid(s.desk, d.desk));
    lemma_stowed_valid(d, owned_by(s.wm.companions, w));
    lemma_as_valid_then(s.desk, d.desk, s.show_managed(w).desk);
    let e = World {
        wm: WmView { companions: disowned(s.wm.companions, w), ..s.wm },
        ..s
    };
    lemma_stowed_valid(e, owned_by(s.wm.companions, w));
    lemma_lists_same(s, s.hide_managed(w));
    lemma_lists_same(s, s.show_managed(w));
    lemma_lists_same(s, s.release_companions(w));
}

pub proof fn lemma_same_then(s: World, t: World, u: World)
    requires
        same_census(s, t),
        same_census(t, u),
    ensures
        same_census(s, u),
{
    lemma_as_valid_then(s.desk, t.desk, u.desk);
    assert forall|w: Window| #[trigger] census(u.wm, w) == census(s.wm, w) by {
        assert(census(t.wm, w) == census(s.wm, w));
    }
}

pub proof fn lemma_hide_all_same(s: World, list: Seq<Window>)
    requires
        s.wm.wf(),
    ensures
        same_census(s, s.hide_all(list)),
        same_census(s, s.show_all(list)),
    decreases list.len(),
{
    if list.len() > 0 {
        lemma_hide_all_same(s, list.drop_last());
        let a = s.hide_all(list.drop_last());
        let b = s.show_all(list.drop_last());
        lemma_hiding_same(a, list.last());
        lemma_hiding_same(b, list.last());
        lemma_same_then(s, a, s.hide_all(list));
        lemma_same_then(s, b, s.show_all(list));
    } else {
        lemma_acts_valid(s.desk);
        lemma_lists_same(s, s);
    }
}

/// Only the desktop was acted on.
proof fn lemma_acted(s: World, t: World)
    requires
        s.wm.wf(),
        t.wm == s.wm,
        as_valid(s.desk, t.desk),
    ensures
        same_census(s, t),
{
}

pub proof fn lemma_still(s: World)
    requires
        s.wm.wf(),
    ensures
        same_census(s, s),
{
    lemma_acts_valid(s.desk);
}

proof fn lemma_act_same(s: World)
    requires
        s.wm.wf(),
    ensures
        forall|a: Action| same_census(s, #[trigger] s.act(a)),
        forall|w: Window| same_census(s, #[trigger] s.focused_on(w)),
        same_census(s, s),
{
    lemma_acts_valid(s.desk);
    assert forall|a: Action| same_census(s, #[trigger] s.act(a)) by {
        assert(as_valid(s.desk, s.desk.act(a)));
    }
    assert forall|w: Window| same_census(s, #[trigger] s.focused_on(w)) by {
        let d = s.desk.focused(w);
        assert(as_valid(s.desk, d));
        lemma_acts_valid(d);
        lemma_as_valid_then(s.desk, d, d.act(Action::PaintBorders));
    }
    lemma_still(s);
}

/// Switching to another workspace loses no window.
pub proof fn law_switch_is_safe(s: World, mi: int, target: int)
    requires
        s.wm.wf(),
        unique(s.wm),
        0 <= mi,
        0 <= target,
    ensures
        safe(s, s.switch_on(mi, target)),
{
    lemma_still(s);
    lemma_same_safe(s, s);
    if !(s.wm.paused || mi >= s.wm.monitors.len() || target >= s.wm.monitors[mi].workspaces.len()
        || target == s.wm.monitors[mi].active) {
        let list = s.wm.shown_ws(mi).all();
        lemma_hide_all_same(s, list);
        lemma_hide_all_keeps(s, list);
        let h = s.hide_all(list);
        let a = h.activated(mi, target as usize);
        assert forall|w: Window| #[trigger] census(a.wm, w) == census(h.wm, w) by {
            lemma_mons_update(
                h.wm.monitors,
                mi,
                MonView { active: target as usize, ..h.wm.monitors[mi] },
                w,
            );
        }
        lemma_acts_valid(h.desk);
        lemma_acts_valid(a.desk);
        assert(same_census(h, a)) by {
            lemma_still(h);
        }
        lemma_same_then(s, h, a);
        let into = a.wm.ws(mi, target).all();
        lemma_hide_all_same(a, into);
        let b = a.show_all(into);
        lemma_same_then(s, a, b);
        lemma_act_same(b);
        let c = b.act(Action::Journal);
        lemma_same_then(s, b, c);
        lemma_same_safe(s, c);
        lemma_retiled_safe(c, mi);
        let d = c.retiled(mi);
        lemma_safe_then(s, c, d);
        let e = d.landed(mi);
        lemma_acts_valid(d.desk);
        lemma_act_same(d);
        lemma_acted(d, e);
        lemma_same_safe(d, e);
        lemma_safe_then(s, d, e);
        lemma_act_same(e);
        lemma_same_safe(e, e.act(Action::PaintBorders));
        lemma_safe_then(s, e, e.act(Action::PaintBorders));
    }
}

// ------------------------------------------------------------------ moving

/// Putting `w` into a workspace when it is nowhere else is safe.
proof fn lemma_added(s: World, mi: int, wi: int, ws: WsView, w: Window)
    requires
        s.wm.wf(),
        unique(s.wm),
        s.wm.has(mi, wi),
        census(s.wm, w) == 0,
        forall|x: Window| #[trigger] ws_count(ws, x) == ws_count(s.wm.ws(mi, wi), x) + one(w, x),
    ensures
        safe(s, World { wm: s.wm.set_ws(mi, wi, ws), ..s }),
        forall|x: Window| #[trigger]
            census(s.wm.set_ws(mi, wi, ws), x) == census(s.wm, x) + one(w, x),
{
    let t = World { wm: s.wm.set_ws(mi, wi, ws), ..s };
    assert forall|x: Window| #[trigger] census(t.wm, x) == census(s.wm, x) + one(w, x) by {
        lemma_census_set_ws(s.wm, mi, wi, ws, x);
        assert(ws_count(ws, x) == ws_count(s.wm.ws(mi, wi), x) + one(w, x));
    }
    assert forall|x: Window| #[trigger] census(t.wm, x) <= 1 by {
        assert(census(s.wm, x) <= 1);
    }
    lemma_acts_valid(s.desk);
}

proof fn lemma_add_counts(ws: WsView, w: Window, floats: bool)
    ensures
        forall|x: Window| #[trigger] ws_count(ws.add(w, floats), x) == ws_count(ws, x) + one(w, x),
{
    assert forall|x: Window| #[trigger] ws_count(ws.add(w, floats), x) == ws_count(ws, x) + one(
        w,
        x,
    ) by {
        lemma_count_push(ws.tiled, w, x);
        lemma_count_push(ws.floating, w, x);
    }
}

/// Taking `w` out of the one workspace that has it leaves it nowhere, and all
/// others where they are.
proof fn lemma_taken_out(s: World, mi: int, wi: int, ws: WsView, w: Window)
    requires
        s.wm.wf(),
        unique(s.wm),
        s.wm.has(mi, wi),
        s.wm.ws(mi, wi).holds(w),
        ws.tiled == without(s.wm.ws(mi, wi).tiled, w),
        ws.floating == without(s.wm.ws(mi, wi).floating, w),
    ensures
        ({
            let t = s.wm.set_ws(mi, wi, ws);
            &&& t.wf()
            &&& unique(t)
            &&& census(s.wm, w) == 1
            &&& census(t, w) == 0
            &&& forall|x: Window| x != w ==> #[trigger] census(t, x) == census(s.wm, x)
        }),
{
    let v = s.wm;
    let t = v.set_ws(mi, wi, ws);
    let ws0 = v.ws(mi, wi);
    assert forall|x: Window| (x == w ==> #[trigger] census(t, x) == 0) && (x != w ==> census(t, x)
        == census(v, x)) by {
        lemma_census_set_ws(v, mi, wi, ws, x);
        lemma_count_without(ws0.tiled, w, x);
        lemma_count_without(ws0.floating, w, x);
        lemma_census_at(v, mi, wi, x);
        assert(census(v, x) <= 1);
    }
    lemma_census_at(v, mi, wi, w);
    assert(census(v, w) <= 1);
    assert(unique(t)) by {
        assert forall|x: Window| #[trigger] census(t, x) <= 1 by {
            assert(census(v, x) <= 1);
        }
    }
    assert(census(t, w) == 0);
}

/// Moving a window to another workspace keeps the census.
proof fn lemma_relocated_same(
    s: World,
    w: Window,
    mi: int,
    wi: int,
    tmi: int,
    twi: int,
    floats: bool,
)
    requires
        s.wm.wf(),
        unique(s.wm),
        s.wm.has(mi, wi),
        s.wm.has(tmi, twi),
        s.wm.ws(mi, wi).holds(w),
    ensures
        same_census(s, s.relocated(w, mi, wi, tmi, twi, floats)),
{
    let ws = s.wm.ws(mi, wi).removed(w);
    let a = World { wm: s.wm.set_ws(mi, wi, ws), ..s };
    lemma_taken_out(s, mi, wi, ws, w);
    lemma_acts_valid(s.desk);
    let to = a.wm.ws(tmi, twi);
    lemma_add_counts(to, w, floats);
    lemma_added(a, tmi, twi, to.add(w, floats), w);
    let t = s.relocated(w, mi, wi, tmi, twi, floats);
    assert(t.wm == a.wm.set_ws(tmi, twi, to.add(w, floats)));
    assert forall|x: Window| #[trigger] census(t.wm, x) == census(s.wm, x) by {
        assert(census(t.wm, x) == census(a.wm, x) + one(w, x));
        if x != w {
            assert(census(a.wm, x) == census(s.wm, x));
        }
    }
}

pub proof fn lemma_then_act(s: World, t: World, a: Action)
    requires
        s.wm.wf(),
        safe(s, t),
    ensures
        safe(s, t.act(a)),
{
    lemma_act_same(t);
    assert(same_census(t, t.act(a)));
    lemma_same_safe(t, t.act(a));
    lemma_safe_then(s, t, t.act(a));
}

proof fn lemma_then_retile(s: World, t: World, mi: int)
    requires
        s.wm.wf(),
        safe(s, t),
        0 <= mi < t.wm.monitors.len(),
    ensures
        safe(s, t.retiled(mi)),
{
    lemma_retiled_safe(t, mi);
    lemma_safe_then(s, t, t.retiled(mi));
}

proof fn lemma_then_focus(s: World, t: World, w: Window)
    requires
        s.wm.wf(),
        safe(s, t),
    ensures
        safe(s, World { desk: t.desk.focused(w), ..t }),
        safe(s, t.focused_on(w)),
{
    lemma_acts_valid(t.desk);
    let u = World { desk: t.desk.focused(w), ..t };
    assert(as_valid(t.desk, u.desk));
    lemma_acted(t, u);
    lemma_same_safe(t, u);
    lemma_safe_then(s, t, u);
    lemma_then_act(s, u, Action::PaintBorders);
}

proof fn lemma_then_hide(s: World, t: World, w: Window)
    requires
        s.wm.wf(),
        safe(s, t),
    ensures
        safe(s, t.hide_managed(w)),
        safe(s, t.show_managed(w)),
{
    lemma_hiding_same(t, w);
    lemma_same_safe(t, t.hide_managed(w));
    lemma_safe_then(s, t, t.hide_managed(w));
    lemma_same_safe(t, t.show_managed(w));
    lemma_safe_then(s, t, t.show_managed(w));
}

pub proof fn lemma_start(s: World)
    requires
        s.wm.wf(),
        unique(s.wm),
    ensures
        safe(s, s),
{
    lemma_still(s);
    lemma_same_safe(s, s);
}

proof fn lemma_followed_safe(s: World, t: World, w: Window, tmi: int, target: int)
    requires
        s.wm.wf(),
        safe(s, t),
        0 <= tmi,
        0 <= target,
    ensures
        safe(s, t.followed(w, tmi, target)),
{
    if t.wm.cfg.follow_moved_window {
        law_switch_is_safe(t, tmi, target);
        let u = t.switch_on(tmi, target);
        lemma_safe_then(s, t, u);
        lemma_then_focus(s, u, w);
    } else {
        lemma_then_hide(s, t, w);
        lemma_then_act(s, t.hide_managed(w), Action::Journal);
    }
}

/// Moving the focused window to a workspace loses no window.
pub proof fn law_move_is_safe(s: World, target: int)
    requires
        s.wm.wf(),
        unique(s.wm),
        0 <= target,
    ensures
        safe(s, s.move_to_workspace(target)),
{
    lemma_start(s);
    lemma_found(s);
    match s.focused_window() {
        None => {},
        Some((w, mi, wi)) => {
            let mon = s.wm.monitors[mi];
            if !(target >= mon.workspaces.len() || target == wi) {
                let floats = !mon.workspaces[wi].tiled.contains(w);
                let a = s.relocated(w, mi, wi, mi, target, floats);
                lemma_relocated_same(s, w, mi, wi, mi, target, floats);
                lemma_same_safe(s, a);
                let b = if target != mon.active {
                    a.followed(w, mi, target)
                } else {
                    a
                };
                if target != mon.active {
                    lemma_followed_safe(s, a, w, mi, target);
                }
                lemma_then_retile(s, b, mi);
                lemma_then_act(s, b.retiled(mi), Action::PaintBorders);
            }
        },
    }
}

/// Sending a window to a workspace loses no window.
pub proof fn law_send_is_safe(s: World, w: Window, handle: isize, target: int)
    requires
        s.wm.wf(),
        unique(s.wm),
        0 <= target,
    ensures
        safe(s, s.send_window_to(w, handle, target)),
{
    lemma_start(s);
    lemma_found(s);
    match s.wm.find(w) {
        None => {},
        Some((mi, wi)) => {
            let tmi = s.wm.index_of(handle);
            let mon = s.wm.monitors[tmi];
            assert(s.wm.has(mi, wi));
            if target >= mon.workspaces.len() || (tmi == mi && target == wi) {
                lemma_then_retile(s, s, mi);
            } else {
                let floats = s.wm.ws(mi, wi).floating.contains(w);
                let a = s.relocated(w, mi, wi, tmi, target, floats);
                lemma_relocated_same(s, w, mi, wi, tmi, target, floats);
                lemma_same_safe(s, a);
                let b = if s.wm.cfg.follow_moved_window || target != mon.active {
                    a.followed(w, tmi, target)
                } else {
                    a
                };
                if s.wm.cfg.follow_moved_window || target != mon.active {
                    lemma_followed_safe(s, a, w, tmi, target);
                }
                lemma_then_retile(s, b, mi);
                lemma_then_retile(s, b.retiled(mi), tmi);
                lemma_then_act(s, b.retiled(mi).retiled(tmi), Action::PaintBorders);
            }
        },
    }
}

proof fn lemma_move_to_monitor_safe(s: World, w: Window, mi: int, wi: int, tmi: int)
    requires
        s.wm.wf(),
        unique(s.wm),
        s.wm.has(mi, wi),
        s.wm.ws(mi, wi).holds(w),
        0 <= tmi < s.wm.monitors.len(),
    ensures
        safe(s, s.move_to_monitor(w, mi, wi, tmi)),
{
    let floats = s.wm.ws(mi, wi).floating.contains(w);
    let twi = s.wm.monitors[tmi].active as int;
    let a = s.relocated(w, mi, wi, tmi, twi, floats);
    lemma_relocated_same(s, w, mi, wi, tmi, twi, floats);
    lemma_same_safe(s, a);
    let glide = Action::Glide(
        w,
        s.wm.monitors[tmi].work_area.popped_out(),
        s.wm.cfg.animation_ms,
    );
    let b = if floats {
        a.act(glide)
    } else {
        a
    };
    lemma_then_act(s, a, glide);
    lemma_then_retile(s, b, mi);
    lemma_then_retile(s, b.retiled(mi), tmi);
    lemma_then_focus(s, b.retiled(mi).retiled(tmi), w);
}

// ----------------------------------------------------------- rearrangements

/// A workspace rearranged with the same windows, then laid out.
proof fn lemma_rearranged(s: World, mi: int, wi: int, ws: WsView)
    requires
        s.wm.wf(),
        unique(s.wm),
        s.wm.has(mi, wi),
        forall|x: Window| #[trigger] ws_count(ws, x) == ws_count(s.wm.ws(mi, wi), x),
    ensures
        safe(s, World { wm: s.wm.set_ws(mi, wi, ws), ..s }),
        safe(s, World { wm: s.wm.set_ws(mi, wi, ws), ..s }.retiled(mi)),
{
    let a = World { wm: s.wm.set_ws(mi, wi, ws), ..s };
    lemma_same_ws(s, mi, wi, ws);
    lemma_same_safe(s, a);
    lemma_then_retile(s, a, mi);
}

proof fn lemma_swap_tiled_safe(s: World, mi: int, wi: int, i: int, j: int)
    requires
        s.wm.wf(),
        unique(s.wm),
        s.wm.has(mi, wi),
        0 <= i < s.wm.ws(mi, wi).tiled.len(),
        0 <= j < s.wm.ws(mi, wi).tiled.len(),
    ensures
        safe(s, s.swap_tiled(mi, wi, i, j)),
{
    let ws0 = s.wm.ws(mi, wi);
    let ws = WsView { tiled: swapped(ws0.tiled, i, j), ..ws0 };
    assert forall|x: Window| #[trigger] ws_count(ws, x) == ws_count(ws0, x) by {
        lemma_count_swapped(ws0.tiled, i, j, x);
    }
    lemma_rearranged(s, mi, wi, ws);
}

/// Exchanging windows, or pushing one to the next monitor, loses no window.
pub proof fn law_swaps_are_safe(s: World, dir: Dir, forward: bool)
    requires
        s.wm.wf(),
        unique(s.wm),
    ensures
        safe(s, s.swap_dir(dir)),
        safe(s, s.swap_neighbor(forward)),
        safe(s, s.promote()),
{
    lemma_start(s);
    lemma_found(s);
    match s.focused_window() {
        None => {},
        Some((f, mi, wi)) => {
            let ws0 = s.wm.ws(mi, wi);
            let tiled = ws0.tiled;
            lemma_place(tiled, f);
            let scores = s.scores(f, tiled, dir);
            super::commands::lemma_lowest(scores);
            super::commands::lemma_lowest(s.wm.monitor_scores(mi, dir));
            match place(tiled, f) {
                Some(i) => {
                    if let Some(dst) = super::commands::lowest(scores) {
                        lemma_swap_tiled_safe(s, mi, wi, i, dst);
                    }
                    if tiled.len() >= 2 {
                        let j = super::spaces::stepped(i, tiled.len() as int, forward);
                        lemma_swap_tiled_safe(s, mi, wi, i, j);
                    }
                    let ws = WsView { tiled: tiled.remove(i).insert(0, f), ..ws0 };
                    assert forall|x: Window| #[trigger] ws_count(ws, x) == ws_count(ws0, x) by {
                        lemma_count_remove(tiled, i, x);
                        lemma_count_insert(tiled.remove(i), 0, f, x);
                    }
                    lemma_rearranged(s, mi, wi, ws);
                },
                None => {},
            }
            if let Some(tmi) = s.wm.monitor_in_dir(mi, dir) {
                lemma_move_to_monitor_safe(s, f, mi, wi, tmi);
            }
        },
    }
}

/// Resizing, floating, monocle and fullscreen lose no window.
pub proof fn law_shaping_is_safe(s: World, grow: bool)
    requires
        s.wm.wf(),
        unique(s.wm),
    ensures
        safe(s, s.resize_focused(grow)),
        safe(s, s.toggle_float()),
        s.wm.monitors.len() > 0 ==> safe(s, s.toggle_monocle()),
        safe(s, s.toggle_fullscreen()),
{
    lemma_start(s);
    lemma_found(s);
    lemma_act_same(s);
    assert forall|w: Window| safe(s, #[trigger] s.scale(w, grow)) by {
        let a = Action::Glide(
            w,
            super::shaping::rescaled(s.desk.frame_of(w), grow),
            s.wm.cfg.animation_ms,
        );
        lemma_then_act(s, s, a);
    }
    if s.wm.monitors.len() > 0 {
        let m = s.focused_monitor();
        let shown = s.wm.shown_ws(m);
        lemma_rearranged(
            s,
            m,
            s.wm.monitors[m].active as int,
            WsView { monocle: !shown.monocle, ..shown },
        );
    }
    match s.focused_window() {
        None => {},
        Some((w, mi, wi)) => {
            let ws0 = s.wm.ws(mi, wi);
            lemma_place(ws0.tiled, w);
            lemma_place(ws0.floating, w);
            match place(ws0.tiled, w) {
                Some(i) => {
                    lemma_rearranged(s, mi, wi, ws0.split(s.wm.cfg).nudged(i, grow));
                    let ws = WsView { tiled: ws0.tiled.remove(i), ..ws0 }.float(w);
                    assert forall|x: Window| #[trigger] ws_count(ws, x) == ws_count(ws0, x) by {
                        lemma_count_remove(ws0.tiled, i, x);
                        lemma_count_push(ws0.floating, w, x);
                    }
                    lemma_rearranged(s, mi, wi, ws);
                    let a = World { wm: s.wm.set_ws(mi, wi, ws), ..s };
                    let glide = Action::Glide(
                        w,
                        s.wm.monitors[mi].work_area.popped_out(),
                        s.wm.cfg.animation_ms,
                    );
                    lemma_then_act(s, a, glide);
                    lemma_then_retile(s, a.act(glide), mi);
                },
                None => match place(ws0.floating, w) {
                    Some(i) => {
                        let ws = WsView { floating: ws0.floating.remove(i), ..ws0 }.tile(w);
                        assert forall|x: Window| #[trigger] ws_count(ws, x) == ws_count(
                            ws0,
                            x,
                        ) by {
                            lemma_count_remove(ws0.floating, i, x);
                            lemma_count_push(ws0.tiled, w, x);
                        }
                        lemma_rearranged(s, mi, wi, ws);
                    },
                    None => {
                        lemma_then_retile(s, s, mi);
                    },
                },
            }
            if ws0.fullscreen == Some(w) {
                let ws = WsView { fullscreen: None, ..ws0 };
                lemma_rearranged(s, mi, wi, ws);
                let a = World { wm: s.wm.set_ws(mi, wi, ws), ..s };
                lemma_then_act(s, a, Action::Topmost(w, false));
                let b = a.act(Action::Topmost(w, false));
                lemma_then_retile(s, b, mi);
                lemma_then_act(s, b.retiled(mi), Action::PaintBorders);
            } else {
                let t = match ws0.fullscreen {
                    Some(f) => s.act(Action::Topmost(f, false)),
                    None => s,
                };
                match ws0.fullscreen {
                    Some(f) => {
                        lemma_then_act(s, s, Action::Topmost(f, false));
                    },
                    None => {},
                }
                let ws = WsView { fullscreen: Some(w), ..ws0 };
                lemma_rearranged(t, mi, wi, ws);
                let a = World { wm: t.wm.set_ws(mi, wi, ws), ..t };
                lemma_safe_then(s, t, a);
                lemma_then_act(s, a, Action::Topmost(w, true));
                let b = a.act(Action::Topmost(w, true));
                lemma_then_retile(s, b, mi);
                lemma_then_act(s, b.retiled(mi), Action::PaintBorders);
            }
        },
    }
}

pub proof fn lemma_under(list: Seq<Window>, w: Window, d: DeskView, i: int)
    requires
        0 <= i,
    ensures
        super::shaping::under(list, w, d, i) matches Some(k) ==> i <= k < list.len() && list[k]
            != w,
    decreases list.len() - i,
{
    if i < list.len() {
        lemma_under(list, w, d, i + 1);
    }
}

/// The end of a drag loses no window.
pub proof fn law_drag_is_safe(s: World, w: Window, drop: Option<(isize, usize)>)
    requires
        s.wm.wf(),
        unique(s.wm),
    ensures
        safe(s, s.drag_end(w, drop)),
{
    lemma_start(s);
    lemma_found(s);
    if drop is Some && s.wm.is_managed(w) {
        law_send_is_safe(s, w, (drop->0).0, (drop->0).1 as int);
    } else {
        match s.wm.find(w) {
            None => {},
            Some((mi, wi)) => {
                assert(s.wm.has(mi, wi));
                let ws0 = s.wm.ws(mi, wi);
                if wi == s.wm.monitors[mi].active && ws0.tiled.contains(w) {
                    let (ws, done) = s.drag_resized(mi, wi, w);
                    assert(ws.tiled == ws0.tiled && ws.floating == ws0.floating);
                    lemma_rearranged(s, mi, wi, ws);
                    if !done {
                        lemma_place(ws.tiled, w);
                        lemma_under(ws.tiled, w, s.desk, 0);
                        let t = ws.exchanged(w, s.desk);
                        assert forall|x: Window| #[trigger] ws_count(t, x) == ws_count(ws0, x) by {
                            if let Some(dst) = super::shaping::under(ws.tiled, w, s.desk, 0) {
                                lemma_count_swapped(ws.tiled, place(ws.tiled, w)->0, dst, x);
                            }
                        }
                        lemma_rearranged(s, mi, wi, t);
                    }
                }
            },
        }
    }
}

// -------------------------------------------------------------- management

/// Taking a window under management is safe for all others. Unless paused, it
/// is then listed once.
pub proof fn law_manage_is_safe(s: World, w: Window, apply_rules: bool)
    requires
        s.wm.wf(),
        unique(s.wm),
        s.wm.monitors.len() > 0 || s.wm.paused || s.wm.is_managed(w),
    ensures
        safe(s, s.manage(w, apply_rules)),
        !s.wm.paused && s.desk.valid(w) ==> census(s.manage(w, apply_rules).wm, w) == 1,
{
    lemma_start(s);
    lemma_found(s);
    lemma_census_managed(s.wm, w);
    if !(s.wm.is_managed(w) || s.wm.paused) {
        let mi = s.wm.index_of(s.desk.monitor_of(w));
        let wi = s.home_of(w, apply_rules, mi);
        let ws0 = s.wm.ws(mi, wi);
        let floats = s.desk.floating(w, s.wm.cfg.rules);
        let at = s.slot_for(mi, wi);
        match s.desk.foreground {
            Some(f) => {
                lemma_place(ws0.tiled, f);
            },
            None => {},
        }
        let ws = if floats {
            ws0.float(w)
        } else {
            WsView { tiled: ws0.tiled.insert(at, w), ..ws0 }
        };
        assert forall|x: Window| #[trigger] ws_count(ws, x) == ws_count(ws0, x) + one(w, x) by {
            lemma_count_push(ws0.floating, w, x);
            lemma_count_insert(ws0.tiled, at, w, x);
        }
        lemma_added(s, mi, wi, ws, w);
        let h = s.housed(w, apply_rules);
        assert(h == (World { wm: s.wm.set_ws(mi, wi, ws), ..s }));
        assert(census(h.wm, w) == 1);
        lemma_start(h);
        if wi != s.wm.monitors[mi].active {
            lemma_then_hide(h, h, w);
            lemma_then_act(h, h.hide_managed(w), Action::Journal);
            lemma_then_act(h, h.hide_managed(w).act(Action::Journal), Action::PaintBorders);
        } else {
            lemma_then_retile(h, h, mi);
            lemma_then_act(h, h.retiled(mi), Action::PaintBorders);
        }
        lemma_safe_then(s, h, s.manage(w, apply_rules));
        assert(census(s.manage(w, apply_rules).wm, w) <= 1);
    }
    if s.wm.is_managed(w) {
        assert(census(s.wm, w) <= 1);
    }
}

/// A restored window is never redirected, and without rules no window is: it
/// goes to the workspace that its monitor shows.
pub proof fn law_only_rules_redirect(s: World, w: Window, mi: int)
    ensures
        s.home_of(w, false, mi) == s.wm.monitors[mi].active,
        s.wm.cfg.app_rules == Map::<Seq<char>, usize>::empty() ==> s.home_of(w, true, mi)
            == s.wm.monitors[mi].active,
{
}

/// Placing a new window moves no other: every workspace keeps its windows in
/// their order, the new one aside.
pub proof fn law_existing_windows_stay(s: World, w: Window, apply_rules: bool, mi: int, wi: int)
    requires
        s.wm.wf(),
        s.wm.monitors.len() > 0,
        !s.wm.is_managed(w),
        s.wm.has(mi, wi),
    ensures
        without(s.housed(w, apply_rules).wm.ws(mi, wi).tiled, w) == s.wm.ws(mi, wi).tiled,
        without(s.housed(w, apply_rules).wm.ws(mi, wi).floating, w) == s.wm.ws(mi, wi).floating,
{
    lemma_found(s);
    lemma_census_managed(s.wm, w);
    let tmi = s.wm.index_of(s.desk.monitor_of(w));
    let twi = s.home_of(w, apply_rules, tmi);
    let ws0 = s.wm.ws(mi, wi);
    lemma_census_at(s.wm, mi, wi, w);
    lemma_without(ws0.tiled, w);
    lemma_without(ws0.floating, w);
    if mi == tmi && wi == twi {
        match s.desk.foreground {
            Some(f) => {
                lemma_place(ws0.tiled, f);
            },
            None => {},
        }
        let at = s.slot_for(mi, wi);
        assert(ws0.floating.push(w).drop_last() =~= ws0.floating);
        lemma_without_insert(ws0.tiled, at, w);
    }
}

proof fn lemma_without_add(a: Seq<Window>, b: Seq<Window>, w: Window)
    ensures
        without(a + b, w) == without(a, w) + without(b, w),
    decreases b.len(),
{
    if b.len() == 0 {
        assert(a + b =~= a);
        assert(without(a, w) + without(b, w) =~= without(a, w));
    } else {
        lemma_without_add(a, b.drop_last(), w);
        assert((a + b).drop_last() =~= a + b.drop_last());
        assert(without(a + b, w) =~= without(a, w) + without(b, w));
    }
}

proof fn lemma_without_insert(s: Seq<Window>, at: int, w: Window)
    requires
        0 <= at <= s.len(),
        !s.contains(w),
    ensures
        without(s.insert(at, w), w) == s,
{
    let a = s.subrange(0, at);
    let b = s.subrange(at, s.len() as int);
    assert(s =~= a + b);
    assert(s.insert(at, w) =~= a.push(w) + b);
    lemma_without_add(a.push(w), b, w);
    lemma_without_add(a, b, w);
    lemma_without(s, w);
    assert(a.push(w).drop_last() =~= a);
}

proof fn lemma_adopted_all_safe(s: World, list: Seq<Window>)
    requires
        s.wm.wf(),
        unique(s.wm),
        s.wm.monitors.len() > 0 || !s.misses(list),
    ensures
        safe(s, s.adopted_all(list)),
        s.wm.monitors.len() == 0 ==> s.adopted_all(list) == s,
    decreases list.len(),
{
    if list.len() == 0 {
        lemma_start(s);
    } else {
        if !s.misses(list) {
            assert forall|i: int| 0 <= i < list.len() - 1 implies s.wm.is_managed(
                #[trigger] list.drop_last()[i],
            ) || !s.desk.manages(list.drop_last()[i], s.wm.cfg.rules) by {
                assert(list.drop_last()[i] == list[i]);
            }
            assert(list.last() == list[list.len() - 1]);
        }
        lemma_adopted_all_safe(s, list.drop_last());
        let t = s.adopted_all(list.drop_last());
        let w = list.last();
        lemma_found(t);
        lemma_start(t);
        if !t.wm.is_managed(w) && t.desk.manages(w, t.wm.cfg.rules) {
            let mi = t.wm.index_of(t.desk.monitor_of(w));
            let ws0 = t.wm.shown_ws(mi);
            let floats = t.desk.floating(w, t.wm.cfg.rules);
            lemma_add_counts(ws0, w, floats);
            lemma_census_managed(t.wm, w);
            lemma_added(t, mi, t.wm.monitors[mi].active as int, ws0.add(w, floats), w);
        }
        lemma_safe_then(s, t, t.adopted(w));
    }
}

pub proof fn lemma_then_retile_all(s: World, t: World)
    requires
        s.wm.wf(),
        safe(s, t),
    ensures
        safe(s, t.retiled_all()),
{
    lemma_retiled_all_safe(t, t.wm.monitors.len() as int);
    lemma_safe_then(s, t, t.retiled_all());
}

// -------------------------------------------------------------- scratchpad

proof fn lemma_tucked_same(s: World, list: Seq<Window>, wa: Rect)
    requires
        s.wm.wf(),
    ensures
        same_census(s, s.tucked_all(list)),
        same_census(s, s.summoned_all(list, wa)),
    decreases list.len(),
{
    if list.len() == 0 {
        lemma_still(s);
    } else {
        lemma_tucked_same(s, list.drop_last(), wa);
        let a = s.tucked_all(list.drop_last());
        let w = list.last();
        if a.desk.visible(w) {
            let b = World {
                wm: WmView { rects: kept(a.wm.rects, w, a.desk.frame_of(w)), ..a.wm },
                ..a
            };
            lemma_acts_valid(a.desk);
            lemma_lists_same(a, b);
            lemma_same_then(s, a, b);
            lemma_act_same(b);
            let c = b.act(Action::Topmost(w, false));
            lemma_same_then(s, b, c);
            lemma_hiding_same(c, w);
            lemma_same_then(s, c, c.hide_managed(w));
        }
        let d = s.summoned_all(list.drop_last(), wa);
        lemma_hiding_same(d, w);
        let e = d.show_managed(w);
        lemma_same_then(s, d, e);
        lemma_act_same(e);
        let f = e.act(Action::Topmost(w, true));
        lemma_same_then(s, e, f);
        lemma_act_same(f);
        lemma_same_then(s, f, s.summoned_all(list, wa));
    }
}

/// Nothing but remembered facts changed.
proof fn lemma_then_noted(s: World, t: World, u: World)
    requires
        s.wm.wf(),
        safe(s, t),
        u.wm.monitors == t.wm.monitors,
        u.wm.scratch == t.wm.scratch,
        u.wm.cfg.workspaces == t.wm.cfg.workspaces,
        u.desk == t.desk,
    ensures
        safe(s, u),
{
    lemma_acts_valid(t.desk);
    lemma_lists_same(t, u);
    lemma_same_safe(t, u);
    lemma_safe_then(s, t, u);
}

proof fn lemma_scratch_pruned_safe(s: World)
    requires
        s.wm.wf(),
        unique(s.wm),
    ensures
        safe(s, s.scratch_pruned()),
{
    let t = s.scratch_pruned();
    lemma_acts_valid(s.desk);
    assert forall|w: Window|
        (#[trigger] census(t.wm, w)) <= census(s.wm, w) && (s.desk.valid(w) ==> census(t.wm, w)
            == census(s.wm, w)) by {
        lemma_count_living(s.wm.scratch, s.desk, w);
    }
    assert forall|w: Window| #[trigger] census(t.wm, w) <= 1 by {
        assert(census(s.wm, w) <= 1);
    }
}

/// Showing and tucking away the scratchpad, and parking a window or pulling it
/// out, lose no window.
pub proof fn law_scratchpad_is_safe(s: World)
    requires
        s.wm.wf(),
        unique(s.wm),
    ensures
        s.wm.monitors.len() > 0 || living(s.wm.scratch, s.desk).len() == 0 ==> safe(
            s,
            s.scratch_toggle(),
        ),
        s.wm.monitors.len() > 0 || living(s.wm.scratch, s.desk).len() == 0 || s.wm.scratch_shown
            ==> safe(s, s.scratch_cycle()),
        s.wm.monitors.len() > 0 || s.focused_scratch() is None ==> safe(s, s.scratch_send()),
{
    lemma_scratch_pruned_safe(s);
    let p = s.scratch_pruned();
    if s.wm.monitors.len() > 0 || living(s.wm.scratch, s.desk).len() == 0 {
        lemma_toggle_safe(s);
    }
    if s.wm.monitors.len() > 0 {
        lemma_toggle_safe(p);
        lemma_safe_then(s, p, p.scratch_toggle());
    }
    let list = p.wm.scratch;
    if list.len() > 0 && p.wm.scratch_shown {
        match p.desk.foreground {
            Some(f) => {
                lemma_place(list, f);
            },
            None => {},
        }
        let next = match p.desk.foreground {
            Some(f) => match place(list, f) {
                Some(i) => if i + 1 == list.len() {
                    0
                } else {
                    i + 1
                },
                None => 0,
            },
            None => 0,
        };
        let w = list[next];
        lemma_then_hide(s, p, w);
        lemma_then_act(s, p.show_managed(w), Action::Topmost(w, true));
        lemma_then_focus(s, p, w);
        lemma_then_focus(s, p.show_managed(w).act(Action::Topmost(w, true)), w);
    }
    match s.focused_scratch() {
        Some(w) => {
            if s.wm.monitors.len() > 0 {
                lemma_pull_safe(s, w);
            }
        },
        None => {
            lemma_park_safe(s);
        },
    }
}

proof fn lemma_toggle_safe(s: World)
    requires
        s.wm.wf(),
        unique(s.wm),
        s.wm.monitors.len() > 0 || living(s.wm.scratch, s.desk).len() == 0,
    ensures
        safe(s, s.scratch_toggle()),
{
    lemma_scratch_pruned_safe(s);
    let p = s.scratch_pruned();
    let list = p.wm.scratch;
    lemma_found(p);
    lemma_then_noted(s, p, p.scratch_is(false));
    if list.len() > 0 {
        if p.wm.scratch_shown {
            let wa = Rect { x: 0, y: 0, w: 0, h: 0 };
            lemma_tucked_same(p, list, wa);
            let a = p.tucked_all(list);
            lemma_same_safe(p, a);
            lemma_safe_then(s, p, a);
            let b = a.scratch_is(false);
            lemma_then_noted(s, a, b);
            lemma_then_act(s, b, Action::Journal);
            let c = b.act(Action::Journal);
            let all = c.wm.shown_ws(c.focused_monitor()).all();
            lemma_then_focus(s, c, all[0]);
            lemma_then_act(s, c.first_focused(), Action::PaintBorders);
        } else {
            let wa = p.wm.monitors[p.focused_monitor()].work_area;
            lemma_tucked_same(p, list, wa);
            let a = p.summoned_all(list, wa);
            lemma_same_safe(p, a);
            lemma_safe_then(s, p, a);
            let b = a.scratch_is(true);
            lemma_then_noted(s, a, b);
            lemma_then_act(s, b, Action::Journal);
            lemma_then_focus(s, b.act(Action::Journal), list.last());
        }
    }
}

proof fn lemma_park_safe(s: World)
    requires
        s.wm.wf(),
        unique(s.wm),
    ensures
        safe(s, s.scratch_park()),
{
    lemma_start(s);
    lemma_found(s);
    match s.focused_window() {
        None => {},
        Some((w, mi, wi)) => {
            let ws0 = s.wm.ws(mi, wi);
            let e = s.evicted(w, mi, wi);
            let ws = if ws0.fullscreen == Some(w) {
                WsView { fullscreen: None, ..ws0 }.removed(w)
            } else {
                ws0.removed(w)
            };
            assert(e.wm == s.wm.set_ws(mi, wi, ws));
            lemma_taken_out(s, mi, wi, ws, w);
            lemma_acts_valid(s.desk);
            let a = World { wm: WmView { scratch: e.wm.scratch.push(w), ..e.wm }, ..e };
            assert forall|x: Window| #[trigger] census(a.wm, x) == census(s.wm, x) by {
                lemma_count_push(e.wm.scratch, w, x);
                if x != w {
                    assert(census(e.wm, x) == census(s.wm, x));
                }
            }
            assert(as_valid(s.desk, a.desk));
            assert(same_census(s, a));
            lemma_same_safe(s, a);
            lemma_then_hide(s, a, w);
            lemma_then_act(s, a.hide_managed(w), Action::Journal);
            let b = a.hide_managed(w).act(Action::Journal);
            lemma_then_retile(s, b, mi);
            lemma_then_act(s, b.retiled(mi), Action::PaintBorders);
        },
    }
}

proof fn lemma_pull_safe(s: World, w: Window)
    requires
        s.wm.wf(),
        unique(s.wm),
        s.wm.monitors.len() > 0,
        s.wm.in_scratch(w),
    ensures
        safe(s, s.scratch_pull(w)),
{
    lemma_count_contains(s.wm.scratch, w);
    assert(census(s.wm, w) <= 1);
    let a0 = World {
        wm: WmView {
            scratch: without(s.wm.scratch, w),
            rects: unkept(s.wm.rects, w),
            ..s.wm
        },
        ..s
    };
    assert forall|x: Window|
        (#[trigger] census(a0.wm, x)) == if x == w {
            0
        } else {
            census(s.wm, x)
        } by {
        lemma_count_without(s.wm.scratch, w, x);
    }
    assert(unique(a0.wm)) by {
        assert forall|x: Window| #[trigger] census(a0.wm, x) <= 1 by {
            assert(census(s.wm, x) <= 1);
        }
    }
    lemma_start(a0);
    let a = a0.act(Action::Topmost(w, false));
    lemma_act_same(a0);
    let b = if a.desk.visible(w) {
        World { wm: WmView { hidden: without(a.wm.hidden, w), ..a.wm }, ..a }
    } else {
        a.show_managed(w)
    };
    lemma_hiding_same(a, w);
    lemma_acts_valid(a.desk);
    assert(same_census(a, b)) by {
        if a.desk.visible(w) {
            lemma_lists_same(a, b);
        }
    }
    lemma_same_then(a0, a, b);
    lemma_found(b);
    assert(unique(b.wm)) by {
        assert forall|x: Window| #[trigger] census(b.wm, x) <= 1 by {
            assert(census(a0.wm, x) <= 1);
        }
    }
    let mi = b.focused_monitor();
    let wi = b.wm.monitors[mi].active as int;
    let floats = b.desk.floating(w, b.wm.cfg.rules);
    let ws0 = b.wm.shown_ws(mi);
    lemma_add_counts(ws0, w, floats);
    assert(census(b.wm, w) == 0);
    lemma_added(b, mi, wi, ws0.add(w, floats), w);
    let c = World { wm: b.wm.set_ws(mi, wi, ws0.add(w, floats)), ..b };
    lemma_acts_valid(s.desk);
    assert(same_census(s, c)) by {
        assert forall|x: Window| #[trigger] census(c.wm, x) == census(s.wm, x) by {
            assert(census(c.wm, x) == census(b.wm, x) + one(w, x));
            assert(census(b.wm, x) == census(a0.wm, x));
        }
        lemma_as_valid_then(s.desk, b.desk, c.desk);
    }
    lemma_same_safe(s, c);
    let d = if c.wm.scratch.len() == 0 {
        c.scratch_is(false)
    } else {
        c
    };
    lemma_then_noted(s, c, d);
    lemma_then_act(s, d, Action::Journal);
    lemma_then_retile(s, d.act(Action::Journal), mi);
    lemma_then_focus(s, d.act(Action::Journal).retiled(mi), w);
}

// ------------------------------------------------------- commands and events

proof fn lemma_focus_safe(s: World, forward: bool, dir: Dir)
    requires
        s.wm.wf(),
        unique(s.wm),
    ensures
        safe(s, s.focus_neighbor(forward)),
        safe(s, s.focus_dir(dir)),
{
    lemma_start(s);
    assert forall|w: Window| safe(s, #[trigger] s.focused_on(w)) by {
        lemma_then_focus(s, s, w);
    }
}

/// Whatever the user commands, no window that exists is lost, and none is
/// ever listed twice.
pub proof fn law_commands_lose_no_window(s: World, cmd: Command, fresh: Seq<MonitorInfo>)
    requires
        s.wm.wf(),
        unique(s.wm),
        s.can_obey(cmd),
    ensures
        loses_none(s, s.commanded(cmd, fresh)),
        cmd != Command::Retile ==> safe(s, s.commanded(cmd, fresh)),
{
    lemma_start(s);
    lemma_found(s);
    match cmd {
        Command::TogglePause => {
            if s.wm.paused {
                let a = World { wm: WmView { paused: false, ..s.wm }, ..s };
                lemma_then_noted(s, s, a);
                lemma_adopted_all_safe(a, s.desk.order);
                lemma_safe_then(s, a, a.adopted_all(s.desk.order));
                lemma_then_retile_all(s, a.adopted_all(s.desk.order));
                lemma_then_act(
                    s,
                    a.adopted_all(s.desk.order).retiled_all(),
                    Action::PaintBorders,
                );
            } else {
                let a = World { wm: WmView { paused: true, ..s.wm }, ..s };
                lemma_then_noted(s, s, a);
                lemma_acts_valid(a.desk);
                let b = s.toggle_pause();
                lemma_acted(a, b);
                lemma_same_safe(a, b);
                lemma_safe_then(s, a, b);
            }
        },
        _ => {
            if !s.wm.paused {
                match cmd {
                    Command::FocusNext => lemma_focus_safe(s, true, Dir::Left),
                    Command::FocusPrev => lemma_focus_safe(s, false, Dir::Left),
                    Command::FocusDir(dir) => lemma_focus_safe(s, true, dir),
                    Command::SwapNext => law_swaps_are_safe(s, Dir::Left, true),
                    Command::SwapPrev => law_swaps_are_safe(s, Dir::Left, false),
                    Command::SwapDir(dir) => law_swaps_are_safe(s, dir, true),
                    Command::Promote => law_swaps_are_safe(s, Dir::Left, true),
                    Command::GrowWindow => law_shaping_is_safe(s, true),
                    Command::ShrinkWindow => law_shaping_is_safe(s, false),
                    Command::ToggleFloat => law_shaping_is_safe(s, true),
                    Command::ToggleMonocle => law_shaping_is_safe(s, true),
                    Command::ToggleFullscreen => {
                        law_shaping_is_safe(s, true);
                        if let Some(w) = s.focused_scratch() {
                            lemma_scratch_fullscreen_safe(s, w);
                        }
                    },
                    Command::CloseWindow => {
                        if let Some((w, _, _)) = s.focused_window() {
                            lemma_then_act(s, s, Action::Close(w));
                        }
                    },
                    Command::SwitchWorkspace(n) => law_switch_is_safe(
                        s,
                        s.focused_monitor(),
                        n as int,
                    ),
                    Command::MoveToWorkspace(n) => law_move_is_safe(s, n as int),
                    Command::NextWorkspace => lemma_cycles_safe(s, true),
                    Command::PrevWorkspace => lemma_cycles_safe(s, false),
                    Command::MoveNextWorkspace => lemma_cycles_safe(s, true),
                    Command::MovePrevWorkspace => lemma_cycles_safe(s, false),
                    Command::PinApp => {
                        lemma_then_noted(s, s, s.pinned());
                    },
                    Command::ScratchToggle => law_scratchpad_is_safe(s),
                    Command::ScratchSend => law_scratchpad_is_safe(s),
                    Command::ScratchCycle => law_scratchpad_is_safe(s),
                    Command::Retile => {
                        law_refresh_loses_no_window(s, fresh);
                        let a = s.refreshed(fresh);
                        lemma_refreshed(s, fresh);
                        lemma_adopted_all_safe(a, a.desk.order);
                        let b = a.rescanned();
                        lemma_then_retile_all(a, b);
                        lemma_then_act(a, b.retiled_all(), Action::PaintBorders);
                        lemma_loses_then(s, a, s.commanded(cmd, fresh));
                    },
                    _ => {},
                }
            }
        },
    }
}

proof fn lemma_scratch_fullscreen_safe(s: World, w: Window)
    requires
        s.wm.wf(),
        unique(s.wm),
    ensures
        safe(s, s.scratch_fullscreen(w)),
{
    lemma_start(s);
    let mon = s.wm.monitors[s.wm.index_of(s.desk.monitor_of(w))];
    let cur = s.desk.frame_of(w);
    let ms = s.wm.cfg.animation_ms;
    let size = super::scratch::restored_size(s.wm.rects, w, mon.work_area, mon.bounds);
    let a1 = Action::Glide(w, mon.work_area.middle(size.0, size.1), ms);
    lemma_then_act(s, s, a1);
    lemma_then_act(s, s.act(a1), Action::PaintBorders);
    let b = World { wm: WmView { rects: kept(s.wm.rects, w, cur), ..s.wm }, ..s };
    lemma_then_noted(s, s, b);
    let a2 = Action::Glide(w, mon.bounds, ms);
    lemma_then_act(s, b, a2);
    lemma_then_act(s, b.act(a2), Action::PaintBorders);
}

proof fn lemma_cycles_safe(s: World, forward: bool)
    requires
        s.wm.wf(),
        unique(s.wm),
    ensures
        s.wm.monitors.len() > 0 ==> safe(s, s.cycle_workspace(forward)),
        safe(s, s.move_cycle(forward)),
{
    lemma_start(s);
    lemma_found(s);
    if s.wm.monitors.len() > 0 {
        let mi = s.focused_monitor();
        let mon = s.wm.monitors[mi];
        law_switch_is_safe(
            s,
            mi,
            super::spaces::stepped(mon.active as int, mon.workspaces.len() as int, forward),
        );
    }
    if let Some((_, m, wi)) = s.focused_window() {
        law_move_is_safe(
            s,
            super::spaces::stepped(wi, s.wm.monitors[m].workspaces.len() as int, forward),
        );
    }
}

/// While paused every command but that which toggles the pause is ignored.
pub proof fn law_pause_ignores_commands(s: World, cmd: Command, fresh: Seq<MonitorInfo>)
    requires
        s.wm.paused,
        cmd != Command::TogglePause,
    ensures
        s.commanded(cmd, fresh) == s,
{
}

/// `w` was let go from `s` to `t`: it is listed nowhere, and no other window
/// that exists was lost.
pub open spec fn let_go(s: World, t: World, w: Window) -> bool {
    &&& t.wm.wf()
    &&& unique(t.wm)
    &&& as_valid(s.desk, t.desk)
    &&& census(t.wm, w) == 0
    &&& forall|x: Window|
        x != w && s.desk.valid(x) ==> #[trigger] census(t.wm, x) == census(s.wm, x)
}

proof fn lemma_let_go_then(s: World, t: World, u: World, w: Window)
    requires
        let_go(s, t, w),
        same_census(t, u),
    ensures
        let_go(s, u, w),
{
    lemma_as_valid_then(s.desk, t.desk, u.desk);
    assert forall|x: Window| #[trigger] census(u.wm, x) <= 1 by {
        assert(census(t.wm, x) <= 1);
    }
    assert forall|x: Window| x != w && s.desk.valid(x) implies #[trigger] census(u.wm, x)
        == census(s.wm, x) by {
        assert(census(t.wm, x) == census(s.wm, x));
    }
}

/// Letting a window go loses no other.
pub proof fn law_unmanage_loses_no_other(s: World, w: Window)
    requires
        s.wm.wf(),
        unique(s.wm),
    ensures
        let_go(s, s.unmanage(w), w),
{
    lemma_acts_valid(s.desk);
    let a = World {
        wm: WmView {
            scratch: without(s.wm.scratch, w),
            rects: unkept(s.wm.rects, w),
            ..s.wm
        },
        ..s
    };
    assert forall|x: Window|
        (#[trigger] census(a.wm, x)) <= census(s.wm, x) && (x != w ==> census(a.wm, x) == census(
            s.wm,
            x,
        )) && census(a.wm, x) == mons_count(s.wm.monitors, x) + count(a.wm.scratch, x) by {
        lemma_count_without(s.wm.scratch, w, x);
        lemma_count_contains(s.wm.scratch, w);
    }
    assert(unique(a.wm)) by {
        assert forall|x: Window| #[trigger] census(a.wm, x) <= 1 by {
            assert(census(s.wm, x) <= 1);
        }
    }
    lemma_found(a);
    lemma_census_managed(a.wm, w);
    lemma_count_without(s.wm.scratch, w, w);
    let b = match a.wm.find(w) {
        Some((mi, wi)) => a.evicted(w, mi, wi).act(Action::Border(w, None)).retiled(mi).act(
            Action::PaintBorders,
        ),
        None => a,
    };
    match a.wm.find(w) {
        Some((mi, wi)) => {
            let ws0 = a.wm.ws(mi, wi);
            let e = a.evicted(w, mi, wi);
            let ws = if ws0.fullscreen == Some(w) {
                WsView { fullscreen: None, ..ws0 }.removed(w)
            } else {
                ws0.removed(w)
            };
            assert(e.wm == a.wm.set_ws(mi, wi, ws));
            assert(a.wm.has(mi, wi));
            lemma_taken_out(a, mi, wi, ws, w);
            assert(as_valid(s.desk, e.desk));
            let f = e.act(Action::Border(w, None));
            lemma_act_same(e);
            assert(same_census(e, f));
            lemma_same_safe(e, f);
            lemma_retiled_safe(f, mi);
            let g = f.retiled(mi);
            lemma_safe_then(e, f, g);
            lemma_as_valid_then(s.desk, e.desk, g.desk);
            assert(census(g.wm, w) == 0 && (forall|x: Window|
                x != w && s.desk.valid(x) ==> #[trigger] census(g.wm, x) == census(s.wm, x))) by {
                lemma_retiled_census(f, mi);
                assert(census(f.wm, w) == 0);
                assert(census(g.wm, w) <= census(f.wm, w));
                assert forall|x: Window| x != w && s.desk.valid(x) implies #[trigger] census(g.wm, x)
                    == census(s.wm, x) by {
                    assert(e.desk.valid(x) == s.desk.valid(x));
                    assert(census(e.wm, x) == census(a.wm, x));
                    assert(census(f.wm, x) == census(e.wm, x));
                    assert(f.desk.valid(x) == e.desk.valid(x));
                    assert(census(g.wm, x) == census(f.wm, x));
                }
            }
            assert(let_go(s, g, w));
            lemma_act_same(g);
            lemma_let_go_then(s, g, b, w);
        },
        None => {
            assert(let_go(s, a, w));
        },
    }
    let c = World { wm: WmView { hidden: without(b.wm.hidden, w), ..b.wm }, ..b };
    lemma_acts_valid(b.desk);
    lemma_lists_same(b, c);
    lemma_let_go_then(s, b, c, w);
    lemma_hiding_same(c, w);
    let d = c.release_companions(w);
    lemma_let_go_then(s, c, d, w);
    lemma_act_same(d);
    lemma_let_go_then(s, d, d.act(Action::Journal), w);
}

proof fn lemma_retiled_census(s: World, mi: int)
    requires
        s.wm.wf(),
        0 <= mi < s.wm.monitors.len(),
    ensures
        forall|w: Window| #[trigger] census(s.retiled(mi).wm, w) <= census(s.wm, w),
        forall|w: Window|
            s.desk.valid(w) ==> #[trigger] census(s.retiled(mi).wm, w) == census(s.wm, w),
{
    if !s.wm.paused {
        let wi = s.wm.monitors[mi].active as int;
        let ws0 = s.wm.shown_ws(mi);
        let ws = ws0.settled(s.wm.cfg, s.desk);
        assert(s.retiled(mi).wm == s.wm.set_ws(mi, wi, ws));
        assert forall|w: Window|
            (#[trigger] census(s.retiled(mi).wm, w)) <= census(s.wm, w) && (s.desk.valid(w)
                ==> census(s.retiled(mi).wm, w) == census(s.wm, w)) by {
            lemma_census_set_ws(s.wm, mi, wi, ws, w);
            lemma_count_living(ws0.tiled, s.desk, w);
            lemma_count_living(ws0.floating, s.desk, w);
        }
    }
}

proof fn lemma_noticed_safe(s: World, w: Window, apply_rules: bool)
    requires
        s.wm.wf(),
        unique(s.wm),
        s.wm.monitors.len() > 0 || !s.takes(w),
    ensures
        safe(s, s.noticed(w, apply_rules)),
{
    lemma_start(s);
    if s.wm.monitors.len() > 0 || s.wm.paused || s.wm.is_managed(w) {
        law_manage_is_safe(s, w, apply_rules);
    }
}

/// Whatever the system reports, no window is listed twice, and the only
/// window that can be lost is the one that was hidden, minimized or
/// destroyed.
pub proof fn law_events_lose_no_other_window(s: World, ev: WmEvent)
    requires
        s.wm.wf(),
        unique(s.wm),
        s.can_handle(ev),
    ensures
        match ev {
            WmEvent::Hidden(w) => safe(s, s.handled(ev)) || let_go(s, s.handled(ev), w),
            WmEvent::Destroyed(w) => safe(s, s.handled(ev)) || let_go(s, s.handled(ev), w),
            WmEvent::MinimizeStart(w) => safe(s, s.handled(ev)) || let_go(s, s.handled(ev), w),
            _ => safe(s, s.handled(ev)),
        },
{
    lemma_start(s);
    match ev {
        WmEvent::Shown(w) => {
            lemma_then_noted(s, s, s.not_hidden(w));
            lemma_noticed_safe(s.not_hidden(w), w, true);
            lemma_safe_then(s, s.not_hidden(w), s.not_hidden(w).noticed(w, true));
        },
        WmEvent::Restored(w) => {
            lemma_then_noted(s, s, s.not_hidden(w));
            lemma_noticed_safe(s.not_hidden(w), w, false);
            lemma_safe_then(s, s.not_hidden(w), s.not_hidden(w).noticed(w, false));
        },
        WmEvent::Hidden(w) => law_unmanage_loses_no_other(s, w),
        WmEvent::Destroyed(w) => {
            law_unmanage_loses_no_other(s, w);
            lemma_then_noted(s, s, s.not_hidden(w));
        },
        WmEvent::MinimizeStart(w) => law_unmanage_loses_no_other(s, w),
        WmEvent::Foreground(w) => {
            lemma_noticed_safe(s, w, true);
            let a = s.noticed(w, true);
            let b = a.refloated(w);
            lemma_acts_valid(a.desk);
            lemma_acted(a, b);
            lemma_same_safe(a, b);
            lemma_safe_then(s, a, b);
            lemma_then_act(s, b, Action::PaintBorders);
        },
        WmEvent::Retitled(w) => lemma_noticed_safe(s, w, true),
        WmEvent::MoveSizeEnd(w, drop) => law_drag_is_safe(s, w, drop),
    }
}

// ------------------------------------------------------------------ hiding

pub proof fn lemma_without_keeps(s: Seq<Window>, a: Window, x: Window)
    ensures
        without(s, a).contains(x) <==> s.contains(x) && x != a,
{
    lemma_without(s, a);
}

pub proof fn lemma_including_keeps(s: Seq<Window>, a: Window, x: Window)
    ensures
        including(s, a).contains(x) <==> s.contains(x) || x == a,
{
    if !s.contains(a) {
        if s.contains(x) {
            let i = choose|i: int| 0 <= i < s.len() && s[i] == x;
            assert(s.push(a)[i] == x);
        }
        if x == a {
            assert(s.push(a)[s.len() as int] == a);
        }
        if s.push(a).contains(x) && x != a {
            let i = choose|i: int| 0 <= i < s.push(a).len() && s.push(a)[i] == x;
            assert(s[i] == x);
        }
    }
}

proof fn lemma_stowed_hidden(s: World, list: Seq<Window>, x: Window)
    ensures
        s.wm.hidden.contains(x) ==> s.stowed_all(list).wm.hidden.contains(x),
        list.contains(x) ==> s.stowed_all(list).wm.hidden.contains(x),
    decreases list.len(),
{
    if list.len() > 0 {
        lemma_stowed_hidden(s, list.drop_last(), x);
        let t = s.stowed_all(list.drop_last());
        lemma_including_keeps(t.wm.hidden, list.last(), x);
        if list.contains(x) && x != list.last() {
            let i = choose|i: int| 0 <= i < list.len() && list[i] == x;
            assert(list.drop_last()[i] == x);
        }
    }
}

proof fn lemma_swept_wm(s: World, w: Window, thread: u32, i: int)
    ensures
        s.swept(w, thread, i).wm == s.wm,
    decreases s.desk.order.len() - i,
{
    if i < s.desk.order.len() {
        let c = s.desk.order[i];
        lemma_swept_wm(World { desk: s.desk.concealed(c), ..s }, w, thread, i + 1);
        lemma_swept_wm(s, w, thread, i + 1);
    }
}

/// A window that was hidden for a workspace change is remembered as hidden on
/// purpose, and so is every window hidden along with it; none is forgotten.
pub proof fn law_hidden_windows_are_remembered(s: World, w: Window, x: Window)
    ensures
        s.hide_managed(w).wm.hidden.contains(w),
        s.wm.hidden.contains(x) ==> s.hide_managed(w).wm.hidden.contains(x),
        s.act(Action::CancelModes(w)).attendants(s.desk.order, w).contains(x) ==> s.hide_managed(
            w,
        ).wm.hidden.contains(x),
{
    let a = World { desk: s.desk.act(Action::CancelModes(w)), ..s };
    let cs = a.attendants(a.desk.order, w);
    let b = a.swept(w, a.desk.thread_of(w), 0);
    lemma_swept_wm(a, w, a.desk.thread_of(w), 0);
    lemma_stowed_hidden(b, cs, x);
    let c = b.stowed_all(cs).remembering(w, cs);
    lemma_including_keeps(c.wm.hidden, w, x);
    lemma_including_keeps(c.wm.hidden, w, w);
}

/// Every window of a list that was hidden is remembered as hidden on purpose.
pub proof fn law_left_workspace_is_remembered(s: World, list: Seq<Window>, x: Window)
    ensures
        s.wm.hidden.contains(x) || list.contains(x) ==> s.hide_all(list).wm.hidden.contains(x),
    decreases list.len(),
{
    if list.len() > 0 {
        law_left_workspace_is_remembered(s, list.drop_last(), x);
        let t = s.hide_all(list.drop_last());
        law_hidden_windows_are_remembered(t, list.last(), x);
        if list.contains(x) && x != list.last() {
            let i = choose|i: int| 0 <= i < list.len() && list[i] == x;
            assert(list.drop_last()[i] == x);
        }
    }
}

/// Showing a window again takes it off the list of hidden ones.
pub proof fn law_shown_window_is_not_hidden(s: World, w: Window)
    ensures
        !s.show_managed(w).wm.hidden.contains(w),
{
    let d = World {
        wm: WmView {
            hidden: without(s.wm.hidden, w),
            companions: disowned(s.wm.companions, w),
            ..s.wm
        },
        desk: s.desk.shown(w),
    };
    lemma_without_keeps(s.wm.hidden, w, w);
    lemma_unstowed_hidden(d, owned_by(s.wm.companions, w), w);
}

pub proof fn lemma_unstowed_hidden(s: World, list: Seq<Window>, x: Window)
    ensures
        s.unstowed_all(list).wm.hidden.contains(x) ==> s.wm.hidden.contains(x),
    decreases list.len(),
{
    if list.len() > 0 {
        lemma_unstowed_hidden(s, list.drop_last(), x);
        lemma_without_keeps(s.unstowed_all(list.drop_last()).wm.hidden, list.last(), x);
    }
}

/// A hide event for a window that was hidden on purpose changes nothing.
pub proof fn law_own_hides_are_ignored(s: World, w: Window)
    requires
        s.wm.hidden.contains(w),
    ensures
        s.handled(WmEvent::Hidden(w)) == s,
{
}

// ------------------------------------------------------------------ toggles

/// Toggling monocle turns it on or off for the focused monitor, and toggling
/// it twice leaves it as it was. The foreground window exists.
pub proof fn law_monocle_toggles_back(s: World)
    requires
        s.wm.wf(),
        s.wm.monitors.len() > 0,
        unique(s.wm),
        s.desk.foreground matches Some(f) ==> s.desk.valid(f),
    ensures
        s.toggle_monocle().wm.shown_ws(s.focused_monitor()).monocle == !s.wm.shown_ws(
            s.focused_monitor(),
        ).monocle,
        s.toggle_monocle().toggle_monocle().wm.shown_ws(s.focused_monitor()).monocle
            == s.wm.shown_ws(s.focused_monitor()).monocle,
{
    lemma_found(s);
    law_shaping_is_safe(s, true);
    let t = s.toggle_monocle();
    lemma_found(t);
    let m = s.focused_monitor();
    lemma_same_handles(s.wm.monitors, t.wm.monitors, s.desk.cursor_monitor, 0);
    match s.desk.foreground {
        Some(f) => {
            lemma_census_managed(s.wm, f);
            lemma_census_managed(t.wm, f);
            lemma_same_handles(s.wm.monitors, t.wm.monitors, s.desk.monitor_of(f), 0);
            assert(t.desk.monitor_of(f) == s.desk.monitor_of(f));
            let wi = s.wm.monitors[m].active as int;
            let shown = s.wm.shown_ws(m);
            let ws = WsView { monocle: !shown.monocle, ..shown };
            let a = World { wm: s.wm.set_ws(m, wi, ws), ..s };
            lemma_census_set_ws(s.wm, m, wi, ws, f);
            lemma_retiled_census(a, m);
            assert(census(t.wm, f) == census(s.wm, f));
        },
        None => {},
    }
    assert(t.focused_monitor() == m);
}

proof fn lemma_same_handles(a: Seq<MonView>, b: Seq<MonView>, handle: isize, i: int)
    requires
        a.len() == b.len(),
        0 <= i,
        forall|k: int| 0 <= k < a.len() ==> (#[trigger] b[k]).handle == a[k].handle,
    ensures
        handle_from(b, handle, i) == handle_from(a, handle, i),
    decreases a.len() - i,
{
    if i < a.len() {
        lemma_same_handles(a, b, handle, i + 1);
    }
}

/// Fullscreen for a window that has it already ends it, and for any other of
/// the workspace moves it there: at most one window has it.
pub proof fn law_fullscreen_toggles(s: World)
    requires
        s.wm.wf(),
        !s.wm.paused,
    ensures
        s.focused_window() matches Some((w, mi, wi)) ==> (wi == s.wm.monitors[mi].active
            && s.desk.valid(w) ==> s.toggle_fullscreen().wm.ws(mi, wi).fullscreen == if s.wm.ws(
            mi,
            wi,
        ).fullscreen == Some(w) {
            None::<Window>
        } else {
            Some(w)
        }),
{
    lemma_found(s);
    match s.focused_window() {
        None => {},
        Some((w, mi, wi)) => {
            let ws0 = s.wm.ws(mi, wi);
            lemma_acts_valid(s.desk);
            lemma_count_contains(ws0.tiled, w);
            lemma_count_contains(ws0.floating, w);
            assert forall|d: DeskView| as_valid(s.desk, d) && s.desk.valid(w) implies (
            #[trigger] living(ws0.tiled, d).contains(w) || living(ws0.floating, d).contains(
                w,
            )) by {
                assert(d.valid(w) == s.desk.valid(w));
                lemma_count_living(ws0.tiled, d, w);
                lemma_count_living(ws0.floating, d, w);
                lemma_count_contains(living(ws0.tiled, d), w);
                lemma_count_contains(living(ws0.floating, d), w);
            }
            let t = match ws0.fullscreen {
                Some(f) => s.act(Action::Topmost(f, false)),
                None => s,
            };
            lemma_acts_valid(t.desk);
            let d = t.desk.act(Action::Topmost(w, true));
            lemma_as_valid_then(s.desk, t.desk, d);
            assert(s.desk.valid(w) ==> living(ws0.tiled, d).contains(w) || living(
                ws0.floating,
                d,
            ).contains(w));
        },
    }
}

/// Pinning an app where it is pinned removes the rule; anywhere else it makes
/// this workspace its home.
pub proof fn law_pin_toggles(s: World)
    ensures
        s.pin_change() matches Some((key, Some(n))) ==> s.pinned().wm.cfg.app_rules.contains_key(
            key,
        ) && s.pinned().wm.cfg.app_rules[key] == n && s.pinned().pin_change() == Some(
            (key, None::<usize>),
        ),
        s.pin_change() matches Some((key, None)) ==> !s.pinned().wm.cfg.app_rules.contains_key(key),
{
}

/// Going one on and one back ends where it began.
pub proof fn law_steps_undo(i: int, count: int, forward: bool)
    requires
        0 <= i < count,
    ensures
        0 <= super::spaces::stepped(i, count, forward) < count,
        super::spaces::stepped(super::spaces::stepped(i, count, forward), count, !forward) == i,
{
}

/// Exchanging the same two places twice changes nothing.
pub proof fn law_swap_undoes_itself(s: Seq<Window>, i: int, j: int)
    requires
        0 <= i < s.len(),
        0 <= j < s.len(),
    ensures
        swapped(swapped(s, i, j), i, j) =~= s,
        swapped(s, i, j)[i] == s[j],
        swapped(s, i, j)[j] == s[i],
{
}

// ----------------------------------------------------------------- borders

/// Only the focused window gets the accent border.
pub proof fn law_only_focus_is_accented(list: Seq<Window>, focused: Option<Window>, color: u32, i: int)
    requires
        0 <= i < list.len(),
    ensures
        super::tiling::marks(list, focused, color)[i] == Action::Border(
            list[i],
            if focused == Some(list[i]) {
                Some(color)
            } else {
                None
            },
        ),
{
}

} // verus!
