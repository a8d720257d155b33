//! Windows get to where they are sent: another workspace, the master slot,
//! the place of another window, the scratchpad, the home of their app.

use super::census::{
    as_valid, lemma_acts_valid, lemma_census_at, lemma_count_contains, lemma_count_living,
    lemma_count_remove, unique, ws_count,
};
use super::desktop::{Action, DeskView};
use super::hiding::{disowned, lemma_hiding_keeps, owned_by};
use super::laws::{
    law_hidden_windows_are_remembered, law_shown_window_is_not_hidden, lemma_hide_all_same,
    lemma_hiding_same, lemma_under, lemma_unstowed_hidden, lemma_without_keeps,
};
use super::records::unkept;
use super::shaping::under;
use super::spaces::{lemma_hide_all_keeps, lemma_switch_keeps};
use super::state::{lemma_found, WmView, World, WsView};
use super::tiling::{lemma_retiled_keeps, living};
use super::WmEvent;
use crate::lists::{lemma_place, lemma_without, place, swapped, without};
use crate::window::Window;
use vstd::prelude::*;

verus! {

// ------------------------------------------------------------------ staying

/// From `s` to `t` every window that exists stays where it is.
pub open spec fn stays(s: World, t: World) -> bool {
    &&& t.wm.wf()
    &&& t.wm.cfg == s.wm.cfg
    &&& t.wm.monitors.len() == s.wm.monitors.len()
    &&& as_valid(s.desk, t.desk)
    &&& forall|mi: int, wi: int, w: Window|
        s.wm.has(mi, wi) && s.desk.valid(w) && s.wm.ws(mi, wi).tiled.contains(w)
            ==> #[trigger] t.wm.ws(mi, wi).tiled.contains(w)
    &&& forall|mi: int, wi: int, w: Window|
        s.wm.has(mi, wi) && s.desk.valid(w) && s.wm.ws(mi, wi).floating.contains(w)
            ==> #[trigger] t.wm.ws(mi, wi).floating.contains(w)
}

pub proof fn lemma_stays_then(s: World, t: World, u: World)
    requires
        s.wm.wf(),
        stays(s, t),
        stays(t, u),
    ensures
        stays(s, u),
{
    assert forall|w: Window| #[trigger] u.desk.valid(w) == s.desk.valid(w) by {
        assert(t.desk.valid(w) == s.desk.valid(w));
    }
    assert forall|mi: int, wi: int, w: Window|
        s.wm.has(mi, wi) && s.desk.valid(w) && s.wm.ws(mi, wi).tiled.contains(
            w,
        ) implies #[trigger] u.wm.ws(mi, wi).tiled.contains(w) by {
        assert(t.wm.ws(mi, wi).tiled.contains(w));
        assert(t.desk.valid(w));
        assert(t.wm.monitors[mi].workspaces.len() == s.wm.monitors[mi].workspaces.len());
    }
    assert forall|mi: int, wi: int, w: Window|
        s.wm.has(mi, wi) && s.desk.valid(w) && s.wm.ws(mi, wi).floating.contains(
            w,
        ) implies #[trigger] u.wm.ws(mi, wi).floating.contains(w) by {
        assert(t.wm.ws(mi, wi).floating.contains(w));
        assert(t.desk.valid(w));
        assert(t.wm.monitors[mi].workspaces.len() == s.wm.monitors[mi].workspaces.len());
    }
}

pub proof fn lemma_stays_put(s: World, t: World)
    requires
        s.wm.wf(),
        t.wm.monitors == s.wm.monitors,
        t.wm.cfg == s.wm.cfg,
        as_valid(s.desk, t.desk),
    ensures
        stays(s, t),
{
}

pub proof fn lemma_living_contains(list: Seq<Window>, d: DeskView, w: Window)
    ensures
        living(list, d).contains(w) <==> list.contains(w) && d.valid(w),
{
    lemma_count_living(list, d, w);
    lemma_count_contains(list, w);
    lemma_count_contains(living(list, d), w);
}

pub proof fn lemma_retiled_stays(s: World, mi: int)
    requires
        s.wm.wf(),
        0 <= mi < s.wm.monitors.len(),
    ensures
        stays(s, s.retiled(mi)),
{
    lemma_retiled_keeps(s, mi);
    lemma_acts_valid(s.desk);
    let t = s.retiled(mi);
    let d = s.desk;
    assert forall|w: Window| #[trigger] t.desk.valid(w) == s.desk.valid(w) by {}
    if !s.wm.paused {
        let a = s.wm.monitors[mi].active as int;
        let ws = s.wm.shown_ws(mi);
        assert(t.wm == s.wm.set_ws(mi, a, ws.settled(s.wm.cfg, d)));
        assert forall|m: int, wi: int, w: Window|
            s.wm.has(m, wi) && s.desk.valid(w) && s.wm.ws(m, wi).tiled.contains(
                w,
            ) implies #[trigger] t.wm.ws(m, wi).tiled.contains(w) by {
            lemma_living_contains(ws.tiled, d, w);
        }
        assert forall|m: int, wi: int, w: Window|
            s.wm.has(m, wi) && s.desk.valid(w) && s.wm.ws(m, wi).floating.contains(
                w,
            ) implies #[trigger] t.wm.ws(m, wi).floating.contains(w) by {
            lemma_living_contains(ws.floating, d, w);
        }
    }
}

pub proof fn lemma_act_stays(s: World, a: Action)
    requires
        s.wm.wf(),
    ensures
        stays(s, s.act(a)),
{
    lemma_acts_valid(s.desk);
    lemma_stays_put(s, s.act(a));
}

proof fn lemma_focus_stays(s: World, w: Window)
    requires
        s.wm.wf(),
    ensures
        stays(s, World { desk: s.desk.focused(w), ..s }),
        stays(s, s.focused_on(w)),
{
    lemma_acts_valid(s.desk);
    let t = World { desk: s.desk.focused(w), ..s };
    assert(as_valid(s.desk, t.desk));
    lemma_stays_put(s, t);
    lemma_act_stays(t, Action::PaintBorders);
    lemma_stays_then(s, t, s.focused_on(w));
}

proof fn lemma_hide_stays(s: World, w: Window)
    requires
        s.wm.wf(),
    ensures
        stays(s, s.hide_managed(w)),
        stays(s, s.show_managed(w)),
{
    lemma_hiding_same(s, w);
    lemma_hiding_keeps(s, w);
    lemma_stays_put(s, s.hide_managed(w));
    lemma_stays_put(s, s.show_managed(w));
}

pub proof fn lemma_switch_stays(s: World, mi: int, target: int)
    requires
        s.wm.wf(),
        0 <= mi,
        0 <= target,
    ensures
        stays(s, s.switch_on(mi, target)),
{
    lemma_acts_valid(s.desk);
    if s.wm.paused || mi >= s.wm.monitors.len() || target >= s.wm.monitors[mi].workspaces.len()
        || target == s.wm.monitors[mi].active {
        lemma_stays_put(s, s);
    } else {
        let list = s.wm.shown_ws(mi).all();
        let h = s.hide_all(list);
        lemma_hide_all_same(s, list);
        lemma_hide_all_keeps(s, list);
        lemma_stays_put(s, h);
        let a = h.activated(mi, target as usize);
        assert(stays(h, a)) by {
            lemma_acts_valid(h.desk);
        }
        lemma_stays_then(s, h, a);
        let into = a.wm.ws(mi, target).all();
        let b = a.show_all(into);
        lemma_hide_all_same(a, into);
        lemma_hide_all_keeps(a, into);
        lemma_stays_put(a, b);
        lemma_stays_then(s, a, b);
        let c = b.act(Action::Journal);
        lemma_act_stays(b, Action::Journal);
        lemma_stays_then(s, b, c);
        let d = c.retiled(mi);
        lemma_retiled_stays(c, mi);
        lemma_stays_then(s, c, d);
        let e = d.landed(mi);
        lemma_acts_valid(d.desk);
        assert(as_valid(d.desk, e.desk));
        lemma_stays_put(d, e);
        lemma_stays_then(s, d, e);
        lemma_act_stays(e, Action::PaintBorders);
        lemma_stays_then(s, e, e.act(Action::PaintBorders));
    }
}

proof fn lemma_followed_stays(s: World, w: Window, tmi: int, target: int)
    requires
        s.wm.wf(),
        0 <= tmi,
        0 <= target,
    ensures
        stays(s, s.followed(w, tmi, target)),
{
    if s.wm.cfg.follow_moved_window {
        let t = s.switch_on(tmi, target);
        lemma_switch_stays(s, tmi, target);
        lemma_focus_stays(t, w);
        lemma_stays_then(s, t, World { desk: t.desk.focused(w), ..t });
    } else {
        let t = s.hide_managed(w);
        lemma_hide_stays(s, w);
        lemma_act_stays(t, Action::Journal);
        lemma_stays_then(s, t, t.act(Action::Journal));
    }
}

// ---------------------------------------------------------------- switching

proof fn lemma_shown_all(s: World, list: Seq<Window>, x: Window)
    ensures
        s.show_all(list).wm.hidden.contains(x) ==> s.wm.hidden.contains(x) && !list.contains(x),
    decreases list.len(),
{
    if list.len() > 0 {
        let front = list.drop_last();
        let w = list.last();
        lemma_shown_all(s, front, x);
        let t = s.show_all(front);
        law_shown_window_is_not_hidden(t, w);
        let d = World {
            wm: WmView {
                hidden: without(t.wm.hidden, w),
                companions: disowned(t.wm.companions, w),
                ..t.wm
            },
            desk: t.desk.shown(w),
        };
        lemma_without_keeps(t.wm.hidden, w, x);
        lemma_unstowed_hidden(d, owned_by(t.wm.companions, w), x);
        if list.contains(x) && x != w {
            let i = choose|i: int| 0 <= i < list.len() && list[i] == x;
            assert(front[i] == x);
        }
    }
}

/// Switching to a workspace shows it, and none of its windows is hidden on
/// purpose any more.
pub proof fn law_switch_shows_the_target(s: World, mi: int, target: int, w: Window)
    requires
        s.wm.wf(),
        !s.wm.paused,
        0 <= mi < s.wm.monitors.len(),
        0 <= target < s.wm.cfg.workspaces,
        target != s.wm.monitors[mi].active,
    ensures
        s.switch_on(mi, target).wm.monitors[mi].active == target,
        s.wm.ws(mi, target).holds(w) ==> !s.switch_on(mi, target).wm.hidden.contains(w),
{
    lemma_switch_keeps(s, mi, target);
    let list = s.wm.shown_ws(mi).all();
    let h = s.hide_all(list);
    lemma_hide_all_keeps(s, list);
    let a = h.activated(mi, target as usize);
    let ws = a.wm.ws(mi, target);
    let into = ws.all();
    if s.wm.ws(mi, target).holds(w) {
        lemma_all_contains(ws, w);
        lemma_shown_all(a, into, w);
    }
    lemma_hide_all_keeps(a, into);
    let c = a.show_all(into).act(Action::Journal);
    lemma_retiled_keeps(c, mi);
}

pub proof fn lemma_all_contains(ws: WsView, w: Window)
    ensures
        ws.holds(w) ==> ws.all().contains(w),
{
    if ws.tiled.contains(w) {
        let i = choose|i: int| 0 <= i < ws.tiled.len() && ws.tiled[i] == w;
        assert(ws.all()[i] == w);
    }
    if ws.floating.contains(w) {
        let i = choose|i: int| 0 <= i < ws.floating.len() && ws.floating[i] == w;
        assert(ws.all()[ws.tiled.len() + i] == w);
    }
}

// ------------------------------------------------------------------- moving

proof fn lemma_relocated_holds(
    s: World,
    w: Window,
    mi: int,
    wi: int,
    tmi: int,
    twi: int,
    floats: bool,
)
    requires
        s.wm.wf(),
        s.wm.has(mi, wi),
        s.wm.has(tmi, twi),
    ensures
        s.relocated(w, mi, wi, tmi, twi, floats).wm.wf(),
        s.relocated(w, mi, wi, tmi, twi, floats).wm.ws(tmi, twi).holds(w),
        floats ==> s.relocated(w, mi, wi, tmi, twi, floats).wm.ws(tmi, twi).floating.contains(w),
        !floats ==> s.relocated(w, mi, wi, tmi, twi, floats).wm.ws(tmi, twi).tiled.contains(w),
{
    let a = s.wm.set_ws(mi, wi, s.wm.ws(mi, wi).removed(w));
    let ws = a.ws(tmi, twi);
    if floats {
        assert(ws.floating.push(w)[ws.floating.len() as int] == w);
    } else {
        assert(ws.tiled.push(w)[ws.tiled.len() as int] == w);
    }
}

/// The focused window gets to the workspace that it is moved to, tiled there
/// if it was tiled, floating if it floated.
pub proof fn law_moved_window_arrives(s: World, target: int)
    requires
        s.wm.wf(),
        0 <= target < s.wm.cfg.workspaces,
    ensures
        s.focused_window() matches Some((w, mi, wi)) ==> (s.desk.valid(w)
            ==> s.move_to_workspace(target).wm.ws(mi, target).holds(w) && (s.wm.ws(
            mi,
            wi,
        ).tiled.contains(w) ==> s.move_to_workspace(target).wm.ws(mi, target).tiled.contains(w))
            && (!s.wm.ws(mi, wi).tiled.contains(w) ==> s.move_to_workspace(target).wm.ws(
            mi,
            target,
        ).floating.contains(w))),
        s.move_to_workspace(target).wm.cfg == s.wm.cfg,
{
    lemma_found(s);
    if let Some((w, mi, wi)) = s.focused_window() {
        let mon = s.wm.monitors[mi];
        if target != wi {
            let floats = !mon.workspaces[wi].tiled.contains(w);
            let a = s.relocated(w, mi, wi, mi, target, floats);
            lemma_relocated_holds(s, w, mi, wi, mi, target, floats);
            lemma_acts_valid(a.desk);
            lemma_stays_put(a, a);
            let b = if target != mon.active {
                a.followed(w, mi, target)
            } else {
                a
            };
            if target != mon.active {
                lemma_followed_stays(a, w, mi, target);
            }
            lemma_retiled_stays(b, mi);
            lemma_stays_then(a, b, b.retiled(mi));
            lemma_act_stays(b.retiled(mi), Action::PaintBorders);
            lemma_stays_then(a, b.retiled(mi), s.move_to_workspace(target));
            assert(a.wm.has(mi, target));
        }
    }
}

/// The focused window, moved to a workspace that is not shown, is followed
/// there and stays in focus; or, where moved windows are not followed, it is
/// hidden on purpose.
pub proof fn law_moved_window_is_followed(s: World, target: int)
    requires
        s.wm.wf(),
        !s.wm.paused,
        0 <= target < s.wm.cfg.workspaces,
    ensures
        s.focused_window() matches Some((w, mi, wi)) ==> (target != wi && target
            != s.wm.monitors[mi].active ==> {
            let t = s.move_to_workspace(target);
            if s.wm.cfg.follow_moved_window {
                t.wm.monitors[mi].active == target && t.desk.foreground == Some(w)
            } else {
                t.wm.monitors[mi].active == s.wm.monitors[mi].active && t.wm.hidden.contains(w)
            }
        }),
{
    lemma_found(s);
    if let Some((w, mi, wi)) = s.focused_window() {
        let mon = s.wm.monitors[mi];
        if target != wi && target != mon.active {
            let floats = !mon.workspaces[wi].tiled.contains(w);
            let a = s.relocated(w, mi, wi, mi, target, floats);
            lemma_relocated_holds(s, w, mi, wi, mi, target, floats);
            let b = a.followed(w, mi, target);
            if s.wm.cfg.follow_moved_window {
                lemma_switch_keeps(a, mi, target);
            } else {
                lemma_hiding_keeps(a, w);
                law_hidden_windows_are_remembered(a, w, w);
            }
            lemma_retiled_keeps(b, mi);
        }
    }
}

/// A window pushed to another monitor gets to the workspace that is shown
/// there, and is in focus.
pub proof fn law_pushed_window_arrives(s: World, w: Window, mi: int, wi: int, tmi: int)
    requires
        s.wm.wf(),
        s.wm.has(mi, wi),
        0 <= tmi < s.wm.monitors.len(),
        s.desk.valid(w),
    ensures
        s.move_to_monitor(w, mi, wi, tmi).wm.shown_ws(tmi).holds(w),
        s.move_to_monitor(w, mi, wi, tmi).desk.foreground == Some(w),
{
    let twi = s.wm.monitors[tmi].active as int;
    let floats = s.wm.ws(mi, wi).floating.contains(w);
    let a = s.relocated(w, mi, wi, tmi, twi, floats);
    lemma_relocated_holds(s, w, mi, wi, tmi, twi, floats);
    let glide = Action::Glide(
        w,
        s.wm.monitors[tmi].work_area.popped_out(),
        s.wm.cfg.animation_ms,
    );
    let b = if floats {
        a.act(glide)
    } else {
        a
    };
    lemma_act_stays(a, glide);
    lemma_acts_valid(a.desk);
    lemma_stays_put(a, a);
    lemma_retiled_stays(b, mi);
    lemma_retiled_keeps(b, mi);
    let c = b.retiled(mi);
    lemma_stays_then(a, b, c);
    lemma_retiled_stays(c, tmi);
    lemma_retiled_keeps(c, tmi);
    let d = c.retiled(tmi);
    lemma_stays_then(a, c, d);
    assert(a.wm.has(tmi, twi));
    assert(d.wm.monitors[tmi].active == twi);
    assert(d.wm.ws(tmi, twi).holds(w));
}

/// A window dropped on a workspace cell of the bar gets to that workspace, on
/// the monitor of that bar.
pub proof fn law_dropped_window_arrives(s: World, w: Window, handle: isize, target: usize)
    requires
        s.wm.wf(),
        s.wm.find(w) is Some,
        s.desk.valid(w),
        target < s.wm.cfg.workspaces,
    ensures
        s.handled(WmEvent::MoveSizeEnd(w, Some((handle, target)))).wm.ws(
            s.wm.index_of(handle),
            target as int,
        ).holds(w),
{
    lemma_found(s);
    let (mi, wi) = s.wm.find(w)->0;
    let tmi = s.wm.index_of(handle);
    let mon = s.wm.monitors[tmi];
    let t = target as int;
    if tmi == mi && t == wi {
        lemma_retiled_stays(s, mi);
    } else {
        let floats = s.wm.ws(mi, wi).floating.contains(w);
        let a = s.relocated(w, mi, wi, tmi, t, floats);
        lemma_relocated_holds(s, w, mi, wi, tmi, t, floats);
        lemma_acts_valid(a.desk);
        lemma_stays_put(a, a);
        let moves = s.wm.cfg.follow_moved_window || t != mon.active;
        let b = if moves {
            a.followed(w, tmi, t)
        } else {
            a
        };
        if moves {
            lemma_followed_stays(a, w, tmi, t);
        }
        lemma_retiled_stays(b, mi);
        let c = b.retiled(mi);
        lemma_stays_then(a, b, c);
        lemma_retiled_stays(c, tmi);
        let d = c.retiled(tmi);
        lemma_stays_then(a, c, d);
        lemma_act_stays(d, Action::PaintBorders);
        lemma_stays_then(a, d, d.act(Action::PaintBorders));
        assert(a.wm.has(tmi, t));
    }
}

// ----------------------------------------------------------------- swapping

pub proof fn lemma_living_all(list: Seq<Window>, d: DeskView)
    requires
        forall|i: int| 0 <= i < list.len() ==> d.valid(#[trigger] list[i]),
    ensures
        living(list, d) == list,
    decreases list.len(),
{
    if list.len() > 0 {
        let front = list.drop_last();
        assert forall|i: int| 0 <= i < front.len() implies d.valid(#[trigger] front[i]) by {
            assert(d.valid(list[i]));
        }
        lemma_living_all(front, d);
        assert(d.valid(list[list.len() - 1]));
        assert(front.push(list.last()) =~= list);
    }
}

/// A tiled window dropped on another one swaps slots with it, unless it was
/// resized.
pub proof fn law_dropped_window_swaps(s: World, w: Window, mi: int, wi: int, dst: int)
    requires
        s.wm.wf(),
        s.wm.find(w) == Some((mi, wi)),
        s.wm.monitors[mi].active == wi,
        s.wm.ws(mi, wi).tiled.contains(w),
        forall|x: Window| #[trigger] s.wm.ws(mi, wi).tiled.contains(x) ==> s.desk.valid(x),
        !s.drag_resized(mi, wi, w).1,
        under(s.wm.ws(mi, wi).tiled, w, s.desk, 0) == Some(dst),
    ensures
        s.handled(WmEvent::MoveSizeEnd(w, None)).wm.ws(mi, wi).tiled == swapped(
            s.wm.ws(mi, wi).tiled,
            place(s.wm.ws(mi, wi).tiled, w)->0,
            dst,
        ),
{
    lemma_found(s);
    let tiled = s.wm.ws(mi, wi).tiled;
    let ws = s.drag_resized(mi, wi, w).0;
    assert(ws.tiled == tiled);
    lemma_place(tiled, w);
    lemma_under(tiled, w, s.desk, 0);
    let src = place(tiled, w)->0;
    let b = swapped(tiled, src, dst);
    assert forall|i: int| 0 <= i < b.len() implies s.desk.valid(#[trigger] b[i]) by {
        assert(tiled.contains(tiled[i]));
        assert(tiled.contains(tiled[src]));
        assert(tiled.contains(tiled[dst]));
    }
    lemma_living_all(b, s.desk);
}

proof fn lemma_living_first(list: Seq<Window>, d: DeskView)
    requires
        list.len() > 0,
        d.valid(list[0]),
    ensures
        living(list, d).len() > 0,
        living(list, d)[0] == list[0],
    decreases list.len(),
{
    let front = list.drop_last();
    if front.len() > 0 {
        lemma_living_first(front, d);
    } else {
        assert(living(front, d) =~= Seq::empty());
        assert(list.last() == list[0]);
    }
}

/// A tiled window that is promoted gets the master slot.
pub proof fn law_promoted_window_leads(s: World)
    requires
        s.wm.wf(),
    ensures
        s.focused_window() matches Some((w, mi, wi)) ==> (s.desk.valid(w) && s.wm.ws(
            mi,
            wi,
        ).tiled.contains(w) ==> s.promote().wm.ws(mi, wi).tiled.len() > 0
            && s.promote().wm.ws(mi, wi).tiled[0] == w),
{
    lemma_found(s);
    if let Some((w, mi, wi)) = s.focused_window() {
        let ws = s.wm.ws(mi, wi);
        lemma_place(ws.tiled, w);
        if s.desk.valid(w) && ws.tiled.contains(w) {
            let list = ws.tiled.remove(place(ws.tiled, w)->0).insert(0, w);
            lemma_living_first(list, s.desk);
        }
    }
}

// ----------------------------------------------------------------- floating

/// A tiled window that is toggled floats, and a floating one is tiled, last.
pub proof fn law_float_toggles(s: World)
    requires
        s.wm.wf(),
        unique(s.wm),
    ensures
        s.focused_window() matches Some((w, mi, wi)) ==> (s.desk.valid(w) ==> {
            let a = s.wm.ws(mi, wi);
            let b = s.toggle_float().wm.ws(mi, wi);
            &&& a.tiled.contains(w) ==> b.floating.contains(w) && !b.tiled.contains(w)
            &&& a.floating.contains(w) ==> !b.floating.contains(w) && b.tiled.len() > 0
                && b.tiled.last() == w
        }),
{
    lemma_found(s);
    if let Some((w, mi, wi)) = s.focused_window() {
        let ws = s.wm.ws(mi, wi);
        let d = s.desk;
        lemma_place(ws.tiled, w);
        lemma_place(ws.floating, w);
        lemma_census_at(s.wm, mi, wi, w);
        assert(ws_count(ws, w) <= 1);
        lemma_count_contains(ws.tiled, w);
        lemma_count_contains(ws.floating, w);
        if s.desk.valid(w) {
            if let Some(i) = place(ws.tiled, w) {
                let a = ws.tiled.remove(i);
                lemma_count_remove(ws.tiled, i, w);
                lemma_count_contains(a, w);
                lemma_living_contains(a, d, w);
                let f = ws.floating.push(w);
                assert(f[ws.floating.len() as int] == w);
                lemma_living_contains(f, d, w);
                let glide = Action::Glide(
                    w,
                    s.wm.monitors[mi].work_area.popped_out(),
                    s.wm.cfg.animation_ms,
                );
                lemma_acts_valid(s.desk);
                lemma_living_seen(a, d, d.act(glide));
                lemma_living_seen(f, d, d.act(glide));
            } else if let Some(i) = place(ws.floating, w) {
                let f = ws.floating.remove(i);
                lemma_count_remove(ws.floating, i, w);
                lemma_count_contains(f, w);
                lemma_living_contains(f, d, w);
                let t = ws.tiled.push(w);
                assert(t.drop_last() =~= ws.tiled);
            }
        }
    }
}

/// Which windows live depends on which exist alone.
proof fn lemma_living_seen(list: Seq<Window>, d: DeskView, e: DeskView)
    requires
        as_valid(d, e),
    ensures
        living(list, e) == living(list, d),
    decreases list.len(),
{
    if list.len() > 0 {
        lemma_living_seen(list.drop_last(), d, e);
        assert(e.valid(list.last()) == d.valid(list.last()));
    }
}

// --------------------------------------------------------------- scratchpad

/// A managed window sent to the scratchpad is parked there, hidden.
pub proof fn law_parked_window_is_hidden(s: World)
    requires
        s.wm.wf(),
        s.focused_scratch() is None,
    ensures
        s.focused_window() matches Some((w, _, _)) ==> s.scratch_send().wm.scratch.contains(w)
            && s.scratch_send().wm.hidden.contains(w),
{
    lemma_found(s);
    if let Some((w, mi, wi)) = s.focused_window() {
        let e = s.evicted(w, mi, wi);
        let a = World { wm: WmView { scratch: e.wm.scratch.push(w), ..e.wm }, ..e };
        assert(a.wm.scratch[e.wm.scratch.len() as int] == w);
        lemma_hiding_keeps(a, w);
        law_hidden_windows_are_remembered(a, w, w);
        let b = a.hide_managed(w).act(Action::Journal);
        lemma_retiled_keeps(b, mi);
    }
}

proof fn lemma_showing_keeps_focus(s: World, list: Seq<Window>)
    ensures
        s.unstowed_all(list).desk.foreground == s.desk.foreground,
        s.unstowed_all(list).desk.cursor_monitor == s.desk.cursor_monitor,
    decreases list.len(),
{
    if list.len() > 0 {
        lemma_showing_keeps_focus(s, list.drop_last());
    }
}

/// A window sent while it is in the scratchpad, and only there, comes out: to
/// the workspace shown on the monitor of the cursor, hidden on purpose no
/// more.
pub proof fn law_pulled_window_comes_out(s: World)
    requires
        s.wm.wf(),
        s.wm.monitors.len() > 0,
    ensures
        s.focused_scratch() matches Some(w) ==> {
            let t = s.scratch_send();
            &&& !t.wm.scratch.contains(w)
            &&& !t.wm.hidden.contains(w)
            &&& s.desk.valid(w) && s.wm.find(w) is None ==> t.wm.shown_ws(
                s.wm.index_of(s.desk.cursor_monitor),
            ).holds(w)
        },
{
    if let Some(w) = s.focused_scratch() {
        lemma_without(s.wm.scratch, w);
        let a = World {
            wm: WmView {
                scratch: without(s.wm.scratch, w),
                rects: unkept(s.wm.rects, w),
                ..s.wm
            },
            ..s
        }.act(Action::Topmost(w, false));
        lemma_acts_valid(s.desk);
        lemma_without(a.wm.hidden, w);
        law_shown_window_is_not_hidden(a, w);
        lemma_hiding_keeps(a, w);
        lemma_hiding_same(a, w);
        let b = if a.desk.visible(w) {
            World { wm: WmView { hidden: without(a.wm.hidden, w), ..a.wm }, ..a }
        } else {
            a.show_managed(w)
        };
        assert(b.desk.valid(w) == s.desk.valid(w)) by {
            assert(a.desk.valid(w) == s.desk.valid(w));
        }
        lemma_found(b);
        let mi = b.focused_monitor();
        let wi = b.wm.monitors[mi].active as int;
        let ws = b.wm.shown_ws(mi).add(w, b.desk.floating(w, b.wm.cfg.rules));
        assert(ws.holds(w)) by {
            let old_ws = b.wm.shown_ws(mi);
            assert(old_ws.floating.push(w)[old_ws.floating.len() as int] == w);
            assert(old_ws.tiled.push(w)[old_ws.tiled.len() as int] == w);
        }
        let c = World { wm: b.wm.set_ws(mi, wi, ws), ..b };
        let d = if c.wm.scratch.len() == 0 {
            c.scratch_is(false)
        } else {
            c
        };
        let e = d.act(Action::Journal);
        lemma_act_stays(d, Action::Journal);
        lemma_retiled_keeps(e, mi);
        lemma_retiled_stays(e, mi);
        lemma_stays_then(d, e, e.retiled(mi));
        let f = e.retiled(mi);
        if s.desk.valid(w) && s.wm.find(w) is None {
            assert(d.wm.has(mi, wi));
            assert(d.desk.valid(w));
            assert(f.wm.ws(mi, wi).holds(w));
            let shown = World {
                wm: WmView {
                    hidden: without(a.wm.hidden, w),
                    companions: disowned(a.wm.companions, w),
                    ..a.wm
                },
                desk: a.desk.shown(w),
            };
            lemma_showing_keeps_focus(shown, owned_by(a.wm.companions, w));
            assert(mi == s.wm.index_of(s.desk.cursor_monitor));
        }
    }
}

// --------------------------------------------------------------------- pins

/// A new window of a pinned app goes to its home workspace, and is hidden
/// there if that is not shown.
pub proof fn law_pinned_app_goes_home(s: World, w: Window, n: usize)
    requires
        s.wm.wf(),
        s.wm.monitors.len() > 0,
        !s.wm.paused,
        !s.wm.is_managed(w),
        s.desk.valid(w),
        s.rule_for(w) == Some(n),
        1 <= n <= s.wm.cfg.workspaces,
    ensures
        ({
            let mi = s.wm.index_of(s.desk.monitor_of(w));
            let t = s.manage(w, true);
            &&& t.wm.ws(mi, n - 1).holds(w)
            &&& n - 1 != s.wm.monitors[mi].active ==> t.wm.hidden.contains(w)
        }),
{
    lemma_found(s);
    let mi = s.wm.index_of(s.desk.monitor_of(w));
    let wi = n - 1;
    assert(s.home_of(w, true, mi) == wi);
    let h = s.housed(w, true);
    let ws = s.wm.ws(mi, wi);
    if let Some(f) = s.desk.foreground {
        lemma_place(ws.tiled, f);
    }
    let at = s.slot_for(mi, wi);
    assert(h.wm.ws(mi, wi).holds(w)) by {
        assert(ws.floating.push(w)[ws.floating.len() as int] == w);
        assert(ws.tiled.insert(at, w)[at] == w);
    }
    assert(h.wm.has(mi, wi));
    if wi != s.wm.monitors[mi].active {
        let a = h.hide_managed(w);
        lemma_hide_stays(h, w);
        lemma_hiding_keeps(h, w);
        law_hidden_windows_are_remembered(h, w, w);
        lemma_act_stays(a, Action::Journal);
        lemma_act_stays(a.act(Action::Journal), Action::PaintBorders);
        lemma_stays_then(h, a, a.act(Action::Journal));
        lemma_stays_then(h, a.act(Action::Journal), s.manage(w, true));
    } else {
        let a = h.retiled(mi);
        lemma_retiled_stays(h, mi);
        lemma_act_stays(a, Action::PaintBorders);
        lemma_stays_then(h, a, s.manage(w, true));
    }
}

} // verus!
