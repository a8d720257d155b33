//! Windows are never hidden without a word in the journal: whatever a step
//! hides, it has the journal written afterwards.

use super::commands::lowest;
use super::desktop::{Action, DeskView};
use super::displays::{lowered, lowered_all, vanished};
use super::events::{plain_list, plain_monitors, plain_spaces};
use super::hiding::{disowned, owned_by};
use super::records::{kept, unkept};
use super::scratch::restored_size;
use super::spaces::stepped;
use super::state::{MonView, WmView, World, WsView};
use super::tiling::{moves, raises, spread, stacked};
use super::{Command, Dir, WmEvent};
use crate::config::workspace_count;
use crate::layout::{slots, Rect};
use crate::lists::{place, swapped, without};
use crate::monitor::MonitorInfo;
use crate::window::Window;
use vstd::prelude::*;

verus! {

/// Behind every window that is hidden, the journal is written.
pub open spec fn noted(a: Seq<Action>) -> bool {
    forall|i: int| 0 <= i < a.len() && (#[trigger] a[i]) is Hide ==> noted_after(a, i)
}

/// The journal is written somewhere behind place `i`.
pub open spec fn noted_after(a: Seq<Action>, i: int) -> bool {
    exists|j: int| i < j < a.len() && (#[trigger] a[j]) is Journal
}

/// Nothing is hidden.
pub open spec fn silent(a: Seq<Action>) -> bool {
    forall|i: int| 0 <= i < a.len() ==> !((#[trigger] a[i]) is Hide)
}

impl World {
    /// Whatever has been hidden so far, the journal was written afterwards.
    pub open spec fn keeps_journal(self) -> bool {
        noted(self.desk.actions)
    }
}

// ------------------------------------------------------------------- lists

proof fn lemma_silent_add(a: Seq<Action>, b: Seq<Action>)
    requires
        silent(b),
    ensures
        noted(a) ==> noted(a + b),
        silent(a) ==> silent(a + b),
{
    let c = a + b;
    if noted(a) {
        assert forall|i: int| 0 <= i < c.len() && (#[trigger] c[i]) is Hide implies noted_after(
            c,
            i,
        ) by {
            if i < a.len() {
                assert(a[i] == c[i]);
                let j = choose|j: int| i < j < a.len() && (#[trigger] a[j]) is Journal;
                assert(c[j] is Journal);
            } else {
                assert(b[i - a.len()] == c[i]);
            }
        }
    }
    if silent(a) {
        assert forall|i: int| 0 <= i < c.len() implies !((#[trigger] c[i]) is Hide) by {
            if i < a.len() {
                assert(a[i] == c[i]);
            } else {
                assert(b[i - a.len()] == c[i]);
            }
        }
    }
}

proof fn lemma_push(a: Seq<Action>, x: Action)
    ensures
        !(x is Hide) && noted(a) ==> noted(a.push(x)),
        !(x is Hide) && silent(a) ==> silent(a.push(x)),
        x is Journal ==> noted(a.push(x)),
{
    let c = a.push(x);
    if !(x is Hide) {
        lemma_silent_add(a, seq![x]);
        assert(a + seq![x] =~= c);
    }
    if x is Journal {
        assert forall|i: int| 0 <= i < c.len() && (#[trigger] c[i]) is Hide implies noted_after(
            c,
            i,
        ) by {
            assert(c[a.len() as int] is Journal);
        }
    }
}

proof fn lemma_stacked_silent(list: Seq<Window>, area: Rect, ms: u32, d: DeskView)
    ensures
        silent(stacked(list, area, ms, d)),
        silent(raises(list, d)),
    decreases list.len(),
{
    if list.len() > 0 {
        let front = list.drop_last();
        lemma_stacked_silent(front, area, ms, d);
        lemma_push(stacked(front, area, ms, d), Action::Glide(list.last(), area, ms));
        lemma_push(raises(front, d), Action::Raise(list.last()));
    }
}

proof fn lemma_plain_silent(mon: MonView, n: int)
    ensures
        silent(plain_spaces(mon, n)),
    decreases n,
{
    if n > 0 {
        lemma_plain_silent(mon, n - 1);
        lemma_silent_add(plain_spaces(mon, n - 1), plain_list(mon.workspaces[n - 1].all()));
    }
}

proof fn lemma_plain_monitors_silent(mons: Seq<MonView>, n: int)
    ensures
        silent(plain_monitors(mons, n)),
    decreases n,
{
    if n > 0 {
        lemma_plain_monitors_silent(mons, n - 1);
        let count = mons[n - 1].workspaces.len() as int;
        lemma_plain_silent(mons[n - 1], count);
        lemma_silent_add(plain_monitors(mons, n - 1), plain_spaces(mons[n - 1], count));
    }
}

// ------------------------------------------------------------------- steps

proof fn lemma_act(s: World, a: Action)
    ensures
        !(a is Hide) && s.keeps_journal() ==> s.act(a).keeps_journal(),
        a is Journal ==> s.act(a).keeps_journal(),
{
    lemma_push(s.desk.actions, a);
}

proof fn lemma_focus(s: World, w: Window)
    ensures
        s.keeps_journal() ==> (World { desk: s.desk.focused(w), ..s }).keeps_journal(),
        s.keeps_journal() ==> (World { desk: s.desk.focus_shell(), ..s }).keeps_journal(),
        s.keeps_journal() ==> s.focused_on(w).keeps_journal(),
{
    lemma_push(s.desk.actions, Action::Focus(w));
    lemma_push(s.desk.actions, Action::FocusShell);
    lemma_act(World { desk: s.desk.focused(w), ..s }, Action::PaintBorders);
}

proof fn lemma_retiled(s: World, mi: int)
    ensures
        s.keeps_journal() ==> s.retiled(mi).keeps_journal(),
        s.keeps_journal() ==> s.raise_floats(mi).keeps_journal(),
{
    let mon = s.wm.monitors[mi];
    let ws = s.wm.shown_ws(mi).settled(s.wm.cfg, s.desk);
    let area = ws.area(mon.work_area, s.wm.cfg);
    let ms = s.wm.cfg.animation_ms;
    lemma_stacked_silent(ws.tiled, area, ms, s.desk);
    let rects = slots(area, ws.tiled.len(), ws.ratios, s.wm.cfg.inner_gap as int);
    let tiles = if ws.monocle {
        stacked(ws.tiled, area, ms, s.desk)
    } else {
        spread(ws.tiled, rects, ms)
    };
    assert(silent(tiles));
    match ws.fullscreen {
        Some(f) => {
            lemma_push(tiles, Action::Glide(f, mon.bounds, ms));
        },
        None => {},
    }
    let all = moves(ws, mon, s.wm.cfg, s.desk);
    assert(silent(all));
    lemma_silent_add(s.desk.actions, all);
    lemma_stacked_silent(s.wm.shown_ws(mi).floating, area, ms, s.desk);
    lemma_silent_add(s.desk.actions, raises(s.wm.shown_ws(mi).floating, s.desk));
    let t = World {
        wm: s.wm.set_ws(mi, mon.active as int, ws),
        desk: s.desk.act_all(all),
    };
    lemma_stacked_silent(t.wm.shown_ws(mi).floating, area, ms, t.desk);
    lemma_silent_add(t.desk.actions, raises(t.wm.shown_ws(mi).floating, t.desk));
}

proof fn lemma_retiled_up_to(s: World, n: int)
    ensures
        s.keeps_journal() ==> s.retiled_up_to(n).keeps_journal(),
    decreases n,
{
    if n > 0 {
        lemma_retiled_up_to(s, n - 1);
        lemma_retiled(s.retiled_up_to(n - 1), n - 1);
    }
}

proof fn lemma_unstowed(s: World, list: Seq<Window>)
    ensures
        s.keeps_journal() ==> s.unstowed_all(list).keeps_journal(),
    decreases list.len(),
{
    if list.len() > 0 {
        lemma_unstowed(s, list.drop_last());
        lemma_push(s.unstowed_all(list.drop_last()).desk.actions, Action::Show(list.last()));
    }
}

proof fn lemma_show(s: World, w: Window)
    ensures
        s.keeps_journal() ==> s.show_managed(w).keeps_journal(),
{
    let t = World {
        wm: WmView {
            hidden: without(s.wm.hidden, w),
            companions: disowned(s.wm.companions, w),
            ..s.wm
        },
        desk: s.desk.shown(w),
    };
    lemma_push(s.desk.actions, Action::Show(w));
    lemma_unstowed(t, owned_by(s.wm.companions, w));
}

proof fn lemma_adopted(s: World, list: Seq<Window>)
    ensures
        s.adopted_all(list).desk == s.desk,
    decreases list.len(),
{
    if list.len() > 0 {
        lemma_adopted(s, list.drop_last());
    }
}

proof fn lemma_switch(s: World, mi: int, target: int)
    ensures
        s.keeps_journal() ==> s.switch_on(mi, target).keeps_journal(),
{
    let a = s.hide_all(s.wm.shown_ws(mi).all()).activated(mi, target as usize);
    let b = a.show_all(a.wm.ws(mi, target).all());
    let c = b.act(Action::Journal);
    lemma_act(b, Action::Journal);
    lemma_retiled(c, mi);
    let d = c.retiled(mi);
    let all = d.wm.shown_ws(mi).all();
    lemma_focus(d, all[0]);
    lemma_act(d.landed(mi), Action::PaintBorders);
}

proof fn lemma_followed(s: World, w: Window, tmi: int, target: int)
    ensures
        s.keeps_journal() ==> s.followed(w, tmi, target).keeps_journal(),
{
    lemma_switch(s, tmi, target);
    lemma_focus(s.switch_on(tmi, target), w);
    lemma_act(s.hide_managed(w), Action::Journal);
}

proof fn lemma_move(s: World, target: int)
    ensures
        s.keeps_journal() ==> s.move_to_workspace(target).keeps_journal(),
{
    if let Some((w, mi, wi)) = s.focused_window() {
        let mon = s.wm.monitors[mi];
        let a = s.relocated(w, mi, wi, mi, target, !mon.workspaces[wi].tiled.contains(w));
        lemma_followed(a, w, mi, target);
        let b = if target != mon.active {
            a.followed(w, mi, target)
        } else {
            a
        };
        lemma_retiled(b, mi);
        lemma_act(b.retiled(mi), Action::PaintBorders);
    }
}

proof fn lemma_send(s: World, w: Window, handle: isize, target: int)
    ensures
        s.keeps_journal() ==> s.send_window_to(w, handle, target).keeps_journal(),
{
    if let Some((mi, wi)) = s.wm.find(w) {
        let tmi = s.wm.index_of(handle);
        let mon = s.wm.monitors[tmi];
        lemma_retiled(s, mi);
        let a = s.relocated(w, mi, wi, tmi, target, s.wm.ws(mi, wi).floating.contains(w));
        lemma_followed(a, w, tmi, target);
        let b = if s.wm.cfg.follow_moved_window || target != mon.active {
            a.followed(w, tmi, target)
        } else {
            a
        };
        lemma_retiled(b, mi);
        lemma_retiled(b.retiled(mi), tmi);
        lemma_act(b.retiled(mi).retiled(tmi), Action::PaintBorders);
    }
}

proof fn lemma_swap_tiled(s: World, mi: int, wi: int, i: int, j: int)
    ensures
        s.keeps_journal() ==> s.swap_tiled(mi, wi, i, j).keeps_journal(),
{
    let ws = s.wm.ws(mi, wi);
    lemma_retiled(
        World {
            wm: s.wm.set_ws(
                mi,
                wi,
                WsView { tiled: swapped(ws.tiled, i, j), ..ws },
            ),
            ..s
        },
        mi,
    );
}

proof fn lemma_move_to_monitor(s: World, w: Window, mi: int, wi: int, tmi: int)
    ensures
        s.keeps_journal() ==> s.move_to_monitor(w, mi, wi, tmi).keeps_journal(),
{
    let floats = s.wm.ws(mi, wi).floating.contains(w);
    let a = s.relocated(w, mi, wi, tmi, s.wm.monitors[tmi].active as int, floats);
    let glide = Action::Glide(
        w,
        s.wm.monitors[tmi].work_area.popped_out(),
        s.wm.cfg.animation_ms,
    );
    lemma_act(a, glide);
    let b = if floats {
        a.act(glide)
    } else {
        a
    };
    lemma_retiled(b, mi);
    lemma_retiled(b.retiled(mi), tmi);
    let u = b.retiled(mi).retiled(tmi);
    lemma_focus(u, w);
    lemma_act(World { desk: u.desk.focused(w), ..u }, Action::PaintBorders);
}

proof fn lemma_swaps(s: World, dir: Dir, forward: bool)
    ensures
        s.keeps_journal() ==> s.swap_dir(dir).keeps_journal(),
        s.keeps_journal() ==> s.swap_neighbor(forward).keeps_journal(),
        s.keeps_journal() ==> s.promote().keeps_journal(),
{
    if let Some((f, mi, wi)) = s.focused_window() {
        let ws = s.wm.ws(mi, wi);
        let tiled = ws.tiled;
        if let Some(i) = place(tiled, f) {
            if let Some(dst) = lowest(s.scores(f, tiled, dir)) {
                lemma_swap_tiled(s, mi, wi, i, dst);
            }
            lemma_swap_tiled(s, mi, wi, i, stepped(i, tiled.len() as int, forward));
            lemma_retiled(
                World {
                    wm: s.wm.set_ws(
                        mi,
                        wi,
                        WsView { tiled: tiled.remove(i).insert(0, f), ..ws },
                    ),
                    ..s
                },
                mi,
            );
        }
        if let Some(tmi) = s.wm.monitor_in_dir(mi, dir) {
            lemma_move_to_monitor(s, f, mi, wi, tmi);
        }
    }
}

proof fn lemma_focuses(s: World, dir: Dir, forward: bool)
    ensures
        s.keeps_journal() ==> s.focus_dir(dir).keeps_journal(),
        s.keeps_journal() ==> s.focus_neighbor(forward).keeps_journal(),
{
    assert forall|w: Window| s.keeps_journal() implies #[trigger] s.focused_on(
        w,
    ).keeps_journal() by {
        lemma_focus(s, w);
    }
}

proof fn lemma_reshaped(s: World, grow: bool)
    ensures
        s.keeps_journal() ==> s.resize_focused(grow).keeps_journal(),
        s.keeps_journal() ==> s.toggle_float().keeps_journal(),
        s.keeps_journal() ==> s.toggle_monocle().keeps_journal(),
{
    assert forall|a: Action| s.keeps_journal() && !(a is Hide) implies #[trigger] s.act(
        a,
    ).keeps_journal() by {
        lemma_act(s, a);
    }
    let m = s.focused_monitor();
    let shown = s.wm.shown_ws(m);
    lemma_retiled(
        World {
            wm: s.wm.set_ws(
                m,
                s.wm.monitors[m].active as int,
                WsView { monocle: !shown.monocle, ..shown },
            ),
            ..s
        },
        m,
    );
    if let Some((w, mi, wi)) = s.focused_window() {
        let ws = s.wm.ws(mi, wi);
        lemma_retiled(s, mi);
        if let Some(i) = place(ws.tiled, w) {
            lemma_retiled(
                World {
                    wm: s.wm.set_ws(mi, wi, ws.split(s.wm.cfg).nudged(i, grow)),
                    ..s
                },
                mi,
            );
            let a = World {
                wm: s.wm.set_ws(
                    mi,
                    wi,
                    WsView { tiled: ws.tiled.remove(i), ..ws }.float(w),
                ),
                ..s
            };
            let glide = Action::Glide(
                w,
                s.wm.monitors[mi].work_area.popped_out(),
                s.wm.cfg.animation_ms,
            );
            lemma_act(a, glide);
            lemma_retiled(a.act(glide), mi);
        }
        if let Some(i) = place(ws.floating, w) {
            lemma_retiled(
                World {
                    wm: s.wm.set_ws(
                        mi,
                        wi,
                        WsView { floating: ws.floating.remove(i), ..ws }.tile(w),
                    ),
                    ..s
                },
                mi,
            );
        }
    }
}

proof fn lemma_fullscreen(s: World)
    ensures
        s.keeps_journal() ==> s.fullscreen_command().keeps_journal(),
{
    if let Some(w) = s.focused_scratch() {
        let mon = s.wm.monitors[s.wm.index_of(s.desk.monitor_of(w))];
        let cur = s.desk.frame_of(w);
        let ms = s.wm.cfg.animation_ms;
        let size = restored_size(s.wm.rects, w, mon.work_area, mon.bounds);
        let back = Action::Glide(w, mon.work_area.middle(size.0, size.1), ms);
        let full = Action::Glide(w, mon.bounds, ms);
        let a = World { wm: WmView { rects: kept(s.wm.rects, w, cur), ..s.wm }, ..s };
        lemma_act(s, back);
        lemma_act(s.act(back), Action::PaintBorders);
        lemma_act(a, full);
        lemma_act(a.act(full), Action::PaintBorders);
    } else if let Some((w, mi, wi)) = s.focused_window() {
        let ws = s.wm.ws(mi, wi);
        let off = World { wm: s.wm.set_ws(mi, wi, WsView { fullscreen: None, ..ws }), ..s };
        lemma_act(off, Action::Topmost(w, false));
        let t = match ws.fullscreen {
            Some(f) => s.act(Action::Topmost(f, false)),
            None => s,
        };
        if let Some(f) = ws.fullscreen {
            lemma_act(s, Action::Topmost(f, false));
        }
        let on = World {
            wm: s.wm.set_ws(mi, wi, WsView { fullscreen: Some(w), ..ws }),
            ..t
        };
        lemma_act(on, Action::Topmost(w, true));
        let u = if ws.fullscreen == Some(w) {
            off.act(Action::Topmost(w, false))
        } else {
            on.act(Action::Topmost(w, true))
        };
        lemma_retiled(u, mi);
        lemma_act(u.retiled(mi), Action::PaintBorders);
    }
}

proof fn lemma_scratch(s: World)
    ensures
        s.keeps_journal() ==> s.scratch_toggle().keeps_journal(),
        s.keeps_journal() ==> s.scratch_send().keeps_journal(),
        s.keeps_journal() ==> s.scratch_cycle().keeps_journal(),
{
    let p = s.scratch_pruned();
    lemma_toggle(s);
    lemma_toggle(p);
    if let Some(w) = s.focused_scratch() {
        lemma_pull(s, w);
    } else if let Some((w, mi, wi)) = s.focused_window() {
        let e = s.evicted(w, mi, wi);
        let a = World {
            wm: WmView { scratch: e.wm.scratch.push(w), ..e.wm },
            ..e
        }.hide_managed(w);
        lemma_act(a, Action::Journal);
        let b = a.act(Action::Journal);
        lemma_retiled(b, mi);
        lemma_act(b.retiled(mi), Action::PaintBorders);
    }
    assert forall|w: Window| s.keeps_journal() implies #[trigger] p.focused_on(
        w,
    ).keeps_journal() by {
        lemma_focus(p, w);
    }
    assert forall|w: Window| s.keeps_journal() implies #[trigger] p.show_managed(w).act(
        Action::Topmost(w, true),
    ).focused_on(w).keeps_journal() by {
        lemma_show(p, w);
        lemma_act(p.show_managed(w), Action::Topmost(w, true));
        lemma_focus(p.show_managed(w).act(Action::Topmost(w, true)), w);
    }
}

proof fn lemma_toggle(s: World)
    ensures
        s.keeps_journal() ==> s.scratch_toggle().keeps_journal(),
{
    let p = s.scratch_pruned();
    let list = p.wm.scratch;
    let a = p.tucked_all(list).scratch_is(false);
    lemma_act(a, Action::Journal);
    let b = a.act(Action::Journal);
    lemma_focus(b, b.wm.shown_ws(b.focused_monitor()).all()[0]);
    lemma_act(b.first_focused(), Action::PaintBorders);
    let wa = p.wm.monitors[p.focused_monitor()].work_area;
    let c = p.summoned_all(list, wa).scratch_is(true);
    lemma_act(c, Action::Journal);
    let d = c.act(Action::Journal);
    lemma_focus(d, list.last());
    lemma_act(World { desk: d.desk.focused(list.last()), ..d }, Action::PaintBorders);
}

/// A window comes out of the scratchpad with the journal written.
proof fn lemma_pull(s: World, w: Window)
    ensures
        s.scratch_pull(w).keeps_journal(),
{
    let a = World {
        wm: WmView {
            scratch: without(s.wm.scratch, w),
            rects: unkept(s.wm.rects, w),
            ..s.wm
        },
        ..s
    }.act(Action::Topmost(w, false));
    let b = if a.desk.visible(w) {
        World { wm: WmView { hidden: without(a.wm.hidden, w), ..a.wm }, ..a }
    } else {
        a.show_managed(w)
    };
    let mi = b.focused_monitor();
    let c = World {
        wm: b.wm.set_ws(
            mi,
            b.wm.monitors[mi].active as int,
            b.wm.shown_ws(mi).add(w, b.desk.floating(w, b.wm.cfg.rules)),
        ),
        ..b
    };
    let d = if c.wm.scratch.len() == 0 {
        c.scratch_is(false)
    } else {
        c
    };
    lemma_act(d, Action::Journal);
    lemma_retiled(d.act(Action::Journal), mi);
    lemma_focus(d.act(Action::Journal).retiled(mi), w);
}

proof fn lemma_manage(s: World, w: Window, apply_rules: bool)
    ensures
        s.keeps_journal() ==> s.manage(w, apply_rules).keeps_journal(),
        s.keeps_journal() ==> s.noticed(w, apply_rules).keeps_journal(),
{
    let mi = s.wm.index_of(s.desk.monitor_of(w));
    let h = s.housed(w, apply_rules);
    lemma_act(h.hide_managed(w), Action::Journal);
    lemma_retiled(h, mi);
    let t = if s.home_of(w, apply_rules, mi) != s.wm.monitors[mi].active {
        h.hide_managed(w).act(Action::Journal)
    } else {
        h.retiled(mi)
    };
    lemma_act(t, Action::PaintBorders);
}

/// A window is let go with the journal written.
proof fn lemma_unmanage(s: World, w: Window)
    ensures
        s.unmanage(w).keeps_journal(),
{
    let a = World {
        wm: WmView {
            scratch: without(s.wm.scratch, w),
            rects: unkept(s.wm.rects, w),
            ..s.wm
        },
        ..s
    };
    let b = match a.wm.find(w) {
        Some((mi, wi)) => a.evicted(w, mi, wi).act(Action::Border(w, None)).retiled(mi).act(
            Action::PaintBorders,
        ),
        None => a,
    };
    lemma_act(b.set_free(w), Action::Journal);
}

proof fn lemma_drag(s: World, w: Window, drop: Option<(isize, usize)>)
    ensures
        s.keeps_journal() ==> s.drag_end(w, drop).keeps_journal(),
{
    if let Some((handle, target)) = drop {
        lemma_send(s, w, handle, target as int);
    }
    if let Some((mi, wi)) = s.wm.find(w) {
        let (ws, done) = s.drag_resized(mi, wi, w);
        lemma_retiled(World { wm: s.wm.set_ws(mi, wi, ws), ..s }, mi);
        lemma_retiled(World { wm: s.wm.set_ws(mi, wi, ws.exchanged(w, s.desk)), ..s }, mi);
    }
}

proof fn lemma_rest(s: World, t: World)
    requires
        s.keeps_journal() ==> t.keeps_journal(),
    ensures
        s.keeps_journal() ==> t.retiled_all().act(Action::PaintBorders).keeps_journal(),
{
    lemma_retiled_up_to(t, t.wm.monitors.len() as int);
    lemma_act(t.retiled_all(), Action::PaintBorders);
}

proof fn lemma_lowered_silent(rest: Seq<WsView>)
    ensures
        silent(lowered(rest)),
    decreases rest.len(),
{
    if rest.len() > 0 {
        let front = rest.drop_last();
        lemma_lowered_silent(front);
        if let Some(f) = rest.last().fullscreen {
            lemma_push(lowered(front), Action::Topmost(f, false));
        }
    }
}

proof fn lemma_lowered_all_silent(gone: Seq<MonView>)
    ensures
        silent(lowered_all(gone)),
    decreases gone.len(),
{
    if gone.len() > 0 {
        lemma_lowered_all_silent(gone.drop_last());
        lemma_lowered_silent(gone.last().workspaces);
        lemma_silent_add(lowered_all(gone.drop_last()), lowered(gone.last().workspaces));
    }
}

proof fn lemma_refreshed_noted(s: World, fresh: Seq<MonitorInfo>)
    ensures
        s.keeps_journal() ==> s.refreshed(fresh).keeps_journal(),
{
    let gone = vanished(s.wm.monitors, fresh);
    let t = s.collapsed(fresh);
    lemma_lowered_all_silent(gone);
    lemma_silent_add(s.desk.actions, lowered_all(gone));
    lemma_act(t.synced_monitors(t.wm.monitors, t.wm.monitors.len() as int), Action::Journal);
}

// -------------------------------------------------------------------- laws

/// Whatever a command hides, the journal is written afterwards.
pub proof fn law_commands_keep_the_journal(s: World, cmd: Command, fresh: Seq<MonitorInfo>)
    requires
        s.keeps_journal(),
    ensures
        s.commanded(cmd, fresh).keeps_journal(),
{
    match cmd {
        Command::TogglePause => {
            let a = World { wm: WmView { paused: false, ..s.wm }, ..s };
            lemma_adopted(a, s.desk.order);
            lemma_rest(s, a.adopted_all(s.desk.order));
            let plain = plain_monitors(s.wm.monitors, s.wm.monitors.len() as int);
            lemma_plain_monitors_silent(s.wm.monitors, s.wm.monitors.len() as int);
            lemma_silent_add(s.desk.actions, plain);
        },
        Command::FocusDir(dir) => {
            lemma_focuses(s, dir, true);
        },
        Command::FocusNext | Command::FocusPrev => {
            lemma_focuses(s, Dir::Left, true);
            lemma_focuses(s, Dir::Left, false);
        },
        Command::SwapDir(dir) => {
            lemma_swaps(s, dir, true);
        },
        Command::SwapNext | Command::SwapPrev | Command::Promote => {
            lemma_swaps(s, Dir::Left, true);
            lemma_swaps(s, Dir::Left, false);
        },
        Command::GrowWindow | Command::ShrinkWindow | Command::ToggleFloat
        | Command::ToggleMonocle => {
            lemma_reshaped(s, true);
            lemma_reshaped(s, false);
        },
        Command::ToggleFullscreen => {
            lemma_fullscreen(s);
        },
        Command::CloseWindow => {
            if let Some((w, _, _)) = s.focused_window() {
                lemma_act(s, Action::Close(w));
            }
        },
        Command::SwitchWorkspace(n) => {
            lemma_switch(s, s.focused_monitor(), n as int);
        },
        Command::NextWorkspace | Command::PrevWorkspace => {
            let mi = s.focused_monitor();
            let mon = s.wm.monitors[mi];
            let n = mon.workspaces.len() as int;
            lemma_switch(s, mi, stepped(mon.active as int, n, true));
            lemma_switch(s, mi, stepped(mon.active as int, n, false));
        },
        Command::MoveToWorkspace(n) => {
            lemma_move(s, n as int);
        },
        Command::MoveNextWorkspace | Command::MovePrevWorkspace => {
            if let Some((w, mi, wi)) = s.focused_window() {
                let n = s.wm.monitors[mi].workspaces.len() as int;
                lemma_move(s, stepped(wi, n, true));
                lemma_move(s, stepped(wi, n, false));
            }
        },
        Command::ScratchToggle | Command::ScratchSend | Command::ScratchCycle => {
            lemma_scratch(s);
        },
        Command::Retile => {
            let a = s.refreshed(fresh);
            lemma_refreshed_noted(s, fresh);
            lemma_adopted(a, a.desk.order);
            lemma_rest(s, a.rescanned());
        },
        _ => {},
    }
}

/// Whatever is hidden in answer to an event, the journal is written
/// afterwards.
pub proof fn law_events_keep_the_journal(s: World, ev: WmEvent)
    requires
        s.keeps_journal(),
    ensures
        s.handled(ev).keeps_journal(),
{
    match ev {
        WmEvent::Shown(w) => {
            lemma_manage(s.not_hidden(w), w, true);
        },
        WmEvent::Restored(w) => {
            lemma_manage(s.not_hidden(w), w, false);
        },
        WmEvent::Hidden(w) => {
            lemma_unmanage(s, w);
        },
        WmEvent::Destroyed(w) => {
            lemma_unmanage(s, w);
        },
        WmEvent::MinimizeStart(w) => {
            lemma_unmanage(s, w);
        },
        WmEvent::Foreground(w) => {
            lemma_manage(s, w, true);
            let a = s.noticed(w, true);
            if let Some((mi, wi)) = a.wm.find(w) {
                lemma_retiled(a, mi);
            }
            lemma_act(a.refloated(w), Action::PaintBorders);
        },
        WmEvent::Retitled(w) => {
            lemma_manage(s, w, true);
        },
        WmEvent::MoveSizeEnd(w, drop) => {
            lemma_drag(s, w, drop);
        },
    }
}

/// Whatever is hidden as a window is brought up, as the displays change or as
/// workspaces are added or taken away, the journal is written afterwards.
pub proof fn law_changes_keep_the_journal(
    s: World,
    w: Window,
    fresh: Seq<MonitorInfo>,
    wanted: usize,
)
    requires
        s.keeps_journal(),
    ensures
        s.activate(w).keeps_journal(),
        s.display_change(fresh).keeps_journal(),
        s.set_workspace_count(wanted).keeps_journal(),
{
    match s.wm.find(w) {
        Some((mi, wi)) => {
            lemma_switch(s, mi, wi);
            lemma_focus(s, w);
            lemma_focus(s.switch_on(mi, wi), w);
        },
        None => {
            let a = s.show_managed(w).act(Action::Topmost(w, true)).scratch_is(true);
            lemma_act(a, Action::Journal);
            lemma_focus(a.act(Action::Journal), w);
            lemma_act(s, Action::PaintBorders);
        },
    }
    let b = s.redisplayed(fresh);
    lemma_act(b.synced_monitors(b.wm.monitors, b.wm.monitors.len() as int), Action::Journal);
    lemma_rest(s, b.sync_visibility());
    lemma_refreshed_noted(s, fresh);
    lemma_rest(s, s.refreshed(fresh));
    let n = workspace_count(wanted);
    let k = s.wm.monitors.len() as int;
    let c = s.in_range(n as int, k).cut_monitors(n as int, k).counting(n);
    lemma_act(c.synced_monitors(c.wm.monitors, c.wm.monitors.len() as int), Action::Journal);
    lemma_rest(s, c.sync_visibility());
}

} // verus!
