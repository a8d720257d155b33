//! Commands that change the shape of the focused window: growing, floating,
//! monocle and fullscreen; and drags with the mouse.

use super::desktop::{Action, DeskView, Desktop};
use super::state::{lemma_with_ws, world, WindowManager, WmView, World, WsView};
use super::tiling::{fill_ratios, lemma_retiled_keeps};
use crate::layout::{clip, distance, divided, dwindle, larger, most, quot, resize_ratios, resized, sat, slots, Rect};
use crate::lists::{contains_window, place, position, swap_places, swapped};
use crate::single::{scaled, Factor, GROW, SHRINK};
use crate::window::Window;
use vstd::prelude::*;

verus! {

/// A rectangle made 1.08 times as large or as small about its middle, at least
/// 200 by 150 pixels.
pub open spec fn rescaled(r: Rect, grow: bool) -> Rect {
    let f = if grow {
        GROW as int
    } else {
        SHRINK as int
    };
    let w = most(scaled(r.w as int, f) as i32, 200);
    let h = most(scaled(r.h as int, f) as i32, 150);
    Rect { x: sat(r.x - quot(w - r.w, 2)), y: sat(r.y - quot(h - r.h, 2)), w, h }
}

/// A rectangle grown or shrunk about its middle.
pub fn rescale(r: Rect, grow: bool) -> (s: Rect)
    ensures
        s == rescaled(r, grow),
{
    let f = if grow {
        Factor { units: GROW }
    } else {
        Factor { units: SHRINK }
    };
    let w: i32 = larger(f.times(r.w), 200);
    let h: i32 = larger(f.times(r.h), 150);
    Rect {
        x: clip(r.x as i64 - divided(w as i64 - r.w as i64, 2)),
        y: clip(r.y as i64 - divided(h as i64 - r.h as i64, 2)),
        w,
        h,
    }
}

/// The first of `list` other than `w` that lies under a point, from `i` on.
pub open spec fn under(list: Seq<Window>, w: Window, d: DeskView, i: int) -> Option<int>
    decreases list.len() - i,
{
    if i >= list.len() {
        None
    } else if list[i] != w && d.rect_of(list[i]).holds(d.cursor_x as int, d.cursor_y as int) {
        Some(i)
    } else {
        under(list, w, d, i + 1)
    }
}

fn find_under(list: &Vec<Window>, w: Window, desk: &Desktop) -> (r: Option<usize>)
    ensures
        match r {
            Some(i) => under(list@, w, desk@, 0) == Some(i as int) && i < list.len(),
            None => under(list@, w, desk@, 0) is None,
        },
{
    let mut i: usize = 0;
    while i < list.len()
        invariant
            i <= list.len(),
            under(list@, w, desk@, 0) == under(list@, w, desk@, i as int),
        decreases list.len() - i,
    {
        if list[i] != w && desk.rect(list[i]).contains(desk.cursor_x, desk.cursor_y) {
            return Some(i);
        }
        i = i + 1;
    }
    None
}

/// The drag changed the size, and not only by rounding.
pub open spec fn resized_by_hand(actual: Rect, slot: Rect) -> bool {
    distance(actual.w as int, slot.w as int) > 10 || distance(actual.h as int, slot.h as int) > 10
}

impl WsView {
    /// With the split of window `i` moved by one step: its own split, or the
    /// one before it for the last window, which grows as that one shrinks.
    pub open spec fn nudged(self, i: int, grow: bool) -> WsView {
        let n = self.tiled.len();
        let (k, g) = if i + 1 < n {
            (i, grow)
        } else {
            (i - 1, !grow)
        };
        WsView { ratios: self.ratios.update(k, self.ratios[k].stepped(g)), ..self }
    }
}

impl WsView {
    /// With `w` and the tiled window under the cursor exchanged, if there is
    /// one.
    pub open spec fn exchanged(self, w: Window, d: DeskView) -> WsView {
        match under(self.tiled, w, d, 0) {
            Some(dst) => WsView {
                tiled: swapped(self.tiled, place(self.tiled, w)->0, dst),
                ..self
            },
            None => self,
        }
    }
}

/// Of two changes to a workspace the later one counts.
proof fn lemma_set_twice(v: WmView, mi: int, wi: int, a: WsView)
    requires
        v.has(mi, wi),
    ensures
        v.set_ws(mi, wi, a).ws(mi, wi) == a,
        forall|b: WsView| #[trigger] v.set_ws(mi, wi, a).set_ws(mi, wi, b) == v.set_ws(mi, wi, b),
{
    assert forall|b: WsView| #[trigger] v.set_ws(mi, wi, a).set_ws(mi, wi, b) == v.set_ws(
        mi,
        wi,
        b,
    ) by {
        let x = v.set_ws(mi, wi, a).set_ws(mi, wi, b);
        let y = v.set_ws(mi, wi, b);
        assert(x.monitors[mi].workspaces =~= y.monitors[mi].workspaces);
        assert(x.monitors =~= y.monitors);
    }
}

impl World {
    /// `w` scaled about its middle.
    pub open spec fn scale(self, w: Window, grow: bool) -> World {
        self.act(
            Action::Glide(w, rescaled(self.desk.frame_of(w), grow), self.wm.cfg.animation_ms),
        )
    }

    /// The focused window grown or shrunk.
    pub open spec fn resize_focused(self, grow: bool) -> World {
        match self.focused_scratch() {
            Some(w) => self.scale(w, grow),
            None => match self.focused_window() {
                None => self,
                Some((w, mi, wi)) => {
                    let ws = self.wm.ws(mi, wi);
                    match place(ws.tiled, w) {
                        Some(i) => if ws.tiled.len() < 2 {
                            self
                        } else {
                            World {
                                wm: self.wm.set_ws(
                                    mi,
                                    wi,
                                    ws.split(self.wm.cfg).nudged(i, grow),
                                ),
                                ..self
                            }.retiled(mi)
                        },
                        None => self.scale(w, grow),
                    }
                },
            },
        }
    }

    /// The focused window made floating, or tiled again. A tiled one pops
    /// out to the middle of the work area.
    pub open spec fn toggle_float(self) -> World {
        match self.focused_window() {
            None => self,
            Some((w, mi, wi)) => {
                let ws = self.wm.ws(mi, wi);
                match place(ws.tiled, w) {
                    Some(i) => World {
                        wm: self.wm.set_ws(
                            mi,
                            wi,
                            WsView { tiled: ws.tiled.remove(i), ..ws }.float(w),
                        ),
                        ..self
                    }.act(
                        Action::Glide(
                            w,
                            self.wm.monitors[mi].work_area.popped_out(),
                            self.wm.cfg.animation_ms,
                        ),
                    ).retiled(mi),
                    None => match place(ws.floating, w) {
                        Some(i) => World {
                            wm: self.wm.set_ws(
                                mi,
                                wi,
                                WsView { floating: ws.floating.remove(i), ..ws }.tile(w),
                            ),
                            ..self
                        }.retiled(mi),
                        None => self.retiled(mi),
                    },
                }
            },
        }
    }

    /// The monocle layout of the focused monitor turned on or off.
    pub open spec fn toggle_monocle(self) -> World {
        let mi = self.focused_monitor();
        let ws = self.wm.shown_ws(mi);
        World {
            wm: self.wm.set_ws(
                mi,
                self.wm.monitors[mi].active as int,
                WsView { monocle: !ws.monocle, ..ws },
            ),
            ..self
        }.retiled(mi)
    }

    /// The focused window made to cover its whole monitor, or set back.
    pub open spec fn toggle_fullscreen(self) -> World {
        match self.focused_window() {
            None => self,
            Some((w, mi, wi)) => {
                let ws = self.wm.ws(mi, wi);
                let s = if ws.fullscreen == Some(w) {
                    World {
                        wm: self.wm.set_ws(mi, wi, WsView { fullscreen: None, ..ws }),
                        ..self
                    }.act(Action::Topmost(w, false))
                } else {
                    let t = match ws.fullscreen {
                        Some(f) => self.act(Action::Topmost(f, false)),
                        None => self,
                    };
                    World {
                        wm: self.wm.set_ws(mi, wi, WsView { fullscreen: Some(w), ..ws }),
                        ..t
                    }.act(Action::Topmost(w, true))
                };
                s.retiled(mi).act(Action::PaintBorders)
            },
        }
    }

    /// The workspace after `w` was dragged: its ratios filled in and, when
    /// the drag changed the size, following the dragged edges.
    pub open spec fn drag_resized(self, mi: int, wi: int, w: Window) -> (WsView, bool) {
        let ws = self.wm.ws(mi, wi);
        let n = ws.tiled.len();
        if ws.monocle || n < 2 {
            (ws, false)
        } else {
            let t = ws.split(self.wm.cfg);
            let area = self.wm.monitors[mi].work_area.shrunk(self.wm.cfg.outer_gap as int);
            let gap = self.wm.cfg.inner_gap as int;
            match place(ws.tiled, w) {
                None => (t, false),
                Some(i) => {
                    let actual = self.desk.frame_of(w);
                    if resized_by_hand(actual, slots(area, n, t.ratios, gap)[i]) {
                        (
                            WsView {
                                ratios: resized(area, n, t.ratios, gap, i, actual),
                                ..t
                            },
                            true,
                        )
                    } else {
                        (t, false)
                    }
                },
            }
        }
    }

    /// A drag of `w` has ended. Dropped on a workspace of the bar, it is sent
    /// there. Resized, the splits follow. Dropped on another tiled window,
    /// the two exchange their slots.
    pub open spec fn drag_end(self, w: Window, drop: Option<(isize, usize)>) -> World {
        if drop is Some && self.wm.is_managed(w) {
            self.send_window_to(w, (drop->0).0, (drop->0).1 as int)
        } else {
            match self.wm.find(w) {
                None => self,
                Some((mi, wi)) => if wi != self.wm.monitors[mi].active || !self.wm.ws(
                    mi,
                    wi,
                ).tiled.contains(w) {
                    self
                } else {
                    let (ws, done) = self.drag_resized(mi, wi, w);
                    if done {
                        World { wm: self.wm.set_ws(mi, wi, ws), ..self }.retiled(mi)
                    } else {
                        World {
                            wm: self.wm.set_ws(mi, wi, ws.exchanged(w, self.desk)),
                            ..self
                        }.retiled(mi)
                    }
                },
            }
        }
    }
}

impl WindowManager {
    fn scale_about_center(&self, desk: &mut Desktop, w: Window, grow: bool)
        ensures
            world(*self, *final(desk)) == world(*self, *old(desk)).scale(w, grow),
    {
        let r = desk.visible_rect(w);
        desk.glide(w, rescale(r, grow), self.config.animation_ms);
    }

    /// Grows or shrinks the focused window: a tiled one by its divider, a
    /// floating or parked one about its middle.
    pub fn resize_focused(&mut self, desk: &mut Desktop, grow: bool)
        requires
            old(self).wf(),
        ensures
            world(*final(self), *final(desk)) == world(*old(self), *old(desk)).resize_focused(grow),
            final(self).wf(),
            final(self).config == old(self).config,
            final(self).monitors.len() == old(self).monitors.len(),
    {
        if let Some(w) = self.focused_scratch(desk) {
            self.scale_about_center(desk, w, grow);
            return;
        }
        let (w, mi, wi): (Window, usize, usize) = match self.focused_window(desk) {
            Some(x) => x,
            None => {
                return;
            },
        };
        let ghost s = world(*self, *desk);
        let ghost before = self.monitors@;
        proof {
            assert(s.wm.monitors[mi as int] == before[mi as int]@);
        }
        match position(&self.monitors[mi].workspaces[wi].tiled, w) {
            Some(i) => {
                let n: usize = self.monitors[mi].workspaces[wi].tiled.len();
                if n < 2 {
                    return;
                }
                let split = self.config.split_ratio;
                fill_ratios(&mut self.monitors[mi].workspaces[wi].ratios, n - 1, split);
                let (k, g): (usize, bool) = if i + 1 < n {
                    (i, grow)
                } else {
                    (i - 1, !grow)
                };
                let next = self.monitors[mi].workspaces[wi].ratios[k].step(g);
                self.monitors[mi].workspaces[wi].ratios.set(k, next);
                proof {
                    lemma_with_ws(before, self.monitors@, mi as int, wi as int);
                    let ws = s.wm.ws(mi as int, wi as int);
                    assert(self.monitors@[mi as int].workspaces@[wi as int]@ =~= ws.split(
                        s.wm.cfg,
                    ).nudged(i as int, grow));
                    assert(self@ =~= s.wm.set_ws(
                        mi as int,
                        wi as int,
                        ws.split(s.wm.cfg).nudged(i as int, grow),
                    ));
                    lemma_retiled_keeps(world(*self, *desk), mi as int);
                }
                self.retile_monitor(desk, mi);
                proof {
                    assert(self@.monitors.len() == s.wm.monitors.len());
                }
            },
            None => {
                self.scale_about_center(desk, w, grow);
            },
        }
    }

    /// Makes the focused window float, or tile again.
    pub fn toggle_float(&mut self, desk: &mut Desktop)
        requires
            old(self).wf(),
        ensures
            world(*final(self), *final(desk)) == world(*old(self), *old(desk)).toggle_float(),
            final(self).wf(),
            final(self).config == old(self).config,
            final(self).monitors.len() == old(self).monitors.len(),
    {
        let (w, mi, wi): (Window, usize, usize) = match self.focused_window(desk) {
            Some(x) => x,
            None => {
                return;
            },
        };
        let ghost s = world(*self, *desk);
        let ghost before = self.monitors@;
        let ghost ws = s.wm.ws(mi as int, wi as int);
        proof {
            assert(s.wm.monitors[mi as int] == before[mi as int]@);
        }
        if let Some(i) = position(&self.monitors[mi].workspaces[wi].tiled, w) {
            let _ = self.monitors[mi].workspaces[wi].tiled.remove(i);
            self.monitors[mi].workspaces[wi].floating.push(w);
            let wa = self.monitors[mi].work_area;
            desk.glide(w, wa.pop_out(), self.config.animation_ms);
            proof {
                lemma_with_ws(before, self.monitors@, mi as int, wi as int);
                assert(self@ =~= s.wm.set_ws(
                    mi as int,
                    wi as int,
                    WsView { tiled: ws.tiled.remove(i as int), ..ws }.float(w),
                ));
            }
        } else if let Some(i) = position(&self.monitors[mi].workspaces[wi].floating, w) {
            let _ = self.monitors[mi].workspaces[wi].floating.remove(i);
            self.monitors[mi].workspaces[wi].tiled.push(w);
            proof {
                lemma_with_ws(before, self.monitors@, mi as int, wi as int);
                assert(self@ =~= s.wm.set_ws(
                    mi as int,
                    wi as int,
                    WsView { floating: ws.floating.remove(i as int), ..ws }.tile(w),
                ));
            }
        }
        proof {
            lemma_retiled_keeps(world(*self, *desk), mi as int);
        }
        self.retile_monitor(desk, mi);
        proof {
            assert(self@.monitors.len() == s.wm.monitors.len());
        }
    }

    /// Turns the monocle layout of the focused monitor on or off.
    pub fn toggle_monocle(&mut self, desk: &mut Desktop)
        requires
            old(self).wf(),
            old(self).monitors.len() > 0,
        ensures
            world(*final(self), *final(desk)) == world(*old(self), *old(desk)).toggle_monocle(),
            final(self).wf(),
            final(self).config == old(self).config,
            final(self).monitors.len() == old(self).monitors.len(),
    {
        let mi: usize = self.focused_monitor(desk);
        let ghost s = world(*self, *desk);
        let ghost before = self.monitors@;
        proof {
            assert(s.wm.monitors[mi as int] == before[mi as int]@);
        }
        let wi: usize = self.monitors[mi].active;
        let on = self.monitors[mi].workspaces[wi].monocle;
        self.monitors[mi].workspaces[wi].monocle = !on;
        proof {
            lemma_with_ws(before, self.monitors@, mi as int, wi as int);
            let ws = s.wm.shown_ws(mi as int);
            assert(self@ =~= s.wm.set_ws(
                mi as int,
                wi as int,
                WsView { monocle: !ws.monocle, ..ws },
            ));
            lemma_retiled_keeps(world(*self, *desk), mi as int);
        }
        self.retile_monitor(desk, mi);
        proof {
            assert(self@.monitors.len() == s.wm.monitors.len());
        }
    }

    /// Makes the focused window of a workspace cover its whole monitor, bar
    /// included, or sets it back.
    pub fn toggle_workspace_fullscreen(&mut self, desk: &mut Desktop)
        requires
            old(self).wf(),
        ensures
            world(*final(self), *final(desk)) == world(*old(self), *old(desk)).toggle_fullscreen(),
            final(self).wf(),
            final(self).config == old(self).config,
            final(self).monitors.len() == old(self).monitors.len(),
    {
        let (w, mi, wi): (Window, usize, usize) = match self.focused_window(desk) {
            Some(x) => x,
            None => {
                return;
            },
        };
        let ghost s = world(*self, *desk);
        let ghost before = self.monitors@;
        let ghost ws = s.wm.ws(mi as int, wi as int);
        proof {
            assert(s.wm.monitors[mi as int] == before[mi as int]@);
        }
        let was = self.monitors[mi].workspaces[wi].fullscreen;
        let same = match was {
            Some(f) => f == w,
            None => false,
        };
        if same {
            self.monitors[mi].workspaces[wi].fullscreen = None;
            desk.set_topmost(w, false);
        } else {
            if let Some(f) = was {
                desk.set_topmost(f, false);
            }
            self.monitors[mi].workspaces[wi].fullscreen = Some(w);
            desk.set_topmost(w, true);
        }
        proof {
            lemma_with_ws(before, self.monitors@, mi as int, wi as int);
            assert(self@ =~= s.wm.set_ws(
                mi as int,
                wi as int,
                WsView {
                    fullscreen: if same {
                        None
                    } else {
                        Some(w)
                    },
                    ..ws
                },
            ));
            lemma_retiled_keeps(world(*self, *desk), mi as int);
        }
        self.retile_monitor(desk, mi);
        desk.act(Action::PaintBorders);
        proof {
            assert(self@.monitors.len() == s.wm.monitors.len());
        }
    }

    /// Folds a resize by the mouse back into the ratios. Says whether there
    /// was one.
    fn try_drag_resize(&mut self, desk: &Desktop, mi: usize, wi: usize, w: Window) -> (r: bool)
        requires
            old(self).wf(),
            old(self)@.has(mi as int, wi as int),
        ensures
            ({
                let s = world(*old(self), *desk);
                let (ws, done) = s.drag_resized(mi as int, wi as int, w);
                &&& r == done
                &&& final(self)@ == s.wm.set_ws(mi as int, wi as int, ws)
            }),
            final(self).wf(),
            final(self).config == old(self).config,
    {
        let ghost s = world(*self, *desk);
        let ghost before = self.monitors@;
        let ghost ws = s.wm.ws(mi as int, wi as int);
        proof {
            assert(s.wm.monitors[mi as int] == before[mi as int]@);
        }
        let n: usize = self.monitors[mi].workspaces[wi].tiled.len();
        if self.monitors[mi].workspaces[wi].monocle || n < 2 {
            proof {
                lemma_with_ws(before, self.monitors@, mi as int, wi as int);
                assert(self@ =~= s.wm.set_ws(mi as int, wi as int, ws));
            }
            return false;
        }
        let split = self.config.split_ratio;
        fill_ratios(&mut self.monitors[mi].workspaces[wi].ratios, n - 1, split);
        proof {
            lemma_with_ws(before, self.monitors@, mi as int, wi as int);
            assert(self.monitors@[mi as int].workspaces@[wi as int]@ =~= ws.split(s.wm.cfg));
            assert(self@ =~= s.wm.set_ws(mi as int, wi as int, ws.split(s.wm.cfg)));
        }
        let area = self.monitors[mi].work_area.shrink(self.config.outer_gap);
        let gap: i32 = self.config.inner_gap;
        let i: usize = match position(&self.monitors[mi].workspaces[wi].tiled, w) {
            Some(i) => i,
            None => {
                return false;
            },
        };
        let slots = dwindle(area, n, self.monitors[mi].workspaces[wi].ratios.as_slice(), gap);
        let slot = slots[i];
        let actual = desk.visible_rect(w);
        let dw: i64 = actual.w as i64 - slot.w as i64;
        let dh: i64 = actual.h as i64 - slot.h as i64;
        if -10 <= dw && dw <= 10 && -10 <= dh && dh <= 10 {
            return false;
        }
        resize_ratios(area, n, &mut self.monitors[mi].workspaces[wi].ratios, gap, i, actual);
        proof {
            lemma_with_ws(before, self.monitors@, mi as int, wi as int);
            let e = s.drag_resized(mi as int, wi as int, w).0;
            assert(self.monitors@[mi as int].workspaces@[wi as int]@ =~= e);
            assert(self@ =~= s.wm.set_ws(mi as int, wi as int, e));
        }
        true
    }

    /// Exchanges the slot of `w` with that of the window under the cursor.
    fn exchange(&mut self, desk: &Desktop, mi: usize, wi: usize, w: Window)
        requires
            old(self).wf(),
            old(self)@.has(mi as int, wi as int),
            old(self)@.ws(mi as int, wi as int).tiled.contains(w),
        ensures
            final(self)@ == old(self)@.set_ws(
                mi as int,
                wi as int,
                old(self)@.ws(mi as int, wi as int).exchanged(w, desk@),
            ),
            final(self).wf(),
            final(self).config == old(self).config,
    {
        let ghost before = self.monitors@;
        let ghost s = self@;
        proof {
            assert(s.monitors[mi as int] == before[mi as int]@);
        }
        if let Some(src) = position(&self.monitors[mi].workspaces[wi].tiled, w) {
            if let Some(dst) = find_under(&self.monitors[mi].workspaces[wi].tiled, w, desk) {
                swap_places(&mut self.monitors[mi].workspaces[wi].tiled, src, dst);
            }
        }
        proof {
            lemma_with_ws(before, self.monitors@, mi as int, wi as int);
            let e = s.ws(mi as int, wi as int).exchanged(w, desk@);
            assert(self.monitors@[mi as int].workspaces@[wi as int]@ =~= e);
            assert(self@ =~= s.set_ws(mi as int, wi as int, e));
        }
    }

    /// The end of a drag with the mouse.
    pub fn on_drag_end(&mut self, desk: &mut Desktop, w: Window, drop: Option<(isize, usize)>)
        requires
            old(self).wf(),
        ensures
            world(*final(self), *final(desk)) == world(*old(self), *old(desk)).drag_end(w, drop),
            final(self).wf(),
            final(self).config == old(self).config,
            final(self).monitors.len() == old(self).monitors.len(),
    {
        if let Some((handle, target)) = drop {
            if self.is_managed(w) {
                self.send_window_to(desk, w, handle, target);
                return;
            }
        }
        let (mi, wi): (usize, usize) = match self.find(w) {
            Some(x) => x,
            None => {
                return;
            },
        };
        let ghost s = world(*self, *desk);
        proof {
            assert(s.wm.monitors[mi as int] == self.monitors@[mi as int]@);
        }
        if wi != self.monitors[mi].active || !contains_window(
            &self.monitors[mi].workspaces[wi].tiled,
            w,
        ) {
            return;
        }
        if self.try_drag_resize(desk, mi, wi, w) {
            proof {
                lemma_retiled_keeps(world(*self, *desk), mi as int);
            }
            self.retile_monitor(desk, mi);
            proof {
                assert(self@.monitors.len() == s.wm.monitors.len());
            }
            return;
        }
        let ghost ws = s.drag_resized(mi as int, wi as int, w).0;
        proof {
            lemma_set_twice(s.wm, mi as int, wi as int, ws);
        }
        self.exchange(desk, mi, wi, w);
        proof {
            lemma_retiled_keeps(world(*self, *desk), mi as int);
        }
        self.retile_monitor(desk, mi);
        proof {
            assert(self@.monitors.len() == s.wm.monitors.len());
        }
    }
}

} // verus!
