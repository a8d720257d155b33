//! The scratchpad: windows parked outside every workspace, shown as floating
//! overlays on demand.

use super::desktop::{Action, Desktop};
use super::hiding::lemma_hiding_keeps;
use super::records::{kept, rect_from, unkept, RectBook};
use super::state::{lemma_with_ws, world, WindowManager, WmView, World};
use super::tiling::{keep_living, lemma_retiled_keeps, living};
use crate::layout::{clip, distance, divided, least, quot, sat, smaller, Rect};
use crate::lists::{copied, leave_out, place, position, without};
use crate::window::Window;
use vstd::prelude::*;

verus! {

/// The size that a parked window is shown with: the remembered one, held to
/// the work area, or three fifths of it.
pub open spec fn parked_size(rects: Seq<(Window, Rect)>, w: Window, wa: Rect) -> (int, int) {
    match rect_from(rects, w, 0) {
        Some(r) => (least(r.w, wa.w) as int, least(r.h, wa.h) as int),
        None => wa.three_fifths(),
    }
}

/// Where the `i`th parked window is shown: in the middle, each one 40 pixels
/// further down and right.
pub open spec fn cascaded(wa: Rect, size: (int, int), i: int) -> Rect {
    Rect {
        x: sat(wa.x + quot(wa.w - size.0, 2) + 40 * i),
        y: sat(wa.y + quot(wa.h - size.1, 2) + 40 * i),
        w: sat(size.0),
        h: sat(size.1),
    }
}

/// A size of nearly that of `bounds`.
pub open spec fn covers(w: int, h: int, bounds: Rect) -> bool {
    distance(w, bounds.w as int) < 60 && distance(h, bounds.h as int) < 60
}

/// The size that a parked window returns to from fullscreen. A remembered
/// size that is nearly fullscreen does not count.
pub open spec fn restored_size(
    rects: Seq<(Window, Rect)>,
    w: Window,
    wa: Rect,
    bounds: Rect,
) -> (int, int) {
    let size = parked_size(rects, w, wa);
    if rect_from(rects, w, 0) is Some && covers(size.0, size.1, bounds) {
        wa.three_fifths()
    } else {
        size
    }
}

fn parked(rects: &RectBook, w: Window, wa: Rect) -> (r: (i32, i32))
    ensures
        r.0 == parked_size(rects@, w, wa).0,
        r.1 == parked_size(rects@, w, wa).1,
{
    match rects.rect_of(w) {
        Some(r) => (smaller(r.w, wa.w), smaller(r.h, wa.h)),
        None => wa.pop_size(),
    }
}

fn cascade(wa: Rect, size: (i32, i32), i: usize) -> (r: Rect)
    ensures
        r == cascaded(wa, (size.0 as int, size.1 as int), i as int),
{
    let off: i64 = if i > 0x4000_0000 {
        40 * 0x4000_0000
    } else {
        40 * i as i64
    };
    Rect {
        x: clip(wa.x as i64 + divided(wa.w as i64 - size.0 as i64, 2) + off),
        y: clip(wa.y as i64 + divided(wa.h as i64 - size.1 as i64, 2) + off),
        w: size.0,
        h: size.1,
    }
}

fn near_cover(w: i32, h: i32, bounds: Rect) -> (r: bool)
    ensures
        r == covers(w as int, h as int, bounds),
{
    let dw: i64 = w as i64 - bounds.w as i64;
    let dh: i64 = h as i64 - bounds.h as i64;
    -60 < dw && dw < 60 && -60 < dh && dh < 60
}

impl World {
    /// Parked windows that are gone forgotten.
    pub open spec fn scratch_pruned(self) -> World {
        World { wm: WmView { scratch: living(self.wm.scratch, self.desk), ..self.wm }, ..self }
    }

    pub open spec fn scratch_is(self, shown: bool) -> World {
        World { wm: WmView { scratch_shown: shown, ..self.wm }, ..self }
    }

    /// The parked window `w` tucked away, with its size remembered.
    pub open spec fn tucked(self, w: Window) -> World {
        if self.desk.visible(w) {
            World {
                wm: WmView { rects: kept(self.wm.rects, w, self.desk.frame_of(w)), ..self.wm },
                ..self
            }.act(Action::Topmost(w, false)).hide_managed(w)
        } else {
            self
        }
    }

    pub open spec fn tucked_all(self, list: Seq<Window>) -> World
        decreases list.len(),
    {
        if list.len() == 0 {
            self
        } else {
            self.tucked_all(list.drop_last()).tucked(list.last())
        }
    }

    /// The parked window `w` shown above the others, as number `i`.
    pub open spec fn summoned(self, w: Window, wa: Rect, i: int) -> World {
        let s = self.show_managed(w);
        s.act(Action::Topmost(w, true)).act(
            Action::Glide(
                w,
                cascaded(wa, parked_size(s.wm.rects, w, wa), i),
                s.wm.cfg.animation_ms,
            ),
        )
    }

    pub open spec fn summoned_all(self, list: Seq<Window>, wa: Rect) -> World
        decreases list.len(),
    {
        if list.len() == 0 {
            self
        } else {
            self.summoned_all(list.drop_last(), wa).summoned(list.last(), wa, list.len() - 1)
        }
    }

    /// Focus on the first window of the focused monitor, without painting.
    pub open spec fn first_focused(self) -> World {
        let all = self.wm.shown_ws(self.focused_monitor()).all();
        if all.len() > 0 {
            World { desk: self.desk.focused(all[0]), ..self }
        } else {
            self
        }
    }

    /// The scratchpad shown, or tucked away.
    pub open spec fn scratch_toggle(self) -> World {
        let s = self.scratch_pruned();
        let list = s.wm.scratch;
        if list.len() == 0 {
            s.scratch_is(false)
        } else if s.wm.scratch_shown {
            s.tucked_all(list).scratch_is(false).act(Action::Journal).first_focused().act(
                Action::PaintBorders,
            )
        } else {
            let wa = s.wm.monitors[s.focused_monitor()].work_area;
            let t = s.summoned_all(list, wa).scratch_is(true).act(Action::Journal);
            World { desk: t.desk.focused(list.last()), ..t }.act(Action::PaintBorders)
        }
    }

    /// The focused window parked: taken out of its workspace and hidden.
    pub open spec fn scratch_park(self) -> World {
        match self.focused_window() {
            None => self,
            Some((w, mi, wi)) => {
                let s = self.evicted(w, mi, wi);
                World {
                    wm: WmView { scratch: s.wm.scratch.push(w), ..s.wm },
                    ..s
                }.hide_managed(w).act(Action::Journal).retiled(mi).act(Action::PaintBorders)
            },
        }
    }

    /// The parked window `w` returned to the shown workspace of the focused
    /// monitor.
    pub open spec fn scratch_pull(self, w: Window) -> World {
        let a = World {
            wm: WmView {
                scratch: without(self.wm.scratch, w),
                rects: unkept(self.wm.rects, w),
                ..self.wm
            },
            ..self
        }.act(Action::Topmost(w, false));
        let b = if a.desk.visible(w) {
            World { wm: WmView { hidden: without(a.wm.hidden, w), ..a.wm }, ..a }
        } else {
            a.show_managed(w)
        };
        let mi = b.focused_monitor();
        let c = World {
            wm: b.wm.set_ws(
                mi,
                b.wm.monitors[mi].active as int,
                b.wm.shown_ws(mi).add(w, b.desk.floating(w, b.wm.cfg.rules)),
            ),
            ..b
        };
        let d = if c.wm.scratch.len() == 0 {
            c.scratch_is(false)
        } else {
            c
        };
        d.act(Action::Journal).retiled(mi).focused_on(w)
    }

    /// The focused window parked, or pulled out if it is parked already.
    pub open spec fn scratch_send(self) -> World {
        match self.focused_scratch() {
            Some(w) => self.scratch_pull(w),
            None => self.scratch_park(),
        }
    }

    /// Focus on the next parked window; a hidden scratchpad is shown first.
    pub open spec fn scratch_cycle(self) -> World {
        let s = self.scratch_pruned();
        let list = s.wm.scratch;
        if list.len() == 0 {
            s
        } else if !s.wm.scratch_shown {
            s.scratch_toggle()
        } else {
            let next = match s.desk.foreground {
                Some(f) => match place(list, f) {
                    Some(i) => if i + 1 == list.len() {
                        0
                    } else {
                        i + 1
                    },
                    None => 0,
                },
                None => 0,
            };
            let w = list[next];
            let t = if s.desk.visible(w) {
                s
            } else {
                s.show_managed(w).act(Action::Topmost(w, true))
            };
            t.focused_on(w)
        }
    }

    /// A parked window made to cover its monitor, or set back to its size.
    pub open spec fn scratch_fullscreen(self, w: Window) -> World {
        let mon = self.wm.monitors[self.wm.index_of(self.desk.monitor_of(w))];
        let cur = self.desk.frame_of(w);
        let ms = self.wm.cfg.animation_ms;
        let s = if covers(cur.w as int, cur.h as int, mon.bounds) {
            let size = restored_size(self.wm.rects, w, mon.work_area, mon.bounds);
            self.act(Action::Glide(w, mon.work_area.middle(size.0, size.1), ms))
        } else {
            World {
                wm: WmView { rects: kept(self.wm.rects, w, cur), ..self.wm },
                ..self
            }.act(Action::Glide(w, mon.bounds, ms))
        };
        s.act(Action::PaintBorders)
    }
}

/// Tucking away and summoning touch neither settings nor monitors.
pub proof fn lemma_tucked_keeps(s: World, list: Seq<Window>, wa: Rect)
    ensures
        ({
            let h = s.tucked_all(list);
            &&& h.wm.cfg == s.wm.cfg
            &&& h.wm.monitors == s.wm.monitors
            &&& h.wm.scratch == s.wm.scratch
            &&& h.wm.paused == s.wm.paused
        }),
        ({
            let h = s.summoned_all(list, wa);
            &&& h.wm.cfg == s.wm.cfg
            &&& h.wm.monitors == s.wm.monitors
            &&& h.wm.scratch == s.wm.scratch
            &&& h.wm.paused == s.wm.paused
        }),
    decreases list.len(),
{
    if list.len() > 0 {
        lemma_tucked_keeps(s, list.drop_last(), wa);
        let a = s.tucked_all(list.drop_last());
        let w = list.last();
        let b = World {
            wm: WmView { rects: kept(a.wm.rects, w, a.desk.frame_of(w)), ..a.wm },
            ..a
        }.act(Action::Topmost(w, false));
        lemma_hiding_keeps(b, w);
        lemma_hiding_keeps(s.summoned_all(list.drop_last(), wa), w);
    }
}

impl WindowManager {
    fn tuck_all(&mut self, desk: &mut Desktop, list: &Vec<Window>)
        ensures
            world(*final(self), *final(desk)) == world(*old(self), *old(desk)).tucked_all(list@),
            final(self).config == old(self).config,
    {
        let ghost s = world(*self, *desk);
        let mut i: usize = 0;
        proof {
            assert(list@.take(0) =~= Seq::empty());
        }
        while i < list.len()
            invariant
                i <= list.len(),
                self.config == old(self).config,
                world(*self, *desk) == s.tucked_all(list@.take(i as int)),
            decreases list.len() - i,
        {
            proof {
                assert(list@.take(i + 1).drop_last() =~= list@.take(i as int));
            }
            let w = list[i];
            if desk.is_visible(w) {
                self.scratch_rects.keep(w, desk.visible_rect(w));
                desk.set_topmost(w, false);
                self.hide_managed(desk, w);
            }
            i = i + 1;
        }
        proof {
            assert(list@.take(i as int) =~= list@);
        }
    }

    fn summon_all(&mut self, desk: &mut Desktop, list: &Vec<Window>, wa: Rect)
        ensures
            world(*final(self), *final(desk)) == world(*old(self), *old(desk)).summoned_all(
                list@,
                wa,
            ),
            final(self).config == old(self).config,
    {
        let ghost s = world(*self, *desk);
        let mut i: usize = 0;
        proof {
            assert(list@.take(0) =~= Seq::empty());
        }
        while i < list.len()
            invariant
                i <= list.len(),
                self.config == old(self).config,
                world(*self, *desk) == s.summoned_all(list@.take(i as int), wa),
            decreases list.len() - i,
        {
            proof {
                assert(list@.take(i + 1).drop_last() =~= list@.take(i as int));
            }
            let w = list[i];
            self.show_managed(desk, w);
            let size: (i32, i32) = parked(&self.scratch_rects, w, wa);
            desk.set_topmost(w, true);
            desk.glide(w, cascade(wa, size, i), self.config.animation_ms);
            i = i + 1;
        }
        proof {
            assert(list@.take(i as int) =~= list@);
        }
    }

    /// Shows every parked window above the others, or tucks them all away.
    pub fn scratch_toggle(&mut self, desk: &mut Desktop)
        requires
            old(self).wf(),
            old(self).monitors.len() > 0 || living(old(self).scratch@, old(desk)@).len() == 0,
        ensures
            world(*final(self), *final(desk)) == world(*old(self), *old(desk)).scratch_toggle(),
            final(self).wf(),
            final(self).config == old(self).config,
            final(self).monitors.len() == old(self).monitors.len(),
    {
        keep_living(&mut self.scratch, desk);
        let ghost s = world(*self, *desk);
        if self.scratch.len() == 0 {
            self.scratch_shown = false;
            return;
        }
        let list = copied(&self.scratch);
        if self.scratch_shown {
            proof {
                lemma_tucked_keeps(s, list@, Rect { x: 0, y: 0, w: 0, h: 0 });
            }
            self.tuck_all(desk, &list);
            self.scratch_shown = false;
            desk.act(Action::Journal);
            proof {
                assert(self@.monitors.len() == self.monitors.len());
            }
            let mi: usize = self.focused_monitor(desk);
            let order = self.ordered_windows(mi);
            if order.len() > 0 {
                desk.focus(order[0]);
            }
        } else {
            let mi: usize = self.focused_monitor(desk);
            proof {
                assert(s.wm.monitors[mi as int] == self.monitors@[mi as int]@);
            }
            let wa = self.monitors[mi].work_area;
            proof {
                lemma_tucked_keeps(s, list@, wa);
            }
            self.summon_all(desk, &list, wa);
            self.scratch_shown = true;
            desk.act(Action::Journal);
            desk.focus(list[list.len() - 1]);
            proof {
                assert(self@.monitors.len() == self.monitors.len());
            }
        }
        desk.act(Action::PaintBorders);
    }

    fn scratch_park(&mut self, desk: &mut Desktop)
        requires
            old(self).wf(),
        ensures
            world(*final(self), *final(desk)) == world(*old(self), *old(desk)).scratch_park(),
            final(self).wf(),
            final(self).config == old(self).config,
            final(self).monitors.len() == old(self).monitors.len(),
    {
        let (w, mi, wi): (Window, usize, usize) = match self.focused_window(desk) {
            Some(x) => x,
            None => {
                return;
            },
        };
        self.evict(desk, w, mi, wi);
        self.scratch.push(w);
        proof {
            lemma_hiding_keeps(world(*self, *desk), w);
        }
        self.hide_managed(desk, w);
        desk.act(Action::Journal);
        proof {
            assert(self@.monitors.len() == self.monitors.len());
            lemma_retiled_keeps(world(*self, *desk), mi as int);
        }
        self.retile_monitor(desk, mi);
        desk.act(Action::PaintBorders);
        proof {
            assert(self@.monitors.len() == self.monitors.len());
        }
    }

    /// Returns a parked window to the shown workspace of the focused monitor.
    pub fn scratch_pull(&mut self, desk: &mut Desktop, w: Window)
        requires
            old(self).wf(),
            old(self).monitors.len() > 0,
        ensures
            world(*final(self), *final(desk)) == world(*old(self), *old(desk)).scratch_pull(w),
            final(self).wf(),
            final(self).config == old(self).config,
            final(self).monitors.len() == old(self).monitors.len(),
    {
        leave_out(&mut self.scratch, w);
        self.scratch_rects.forget(w);
        desk.set_topmost(w, false);
        if desk.is_visible(w) {
            self.hidden_by_us.leave_out(w);
        } else {
            proof {
                lemma_hiding_keeps(world(*self, *desk), w);
            }
            self.show_managed(desk, w);
            proof {
                assert(self@.monitors.len() == self.monitors.len());
            }
        }
        let ghost b = world(*self, *desk);
        let mi: usize = self.focused_monitor(desk);
        let ghost before = self.monitors@;
        proof {
            assert(b.wm.monitors[mi as int] == before[mi as int]@);
        }
        let wi: usize = self.monitors[mi].active;
        let floats = desk.should_float(w, &self.config);
        self.monitors[mi].workspaces[wi].add_window(w, floats);
        proof {
            lemma_with_ws(before, self.monitors@, mi as int, wi as int);
            assert(self@ =~= b.wm.set_ws(
                mi as int,
                wi as int,
                b.wm.shown_ws(mi as int).add(w, floats),
            ));
        }
        if self.scratch.len() == 0 {
            self.scratch_shown = false;
        }
        desk.act(Action::Journal);
        proof {
            lemma_retiled_keeps(world(*self, *desk), mi as int);
        }
        self.retile_monitor(desk, mi);
        desk.focus(w);
        desk.act(Action::PaintBorders);
        proof {
            assert(self@.monitors.len() == self.monitors.len());
        }
    }

    /// Parks the focused window, or pulls it out if it is parked already.
    pub fn scratch_send(&mut self, desk: &mut Desktop)
        requires
            old(self).wf(),
            old(self).monitors.len() > 0 || world(*old(self), *old(desk)).focused_scratch() is None,
        ensures
            world(*final(self), *final(desk)) == world(*old(self), *old(desk)).scratch_send(),
            final(self).wf(),
            final(self).config == old(self).config,
            final(self).monitors.len() == old(self).monitors.len(),
    {
        match self.focused_scratch(desk) {
            Some(w) => self.scratch_pull(desk, w),
            None => self.scratch_park(desk),
        }
    }

    /// Focuses the next parked window.
    pub fn scratch_cycle(&mut self, desk: &mut Desktop)
        requires
            old(self).wf(),
            old(self).monitors.len() > 0 || living(old(self).scratch@, old(desk)@).len() == 0
                || old(self).scratch_shown,
        ensures
            world(*final(self), *final(desk)) == world(*old(self), *old(desk)).scratch_cycle(),
            final(self).wf(),
            final(self).config == old(self).config,
            final(self).monitors.len() == old(self).monitors.len(),
    {
        keep_living(&mut self.scratch, desk);
        if self.scratch.len() == 0 {
            return;
        }
        if !self.scratch_shown {
            self.scratch_toggle(desk);
            return;
        }
        let mut next: usize = 0;
        if let Some(f) = desk.foreground {
            if let Some(i) = position(&self.scratch, f) {
                if i + 1 < self.scratch.len() {
                    next = i + 1;
                }
            }
        }
        let w = self.scratch[next];
        if !desk.is_visible(w) {
            proof {
                lemma_hiding_keeps(world(*self, *desk), w);
            }
            self.show_managed(desk, w);
            desk.set_topmost(w, true);
            proof {
                assert(self@.monitors.len() == self.monitors.len());
            }
        }
        desk.focus(w);
        desk.act(Action::PaintBorders);
    }

    /// Makes a parked window cover its monitor, or sets it back to its size.
    pub fn scratch_toggle_fullscreen(&mut self, desk: &mut Desktop, w: Window)
        requires
            old(self).wf(),
            old(self).monitors.len() > 0,
        ensures
            world(*final(self), *final(desk)) == world(*old(self), *old(desk)).scratch_fullscreen(w),
            final(self).wf(),
            final(self).config == old(self).config,
            final(self).monitors.len() == old(self).monitors.len(),
    {
        let mi: usize = self.monitor_index_of_handle(desk.monitor(w));
        proof {
            assert(self@.monitors[mi as int] == self.monitors@[mi as int]@);
        }
        let bounds = self.monitors[mi].bounds;
        let wa = self.monitors[mi].work_area;
        let cur = desk.visible_rect(w);
        let ms: u32 = self.config.animation_ms;
        if near_cover(cur.w, cur.h, bounds) {
            let mut size: (i32, i32) = parked(&self.scratch_rects, w, wa);
            if self.scratch_rects.rect_of(w).is_some() && near_cover(size.0, size.1, bounds) {
                size = wa.pop_size();
            }
            desk.glide(w, wa.centered(size.0, size.1), ms);
        } else {
            self.scratch_rects.keep(w, cur);
            desk.glide(w, bounds, ms);
        }
        desk.act(Action::PaintBorders);
    }
}

} // verus!
