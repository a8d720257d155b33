//! Workspaces: switching, moving windows between them, changing their number,
//! and following changes of the monitors.

use super::desktop::{Action, Desktop};
use super::hiding::lemma_hiding_keeps;
use super::state::{lemma_with_ws, world, MonView, WindowManager, WmView, World};
use super::tiling::lemma_retiled_keeps;
use crate::lists::contains_window;
use crate::window::Window;
use vstd::prelude::*;

verus! {

// --------------------------------------------------------------- switching

impl World {
    /// The windows of `list` hidden, in order.
    pub open spec fn hide_all(self, list: Seq<Window>) -> World
        decreases list.len(),
    {
        if list.len() == 0 {
            self
        } else {
            self.hide_all(list.drop_last()).hide_managed(list.last())
        }
    }

    /// The windows of `list` shown, in order.
    pub open spec fn show_all(self, list: Seq<Window>) -> World
        decreases list.len(),
    {
        if list.len() == 0 {
            self
        } else {
            self.show_all(list.drop_last()).show_managed(list.last())
        }
    }

    /// Monitor `mi` said to show workspace `wi`.
    pub open spec fn activated(self, mi: int, wi: usize) -> World {
        World {
            wm: WmView {
                monitors: self.wm.monitors.update(
                    mi,
                    MonView { active: wi, ..self.wm.monitors[mi] },
                ),
                ..self.wm
            },
            ..self
        }
    }

    /// Focus on the first window of the shown workspace of monitor `mi`. On
    /// an empty one, focus is taken off a window that is now hidden.
    pub open spec fn landed(self, mi: int) -> World {
        let all = self.wm.shown_ws(mi).all();
        if all.len() > 0 {
            World { desk: self.desk.focused(all[0]), ..self }
        } else {
            match self.desk.foreground {
                Some(f) => if self.wm.hidden.contains(f) {
                    World { desk: self.desk.focus_shell(), ..self }
                } else {
                    self
                },
                None => self,
            }
        }
    }

    /// Monitor `mi` switched to workspace `target`.
    pub open spec fn switch_on(self, mi: int, target: int) -> World {
        if self.wm.paused || mi >= self.wm.monitors.len() || target
            >= self.wm.monitors[mi].workspaces.len() || target == self.wm.monitors[mi].active {
            self
        } else {
            let a = self.hide_all(self.wm.shown_ws(mi).all()).activated(mi, target as usize);
            a.show_all(a.wm.ws(mi, target).all()).act(Action::Journal).retiled(mi).landed(mi).act(
                Action::PaintBorders,
            )
        }
    }
}

pub proof fn lemma_hide_all_keeps(s: World, list: Seq<Window>)
    ensures
        ({
            let h = s.hide_all(list);
            &&& h.wm.cfg == s.wm.cfg
            &&& h.wm.monitors == s.wm.monitors
            &&& h.wm.scratch == s.wm.scratch
            &&& h.wm.paused == s.wm.paused
        }),
        ({
            let h = s.show_all(list);
            &&& h.wm.cfg == s.wm.cfg
            &&& h.wm.monitors == s.wm.monitors
            &&& h.wm.scratch == s.wm.scratch
            &&& h.wm.paused == s.wm.paused
        }),
    decreases list.len(),
{
    if list.len() > 0 {
        lemma_hide_all_keeps(s, list.drop_last());
        lemma_hiding_keeps(s.hide_all(list.drop_last()), list.last());
        lemma_hiding_keeps(s.show_all(list.drop_last()), list.last());
    }
}

/// Switching keeps the shape of the state, and shows the target.
pub proof fn lemma_switch_keeps(s: World, mi: int, target: int)
    requires
        s.wm.wf(),
        0 <= mi,
        0 <= target,
    ensures
        s.switch_on(mi, target).wm.wf(),
        s.switch_on(mi, target).wm.cfg == s.wm.cfg,
        s.switch_on(mi, target).wm.scratch == s.wm.scratch,
        s.switch_on(mi, target).wm.paused == s.wm.paused,
        s.switch_on(mi, target).wm.monitors.len() == s.wm.monitors.len(),
        !s.wm.paused && mi < s.wm.monitors.len() && target < s.wm.cfg.workspaces ==> s.switch_on(
            mi,
            target,
        ).wm.monitors[mi].active == target,
        forall|i: int|
            0 <= i < s.wm.monitors.len() && i != mi ==> s.switch_on(mi, target).wm.monitors[i]
                == s.wm.monitors[i],
{
    if !(s.wm.paused || mi >= s.wm.monitors.len() || target >= s.wm.monitors[mi].workspaces.len()
        || target == s.wm.monitors[mi].active) {
        let list = s.wm.shown_ws(mi).all();
        lemma_hide_all_keeps(s, list);
        let a = s.hide_all(list).activated(mi, target as usize);
        lemma_hide_all_keeps(a, a.wm.ws(mi, target).all());
        let b = a.show_all(a.wm.ws(mi, target).all()).act(Action::Journal);
        assert(b.wm.monitors == a.wm.monitors);
        lemma_retiled_keeps(b, mi);
    }
}

impl WindowManager {
    fn hide_list(&mut self, desk: &mut Desktop, list: &Vec<Window>)
        ensures
            world(*final(self), *final(desk)) == world(*old(self), *old(desk)).hide_all(list@),
            final(self).config == old(self).config,
    {
        let ghost s = world(*self, *desk);
        let mut i: usize = 0;
        proof {
            assert(list@.take(0) =~= Seq::empty());
        }
        while i < list.len()
            invariant
                i <= list.len(),
                self.config == old(self).config,
                world(*self, *desk) == s.hide_all(list@.take(i as int)),
            decreases list.len() - i,
        {
            proof {
                assert(list@.take(i + 1).drop_last() =~= list@.take(i as int));
            }
            self.hide_managed(desk, list[i]);
            i = i + 1;
        }
        proof {
            assert(list@.take(i as int) =~= list@);
        }
    }

    fn show_list(&mut self, desk: &mut Desktop, list: &Vec<Window>)
        ensures
            world(*final(self), *final(desk)) == world(*old(self), *old(desk)).show_all(list@),
            final(self).config == old(self).config,
    {
        let ghost s = world(*self, *desk);
        let mut i: usize = 0;
        proof {
            assert(list@.take(0) =~= Seq::empty());
        }
        while i < list.len()
            invariant
                i <= list.len(),
                self.config == old(self).config,
                world(*self, *desk) == s.show_all(list@.take(i as int)),
            decreases list.len() - i,
        {
            proof {
                assert(list@.take(i + 1).drop_last() =~= list@.take(i as int));
            }
            self.show_managed(desk, list[i]);
            i = i + 1;
        }
        proof {
            assert(list@.take(i as int) =~= list@);
        }
    }

    /// Switches one monitor to a workspace.
    pub fn switch_workspace_on(&mut self, desk: &mut Desktop, mi: usize, target: usize)
        requires
            old(self).wf(),
        ensures
            world(*final(self), *final(desk)) == world(*old(self), *old(desk)).switch_on(
                mi as int,
                target as int,
            ),
            final(self).wf(),
            final(self).config == old(self).config,
            final(self).monitors.len() == old(self).monitors.len(),
    {
        let ghost s = world(*self, *desk);
        proof {
            lemma_switch_keeps(s, mi as int, target as int);
        }
        if self.paused || mi >= self.monitors.len() {
            return;
        }
        proof {
            assert(s.wm.monitors[mi as int] == self.monitors@[mi as int]@);
        }
        if target >= self.monitors[mi].workspaces.len() || target == self.monitors[mi].active {
            return;
        }
        let leaving = self.monitors[mi].workspaces[self.monitors[mi].active].all_windows();
        proof {
            assert(leaving@ == s.wm.shown_ws(mi as int).all());
            lemma_hide_all_keeps(s, leaving@);
        }
        self.hide_list(desk, &leaving);
        let ghost h = world(*self, *desk);
        let ghost before = self.monitors@;
        proof {
            assert(h.wm.monitors[mi as int] == before[mi as int]@);
        }
        self.monitors[mi].active = target;
        let ghost a = world(*self, *desk);
        proof {
            assert(a.wm.monitors =~= h.activated(mi as int, target).wm.monitors);
            assert(a =~= h.activated(mi as int, target));
            assert(a.wm.monitors[mi as int] == self.monitors@[mi as int]@);
        }
        let entering = self.monitors[mi].workspaces[target].all_windows();
        proof {
            assert(entering@ == a.wm.ws(mi as int, target as int).all());
            lemma_hide_all_keeps(a, entering@);
        }
        self.show_list(desk, &entering);
        desk.act(Action::Journal);
        let ghost b = world(*self, *desk);
        proof {
            assert(b.wm.monitors == a.wm.monitors);
            lemma_retiled_keeps(b, mi as int);
        }
        self.retile_monitor(desk, mi);
        let ghost c = world(*self, *desk);
        proof {
            assert(c.wm.monitors[mi as int] == self.monitors@[mi as int]@);
        }
        let all = self.monitors[mi].workspaces[target].all_windows();
        proof {
            assert(all@ == c.wm.shown_ws(mi as int).all());
        }
        if all.len() > 0 {
            desk.focus(all[0]);
        } else if let Some(f) = desk.foreground {
            if self.hidden_by_us.has(f) {
                desk.focus_shell();
            }
        }
        desk.act(Action::PaintBorders);
        proof {
            assert(self@.monitors.len() == s.wm.monitors.len());
        }
    }
}

// ------------------------------------------------------------------ moving

/// The next index, or the one before, going round.
pub open spec fn stepped(i: int, count: int, forward: bool) -> int {
    if forward {
        if i + 1 == count {
            0
        } else {
            i + 1
        }
    } else {
        if i == 0 {
            count - 1
        } else {
            i - 1
        }
    }
}

/// The next index, or the one before, going round.
pub fn step(i: usize, count: usize, forward: bool) -> (r: usize)
    requires
        i < count,
    ensures
        r == stepped(i as int, count as int, forward),
        r < count,
{
    if forward {
        if i + 1 == count {
            0
        } else {
            i + 1
        }
    } else {
        if i == 0 {
            count - 1
        } else {
            i - 1
        }
    }
}

impl World {
    /// `w` moved from one workspace to the end of another.
    pub open spec fn relocated(
        self,
        w: Window,
        mi: int,
        wi: int,
        tmi: int,
        twi: int,
        floats: bool,
    ) -> World {
        let a = self.wm.set_ws(mi, wi, self.wm.ws(mi, wi).removed(w));
        World { wm: a.set_ws(tmi, twi, a.ws(tmi, twi).add(w, floats)), ..self }
    }

    /// The focused monitor switched to workspace `target`.
    pub open spec fn switch_workspace(self, target: int) -> World {
        self.switch_on(self.focused_monitor(), target)
    }

    /// The focused monitor switched one workspace on, or back.
    pub open spec fn cycle_workspace(self, forward: bool) -> World {
        let mi = self.focused_monitor();
        let mon = self.wm.monitors[mi];
        self.switch_on(
            mi,
            stepped(mon.active as int, mon.workspaces.len() as int, forward),
        )
    }

    /// `w`, just moved to workspace `target` of monitor `tmi`: that workspace
    /// shown with `w` in focus, or `w` hidden if it is not shown.
    pub open spec fn followed(self, w: Window, tmi: int, target: int) -> World {
        if self.wm.cfg.follow_moved_window {
            let s = self.switch_on(tmi, target);
            World { desk: s.desk.focused(w), ..s }
        } else {
            self.hide_managed(w).act(Action::Journal)
        }
    }

    /// The focused window moved to workspace `target` of its monitor.
    pub open spec fn move_to_workspace(self, target: int) -> World {
        match self.focused_window() {
            None => self,
            Some((w, mi, wi)) => {
                let mon = self.wm.monitors[mi];
                if target >= mon.workspaces.len() || target == wi {
                    self
                } else {
                    let s = self.relocated(
                        w,
                        mi,
                        wi,
                        mi,
                        target,
                        !mon.workspaces[wi].tiled.contains(w),
                    );
                    let t = if target != mon.active {
                        s.followed(w, mi, target)
                    } else {
                        s
                    };
                    t.retiled(mi).act(Action::PaintBorders)
                }
            },
        }
    }

    /// The focused window moved one workspace on, or back.
    pub open spec fn move_cycle(self, forward: bool) -> World {
        match self.focused_window() {
            None => self,
            Some((w, mi, wi)) => self.move_to_workspace(
                stepped(wi, self.wm.monitors[mi].workspaces.len() as int, forward),
            ),
        }
    }

    /// `w` sent to workspace `target` of the monitor with that handle. On its
    /// own workspace it just snaps back.
    pub open spec fn send_window_to(self, w: Window, handle: isize, target: int) -> World {
        match self.wm.find(w) {
            None => self,
            Some((mi, wi)) => {
                let tmi = self.wm.index_of(handle);
                let mon = self.wm.monitors[tmi];
                if target >= mon.workspaces.len() || (tmi == mi && target == wi) {
                    self.retiled(mi)
                } else {
                    let s = self.relocated(
                        w,
                        mi,
                        wi,
                        tmi,
                        target,
                        self.wm.ws(mi, wi).floating.contains(w),
                    );
                    let t = if self.wm.cfg.follow_moved_window || target != mon.active {
                        s.followed(w, tmi, target)
                    } else {
                        s
                    };
                    t.retiled(mi).retiled(tmi).act(Action::PaintBorders)
                }
            },
        }
    }

    /// `w` moved to the shown workspace of monitor `tmi`; a floating window
    /// pops out there.
    pub open spec fn move_to_monitor(self, w: Window, mi: int, wi: int, tmi: int) -> World {
        let floats = self.wm.ws(mi, wi).floating.contains(w);
        let s = self.relocated(w, mi, wi, tmi, self.wm.monitors[tmi].active as int, floats);
        let t = if floats {
            s.act(
                Action::Glide(
                    w,
                    self.wm.monitors[tmi].work_area.popped_out(),
                    self.wm.cfg.animation_ms,
                ),
            )
        } else {
            s
        };
        let u = t.retiled(mi).retiled(tmi);
        World { desk: u.desk.focused(w), ..u }.act(Action::PaintBorders)
    }
}

impl WindowManager {
    fn relocate(
        &mut self,
        desk: &Desktop,
        w: Window,
        mi: usize,
        wi: usize,
        tmi: usize,
        twi: usize,
        floats: bool,
    )
        requires
            old(self).wf(),
            old(self)@.has(mi as int, wi as int),
            old(self)@.has(tmi as int, twi as int),
        ensures
            world(*final(self), *desk) == world(*old(self), *desk).relocated(
                w,
                mi as int,
                wi as int,
                tmi as int,
                twi as int,
                floats,
            ),
            final(self).wf(),
            final(self).config == old(self).config,
            final(self).monitors.len() == old(self).monitors.len(),
    {
        let ghost s = world(*self, *desk);
        let ghost m0 = self.monitors@;
        proof {
            assert(s.wm.monitors[mi as int] == m0[mi as int]@);
        }
        let _ = self.monitors[mi].workspaces[wi].remove(w);
        let ghost m1 = self.monitors@;
        proof {
            lemma_with_ws(m0, m1, mi as int, wi as int);
            assert(self@ =~= s.wm.set_ws(mi as int, wi as int, s.wm.ws(mi as int, wi as int).removed(w)));
            assert(self@.monitors[tmi as int] == m1[tmi as int]@);
        }
        self.monitors[tmi].workspaces[twi].add_window(w, floats);
        proof {
            lemma_with_ws(m1, self.monitors@, tmi as int, twi as int);
            assert(world(*self, *desk) =~= s.relocated(
                w,
                mi as int,
                wi as int,
                tmi as int,
                twi as int,
                floats,
            ));
        }
    }

    /// Switches the focused monitor to a workspace.
    pub fn switch_workspace(&mut self, desk: &mut Desktop, target: usize)
        requires
            old(self).wf(),
        ensures
            world(*final(self), *final(desk)) == world(*old(self), *old(desk)).switch_workspace(
                target as int,
            ),
            final(self).wf(),
            final(self).config == old(self).config,
            final(self).monitors.len() == old(self).monitors.len(),
    {
        let mi: usize = self.focused_monitor(desk);
        self.switch_workspace_on(desk, mi, target);
    }

    /// Steps to the next or previous workspace, going round.
    pub fn cycle_workspace(&mut self, desk: &mut Desktop, forward: bool)
        requires
            old(self).wf(),
            old(self).monitors.len() > 0,
        ensures
            world(*final(self), *final(desk)) == world(*old(self), *old(desk)).cycle_workspace(
                forward,
            ),
            final(self).wf(),
            final(self).config == old(self).config,
            final(self).monitors.len() == old(self).monitors.len(),
    {
        let mi: usize = self.focused_monitor(desk);
        proof {
            assert(self@.monitors[mi as int] == self.monitors@[mi as int]@);
        }
        let target: usize = step(self.monitors[mi].active, self.monitors[mi].workspaces.len(), forward);
        self.switch_workspace_on(desk, mi, target);
    }

    fn follow(&mut self, desk: &mut Desktop, w: Window, tmi: usize, target: usize)
        requires
            old(self).wf(),
        ensures
            world(*final(self), *final(desk)) == world(*old(self), *old(desk)).followed(
                w,
                tmi as int,
                target as int,
            ),
            final(self).wf(),
            final(self).config == old(self).config,
            final(self).monitors.len() == old(self).monitors.len(),
    {
        if self.config.follow_moved_window {
            self.switch_workspace_on(desk, tmi, target);
            desk.focus(w);
        } else {
            proof {
                lemma_hiding_keeps(world(*self, *desk), w);
            }
            self.hide_managed(desk, w);
            desk.act(Action::Journal);
            proof {
                assert(self@.monitors.len() == old(self)@.monitors.len());
            }
        }
    }

    /// Moves the focused window to a workspace of its monitor.
    pub fn move_to_workspace(&mut self, desk: &mut Desktop, target: usize)
        requires
            old(self).wf(),
        ensures
            world(*final(self), *final(desk)) == world(*old(self), *old(desk)).move_to_workspace(
                target as int,
            ),
            final(self).wf(),
            final(self).config == old(self).config,
            final(self).monitors.len() == old(self).monitors.len(),
    {
        let (w, mi, wi): (Window, usize, usize) = match self.focused_window(desk) {
            Some(x) => x,
            None => {
                return;
            },
        };
        proof {
            assert(self@.monitors[mi as int] == self.monitors@[mi as int]@);
        }
        if target >= self.monitors[mi].workspaces.len() || target == wi {
            return;
        }
        let tiled = contains_window(&self.monitors[mi].workspaces[wi].tiled, w);
        let active: usize = self.monitors[mi].active;
        self.relocate(desk, w, mi, wi, mi, target, !tiled);
        if target != active {
            self.follow(desk, w, mi, target);
        }
        proof {
            lemma_retiled_keeps(world(*self, *desk), mi as int);
        }
        self.retile_monitor(desk, mi);
        desk.act(Action::PaintBorders);
        proof {
            assert(self@.monitors.len() == old(self)@.monitors.len());
        }
    }

    /// Carries the focused window to the next or previous workspace.
    pub fn move_cycle(&mut self, desk: &mut Desktop, forward: bool)
        requires
            old(self).wf(),
        ensures
            world(*final(self), *final(desk)) == world(*old(self), *old(desk)).move_cycle(forward),
            final(self).wf(),
            final(self).config == old(self).config,
            final(self).monitors.len() == old(self).monitors.len(),
    {
        if let Some((_, mi, wi)) = self.focused_window(desk) {
            proof {
                assert(self@.monitors[mi as int] == self.monitors@[mi as int]@);
            }
            let target: usize = step(wi, self.monitors[mi].workspaces.len(), forward);
            self.move_to_workspace(desk, target);
        }
    }

    /// Sends a window to a workspace of some monitor.
    pub fn send_window_to(&mut self, desk: &mut Desktop, w: Window, handle: isize, target: usize)
        requires
            old(self).wf(),
        ensures
            world(*final(self), *final(desk)) == world(*old(self), *old(desk)).send_window_to(
                w,
                handle,
                target as int,
            ),
            final(self).wf(),
            final(self).config == old(self).config,
            final(self).monitors.len() == old(self).monitors.len(),
    {
        let (mi, wi): (usize, usize) = match self.find(w) {
            Some(x) => x,
            None => {
                return;
            },
        };
        let tmi: usize = self.monitor_index_of_handle(handle);
        proof {
            assert(self@.monitors[mi as int] == self.monitors@[mi as int]@);
            assert(self@.monitors[tmi as int] == self.monitors@[tmi as int]@);
        }
        if target >= self.monitors[tmi].workspaces.len() || (tmi == mi && target == wi) {
            proof {
                lemma_retiled_keeps(world(*self, *desk), mi as int);
            }
            self.retile_monitor(desk, mi);
            proof {
                assert(self@.monitors.len() == old(self)@.monitors.len());
            }
            return;
        }
        let floats = contains_window(&self.monitors[mi].workspaces[wi].floating, w);
        let active: usize = self.monitors[tmi].active;
        self.relocate(desk, w, mi, wi, tmi, target, floats);
        if self.config.follow_moved_window || target != active {
            self.follow(desk, w, tmi, target);
        }
        proof {
            let s = world(*self, *desk);
            lemma_retiled_keeps(s, mi as int);
            lemma_retiled_keeps(s.retiled(mi as int), tmi as int);
        }
        self.retile_monitor(desk, mi);
        proof {
            assert(self@.monitors.len() == old(self)@.monitors.len());
        }
        self.retile_monitor(desk, tmi);
        desk.act(Action::PaintBorders);
        proof {
            assert(self@.monitors.len() == old(self)@.monitors.len());
        }
    }

    /// Moves a window to the shown workspace of another monitor.
    pub fn move_window_to_monitor(
        &mut self,
        desk: &mut Desktop,
        w: Window,
        mi: usize,
        wi: usize,
        tmi: usize,
    )
        requires
            old(self).wf(),
            old(self)@.has(mi as int, wi as int),
            tmi < old(self).monitors.len(),
        ensures
            world(*final(self), *final(desk)) == world(*old(self), *old(desk)).move_to_monitor(
                w,
                mi as int,
                wi as int,
                tmi as int,
            ),
            final(self).wf(),
            final(self).config == old(self).config,
            final(self).monitors.len() == old(self).monitors.len(),
    {
        proof {
            assert(self@.monitors[mi as int] == self.monitors@[mi as int]@);
            assert(self@.monitors[tmi as int] == self.monitors@[tmi as int]@);
        }
        let floats = contains_window(&self.monitors[mi].workspaces[wi].floating, w);
        let target: usize = self.monitors[tmi].active;
        let wa = self.monitors[tmi].work_area;
        self.relocate(desk, w, mi, wi, tmi, target, floats);
        if floats {
            desk.glide(w, wa.pop_out(), self.config.animation_ms);
        }
        proof {
            let s = world(*self, *desk);
            lemma_retiled_keeps(s, mi as int);
            lemma_retiled_keeps(s.retiled(mi as int), tmi as int);
        }
        self.retile_monitor(desk, mi);
        proof {
            assert(self@.monitors.len() == old(self)@.monitors.len());
        }
        self.retile_monitor(desk, tmi);
        desk.focus(w);
        desk.act(Action::PaintBorders);
        proof {
            assert(self@.monitors.len() == old(self)@.monitors.len());
        }
    }
}

} // verus!
