//! Taking windows under management and letting them go.

use super::desktop::{Action, Desktop};
use super::hiding::lemma_hiding_keeps;
use super::records::unkept;
use super::state::{lemma_found, lemma_with_ws, world, WindowManager, WmView, World, WsView};
use super::tiling::lemma_retiled_keeps;
use crate::lists::{leave_out, place, position, without};
use crate::text::{lowercase, to_lowercase};
use crate::window::Window;
use vstd::prelude::*;

verus! {

// -------------------------------------------------------------- management

impl World {
    /// The app rule for `w`: the one filed under its own key, else the one
    /// for its program.
    pub open spec fn rule_for(self, w: Window) -> Option<usize> {
        let rules = self.wm.cfg.app_rules;
        let own = match self.desk.rule_key_of(w) {
            Some(k) => if rules.contains_key(k) {
                Some(rules[k])
            } else {
                None
            },
            None => None,
        };
        match own {
            Some(n) => Some(n),
            None => match self.desk.exe_name_of(w) {
                Some(e) => if rules.contains_key(lowercase(e)) {
                    Some(rules[lowercase(e)])
                } else {
                    None
                },
                None => None,
            },
        }
    }

    /// The workspace of monitor `mi` where a new window goes: that of its
    /// rule, if there is one and it names a workspace, else the shown one.
    pub open spec fn home_of(self, w: Window, apply_rules: bool, mi: int) -> int {
        let mon = self.wm.monitors[mi];
        match self.rule_for(w) {
            Some(n) => if apply_rules && 1 <= n <= mon.workspaces.len() {
                n - 1
            } else {
                mon.active as int
            },
            None => mon.active as int,
        }
    }

    /// Where in the tiled windows of workspace `wi` a new one goes: behind
    /// the focused one on the shown workspace, else last.
    pub open spec fn slot_for(self, mi: int, wi: int) -> int {
        let tiled = self.wm.ws(mi, wi).tiled;
        match self.desk.foreground {
            Some(f) => match place(tiled, f) {
                Some(i) => if wi == self.wm.monitors[mi].active {
                    i + 1
                } else {
                    tiled.len() as int
                },
                None => tiled.len() as int,
            },
            None => tiled.len() as int,
        }
    }

    /// `w` placed into its home workspace.
    pub open spec fn housed(self, w: Window, apply_rules: bool) -> World {
        let mi = self.wm.index_of(self.desk.monitor_of(w));
        let wi = self.home_of(w, apply_rules, mi);
        let ws = self.wm.ws(mi, wi);
        World {
            wm: self.wm.set_ws(
                mi,
                wi,
                if self.desk.floating(w, self.wm.cfg.rules) {
                    ws.float(w)
                } else {
                    WsView { tiled: ws.tiled.insert(self.slot_for(mi, wi), w), ..ws }
                },
            ),
            ..self
        }
    }

    /// `w` taken under management. When its home workspace is not shown it
    /// is hidden.
    pub open spec fn manage(self, w: Window, apply_rules: bool) -> World {
        if self.wm.is_managed(w) || self.wm.paused {
            self
        } else {
            let mi = self.wm.index_of(self.desk.monitor_of(w));
            let s = self.housed(w, apply_rules);
            let t = if self.home_of(w, apply_rules, mi) != self.wm.monitors[mi].active {
                s.hide_managed(w).act(Action::Journal)
            } else {
                s.retiled(mi)
            };
            t.act(Action::PaintBorders)
        }
    }

    /// `w` taken out of its workspace `wi` of monitor `mi`.
    pub open spec fn evicted(self, w: Window, mi: int, wi: int) -> World {
        let ws = self.wm.ws(mi, wi);
        if ws.fullscreen == Some(w) {
            World {
                wm: self.wm.set_ws(
                    mi,
                    wi,
                    WsView { fullscreen: None, ..ws }.removed(w),
                ),
                desk: self.desk.act(Action::Topmost(w, false)),
            }
        } else {
            World { wm: self.wm.set_ws(mi, wi, ws.removed(w)), ..self }
        }
    }

    /// `w` no longer hidden on purpose, and what went with it shown.
    pub open spec fn set_free(self, w: Window) -> World {
        World {
            wm: WmView { hidden: without(self.wm.hidden, w), ..self.wm },
            ..self
        }.release_companions(w)
    }

    /// `w` let go.
    pub open spec fn unmanage(self, w: Window) -> World {
        let s = World {
            wm: WmView {
                scratch: without(self.wm.scratch, w),
                rects: unkept(self.wm.rects, w),
                ..self.wm
            },
            ..self
        };
        let t = match s.wm.find(w) {
            Some((mi, wi)) => s.evicted(w, mi, wi).act(Action::Border(w, None)).retiled(mi).act(
                Action::PaintBorders,
            ),
            None => s,
        };
        t.set_free(w).act(Action::Journal)
    }

    /// `w` added to the shown workspace of its monitor, if it should be
    /// managed and is not yet.
    pub open spec fn adopted(self, w: Window) -> World {
        if !self.wm.is_managed(w) && self.desk.manages(w, self.wm.cfg.rules) {
            let mi = self.wm.index_of(self.desk.monitor_of(w));
            World {
                wm: self.wm.set_ws(
                    mi,
                    self.wm.monitors[mi].active as int,
                    self.wm.shown_ws(mi).add(w, self.desk.floating(w, self.wm.cfg.rules)),
                ),
                ..self
            }
        } else {
            self
        }
    }

    /// A window of `list` should be managed and is not yet.
    pub open spec fn misses(self, list: Seq<Window>) -> bool {
        exists|i: int|
            0 <= i < list.len() && !self.wm.is_managed(#[trigger] list[i]) && self.desk.manages(
                list[i],
                self.wm.cfg.rules,
            )
    }

    /// Every window of the desktop adopted that should be managed.
    pub open spec fn rescanned(self) -> World {
        self.adopted_all(self.desk.order)
    }

    pub open spec fn adopted_all(self, list: Seq<Window>) -> World
        decreases list.len(),
    {
        if list.len() == 0 {
            self
        } else {
            self.adopted_all(list.drop_last()).adopted(list.last())
        }
    }
}

/// Adopting windows keeps the shape of the state.
pub proof fn lemma_adopted_keeps(s: World, list: Seq<Window>)
    requires
        s.wm.wf(),
        s.wm.monitors.len() > 0,
    ensures
        s.adopted_all(list).wm.wf(),
        s.adopted_all(list).wm.monitors.len() == s.wm.monitors.len(),
        s.adopted_all(list).wm == (WmView {
            monitors: s.adopted_all(list).wm.monitors,
            ..s.wm
        }),
        s.adopted_all(list).desk == s.desk,
    decreases list.len(),
{
    if list.len() > 0 {
        lemma_adopted_keeps(s, list.drop_last());
        lemma_found(s.adopted_all(list.drop_last()));
    }
}

impl WindowManager {
    /// The app rule for `w`.
    fn rule_for(&self, desk: &Desktop, w: Window) -> (r: Option<usize>)
        requires
            self.wf(),
        ensures
            r == world(*self, *desk).rule_for(w),
    {
        if let Some(k) = desk.rule_key(w) {
            if let Some(n) = self.config.app_rules.get(k.as_str()) {
                return Some(*n);
            }
        }
        if let Some(e) = desk.exe(w) {
            let low = to_lowercase(e.as_str());
            if let Some(n) = self.config.app_rules.get(low.as_str()) {
                return Some(*n);
            }
        }
        None
    }

    /// Takes `w` under management, behind the focused window so that it
    /// splits its slot. With `apply_rules` the new window of a pinned app
    /// goes to its home workspace, and is hidden there if that is not shown.
    pub fn manage(&mut self, desk: &mut Desktop, w: Window, apply_rules: bool)
        requires
            old(self).wf(),
            old(self).monitors.len() > 0 || old(self).paused || old(self)@.is_managed(w),
        ensures
            world(*final(self), *final(desk)) == world(*old(self), *old(desk)).manage(
                w,
                apply_rules,
            ),
            final(self).wf(),
            final(self).config == old(self).config,
            final(self).monitors.len() == old(self).monitors.len(),
    {
        if self.is_managed(w) || self.paused {
            return;
        }
        let ghost s = world(*self, *desk);
        let ghost before = self.monitors@;
        let mi: usize = self.monitor_index_of_handle(desk.monitor(w));
        proof {
            assert(s.wm.monitors[mi as int] == before[mi as int]@);
        }
        let floats = desk.should_float(w, &self.config);
        let active: usize = self.monitors[mi].active;
        let mut target: usize = active;
        if apply_rules {
            if let Some(n) = self.rule_for(desk, w) {
                if n >= 1 && n <= self.monitors[mi].workspaces.len() {
                    target = n - 1;
                }
            }
        }
        let ghost ws0 = self.monitors@[mi as int].workspaces@[target as int]@;
        proof {
            assert(target == s.home_of(w, apply_rules, mi as int));
            assert(ws0 == s.wm.ws(mi as int, target as int));
        }
        if floats {
            self.monitors[mi].workspaces[target].floating.push(w);
        } else {
            let len: usize = self.monitors[mi].workspaces[target].tiled.len();
            let mut at: usize = len;
            if target == active {
                if let Some(f) = desk.foreground {
                    if let Some(i) = position(&self.monitors[mi].workspaces[target].tiled, f) {
                        at = i + 1;
                    }
                }
            }
            proof {
                assert(at == s.slot_for(mi as int, target as int));
            }
            self.monitors[mi].workspaces[target].tiled.insert(at, w);
        }
        proof {
            lemma_with_ws(before, self.monitors@, mi as int, target as int);
            assert(world(*self, *desk) =~= s.housed(w, apply_rules));
        }
        let ghost h = world(*self, *desk);
        if target != active {
            proof {
                lemma_hiding_keeps(h, w);
            }
            self.hide_managed(desk, w);
            desk.act(Action::Journal);
        } else {
            proof {
                lemma_retiled_keeps(h, mi as int);
            }
            self.retile_monitor(desk, mi);
        }
        desk.act(Action::PaintBorders);
        proof {
            assert(self@.monitors.len() == before.len());
        }
    }

    /// Takes `w` out of its workspace.
    pub fn evict(&mut self, desk: &mut Desktop, w: Window, mi: usize, wi: usize)
        requires
            old(self).wf(),
            old(self)@.has(mi as int, wi as int),
        ensures
            world(*final(self), *final(desk)) == world(*old(self), *old(desk)).evicted(
                w,
                mi as int,
                wi as int,
            ),
            final(self).wf(),
            final(self).config == old(self).config,
            final(self).monitors.len() == old(self).monitors.len(),
    {
        let ghost s = world(*self, *desk);
        let ghost before = self.monitors@;
        proof {
            assert(s.wm.monitors[mi as int] == before[mi as int]@);
        }
        let full = match self.monitors[mi].workspaces[wi].fullscreen {
            Some(f) => f == w,
            None => false,
        };
        if full {
            self.monitors[mi].workspaces[wi].fullscreen = None;
            desk.set_topmost(w, false);
        }
        let _ = self.monitors[mi].workspaces[wi].remove(w);
        proof {
            lemma_with_ws(before, self.monitors@, mi as int, wi as int);
            assert(world(*self, *desk) =~= s.evicted(w, mi as int, wi as int));
        }
    }

    /// Lets `w` go.
    pub fn unmanage(&mut self, desk: &mut Desktop, w: Window)
        requires
            old(self).wf(),
        ensures
            world(*final(self), *final(desk)) == world(*old(self), *old(desk)).unmanage(w),
            final(self).wf(),
            final(self).config == old(self).config,
            final(self).monitors.len() == old(self).monitors.len(),
    {
        leave_out(&mut self.scratch, w);
        self.scratch_rects.forget(w);
        if let Some((mi, wi)) = self.find(w) {
            self.evict(desk, w, mi, wi);
            desk.act(Action::Border(w, None));
            proof {
                lemma_retiled_keeps(world(*self, *desk), mi as int);
            }
            self.retile_monitor(desk, mi);
            desk.act(Action::PaintBorders);
        }
        self.hidden_by_us.leave_out(w);
        proof {
            lemma_hiding_keeps(world(*self, *desk), w);
        }
        self.release_companions(desk, w);
        desk.act(Action::Journal);
        proof {
            assert(self@.monitors.len() == old(self)@.monitors.len());
        }
    }

    /// Adds the windows of `list` that should be managed and are not yet to
    /// the shown workspaces of their monitors.
    pub fn adopt_all(&mut self, desk: &Desktop, list: &Vec<Window>)
        requires
            old(self).wf(),
            old(self).monitors.len() > 0 || !world(*old(self), *desk).misses(list@),
        ensures
            world(*final(self), *desk) == world(*old(self), *desk).adopted_all(list@),
            final(self).wf(),
            final(self).config == old(self).config,
            final(self).monitors.len() == old(self).monitors.len(),
    {
        let ghost s = world(*self, *desk);
        let mut i: usize = 0;
        proof {
            assert(list@.take(0) =~= Seq::empty());
        }
        while i < list.len()
            invariant
                i <= list.len(),
                self.wf(),
                self.monitors.len() > 0 || (world(*self, *desk) == s && !s.misses(list@)),
                self.config == old(self).config,
                self.monitors.len() == old(self).monitors.len(),
                world(*self, *desk) == s.adopted_all(list@.take(i as int)),
            decreases list.len() - i,
        {
            proof {
                assert(list@.take(i + 1).drop_last() =~= list@.take(i as int));
            }
            let ghost t = world(*self, *desk);
            let ghost before = self.monitors@;
            let w = list[i];
            if !self.is_managed(w) && desk.is_manageable(w, &self.config) {
                let mi: usize = self.monitor_index_of_handle(desk.monitor(w));
                proof {
                    assert(t.wm.monitors[mi as int] == before[mi as int]@);
                }
                let wi: usize = self.monitors[mi].active;
                let floats = desk.should_float(w, &self.config);
                self.monitors[mi].workspaces[wi].add_window(w, floats);
                proof {
                    lemma_with_ws(before, self.monitors@, mi as int, wi as int);
                    assert(world(*self, *desk) =~= t.adopted(w));
                }
            }
            i = i + 1;
        }
        proof {
            assert(list@.take(i as int) =~= list@);
        }
    }

    /// Takes over everything that is on screen at the start, in the order
    /// given.
    pub fn adopt_existing_windows(&mut self, desk: &mut Desktop, windows: &Vec<Window>)
        requires
            old(self).wf(),
            old(self).monitors.len() > 0 || !world(*old(self), *old(desk)).misses(windows@),
        ensures
            world(*final(self), *final(desk)) == world(*old(self), *old(desk)).adopted_all(
                windows@,
            ).retiled_all().act(Action::PaintBorders),
            final(self).wf(),
            final(self).config == old(self).config,
    {
        self.adopt_all(desk, windows);
        self.retile_all(desk);
        desk.act(Action::PaintBorders);
    }

    /// Picks up windows that appeared unnoticed.
    pub fn rescan(&mut self, desk: &mut Desktop)
        requires
            old(self).wf(),
            old(self).monitors.len() > 0 || !world(*old(self), *old(desk)).misses(old(desk)@.order),
        ensures
            world(*final(self), *final(desk)) == world(*old(self), *old(desk)).rescanned(),
            final(self).wf(),
            final(self).config == old(self).config,
            final(self).monitors.len() == old(self).monitors.len(),
            final(desk)@ == old(desk)@,
    {
        let list = crate::lists::copied(&desk.order);
        self.adopt_all(desk, &list);
    }
}

} // verus!
