//! Commands on the focused window and its neighbours.

use super::desktop::{Action, Desktop};
use super::spaces::{step, stepped};
use super::state::{lemma_with_ws, world, MonView, WindowManager, WmView, World, WsView};
use super::tiling::lemma_retiled_keeps;
use super::Dir;
use crate::layout::{distance, divided, quot, Rect};
use crate::lists::{place, position, swap_places, swapped};
use crate::window::Window;
use vstd::prelude::*;

verus! {

// --------------------------------------------------------------- direction

/// The middle of a rectangle.
pub open spec fn center(r: Rect) -> (int, int) {
    (r.x + quot(r.w as int, 2), r.y + quot(r.h as int, 2))
}

/// How far `to` lies in the direction from `from`; sideways distance counts
/// three times. None when it does not lie that way.
pub open spec fn dir_score(from: Rect, to: Rect, dir: Dir) -> Option<int> {
    let (fx, fy) = center(from);
    let (cx, cy) = center(to);
    let (ahead, aside) = match dir {
        Dir::Left => (fx - cx, distance(cy, fy)),
        Dir::Right => (cx - fx, distance(cy, fy)),
        Dir::Up => (fy - cy, distance(cx, fx)),
        Dir::Down => (cy - fy, distance(cx, fx)),
    };
    if ahead > 0 {
        Some(ahead + 3 * aside)
    } else {
        None
    }
}

/// How far `to` lies in the direction from `from`.
pub fn dir_score_rects(from: Rect, to: Rect, dir: Dir) -> (r: Option<i64>)
    ensures
        match r {
            Some(n) => dir_score(from, to, dir) == Some(n as int),
            None => dir_score(from, to, dir) is None,
        },
{
    let fx: i64 = from.x as i64 + divided(from.w as i64, 2);
    let fy: i64 = from.y as i64 + divided(from.h as i64, 2);
    let cx: i64 = to.x as i64 + divided(to.w as i64, 2);
    let cy: i64 = to.y as i64 + divided(to.h as i64, 2);
    let sideways: i64 = if cy < fy {
        fy - cy
    } else {
        cy - fy
    };
    let upright: i64 = if cx < fx {
        fx - cx
    } else {
        cx - fx
    };
    let (ahead, aside): (i64, i64) = match dir {
        Dir::Left => (fx - cx, sideways),
        Dir::Right => (cx - fx, sideways),
        Dir::Up => (fy - cy, upright),
        Dir::Down => (cy - fy, upright),
    };
    if ahead > 0 {
        Some(ahead + 3 * aside)
    } else {
        None
    }
}

/// The first place of the lowest score.
pub open spec fn lowest(scores: Seq<Option<int>>) -> Option<int>
    decreases scores.len(),
{
    if scores.len() == 0 {
        None
    } else {
        let b = lowest(scores.drop_last());
        match scores.last() {
            None => b,
            Some(v) => match b {
                None => Some(scores.len() - 1),
                Some(k) => match scores[k] {
                    Some(u) => if v < u {
                        Some(scores.len() - 1)
                    } else {
                        b
                    },
                    None => b,
                },
            },
        }
    }
}

/// `lowest` finds a score that no other one is below, and the first of its
/// kind; it finds none only when there is none.
pub proof fn lemma_lowest(scores: Seq<Option<int>>)
    ensures
        match lowest(scores) {
            Some(k) => {
                &&& 0 <= k < scores.len()
                &&& scores[k] is Some
                &&& forall|j: int|
                    0 <= j < scores.len() && scores[j] is Some ==> scores[k]->0 <= scores[j]->0
                &&& forall|j: int|
                    0 <= j < k && scores[j] is Some ==> scores[k]->0 < scores[j]->0
            },
            None => forall|j: int| 0 <= j < scores.len() ==> scores[j] is None,
        },
    decreases scores.len(),
{
    if scores.len() > 0 {
        let front = scores.drop_last();
        lemma_lowest(front);
        assert(forall|j: int| 0 <= j < front.len() ==> front[j] == scores[j]);
    }
}

pub open spec fn as_int(x: Option<i64>) -> Option<int> {
    match x {
        Some(n) => Some(n as int),
        None => None,
    }
}

pub open spec fn as_ints(v: Seq<Option<i64>>) -> Seq<Option<int>> {
    v.map_values(|x: Option<i64>| as_int(x))
}

fn pick_lowest(v: &Vec<Option<i64>>) -> (r: Option<usize>)
    ensures
        match r {
            Some(k) => lowest(as_ints(v@)) == Some(k as int) && k < v.len(),
            None => lowest(as_ints(v@)) is None,
        },
{
    let ghost s = as_ints(v@);
    let mut best: Option<usize> = None;
    let mut low: i64 = 0;
    let mut i: usize = 0;
    proof {
        assert(s.take(0) =~= Seq::empty());
    }
    while i < v.len()
        invariant
            i <= v.len(),
            s == as_ints(v@),
            match best {
                Some(k) => lowest(s.take(i as int)) == Some(k as int) && k < i && s[k as int]
                    == Some(low as int),
                None => lowest(s.take(i as int)) is None,
            },
        decreases v.len() - i,
    {
        proof {
            assert(s.take(i + 1).drop_last() =~= s.take(i as int));
            assert(s.take(i + 1).last() == s[i as int]);
        }
        if let Some(n) = v[i] {
            let better = match best {
                Some(_) => n < low,
                None => true,
            };
            if better {
                best = Some(i);
                low = n;
            }
        }
        i = i + 1;
    }
    proof {
        assert(s.take(i as int) =~= s);
    }
    best
}

// ------------------------------------------------------------------- focus

impl WmView {
    /// The windows shown on the monitors before `n`.
    pub open spec fn shown_up_to(self, n: int) -> Seq<Window>
        decreases n,
    {
        if n <= 0 {
            Seq::empty()
        } else {
            self.shown_up_to(n - 1) + self.shown_ws(n - 1).all()
        }
    }

    /// The scores of all monitors as seen from monitor `mi`.
    pub open spec fn monitor_scores(self, mi: int, dir: Dir) -> Seq<Option<int>> {
        self.monitors.map(
            |i: int, m: MonView|
                if i == mi {
                    None
                } else {
                    dir_score(self.monitors[mi].work_area, m.work_area, dir)
                },
        )
    }

    /// The nearest monitor in a direction from monitor `mi`.
    pub open spec fn monitor_in_dir(self, mi: int, dir: Dir) -> Option<int> {
        lowest(self.monitor_scores(mi, dir))
    }
}

impl World {
    /// The scores of the windows of `list` as seen from `f`.
    pub open spec fn scores(self, f: Window, list: Seq<Window>, dir: Dir) -> Seq<Option<int>> {
        list.map_values(
            |w: Window|
                if w == f {
                    None
                } else {
                    dir_score(self.desk.rect_of(f), self.desk.rect_of(w), dir)
                },
        )
    }

    pub open spec fn focused_on(self, w: Window) -> World {
        World { desk: self.desk.focused(w), ..self }.act(Action::PaintBorders)
    }

    /// Focus on the next or previous window of the monitor, going round.
    pub open spec fn focus_neighbor(self, forward: bool) -> World {
        let all = self.wm.shown_ws(self.focused_monitor()).all();
        if all.len() == 0 {
            self
        } else {
            let cur = match self.desk.foreground {
                Some(f) => match place(all, f) {
                    Some(i) => i,
                    None => 0,
                },
                None => 0,
            };
            self.focused_on(all[stepped(cur, all.len() as int, forward)])
        }
    }

    /// Focus on the nearest window in a direction, on any monitor. Without a
    /// managed window in focus, on the first of the monitor.
    pub open spec fn focus_dir(self, dir: Dir) -> World {
        match self.desk.foreground {
            Some(f) => if self.wm.is_managed(f) {
                let list = self.wm.shown_up_to(self.wm.monitors.len() as int);
                match lowest(self.scores(f, list, dir)) {
                    Some(k) => self.focused_on(list[k]),
                    None => self,
                }
            } else {
                self.focus_first()
            },
            None => self.focus_first(),
        }
    }

    /// The foreground window is managed.
    pub open spec fn focus_is_managed(self) -> bool {
        match self.desk.foreground {
            Some(f) => self.wm.is_managed(f),
            None => false,
        }
    }

    /// Focus on the first window of the focused monitor.
    pub open spec fn focus_first(self) -> World {
        let all = self.wm.shown_ws(self.focused_monitor()).all();
        if all.len() == 0 {
            self
        } else {
            self.focused_on(all[0])
        }
    }

    /// The tiled windows of a workspace with two exchanged, laid out anew.
    pub open spec fn swap_tiled(self, mi: int, wi: int, i: int, j: int) -> World {
        let ws = self.wm.ws(mi, wi);
        World {
            wm: self.wm.set_ws(mi, wi, WsView { tiled: swapped(ws.tiled, i, j), ..ws }),
            ..self
        }.retiled(mi)
    }

    /// The focused window exchanged with its neighbour in a direction; with
    /// none there, moved to the next monitor.
    pub open spec fn swap_dir(self, dir: Dir) -> World {
        match self.focused_window() {
            None => self,
            Some((f, mi, wi)) => {
                let tiled = self.wm.ws(mi, wi).tiled;
                let mate = match place(tiled, f) {
                    Some(src) => match lowest(self.scores(f, tiled, dir)) {
                        Some(dst) => Some((src, dst)),
                        None => None,
                    },
                    None => None,
                };
                match mate {
                    Some((src, dst)) => self.swap_tiled(mi, wi, src, dst),
                    None => match self.wm.monitor_in_dir(mi, dir) {
                        Some(tmi) => self.move_to_monitor(f, mi, wi, tmi),
                        None => self,
                    },
                }
            },
        }
    }

    /// The focused window exchanged with the next or previous one.
    pub open spec fn swap_neighbor(self, forward: bool) -> World {
        match self.focused_window() {
            None => self,
            Some((f, mi, wi)) => {
                let tiled = self.wm.ws(mi, wi).tiled;
                match place(tiled, f) {
                    Some(i) => if tiled.len() < 2 {
                        self
                    } else {
                        self.swap_tiled(mi, wi, i, stepped(i, tiled.len() as int, forward))
                    },
                    None => self,
                }
            },
        }
    }

    /// The focused window moved to the front.
    pub open spec fn promote(self) -> World {
        match self.focused_window() {
            None => self,
            Some((f, mi, wi)) => {
                let ws = self.wm.ws(mi, wi);
                match place(ws.tiled, f) {
                    Some(i) => World {
                        wm: self.wm.set_ws(
                            mi,
                            wi,
                            WsView { tiled: ws.tiled.remove(i).insert(0, f), ..ws },
                        ),
                        ..self
                    }.retiled(mi),
                    None => self,
                }
            },
        }
    }
}

impl WindowManager {
    /// The windows shown on all monitors.
    fn shown_windows(&self) -> (r: Vec<Window>)
        requires
            self.wf(),
        ensures
            r@ == self@.shown_up_to(self@.monitors.len() as int),
    {
        let mut r: Vec<Window> = Vec::new();
        let mut mi: usize = 0;
        while mi < self.monitors.len()
            invariant
                mi <= self.monitors.len(),
                self.wf(),
                r@ == self@.shown_up_to(mi as int),
            decreases self.monitors.len() - mi,
        {
            let mon = &self.monitors[mi];
            proof {
                assert(self@.monitors[mi as int] == mon@);
            }
            let mut list = mon.workspaces[mon.active].all_windows();
            r.append(&mut list);
            mi = mi + 1;
        }
        r
    }

    fn score_list(desk: &Desktop, f: Window, list: &Vec<Window>, dir: Dir) -> (r: Vec<Option<i64>>)
        ensures
            r.len() == list.len(),
            forall|s: World|
                s.desk == desk@ ==> as_ints(r@) == #[trigger] s.scores(f, list@, dir),
    {
        let from = desk.rect(f);
        let mut r: Vec<Option<i64>> = Vec::new();
        let mut i: usize = 0;
        while i < list.len()
            invariant
                i <= list.len(),
                r.len() == i,
                from == desk@.rect_of(f),
                forall|k: int|
                    0 <= k < i ==> #[trigger] as_ints(r@)[k] == if list@[k] == f {
                        None
                    } else {
                        dir_score(desk@.rect_of(f), desk@.rect_of(list@[k]), dir)
                    },
            decreases list.len() - i,
        {
            let w = list[i];
            let ghost was = as_ints(r@);
            if w == f {
                r.push(None);
            } else {
                r.push(dir_score_rects(from, desk.rect(w), dir));
            }
            proof {
                assert(as_ints(r@) =~= was.push(as_int(r@[i as int])));
            }
            i = i + 1;
        }
        proof {
            assert forall|s: World| s.desk == desk@ implies as_ints(r@) == #[trigger] s.scores(
                f,
                list@,
                dir,
            ) by {
                assert(as_ints(r@) =~= s.scores(f, list@, dir));
            }
        }
        r
    }

    /// The windows that a monitor shows, in order.
    pub fn ordered_windows(&self, mi: usize) -> (r: Vec<Window>)
        requires
            self.wf(),
            mi < self.monitors.len(),
        ensures
            r@ == self@.shown_ws(mi as int).all(),
    {
        let mon = &self.monitors[mi];
        proof {
            assert(self@.monitors[mi as int] == mon@);
        }
        mon.workspaces[mon.active].all_windows()
    }

    /// Focuses the next or previous window of the monitor.
    pub fn focus_neighbor(&self, desk: &mut Desktop, forward: bool)
        requires
            self.wf(),
            self.monitors.len() > 0,
        ensures
            world(*self, *final(desk)) == world(*self, *old(desk)).focus_neighbor(forward),
    {
        let mi: usize = self.focused_monitor(desk);
        let order = self.ordered_windows(mi);
        if order.len() == 0 {
            return;
        }
        let mut cur: usize = 0;
        if let Some(f) = desk.foreground {
            if let Some(i) = position(&order, f) {
                cur = i;
            }
        }
        let next: usize = step(cur, order.len(), forward);
        desk.focus(order[next]);
        desk.act(Action::PaintBorders);
    }

    fn focus_first(&self, desk: &mut Desktop)
        requires
            self.wf(),
            self.monitors.len() > 0,
        ensures
            world(*self, *final(desk)) == world(*self, *old(desk)).focus_first(),
    {
        let mi: usize = self.focused_monitor(desk);
        let order = self.ordered_windows(mi);
        if order.len() > 0 {
            desk.focus(order[0]);
            desk.act(Action::PaintBorders);
        }
    }

    /// Focuses the nearest window in a direction, on any monitor.
    pub fn focus_dir(&self, desk: &mut Desktop, dir: Dir)
        requires
            self.wf(),
            self.monitors.len() > 0 || world(*self, *old(desk)).focus_is_managed(),
        ensures
            world(*self, *final(desk)) == world(*self, *old(desk)).focus_dir(dir),
    {
        let f = match desk.foreground {
            Some(f) => f,
            None => {
                self.focus_first(desk);
                return;
            },
        };
        if !self.is_managed(f) {
            self.focus_first(desk);
            return;
        }
        let list = self.shown_windows();
        let scores = Self::score_list(desk, f, &list, dir);
        proof {
            let s = world(*self, *desk);
            assert(as_ints(scores@) == s.scores(f, list@, dir));
        }
        if let Some(k) = pick_lowest(&scores) {
            desk.focus(list[k]);
            desk.act(Action::PaintBorders);
        }
    }

    /// The nearest monitor in a direction.
    fn monitor_in_dir(&self, mi: usize, dir: Dir) -> (r: Option<usize>)
        requires
            mi < self.monitors.len(),
        ensures
            match r {
                Some(k) => self@.monitor_in_dir(mi as int, dir) == Some(k as int),
                None => self@.monitor_in_dir(mi as int, dir) is None,
            },
            r matches Some(k) ==> k < self.monitors.len(),
    {
        let from = self.monitors[mi].work_area;
        let mut v: Vec<Option<i64>> = Vec::new();
        let mut i: usize = 0;
        let ghost e = self@.monitor_scores(mi as int, dir);
        proof {
            assert(self@.monitors[mi as int] == self.monitors@[mi as int]@);
        }
        while i < self.monitors.len()
            invariant
                i <= self.monitors.len(),
                v.len() == i,
                e.len() == self.monitors.len(),
                mi < self.monitors.len(),
                from == self@.monitors[mi as int].work_area,
                e == self@.monitor_scores(mi as int, dir),
                forall|k: int| 0 <= k < i ==> #[trigger] as_ints(v@)[k] == e[k],
            decreases self.monitors.len() - i,
        {
            let ghost was = as_ints(v@);
            proof {
                assert(self@.monitors[i as int] == self.monitors@[i as int]@);
            }
            if i == mi {
                v.push(None);
            } else {
                v.push(dir_score_rects(from, self.monitors[i].work_area, dir));
            }
            proof {
                assert(as_ints(v@) =~= was.push(as_int(v@[i as int])));
            }
            i = i + 1;
        }
        proof {
            assert(as_ints(v@) =~= e);
        }
        pick_lowest(&v)
    }

    fn swap_and_retile(&mut self, desk: &mut Desktop, mi: usize, wi: usize, i: usize, j: usize)
        requires
            old(self).wf(),
            old(self)@.has(mi as int, wi as int),
            i < old(self)@.ws(mi as int, wi as int).tiled.len(),
            j < old(self)@.ws(mi as int, wi as int).tiled.len(),
        ensures
            world(*final(self), *final(desk)) == world(*old(self), *old(desk)).swap_tiled(
                mi as int,
                wi as int,
                i as int,
                j as int,
            ),
            final(self).wf(),
            final(self).config == old(self).config,
            final(self).monitors.len() == old(self).monitors.len(),
    {
        let ghost s = world(*self, *desk);
        let ghost before = self.monitors@;
        proof {
            assert(s.wm.monitors[mi as int] == before[mi as int]@);
        }
        swap_places(&mut self.monitors[mi].workspaces[wi].tiled, i, j);
        proof {
            lemma_with_ws(before, self.monitors@, mi as int, wi as int);
            let ws = s.wm.ws(mi as int, wi as int);
            assert(self@ =~= s.wm.set_ws(
                mi as int,
                wi as int,
                WsView { tiled: swapped(ws.tiled, i as int, j as int), ..ws },
            ));
            lemma_retiled_keeps(world(*self, *desk), mi as int);
        }
        self.retile_monitor(desk, mi);
        proof {
            assert(self@.monitors.len() == s.wm.monitors.len());
        }
    }

    /// Exchanges the focused window with its neighbour in a direction; with
    /// none there, moves it to the next monitor.
    pub fn swap_dir(&mut self, desk: &mut Desktop, dir: Dir)
        requires
            old(self).wf(),
        ensures
            world(*final(self), *final(desk)) == world(*old(self), *old(desk)).swap_dir(dir),
            final(self).wf(),
            final(self).config == old(self).config,
            final(self).monitors.len() == old(self).monitors.len(),
    {
        let (f, mi, wi): (Window, usize, usize) = match self.focused_window(desk) {
            Some(x) => x,
            None => {
                return;
            },
        };
        let ghost s = world(*self, *desk);
        proof {
            assert(s.wm.monitors[mi as int] == self.monitors@[mi as int]@);
        }
        let tiled = &self.monitors[mi].workspaces[wi].tiled;
        if let Some(src) = position(tiled, f) {
            let scores = Self::score_list(desk, f, tiled, dir);
            proof {
                assert(as_ints(scores@) == s.scores(f, tiled@, dir));
            }
            if let Some(dst) = pick_lowest(&scores) {
                self.swap_and_retile(desk, mi, wi, src, dst);
                return;
            }
        }
        if let Some(tmi) = self.monitor_in_dir(mi, dir) {
            self.move_window_to_monitor(desk, f, mi, wi, tmi);
        }
    }

    /// Exchanges the focused window with the next or previous one.
    pub fn swap_neighbor(&mut self, desk: &mut Desktop, forward: bool)
        requires
            old(self).wf(),
        ensures
            world(*final(self), *final(desk)) == world(*old(self), *old(desk)).swap_neighbor(
                forward,
            ),
            final(self).wf(),
            final(self).config == old(self).config,
            final(self).monitors.len() == old(self).monitors.len(),
    {
        let (w, mi, wi): (Window, usize, usize) = match self.focused_window(desk) {
            Some(x) => x,
            None => {
                return;
            },
        };
        proof {
            assert(self@.monitors[mi as int] == self.monitors@[mi as int]@);
        }
        let tiled = &self.monitors[mi].workspaces[wi].tiled;
        if let Some(cur) = position(tiled, w) {
            if tiled.len() >= 2 {
                let next: usize = step(cur, tiled.len(), forward);
                self.swap_and_retile(desk, mi, wi, cur, next);
            }
        }
    }

    /// Moves the focused window to the front, into the largest slot.
    pub fn promote(&mut self, desk: &mut Desktop)
        requires
            old(self).wf(),
        ensures
            world(*final(self), *final(desk)) == world(*old(self), *old(desk)).promote(),
            final(self).wf(),
            final(self).config == old(self).config,
            final(self).monitors.len() == old(self).monitors.len(),
    {
        let (w, mi, wi): (Window, usize, usize) = match self.focused_window(desk) {
            Some(x) => x,
            None => {
                return;
            },
        };
        let ghost s = world(*self, *desk);
        let ghost before = self.monitors@;
        proof {
            assert(s.wm.monitors[mi as int] == before[mi as int]@);
        }
        if let Some(cur) = position(&self.monitors[mi].workspaces[wi].tiled, w) {
            let win = self.monitors[mi].workspaces[wi].tiled.remove(cur);
            self.monitors[mi].workspaces[wi].tiled.insert(0, win);
            proof {
                lemma_with_ws(before, self.monitors@, mi as int, wi as int);
                let ws = s.wm.ws(mi as int, wi as int);
                assert(self@ =~= s.wm.set_ws(
                    mi as int,
                    wi as int,
                    WsView { tiled: ws.tiled.remove(cur as int).insert(0, w), ..ws },
                ));
                lemma_retiled_keeps(world(*self, *desk), mi as int);
            }
            self.retile_monitor(desk, mi);
            proof {
                assert(self@.monitors.len() == s.wm.monitors.len());
            }
        }
    }
}

} // verus!
