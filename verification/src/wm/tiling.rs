//! Laying out the windows of a monitor, and painting borders.

use super::desktop::{Action, DeskView, Desktop};
use super::state::{lemma_with_ws, world, MonView, Settings, WindowManager, WmView, World, WsView};
use crate::layout::{dwindle, slots, Rect};
use crate::single::Ratio;
use crate::window::Window;
use vstd::prelude::*;

verus! {

/// The windows of `list` that still exist.
pub open spec fn living(list: Seq<Window>, d: DeskView) -> Seq<Window>
    decreases list.len(),
{
    if list.len() == 0 {
        list
    } else if d.valid(list.last()) {
        living(list.drop_last(), d).push(list.last())
    } else {
        living(list.drop_last(), d)
    }
}

pub fn keep_living(v: &mut Vec<Window>, desk: &Desktop)
    ensures
        final(v)@ == living(old(v)@, desk@),
{
    let mut r: Vec<Window> = Vec::new();
    let mut i: usize = 0;
    proof {
        assert(v@.take(0) =~= Seq::empty());
    }
    while i < v.len()
        invariant
            i <= v.len(),
            r@ == living(v@.take(i as int), desk@),
        decreases v.len() - i,
    {
        proof {
            assert(v@.take(i + 1).drop_last() =~= v@.take(i as int));
        }
        if desk.is_valid(v[i]) {
            r.push(v[i]);
        }
        i = i + 1;
    }
    proof {
        assert(v@.take(i as int) =~= v@);
    }
    *v = r;
}

/// Ratios for at least `needed` splits, new ones with `value`.
pub open spec fn filled(ratios: Seq<Ratio>, needed: int, value: Ratio) -> Seq<Ratio> {
    if ratios.len() < needed {
        Seq::new(
            needed as nat,
            |i: int|
                if i < ratios.len() {
                    ratios[i]
                } else {
                    value
                },
        )
    } else {
        ratios
    }
}

pub fn fill_ratios(ratios: &mut Vec<Ratio>, needed: usize, value: Ratio)
    ensures
        final(ratios)@ == filled(old(ratios)@, needed as int, value),
{
    let ghost given = ratios@;
    while ratios.len() < needed
        invariant
            given.len() <= ratios.len(),
            given.len() < needed ==> ratios.len() <= needed,
            given.len() >= needed ==> ratios@ == given,
            forall|i: int| 0 <= i < given.len() ==> ratios@[i] == given[i],
            forall|i: int| given.len() <= i < ratios.len() ==> ratios@[i] == value,
        decreases needed - ratios.len(),
    {
        ratios.push(value);
    }
    proof {
        assert(ratios@ =~= filled(given, needed as int, value));
    }
}

impl WsView {
    /// Without windows that are gone; a fullscreen window that is no longer
    /// here is forgotten.
    pub open spec fn pruned(self, d: DeskView) -> WsView {
        let tiled = living(self.tiled, d);
        let floating = living(self.floating, d);
        WsView {
            tiled,
            floating,
            fullscreen: match self.fullscreen {
                Some(f) => if tiled.contains(f) || floating.contains(f) {
                    Some(f)
                } else {
                    None
                },
                None => None,
            },
            ..self
        }
    }

    /// The workspace holds a lone tiled window, which gets no gaps.
    pub open spec fn solo(self, cfg: Settings) -> bool {
        cfg.smart_gaps && self.fullscreen is None && self.floating.len() == 0 && self.tiled.len()
            == 1
    }

    /// With a ratio for every split.
    pub open spec fn split(self, cfg: Settings) -> WsView {
        WsView {
            ratios: filled(self.ratios, self.tiled.len() - 1, cfg.split_ratio),
            ..self
        }
    }

    /// Ready to be laid out.
    pub open spec fn settled(self, cfg: Settings, d: DeskView) -> WsView {
        let ws = self.pruned(d);
        if ws.monocle {
            ws
        } else {
            ws.split(cfg)
        }
    }

    /// The area that the tiled windows share.
    pub open spec fn area(self, work_area: Rect, cfg: Settings) -> Rect {
        if self.solo(cfg) {
            work_area
        } else {
            work_area.shrunk(cfg.outer_gap as int)
        }
    }
}

/// Every window of `list` that is not minimized moved to `area`.
pub open spec fn stacked(list: Seq<Window>, area: Rect, ms: u32, d: DeskView) -> Seq<Action>
    decreases list.len(),
{
    if list.len() == 0 {
        Seq::empty()
    } else if d.minimized(list.last()) {
        stacked(list.drop_last(), area, ms, d)
    } else {
        stacked(list.drop_last(), area, ms, d).push(Action::Glide(list.last(), area, ms))
    }
}

/// Every window of `list` moved to its slot.
pub open spec fn spread(list: Seq<Window>, rects: Seq<Rect>, ms: u32) -> Seq<Action> {
    Seq::new(list.len(), |i: int| Action::Glide(list[i], rects[i], ms))
}

/// The moves that lay out a settled workspace.
pub open spec fn moves(ws: WsView, mon: MonView, cfg: Settings, d: DeskView) -> Seq<Action> {
    let area = ws.area(mon.work_area, cfg);
    let tiles = if ws.monocle {
        stacked(ws.tiled, area, cfg.animation_ms, d)
    } else {
        spread(
            ws.tiled,
            slots(area, ws.tiled.len(), ws.ratios, cfg.inner_gap as int),
            cfg.animation_ms,
        )
    };
    match ws.fullscreen {
        Some(f) => tiles.push(Action::Glide(f, mon.bounds, cfg.animation_ms)),
        None => tiles,
    }
}

/// The windows of `list` that are on screen raised.
pub open spec fn raises(list: Seq<Window>, d: DeskView) -> Seq<Action>
    decreases list.len(),
{
    if list.len() == 0 {
        Seq::empty()
    } else if d.visible(list.last()) && !d.minimized(list.last()) {
        raises(list.drop_last(), d).push(Action::Raise(list.last()))
    } else {
        raises(list.drop_last(), d)
    }
}

/// The borders of `list`: accented on the focused window, plain elsewhere.
pub open spec fn marks(list: Seq<Window>, focused: Option<Window>, color: u32) -> Seq<Action> {
    list.map_values(
        |w: Window|
            Action::Border(
                w,
                if focused == Some(w) {
                    Some(color)
                } else {
                    None
                },
            ),
    )
}

/// The windows of `list` that are visible.
pub open spec fn on_screen(list: Seq<Window>, d: DeskView) -> Seq<Window>
    decreases list.len(),
{
    if list.len() == 0 {
        list
    } else if d.visible(list.last()) {
        on_screen(list.drop_last(), d).push(list.last())
    } else {
        on_screen(list.drop_last(), d)
    }
}

impl DeskView {
    pub open spec fn act_all(self, a: Seq<Action>) -> DeskView {
        DeskView { actions: self.actions + a, ..self }
    }
}

impl World {
    pub open spec fn act(self, a: Action) -> World {
        World { desk: self.desk.act(a), ..self }
    }

    pub open spec fn act_all(self, a: Seq<Action>) -> World {
        World { desk: self.desk.act_all(a), ..self }
    }

    /// Floating windows of monitor `mi` put back above the tiled ones.
    pub open spec fn raise_floats(self, mi: int) -> World {
        self.act_all(raises(self.wm.shown_ws(mi).floating, self.desk))
    }

    /// Monitor `mi` laid out anew.
    pub open spec fn retiled(self, mi: int) -> World {
        if self.wm.paused {
            self
        } else {
            let mon = self.wm.monitors[mi];
            let ws = self.wm.shown_ws(mi).settled(self.wm.cfg, self.desk);
            World {
                wm: self.wm.set_ws(mi, mon.active as int, ws),
                desk: self.desk.act_all(moves(ws, mon, self.wm.cfg, self.desk)),
            }.raise_floats(mi)
        }
    }

    /// The monitors before `n` laid out anew.
    pub open spec fn retiled_up_to(self, n: int) -> World
        decreases n,
    {
        if n <= 0 {
            self
        } else {
            self.retiled_up_to(n - 1).retiled(n - 1)
        }
    }

    /// All monitors laid out anew.
    pub open spec fn retiled_all(self) -> World {
        self.retiled_up_to(self.wm.monitors.len() as int)
    }

    /// The borders on the monitors before `n`.
    pub open spec fn marks_up_to(self, n: int) -> Seq<Action>
        decreases n,
    {
        if n <= 0 {
            Seq::empty()
        } else {
            self.marks_up_to(n - 1) + marks(
                self.wm.shown_ws(n - 1).all(),
                self.desk.foreground,
                self.wm.border_color,
            )
        }
    }

    /// The accent border on the focused window, the plain one on all others
    /// that are shown.
    pub open spec fn borders_painted(self) -> World {
        if self.wm.paused {
            self
        } else {
            self.act_all(
                self.marks_up_to(self.wm.monitors.len() as int) + marks(
                    on_screen(self.wm.scratch, self.desk),
                    self.desk.foreground,
                    self.wm.border_color,
                ),
            )
        }
    }
}

/// Laying out keeps the shape of the state.
pub proof fn lemma_retiled_keeps(s: World, mi: int)
    requires
        s.wm.wf(),
        0 <= mi < s.wm.monitors.len(),
    ensures
        s.retiled(mi).wm.wf(),
        ({
            let t = s.retiled(mi);
            &&& t.wm == (WmView { monitors: t.wm.monitors, ..s.wm })
            &&& t.wm.monitors.len() == s.wm.monitors.len()
            &&& forall|i: int|
                0 <= i < s.wm.monitors.len() ==> (#[trigger] t.wm.monitors[i]).active
                    == s.wm.monitors[i].active && t.wm.monitors[i].handle == s.wm.monitors[i].handle
            &&& t.desk == (DeskView { actions: t.desk.actions, ..s.desk })
        }),
{
}

pub proof fn lemma_retiled_up_to_keeps(s: World, n: int)
    requires
        s.wm.wf(),
        n <= s.wm.monitors.len(),
    ensures
        s.retiled_up_to(n).wm.wf(),
        ({
            let t = s.retiled_up_to(n);
            &&& t.wm == (WmView { monitors: t.wm.monitors, ..s.wm })
            &&& t.wm.monitors.len() == s.wm.monitors.len()
            &&& t.desk == (DeskView { actions: t.desk.actions, ..s.desk })
        }),
    decreases n,
{
    if n > 0 {
        lemma_retiled_up_to_keeps(s, n - 1);
        lemma_retiled_keeps(s.retiled_up_to(n - 1), n - 1);
    }
}

/// The border of each window of `list`.
fn mark_all(desk: &mut Desktop, list: &Vec<Window>, focused: Option<Window>, color: u32)
    ensures
        final(desk)@ == old(desk)@.act_all(marks(list@, focused, color)),
{
    let ghost d = desk@;
    let mut i: usize = 0;
    proof {
        assert(desk@ =~= d.act_all(marks(list@, focused, color).take(0)));
    }
    while i < list.len()
        invariant
            i <= list.len(),
            desk@ == d.act_all(marks(list@, focused, color).take(i as int)),
        decreases list.len() - i,
    {
        let w = list[i];
        let on = match focused {
            Some(f) => f == w,
            None => false,
        };
        if on {
            desk.act(Action::Border(w, Some(color)));
        } else {
            desk.act(Action::Border(w, None));
        }
        proof {
            let m = marks(list@, focused, color);
            assert(m.take(i + 1) =~= m.take(i as int).push(m[i as int]));
            assert(desk@ =~= d.act_all(m.take(i + 1)));
        }
        i = i + 1;
    }
    proof {
        assert(marks(list@, focused, color).take(i as int) =~= marks(list@, focused, color));
    }
}

impl WindowManager {
    /// Moves every window of `list` that is not minimized to `area`.
    fn stack(list: &Vec<Window>, desk: &mut Desktop, area: Rect, ms: u32)
        ensures
            final(desk)@ == old(desk)@.act_all(stacked(list@, area, ms, old(desk)@)),
    {
        let ghost d = desk@;
        let mut i: usize = 0;
        proof {
            assert(list@.take(0) =~= Seq::empty());
            assert(desk@ =~= d.act_all(stacked(list@.take(0), area, ms, d)));
        }
        while i < list.len()
            invariant
                i <= list.len(),
                desk@ == d.act_all(stacked(list@.take(i as int), area, ms, d)),
            decreases list.len() - i,
        {
            proof {
                assert(list@.take(i + 1).drop_last() =~= list@.take(i as int));
            }
            let w = list[i];
            proof {
                assert(desk@.minimized(w) == d.minimized(w));
            }
            if !desk.is_minimized(w) {
                desk.glide(w, area, ms);
                proof {
                    assert(desk@ =~= d.act_all(stacked(list@.take(i + 1), area, ms, d)));
                }
            }
            i = i + 1;
        }
        proof {
            assert(list@.take(i as int) =~= list@);
        }
    }

    /// Moves every window of `list` to its slot.
    fn spread(list: &Vec<Window>, desk: &mut Desktop, rects: &Vec<Rect>, ms: u32)
        requires
            rects.len() == list.len(),
        ensures
            final(desk)@ == old(desk)@.act_all(spread(list@, rects@, ms)),
    {
        let ghost d = desk@;
        let ghost m = spread(list@, rects@, ms);
        let mut i: usize = 0;
        proof {
            assert(desk@ =~= d.act_all(m.take(0)));
        }
        while i < list.len()
            invariant
                i <= list.len(),
                rects.len() == list.len(),
                m == spread(list@, rects@, ms),
                desk@ == d.act_all(m.take(i as int)),
            decreases list.len() - i,
        {
            desk.glide(list[i], rects[i], ms);
            proof {
                assert(m.take(i + 1) =~= m.take(i as int).push(m[i as int]));
                assert(desk@ =~= d.act_all(m.take(i + 1)));
            }
            i = i + 1;
        }
        proof {
            assert(m.take(i as int) =~= m);
        }
    }

    /// Puts the floating windows of a monitor back above the tiled ones.
    pub fn raise_floats(&self, desk: &mut Desktop, mi: usize)
        requires
            self@.wf(),
            mi < self.monitors.len(),
        ensures
            world(*self, *final(desk)) == world(*self, *old(desk)).raise_floats(mi as int),
    {
        let ghost d = desk@;
        let mon = &self.monitors[mi];
        proof {
            assert(self@.monitors[mi as int] == mon@);
        }
        let list = &mon.workspaces[mon.active].floating;
        proof {
            assert(self@.shown_ws(mi as int).floating == list@);
        }
        let mut i: usize = 0;
        proof {
            assert(list@.take(0) =~= Seq::empty());
            assert(desk@ =~= d.act_all(raises(list@.take(0), d)));
        }
        while i < list.len()
            invariant
                i <= list.len(),
                desk@ == d.act_all(raises(list@.take(i as int), d)),
            decreases list.len() - i,
        {
            proof {
                assert(list@.take(i + 1).drop_last() =~= list@.take(i as int));
            }
            let w = list[i];
            proof {
                assert(desk@.minimized(w) == d.minimized(w));
                assert(desk@.visible(w) == d.visible(w));
            }
            if desk.is_visible(w) && !desk.is_minimized(w) {
                desk.act(Action::Raise(w));
                proof {
                    assert(desk@ =~= d.act_all(raises(list@.take(i + 1), d)));
                }
            }
            i = i + 1;
        }
        proof {
            assert(list@.take(i as int) =~= list@);
        }
    }

    /// Lays out a monitor anew.
    pub fn retile_monitor(&mut self, desk: &mut Desktop, mi: usize)
        requires
            old(self).wf(),
            mi < old(self).monitors.len(),
        ensures
            world(*final(self), *final(desk)) == world(*old(self), *old(desk)).retiled(mi as int),
            final(self).wf(),
            final(self).config == old(self).config,
    {
        if self.paused {
            return;
        }
        let ghost s = world(*self, *desk);
        let ghost before = self.monitors@;
        proof {
            assert(s.wm.monitors[mi as int] == before[mi as int]@);
        }
        let wi: usize = self.monitors[mi].active;
        let ghost ws0 = self.monitors@[mi as int].workspaces@[wi as int]@;
        proof {
            assert(ws0 == s.wm.shown_ws(mi as int));
        }
        keep_living(&mut self.monitors[mi].workspaces[wi].tiled, desk);
        keep_living(&mut self.monitors[mi].workspaces[wi].floating, desk);
        let full = self.monitors[mi].workspaces[wi].fullscreen;
        if let Some(f) = full {
            if !self.monitors[mi].workspaces[wi].holds(f) {
                self.monitors[mi].workspaces[wi].fullscreen = None;
            }
        }
        let ghost ws1 = self.monitors@[mi as int].workspaces@[wi as int]@;
        proof {
            assert(ws1 =~= ws0.pruned(desk@));
        }
        let split = self.config.split_ratio;
        let n: usize = self.monitors[mi].workspaces[wi].tiled.len();
        let needed: usize = if n == 0 {
            0
        } else {
            n - 1
        };
        if !self.monitors[mi].workspaces[wi].monocle {
            fill_ratios(&mut self.monitors[mi].workspaces[wi].ratios, needed, split);
        }
        let ghost ws2 = self.monitors@[mi as int].workspaces@[wi as int]@;
        proof {
            assert(ws2 =~= ws0.settled(s.wm.cfg, desk@));
            lemma_with_ws(before, self.monitors@, mi as int, wi as int);
            assert(self@ =~= s.wm.set_ws(mi as int, wi as int, ws2));
        }
        let mon = &self.monitors[mi];
        let ws = &mon.workspaces[wi];
        let ms: u32 = self.config.animation_ms;
        let solo = self.config.smart_gaps && ws.fullscreen.is_none() && ws.floating.len() == 0
            && ws.tiled.len() == 1;
        let area = if solo {
            mon.work_area
        } else {
            mon.work_area.shrink(self.config.outer_gap)
        };
        if ws.monocle {
            Self::stack(&ws.tiled, desk, area, ms);
        } else {
            let rects = dwindle(
                area,
                ws.tiled.len(),
                ws.ratios.as_slice(),
                self.config.inner_gap,
            );
            Self::spread(&ws.tiled, desk, &rects, ms);
        }
        if let Some(f) = ws.fullscreen {
            desk.glide(f, mon.bounds, ms);
        }
        proof {
            assert(desk@ =~= s.desk.act_all(moves(ws2, s.wm.monitors[mi as int], s.wm.cfg, s.desk)));
            lemma_retiled_keeps(s, mi as int);
        }
        self.raise_floats(desk, mi);
    }

    /// Lays out all monitors anew.
    pub fn retile_all(&mut self, desk: &mut Desktop)
        requires
            old(self).wf(),
        ensures
            world(*final(self), *final(desk)) == world(*old(self), *old(desk)).retiled_all(),
            final(self).wf(),
            final(self).config == old(self).config,
    {
        let ghost s = world(*self, *desk);
        let n: usize = self.monitors.len();
        let mut mi: usize = 0;
        while mi < n
            invariant
                mi <= n,
                n == self.monitors.len(),
                n == s.wm.monitors.len(),
                self.wf(),
                self.config == old(self).config,
                world(*self, *desk) == s.retiled_up_to(mi as int),
            decreases n - mi,
        {
            let ghost t = world(*self, *desk);
            proof {
                lemma_retiled_keeps(t, mi as int);
            }
            self.retile_monitor(desk, mi);
            proof {
                assert(self@.monitors.len() == n);
            }
            mi = mi + 1;
        }
    }

    /// Paints the accent border on the focused window and the plain one on
    /// the other windows that are shown.
    pub fn update_borders(&self, desk: &mut Desktop)
        requires
            self.wf(),
        ensures
            world(*self, *final(desk)) == world(*self, *old(desk)).borders_painted(),
    {
        if self.paused {
            return;
        }
        let ghost s = world(*self, *desk);
        let focused = desk.foreground;
        let mut mi: usize = 0;
        proof {
            assert(desk@ =~= s.desk.act_all(s.marks_up_to(0)));
        }
        while mi < self.monitors.len()
            invariant
                mi <= self.monitors.len(),
                self.wf(),
                s.wm == self@,
                focused == s.desk.foreground,
                desk@ == s.desk.act_all(s.marks_up_to(mi as int)),
            decreases self.monitors.len() - mi,
        {
            let mon = &self.monitors[mi];
            proof {
                assert(self@.monitors[mi as int] == mon@);
            }
            let list = mon.workspaces[mon.active].all_windows();
            proof {
                assert(list@ == s.wm.shown_ws(mi as int).all());
            }
            mark_all(desk, &list, focused, self.border_color);
            proof {
                assert(desk@ =~= s.desk.act_all(s.marks_up_to(mi + 1)));
            }
            mi = mi + 1;
        }
        let mut out: Vec<Window> = Vec::new();
        let mut i: usize = 0;
        let ghost d1 = desk@;
        proof {
            assert(self.scratch@.take(0) =~= Seq::empty());
        }
        while i < self.scratch.len()
            invariant
                i <= self.scratch.len(),
                desk@ == d1,
                d1 == s.desk.act_all(s.marks_up_to(self.monitors.len() as int)),
                out@ == on_screen(self.scratch@.take(i as int), s.desk),
            decreases self.scratch.len() - i,
        {
            proof {
                assert(self.scratch@.take(i + 1).drop_last() =~= self.scratch@.take(i as int));
                assert(desk@.visible(self.scratch@[i as int]) == s.desk.visible(
                    self.scratch@[i as int],
                ));
            }
            if desk.is_visible(self.scratch[i]) {
                out.push(self.scratch[i]);
            }
            i = i + 1;
        }
        proof {
            assert(self.scratch@.take(i as int) =~= self.scratch@);
        }
        mark_all(desk, &out, focused, self.border_color);
        proof {
            assert(desk@ =~= s.borders_painted().desk);
        }
    }
}

} // verus!
