//! Changing the number of workspaces, and following changes of the monitors.

use super::desktop::{Action, Desktop};
use super::hiding::lemma_hiding_keeps;
use super::spaces::lemma_switch_keeps;
use super::state::{
    blank_monitor, empty_workspace, fresh_monitor, lemma_handle_from, mon_views, settings_of, world,
    ws_views, handle_from, MonView, MonitorState, Settings, WindowManager, WmView, Workspace, World,
    WsView,
};
use super::tiling::lemma_retiled_up_to_keeps;
use crate::config::{colorref, parse_colorref, workspace_count, Config};
use crate::monitor::{position_of, with_handle, MonitorInfo};
use crate::text::owned;
use crate::window::Window;
use vstd::prelude::*;

verus! {

// ------------------------------------------------------------- visibility

impl World {
    /// `w` shown or hidden as its workspace is shown or not.
    pub open spec fn synced(self, w: Window, shown: bool) -> World {
        if !self.desk.valid(w) {
            self
        } else if shown {
            if self.wm.hidden.contains(w) {
                self.show_managed(w)
            } else {
                self
            }
        } else if self.desk.visible(w) {
            self.hide_managed(w)
        } else {
            self
        }
    }

    pub open spec fn synced_list(self, list: Seq<Window>, shown: bool) -> World
        decreases list.len(),
    {
        if list.len() == 0 {
            self
        } else {
            self.synced_list(list.drop_last(), shown).synced(list.last(), shown)
        }
    }

    /// The workspaces before `n` of monitor `mon`.
    pub open spec fn synced_spaces(self, mon: MonView, n: int) -> World
        decreases n,
    {
        if n <= 0 {
            self
        } else {
            self.synced_spaces(mon, n - 1).synced_list(
                mon.workspaces[n - 1].all(),
                n - 1 == mon.active,
            )
        }
    }

    /// The monitors of `mons` before `n`.
    pub open spec fn synced_monitors(self, mons: Seq<MonView>, n: int) -> World
        decreases n,
    {
        if n <= 0 {
            self
        } else {
            self.synced_monitors(mons, n - 1).synced_spaces(
                mons[n - 1],
                mons[n - 1].workspaces.len() as int,
            )
        }
    }

    /// Windows of shown workspaces shown, all others hidden.
    pub open spec fn sync_visibility(self) -> World {
        self.synced_monitors(self.wm.monitors, self.wm.monitors.len() as int).act(Action::Journal)
    }
}

/// Nothing but visibility has changed from `s` to `t`.
pub open spec fn same_places(s: World, t: World) -> bool {
    &&& t.wm.cfg == s.wm.cfg
    &&& t.wm.monitors == s.wm.monitors
    &&& t.wm.scratch == s.wm.scratch
    &&& t.wm.paused == s.wm.paused
}

pub proof fn lemma_synced_list_keeps(s: World, list: Seq<Window>, shown: bool)
    ensures
        same_places(s, s.synced_list(list, shown)),
    decreases list.len(),
{
    if list.len() > 0 {
        lemma_synced_list_keeps(s, list.drop_last(), shown);
        lemma_hiding_keeps(s.synced_list(list.drop_last(), shown), list.last());
    }
}

pub proof fn lemma_synced_spaces_keeps(s: World, mon: MonView, n: int)
    ensures
        same_places(s, s.synced_spaces(mon, n)),
    decreases n,
{
    if n > 0 {
        lemma_synced_spaces_keeps(s, mon, n - 1);
        lemma_synced_list_keeps(
            s.synced_spaces(mon, n - 1),
            mon.workspaces[n - 1].all(),
            n - 1 == mon.active,
        );
    }
}

pub proof fn lemma_synced_monitors_keeps(s: World, mons: Seq<MonView>, n: int)
    ensures
        same_places(s, s.synced_monitors(mons, n)),
    decreases n,
{
    if n > 0 {
        lemma_synced_monitors_keeps(s, mons, n - 1);
        lemma_synced_spaces_keeps(
            s.synced_monitors(mons, n - 1),
            mons[n - 1],
            mons[n - 1].workspaces.len() as int,
        );
    }
}

impl WindowManager {
    fn sync_list(&mut self, desk: &mut Desktop, list: &Vec<Window>, shown: bool)
        ensures
            world(*final(self), *final(desk)) == world(*old(self), *old(desk)).synced_list(
                list@,
                shown,
            ),
            final(self).config == old(self).config,
    {
        let ghost s = world(*self, *desk);
        let mut i: usize = 0;
        proof {
            assert(list@.take(0) =~= Seq::empty());
        }
        while i < list.len()
            invariant
                i <= list.len(),
                self.config == old(self).config,
                world(*self, *desk) == s.synced_list(list@.take(i as int), shown),
            decreases list.len() - i,
        {
            proof {
                assert(list@.take(i + 1).drop_last() =~= list@.take(i as int));
            }
            let w = list[i];
            if desk.is_valid(w) {
                if shown {
                    if self.hidden_by_us.has(w) {
                        self.show_managed(desk, w);
                    }
                } else if desk.is_visible(w) {
                    self.hide_managed(desk, w);
                }
            }
            i = i + 1;
        }
        proof {
            assert(list@.take(i as int) =~= list@);
        }
    }

    /// Makes visibility match the workspaces: windows of shown workspaces are
    /// shown, all others hidden.
    pub fn sync_visibility(&mut self, desk: &mut Desktop)
        ensures
            world(*final(self), *final(desk)) == world(*old(self), *old(desk)).sync_visibility(),
            final(self).config == old(self).config,
            final(self)@.monitors == old(self)@.monitors,
    {
        let ghost s = world(*self, *desk);
        let ghost mons = self@.monitors;
        let mut mi: usize = 0;
        while mi < self.monitors.len()
            invariant
                mi <= mons.len(),
                self@.monitors == mons,
                self.config == old(self).config,
                world(*self, *desk) == s.synced_monitors(mons, mi as int),
            decreases mons.len() - mi,
        {
            proof {
                assert(mons.len() == self.monitors.len());
                assert(mons[mi as int] == self.monitors@[mi as int]@);
            }
            let active: usize = self.monitors[mi].active;
            let n: usize = self.monitors[mi].workspaces.len();
            let ghost t = world(*self, *desk);
            let mut wi: usize = 0;
            while wi < n
                invariant
                    wi <= n,
                    mi < mons.len(),
                    n == mons[mi as int].workspaces.len(),
                    active == mons[mi as int].active,
                    self@.monitors == mons,
                    self.config == old(self).config,
                    world(*self, *desk) == t.synced_spaces(mons[mi as int], wi as int),
                decreases n - wi,
            {
                proof {
                    assert(mons.len() == self.monitors.len());
                    assert(mons[mi as int] == self.monitors@[mi as int]@);
                }
                let list = self.monitors[mi].workspaces[wi].all_windows();
                proof {
                    assert(list@ == mons[mi as int].workspaces[wi as int].all());
                    lemma_synced_list_keeps(world(*self, *desk), list@, wi == active);
                }
                self.sync_list(desk, &list, wi == active);
                wi = wi + 1;
            }
            mi = mi + 1;
        }
        proof {
            assert(mons.len() == self.monitors.len());
        }
        desk.act(Action::Journal);
    }
}

// ------------------------------------------------------- workspace count

/// The windows of `rest` added to `ws`.
pub open spec fn gathered(ws: WsView, rest: Seq<WsView>) -> WsView
    decreases rest.len(),
{
    if rest.len() == 0 {
        ws
    } else {
        let g = gathered(ws, rest.drop_last());
        WsView {
            tiled: g.tiled + rest.last().tiled,
            floating: g.floating + rest.last().floating,
            ..g
        }
    }
}

/// The fullscreen windows of `rest` put back below the bar.
pub open spec fn lowered(rest: Seq<WsView>) -> Seq<Action>
    decreases rest.len(),
{
    if rest.len() == 0 {
        Seq::empty()
    } else {
        match rest.last().fullscreen {
            Some(f) => lowered(rest.drop_last()).push(Action::Topmost(f, false)),
            None => lowered(rest.drop_last()),
        }
    }
}

/// The workspaces cut or extended to `n`; what is cut is merged into the last
/// one that remains.
pub open spec fn cut_to(spaces: Seq<WsView>, n: int) -> Seq<WsView> {
    if spaces.len() < n {
        Seq::new(
            n as nat,
            |i: int|
                if i < spaces.len() {
                    spaces[i]
                } else {
                    empty_workspace()
                },
        )
    } else {
        spaces.take(n).update(n - 1, gathered(spaces[n - 1], spaces.skip(n)))
    }
}

impl World {
    /// The monitors before `k` switched to one of the first `n` workspaces.
    pub open spec fn in_range(self, n: int, k: int) -> World
        decreases k,
    {
        if k <= 0 {
            self
        } else {
            let s = self.in_range(n, k - 1);
            if s.wm.monitors[k - 1].active >= n {
                s.switch_on(k - 1, n - 1)
            } else {
                s
            }
        }
    }

    /// Monitor `mi` with `n` workspaces.
    pub open spec fn cut_monitor(self, mi: int, n: int) -> World {
        let mon = self.wm.monitors[mi];
        World {
            wm: WmView {
                monitors: self.wm.monitors.update(
                    mi,
                    MonView { workspaces: cut_to(mon.workspaces, n), ..mon },
                ),
                ..self.wm
            },
            desk: self.desk.act_all(
                if mon.workspaces.len() < n {
                    Seq::empty()
                } else {
                    lowered(mon.workspaces.skip(n))
                },
            ),
        }
    }

    /// The monitors before `k` with `n` workspaces.
    pub open spec fn cut_monitors(self, n: int, k: int) -> World
        decreases k,
    {
        if k <= 0 {
            self
        } else {
            self.cut_monitors(n, k - 1).cut_monitor(k - 1, n)
        }
    }

    pub open spec fn counting(self, n: usize) -> World {
        World {
            wm: WmView { cfg: Settings { workspaces: n, ..self.wm.cfg }, ..self.wm },
            ..self
        }
    }

    /// The number of workspaces changed. Removed ones are merged into the
    /// last one that remains.
    pub open spec fn set_workspace_count(self, wanted: usize) -> World {
        let n = workspace_count(wanted);
        if self.wm.paused || n == self.wm.cfg.workspaces {
            self
        } else {
            let k = self.wm.monitors.len() as int;
            self.in_range(n as int, k).cut_monitors(n as int, k).counting(
                n,
            ).sync_visibility().retiled_all().act(Action::PaintBorders)
        }
    }
}

/// Bringing the monitors into range keeps the shape.
pub proof fn lemma_in_range(s: World, n: int, k: int)
    requires
        s.wm.wf(),
        !s.wm.paused,
        1 <= n,
        k <= s.wm.monitors.len(),
    ensures
        ({
            let t = s.in_range(n, k);
            &&& t.wm.wf()
            &&& t.wm.cfg == s.wm.cfg
            &&& t.wm.paused == s.wm.paused
            &&& t.wm.scratch == s.wm.scratch
            &&& t.wm.monitors.len() == s.wm.monitors.len()
            &&& forall|i: int| 0 <= i < k ==> (#[trigger] t.wm.monitors[i]).active < n
        }),
    decreases k,
{
    if k > 0 {
        lemma_in_range(s, n, k - 1);
        let t = s.in_range(n, k - 1);
        if t.wm.monitors[k - 1].active >= n {
            lemma_switch_keeps(t, k - 1, n - 1);
            let u = t.switch_on(k - 1, n - 1);
            assert forall|i: int| 0 <= i < k implies (#[trigger] u.wm.monitors[i]).active < n by {
                if i != k - 1 {
                    assert(u.wm.monitors[i] == t.wm.monitors[i]);
                }
            }
        }
    }
}

/// Cutting leaves every monitor before `k` with `n` workspaces.
pub proof fn lemma_cut_monitors(s: World, n: int, k: int)
    requires
        1 <= n,
        0 <= k <= s.wm.monitors.len(),
    ensures
        ({
            let t = s.cut_monitors(n, k);
            &&& t.wm == (WmView { monitors: t.wm.monitors, ..s.wm })
            &&& t.wm.monitors.len() == s.wm.monitors.len()
            &&& forall|i: int|
                0 <= i < k ==> (#[trigger] t.wm.monitors[i]).workspaces.len() == n
                    && t.wm.monitors[i] == (MonView {
                    workspaces: cut_to(s.wm.monitors[i].workspaces, n),
                    ..s.wm.monitors[i]
                })
            &&& forall|i: int|
                k <= i < s.wm.monitors.len() ==> #[trigger] t.wm.monitors[i] == s.wm.monitors[i]
        }),
    decreases k,
{
    if k > 0 {
        lemma_cut_monitors(s, n, k - 1);
    }
}

/// After a change of the count the state is well formed, with that count.
pub proof fn lemma_count_changed(s: World, wanted: usize)
    requires
        s.wm.wf(),
    ensures
        s.set_workspace_count(wanted).wm.wf(),
        s.set_workspace_count(wanted).wm.monitors.len() == s.wm.monitors.len(),
        s.set_workspace_count(wanted).wm.scratch == s.wm.scratch,
        s.set_workspace_count(wanted).wm.paused == s.wm.paused,
        !s.wm.paused ==> s.set_workspace_count(wanted).wm.cfg == (Settings {
            workspaces: workspace_count(wanted),
            ..s.wm.cfg
        }),
{
    let n = workspace_count(wanted);
    if !(s.wm.paused || n == s.wm.cfg.workspaces) {
        let k = s.wm.monitors.len() as int;
        lemma_in_range(s, n as int, k);
        let a = s.in_range(n as int, k);
        lemma_cut_monitors(a, n as int, k);
        let b = a.cut_monitors(n as int, k).counting(n);
        assert(b.wm.wf());
        lemma_synced_monitors_keeps(b, b.wm.monitors, k);
        let c = b.sync_visibility();
        lemma_retiled_up_to_keeps(c, k);
    }
}

/// Puts the fullscreen window of `ws` back, and adds its windows to `to`.
fn gather(desk: &mut Desktop, to: &mut Workspace, ws: Workspace)
    ensures
        final(desk)@ == match ws@.fullscreen {
            Some(f) => old(desk)@.act(Action::Topmost(f, false)),
            None => old(desk)@,
        },
        final(to)@ == (WsView {
            tiled: old(to)@.tiled + ws@.tiled,
            floating: old(to)@.floating + ws@.floating,
            ..old(to)@
        }),
{
    let mut ws = ws;
    if let Some(f) = ws.fullscreen {
        desk.set_topmost(f, false);
    }
    to.tiled.append(&mut ws.tiled);
    to.floating.append(&mut ws.floating);
}

/// Cuts or extends the workspaces to `n`.
fn cut_spaces(desk: &mut Desktop, spaces: &mut Vec<Workspace>, n: usize)
    requires
        n >= 1,
    ensures
        ws_views(final(spaces)@) == cut_to(ws_views(old(spaces)@), n as int),
        final(desk)@ == old(desk)@.act_all(
            if old(spaces)@.len() < n {
                Seq::empty()
            } else {
                lowered(ws_views(old(spaces)@).skip(n as int))
            },
        ),
{
    let ghost given = ws_views(spaces@);
    let ghost d = desk@;
    if spaces.len() < n {
        while spaces.len() < n
            invariant
                given.len() <= spaces.len() <= n,
                desk@ == d,
                forall|i: int| 0 <= i < given.len() ==> (#[trigger] spaces@[i])@ == given[i],
                forall|i: int|
                    given.len() <= i < spaces.len() ==> (#[trigger] spaces@[i])@
                        == empty_workspace(),
            decreases n - spaces.len(),
        {
            spaces.push(Workspace::default());
        }
        proof {
            assert(ws_views(spaces@) =~= cut_to(given, n as int));
            assert(desk@ =~= d.act_all(Seq::empty()));
        }
        return;
    }
    let mut rest = spaces.split_off(n);
    let ghost all_rest = ws_views(rest@);
    let ghost mut k: int = 0;
    proof {
        assert(all_rest =~= given.skip(n as int));
        assert(all_rest.take(0) =~= Seq::empty());
        assert(desk@ =~= d.act_all(lowered(all_rest.take(0))));
        assert(ws_views(rest@) =~= all_rest.skip(0));
    }
    while rest.len() > 0
        invariant
            n >= 1,
            spaces.len() == n,
            n <= given.len(),
            0 <= k <= all_rest.len(),
            ws_views(rest@) == all_rest.skip(k),
            rest.len() == all_rest.len() - k,
            desk@ == d.act_all(lowered(all_rest.take(k))),
            forall|i: int| 0 <= i < n - 1 ==> (#[trigger] spaces@[i])@ == given[i],
            spaces@[n - 1]@ == gathered(given[n - 1], all_rest.take(k)),
        decreases rest.len(),
    {
        let ghost was = rest@;
        let ws = rest.remove(0);
        proof {
            assert(ws@ == ws_views(was)[0]);
            assert(ws@ == all_rest[k]);
            assert(all_rest.take(k + 1).drop_last() =~= all_rest.take(k));
            assert forall|j: int| 0 <= j < rest.len() implies ws_views(rest@)[j] == all_rest.skip(
                k + 1,
            )[j] by {
                assert(rest@[j] == was[j + 1]);
                assert(ws_views(was)[j + 1] == all_rest.skip(k)[j + 1]);
            }
            assert(ws_views(rest@) =~= all_rest.skip(k + 1));
        }
        gather(desk, &mut spaces[n - 1], ws);
        proof {
            assert(desk@ =~= d.act_all(lowered(all_rest.take(k + 1))));
            k = k + 1;
        }
    }
    proof {
        assert(all_rest.take(k) =~= all_rest);
        assert(ws_views(spaces@) =~= cut_to(given, n as int));
    }
}

impl WindowManager {
    /// Changes the number of workspaces per monitor. Removed ones are merged
    /// into the last one that remains. Says whether anything was changed.
    #[verifier::spinoff_prover]
    #[verifier::rlimit(60)]
    pub fn set_workspace_count(&mut self, desk: &mut Desktop, wanted: usize) -> (r: bool)
        requires
            old(self).wf(),
        ensures
            world(*final(self), *final(desk)) == world(*old(self), *old(desk)).set_workspace_count(
                wanted,
            ),
            final(self).wf(),
            final(self).config == (Config {
                workspaces: final(self).config.workspaces,
                ..old(self).config
            }),
            r == (!old(self)@.paused && workspace_count(wanted) != old(self)@.cfg.workspaces),
    {
        let ghost s = world(*self, *desk);
        proof {
            lemma_count_changed(s, wanted);
        }
        let n: usize = if wanted < 1 {
            1
        } else if wanted > 24 {
            24
        } else {
            wanted
        };
        if self.paused || n == self.config.workspaces {
            return false;
        }
        let count: usize = self.monitors.len();
        let mut mi: usize = 0;
        while mi < count
            invariant
                mi <= count,
                n >= 1,
                s.wm.wf(),
                !s.wm.paused,
                count == s.wm.monitors.len(),
                count == self.monitors.len(),
                self.wf(),
                self.config == old(self).config,
                world(*self, *desk) == s.in_range(n as int, mi as int),
            decreases count - mi,
        {
            proof {
                assert(self@.monitors[mi as int] == self.monitors@[mi as int]@);
            }
            if self.monitors[mi].active >= n {
                self.switch_workspace_on(desk, mi, n - 1);
            }
            mi = mi + 1;
        }
        proof {
            lemma_in_range(s, n as int, count as int);
        }
        let ghost a = world(*self, *desk);
        let mut mj: usize = 0;
        while mj < count
            invariant
                mj <= count,
                n >= 1,
                count == a.wm.monitors.len(),
                count == self.monitors.len(),
                self.config == old(self).config,
                world(*self, *desk) == a.cut_monitors(n as int, mj as int),
            decreases count - mj,
        {
            let ghost t = world(*self, *desk);
            let ghost before = self.monitors@;
            proof {
                assert(t.wm.monitors[mj as int] == before[mj as int]@);
            }
            cut_spaces(desk, &mut self.monitors[mj].workspaces, n);
            proof {
                assert(self@.monitors =~= t.cut_monitor(mj as int, n as int).wm.monitors);
                assert(world(*self, *desk) =~= t.cut_monitor(mj as int, n as int));
            }
            mj = mj + 1;
        }
        proof {
            lemma_cut_monitors(a, n as int, count as int);
        }
        self.config.workspaces = n;
        let ghost b = world(*self, *desk);
        proof {
            assert(b =~= a.cut_monitors(n as int, count as int).counting(n));
            assert(b.wm.wf());
            lemma_synced_monitors_keeps(b, b.wm.monitors, count as int);
        }
        self.sync_visibility(desk);
        self.retile_all(desk);
        desk.act(Action::PaintBorders);
        true
    }
}

// ---------------------------------------------------------------- monitors

/// A monitor with the areas that `fresh` reports for it.
pub open spec fn measured(m: MonView, fresh: Seq<MonitorInfo>) -> MonView {
    match with_handle(fresh, m.handle, 0) {
        Some(i) => MonView { bounds: fresh[i].bounds, work_area: fresh[i].work_area, ..m },
        None => m,
    }
}

/// The monitors that `fresh` still reports, with its areas.
pub open spec fn remaining(mons: Seq<MonView>, fresh: Seq<MonitorInfo>) -> Seq<MonView>
    decreases mons.len(),
{
    if mons.len() == 0 {
        mons
    } else {
        let r = remaining(mons.drop_last(), fresh);
        if with_handle(fresh, mons.last().handle, 0) is Some {
            r.push(measured(mons.last(), fresh))
        } else {
            r
        }
    }
}

/// The monitors that `fresh` does not report any more.
pub open spec fn vanished(mons: Seq<MonView>, fresh: Seq<MonitorInfo>) -> Seq<MonView>
    decreases mons.len(),
{
    if mons.len() == 0 {
        mons
    } else {
        let r = vanished(mons.drop_last(), fresh);
        if with_handle(fresh, mons.last().handle, 0) is Some {
            r
        } else {
            r.push(mons.last())
        }
    }
}

/// Some known monitor has the handle and the bounds of `f`.
pub open spec fn known(mons: Seq<MonView>, f: MonitorInfo) -> bool {
    exists|k: int|
        0 <= k < mons.len() && (#[trigger] mons[k]).handle == f.handle && mons[k].bounds == f.bounds
}

/// The monitors are not the ones that are known.
pub open spec fn displays_changed(mons: Seq<MonView>, fresh: Seq<MonitorInfo>) -> bool {
    fresh.len() != mons.len() || exists|i: int|
        0 <= i < fresh.len() && !known(mons, #[trigger] fresh[i])
}

/// The workspaces of the old monitors carried over to the new ones, by their
/// handles.
pub open spec fn carried(news: Seq<MonView>, olds: Seq<MonView>, count: usize) -> Seq<MonView>
    decreases olds.len(),
{
    if olds.len() == 0 {
        news
    } else {
        let c = carried(news, olds.drop_last(), count);
        let old = olds.last();
        match handle_from(c, old.handle, 0) {
            Some(i) => c.update(
                i,
                MonView {
                    workspaces: old.workspaces,
                    active: if old.active < count {
                        old.active
                    } else {
                        (count - 1) as usize
                    },
                    ..c[i]
                },
            ),
            None => c,
        }
    }
}

/// The old monitors that are gone.
pub open spec fn orphaned(news: Seq<MonView>, olds: Seq<MonView>, count: usize) -> Seq<MonView>
    decreases olds.len(),
{
    if olds.len() == 0 {
        olds
    } else {
        let o = orphaned(news, olds.drop_last(), count);
        if handle_from(carried(news, olds.drop_last(), count), olds.last().handle, 0) is None {
            o.push(olds.last())
        } else {
            o
        }
    }
}

/// The windows of `rest` added to `spaces`, to the workspace of the same
/// number or the last one.
pub open spec fn merged_spaces(spaces: Seq<WsView>, rest: Seq<WsView>) -> Seq<WsView>
    decreases rest.len(),
{
    if rest.len() == 0 {
        spaces
    } else {
        let m = merged_spaces(spaces, rest.drop_last());
        let i = if rest.len() - 1 < m.len() {
            rest.len() - 1
        } else {
            m.len() - 1
        };
        m.update(
            i,
            WsView {
                tiled: m[i].tiled + rest.last().tiled,
                floating: m[i].floating + rest.last().floating,
                ..m[i]
            },
        )
    }
}

/// The windows of the monitors that are gone added to the first monitor.
pub open spec fn taken_in(news: Seq<MonView>, gone: Seq<MonView>) -> Seq<MonView>
    decreases gone.len(),
{
    if gone.len() == 0 {
        news
    } else {
        let t = taken_in(news, gone.drop_last());
        if t.len() == 0 {
            t
        } else {
            t.update(
                0,
                MonView {
                    workspaces: merged_spaces(t[0].workspaces, gone.last().workspaces),
                    ..t[0]
                },
            )
        }
    }
}

/// The fullscreen windows of the monitors that are gone put back.
pub open spec fn lowered_all(gone: Seq<MonView>) -> Seq<Action>
    decreases gone.len(),
{
    if gone.len() == 0 {
        Seq::empty()
    } else {
        lowered_all(gone.drop_last()) + lowered(gone.last().workspaces)
    }
}

impl World {
    /// The monitors that remain with their areas read anew; the windows of
    /// those that disappeared are with the first one.
    pub open spec fn collapsed(self, fresh: Seq<MonitorInfo>) -> World {
        let gone = vanished(self.wm.monitors, fresh);
        World {
            wm: WmView {
                monitors: taken_in(remaining(self.wm.monitors, fresh), gone),
                ..self.wm
            },
            desk: self.desk.act_all(lowered_all(gone)),
        }
    }

    /// The areas of the monitors read anew. Where a monitor disappeared, its
    /// windows go to the first one that remains, and are shown or hidden as
    /// their new workspaces are; where none remains, nothing changes.
    pub open spec fn refreshed(self, fresh: Seq<MonitorInfo>) -> World {
        if remaining(self.wm.monitors, fresh).len() == 0 {
            self
        } else if vanished(self.wm.monitors, fresh).len() == 0 {
            self.collapsed(fresh)
        } else {
            self.collapsed(fresh).sync_visibility()
        }
    }

    /// The monitors replaced. Those that remain keep their workspaces; the
    /// windows of those that are gone go to the first monitor.
    pub open spec fn redisplayed(self, fresh: Seq<MonitorInfo>) -> World {
        let count = self.wm.cfg.workspaces;
        let blank = Seq::new(fresh.len(), |i: int| fresh_monitor(fresh[i], count));
        let gone = orphaned(blank, self.wm.monitors, count);
        World {
            wm: WmView {
                monitors: taken_in(carried(blank, self.wm.monitors, count), gone),
                ..self.wm
            },
            desk: self.desk.act_all(lowered_all(gone)),
        }
    }

    /// The answer to a change of the displays.
    pub open spec fn display_change(self, fresh: Seq<MonitorInfo>) -> World {
        if displays_changed(self.wm.monitors, fresh) {
            self.redisplayed(fresh).sync_visibility().retiled_all().act(Action::PaintBorders)
        } else {
            self.refreshed(fresh).retiled_all().act(Action::PaintBorders)
        }
    }
}

pub proof fn lemma_merged_spaces(spaces: Seq<WsView>, rest: Seq<WsView>)
    requires
        spaces.len() > 0,
    ensures
        merged_spaces(spaces, rest).len() == spaces.len(),
    decreases rest.len(),
{
    if rest.len() > 0 {
        lemma_merged_spaces(spaces, rest.drop_last());
    }
}

/// All monitors have `count` workspaces and show one of them.
pub open spec fn shaped(mons: Seq<MonView>, count: usize) -> bool {
    forall|i: int|
        0 <= i < mons.len() ==> (#[trigger] mons[i]).workspaces.len() == count && mons[i].active
            < count
}

pub proof fn lemma_carried(news: Seq<MonView>, olds: Seq<MonView>, count: usize)
    requires
        shaped(news, count),
        shaped(olds, count),
        count >= 1,
    ensures
        carried(news, olds, count).len() == news.len(),
        shaped(carried(news, olds, count), count),
        forall|i: int|
            0 <= i < news.len() ==> (#[trigger] carried(news, olds, count)[i]).handle
                == news[i].handle,
        shaped(orphaned(news, olds, count), count),
    decreases olds.len(),
{
    if olds.len() > 0 {
        let front = olds.drop_last();
        assert forall|i: int| 0 <= i < front.len() implies (#[trigger] front[i]).workspaces.len()
            == count && front[i].active < count by {
            assert(front[i] == olds[i]);
        }
        lemma_carried(news, front, count);
        let c = carried(news, front, count);
        let old = olds[olds.len() - 1];
        assert(old.workspaces.len() == count);
        lemma_handle_from(c, old.handle, 0);
    }
}

pub proof fn lemma_taken_in(news: Seq<MonView>, gone: Seq<MonView>, count: usize)
    requires
        shaped(news, count),
        count >= 1,
    ensures
        taken_in(news, gone).len() == news.len(),
        shaped(taken_in(news, gone), count),
    decreases gone.len(),
{
    if gone.len() > 0 {
        lemma_taken_in(news, gone.drop_last(), count);
        let t = taken_in(news, gone.drop_last());
        if t.len() > 0 {
            assert(t[0].workspaces.len() == count);
            lemma_merged_spaces(t[0].workspaces, gone.last().workspaces);
        }
    }
}

pub proof fn lemma_remaining(mons: Seq<MonView>, fresh: Seq<MonitorInfo>, count: usize)
    requires
        shaped(mons, count),
    ensures
        shaped(remaining(mons, fresh), count),
        shaped(vanished(mons, fresh), count),
        remaining(mons, fresh).len() + vanished(mons, fresh).len() == mons.len(),
    decreases mons.len(),
{
    if mons.len() > 0 {
        let front = mons.drop_last();
        assert forall|i: int| 0 <= i < front.len() implies (#[trigger] front[i]).workspaces.len()
            == count && front[i].active < count by {
            assert(front[i] == mons[i]);
        }
        lemma_remaining(front, fresh, count);
        assert(mons[mons.len() - 1].workspaces.len() == count);
    }
}

/// What remains of the first monitors remains of all.
proof fn lemma_remaining_grows(mons: Seq<MonView>, fresh: Seq<MonitorInfo>, n: int)
    requires
        0 <= n <= mons.len(),
    ensures
        remaining(mons.take(n), fresh).len() <= remaining(mons, fresh).len(),
    decreases mons.len() - n,
{
    if n < mons.len() {
        lemma_remaining_grows(mons, fresh, n + 1);
        assert(mons.take(n + 1).drop_last() =~= mons.take(n));
    } else {
        assert(mons.take(n) =~= mons);
    }
}

/// Reading the monitors anew keeps the shape of the state.
pub proof fn lemma_refreshed(s: World, fresh: Seq<MonitorInfo>)
    requires
        s.wm.wf(),
    ensures
        s.collapsed(fresh).wm.wf(),
        s.refreshed(fresh).wm.wf(),
        s.refreshed(fresh).wm.cfg == s.wm.cfg,
        s.refreshed(fresh).wm.paused == s.wm.paused,
        s.refreshed(fresh).wm.monitors.len() > 0 <==> s.wm.monitors.len() > 0,
{
    let count = s.wm.cfg.workspaces;
    assert(shaped(s.wm.monitors, count));
    lemma_remaining(s.wm.monitors, fresh, count);
    lemma_taken_in(remaining(s.wm.monitors, fresh), vanished(s.wm.monitors, fresh), count);
    let t = s.collapsed(fresh);
    lemma_synced_monitors_keeps(t, t.wm.monitors, t.wm.monitors.len() as int);
}

/// Following the displays keeps the shape of the state.
pub proof fn lemma_redisplayed(s: World, fresh: Seq<MonitorInfo>)
    requires
        s.wm.wf(),
    ensures
        s.redisplayed(fresh).wm.wf(),
        s.redisplayed(fresh).wm.monitors.len() == fresh.len(),
{
    let count = s.wm.cfg.workspaces;
    let blank = Seq::new(fresh.len(), |i: int| fresh_monitor(fresh[i], count));
    assert(shaped(blank, count));
    assert(shaped(s.wm.monitors, count));
    lemma_carried(blank, s.wm.monitors, count);
    lemma_taken_in(
        carried(blank, s.wm.monitors, count),
        orphaned(blank, s.wm.monitors, count),
        count,
    );
}

fn index_with(v: &Vec<MonitorState>, handle: isize) -> (r: Option<usize>)
    ensures
        match r {
            Some(i) => handle_from(mon_views(v@), handle, 0) == Some(i as int) && i < v.len(),
            None => handle_from(mon_views(v@), handle, 0) is None,
        },
{
    let mut i: usize = 0;
    while i < v.len()
        invariant
            i <= v.len(),
            handle_from(mon_views(v@), handle, 0) == handle_from(mon_views(v@), handle, i as int),
        decreases v.len() - i,
    {
        proof {
            assert(mon_views(v@)[i as int] == v@[i as int]@);
        }
        if v[i].handle == handle {
            return Some(i);
        }
        i = i + 1;
    }
    None
}

/// Carries the workspaces of `old` over to `news`; gives back the monitors
/// that are gone.
fn carry_over(news: &mut Vec<MonitorState>, were: Vec<MonitorState>, count: usize) -> (gone: Vec<
    MonitorState,
>)
    requires
        count >= 1,
    ensures
        mon_views(final(news)@) == carried(mon_views(old(news)@), mon_views(were@), count),
        mon_views(gone@) == orphaned(mon_views(old(news)@), mon_views(were@), count),
{
    let mut were = were;
    let ghost olds = mon_views(were@);
    let ghost base = mon_views(news@);
    let mut gone: Vec<MonitorState> = Vec::new();
    let ghost mut k: int = 0;
    proof {
        assert(olds.take(0) =~= Seq::empty());
        assert(olds.skip(0) =~= olds);
        assert(mon_views(gone@) =~= Seq::empty());
    }
    while were.len() > 0
        invariant
            count >= 1,
            0 <= k <= olds.len(),
            were.len() == olds.len() - k,
            mon_views(were@) == olds.skip(k),
            mon_views(news@) == carried(base, olds.take(k), count),
            mon_views(gone@) == orphaned(base, olds.take(k), count),
        decreases were.len(),
    {
        let ghost was = were@;
        let om = were.remove(0);
        proof {
            assert(om@ == mon_views(was)[0]);
            assert(om@ == olds[k]);
            assert(olds.take(k + 1).drop_last() =~= olds.take(k));
            assert(olds.take(k + 1).last() == om@);
            assert forall|j: int| 0 <= j < were.len() implies mon_views(were@)[j] == olds.skip(
                k + 1,
            )[j] by {
                assert(were@[j] == was[j + 1]);
                assert(mon_views(was)[j + 1] == olds.skip(k)[j + 1]);
            }
            assert(mon_views(were@) =~= olds.skip(k + 1));
        }
        let ghost c = mon_views(news@);
        match index_with(news, om.handle) {
            Some(i) => {
                let ghost before = news@;
                let ghost ov = om@;
                let active: usize = if om.active < count {
                    om.active
                } else {
                    count - 1
                };
                news[i].workspaces = om.workspaces;
                news[i].active = active;
                proof {
                    let e = c.update(
                        i as int,
                        MonView {
                            workspaces: ov.workspaces,
                            active: if ov.active < count {
                                ov.active
                            } else {
                                (count - 1) as usize
                            },
                            ..c[i as int]
                        },
                    );
                    assert(c[i as int] == before[i as int]@);
                    assert(mon_views(news@)[i as int] =~= e[i as int]);
                    assert forall|j: int| 0 <= j < e.len() implies mon_views(news@)[j] == e[j] by {
                        if j != i {
                            assert(news@[j] == before[j]);
                        }
                    }
                    assert(mon_views(news@) =~= e);
                }
            },
            None => {
                let ghost g = mon_views(gone@);
                let ghost ov = om@;
                gone.push(om);
                proof {
                    assert(mon_views(gone@) =~= g.push(ov));
                }
            },
        }
        proof {
            k = k + 1;
        }
    }
    proof {
        assert(olds.take(k) =~= olds);
    }
    gone
}

/// Adds the windows of the workspaces `rest` to `spaces`, number by number.
fn merge_spaces(desk: &mut Desktop, spaces: &mut Vec<Workspace>, rest: Vec<Workspace>)
    requires
        old(spaces).len() > 0,
    ensures
        ws_views(final(spaces)@) == merged_spaces(ws_views(old(spaces)@), ws_views(rest@)),
        final(desk)@ == old(desk)@.act_all(lowered(ws_views(rest@))),
{
    let mut rest = rest;
    let ghost all_rest = ws_views(rest@);
    let ghost given = ws_views(spaces@);
    let ghost d = desk@;
    let mut k: usize = 0;
    let n: usize = rest.len();
    proof {
        assert(all_rest.take(0) =~= Seq::empty());
        assert(desk@ =~= d.act_all(lowered(all_rest.take(0))));
        assert(all_rest.skip(0) =~= all_rest);
    }
    while k < n
        invariant
            k <= n,
            n == all_rest.len(),
            spaces.len() > 0,
            spaces.len() == given.len(),
            rest.len() == n - k,
            ws_views(rest@) == all_rest.skip(k as int),
            desk@ == d.act_all(lowered(all_rest.take(k as int))),
            ws_views(spaces@) == merged_spaces(given, all_rest.take(k as int)),
        decreases n - k,
    {
        let ghost was = rest@;
        let ws = rest.remove(0);
        let ghost wv = ws@;
        proof {
            assert(ws@ == ws_views(was)[0]);
            assert(ws@ == all_rest[k as int]);
            assert(all_rest.take(k + 1).drop_last() =~= all_rest.take(k as int));
            assert forall|j: int| 0 <= j < rest.len() implies ws_views(rest@)[j] == all_rest.skip(
                k + 1,
            )[j] by {
                assert(rest@[j] == was[j + 1]);
                assert(ws_views(was)[j + 1] == all_rest.skip(k as int)[j + 1]);
            }
            assert(ws_views(rest@) =~= all_rest.skip(k + 1));
        }
        let i: usize = if k < spaces.len() {
            k
        } else {
            spaces.len() - 1
        };
        let ghost m = ws_views(spaces@);
        let ghost before = spaces@;
        gather(desk, &mut spaces[i], ws);
        proof {
            let e = m.update(
                i as int,
                WsView {
                    tiled: m[i as int].tiled + wv.tiled,
                    floating: m[i as int].floating + wv.floating,
                    ..m[i as int]
                },
            );
            assert(m[i as int] == before[i as int]@);
            assert(ws_views(spaces@) =~= e);
            assert(desk@ =~= d.act_all(lowered(all_rest.take(k + 1))));
        }
        k = k + 1;
    }
    proof {
        assert(all_rest.take(k as int) =~= all_rest);
    }
}

/// Adds the windows of the monitors that are gone to the first monitor.
fn take_in(desk: &mut Desktop, news: &mut Vec<MonitorState>, gone: Vec<MonitorState>)
    requires
        old(news).len() > 0 ==> old(news)@[0].workspaces.len() > 0,
    ensures
        mon_views(final(news)@) == taken_in(mon_views(old(news)@), mon_views(gone@)),
        final(desk)@ == old(desk)@.act_all(lowered_all(mon_views(gone@))),
{
    let mut gone = gone;
    let ghost olds = mon_views(gone@);
    let ghost base = mon_views(news@);
    let ghost d = desk@;
    let ghost mut k: int = 0;
    proof {
        assert(olds.take(0) =~= Seq::empty());
        assert(olds.skip(0) =~= olds);
        assert(desk@ =~= d.act_all(lowered_all(olds.take(0))));
    }
    while gone.len() > 0
        invariant
            0 <= k <= olds.len(),
            gone.len() == olds.len() - k,
            mon_views(gone@) == olds.skip(k),
            news.len() == base.len(),
            news.len() > 0 ==> news@[0].workspaces.len() > 0,
            mon_views(news@) == taken_in(base, olds.take(k)),
            desk@ == d.act_all(lowered_all(olds.take(k))),
        decreases gone.len(),
    {
        let ghost was = gone@;
        let om = gone.remove(0);
        let ghost ov = om@;
        proof {
            assert(om@ == mon_views(was)[0]);
            assert(om@ == olds[k]);
            assert(olds.take(k + 1).drop_last() =~= olds.take(k));
            assert(olds.take(k + 1).last() == om@);
            assert forall|j: int| 0 <= j < gone.len() implies mon_views(gone@)[j] == olds.skip(
                k + 1,
            )[j] by {
                assert(gone@[j] == was[j + 1]);
                assert(mon_views(was)[j + 1] == olds.skip(k)[j + 1]);
            }
            assert(mon_views(gone@) =~= olds.skip(k + 1));
        }
        let ghost d1 = desk@;
        if news.len() > 0 {
            let ghost before = news@;
            let ghost t = mon_views(news@);
            merge_spaces(desk, &mut news[0].workspaces, om.workspaces);
            proof {
                let e = t.update(
                    0,
                    MonView {
                        workspaces: merged_spaces(t[0].workspaces, ov.workspaces),
                        ..t[0]
                    },
                );
                assert(t[0] == before[0]@);
                lemma_merged_spaces(t[0].workspaces, ov.workspaces);
                assert(mon_views(news@)[0] =~= e[0]);
                assert forall|j: int| 0 <= j < e.len() implies mon_views(news@)[j] == e[j] by {
                    if j != 0 {
                        assert(news@[j] == before[j]);
                    }
                }
                assert(mon_views(news@) =~= e);
                assert(news@[0]@.workspaces.len() > 0);
            }
        } else {
            let mut rest = om.workspaces;
            let n: usize = rest.len();
            let mut i: usize = 0;
            proof {
                assert(ov.workspaces.take(0) =~= Seq::empty());
                assert(desk@ =~= d1.act_all(lowered(ov.workspaces.take(0))));
            }
            while i < n
                invariant
                    i <= n,
                    n == rest.len(),
                    ov.workspaces == ws_views(rest@),
                    desk@ == d1.act_all(lowered(ov.workspaces.take(i as int))),
                decreases n - i,
            {
                proof {
                    assert(ov.workspaces.take(i + 1).drop_last() =~= ov.workspaces.take(i as int));
                    assert(ov.workspaces[i as int] == rest@[i as int]@);
                }
                if let Some(f) = rest[i].fullscreen {
                    desk.set_topmost(f, false);
                    proof {
                        assert(desk@ =~= d1.act_all(lowered(ov.workspaces.take(i + 1))));
                    }
                }
                i = i + 1;
            }
            proof {
                assert(ov.workspaces.take(i as int) =~= ov.workspaces);
            }
        }
        proof {
            assert(desk@ =~= d.act_all(lowered_all(olds.take(k + 1))));
            k = k + 1;
        }
    }
    proof {
        assert(olds.take(k) =~= olds);
    }
}

/// Parts the monitors into those that `fresh` still reports, with its areas,
/// and those that are gone.
fn part_monitors(were: Vec<MonitorState>, fresh: &Vec<MonitorInfo>) -> (r: (
    Vec<MonitorState>,
    Vec<MonitorState>,
))
    ensures
        mon_views(r.0@) == remaining(mon_views(were@), fresh@),
        mon_views(r.1@) == vanished(mon_views(were@), fresh@),
{
    let mut were = were;
    let ghost olds = mon_views(were@);
    let mut here: Vec<MonitorState> = Vec::new();
    let mut gone: Vec<MonitorState> = Vec::new();
    let ghost mut k: int = 0;
    proof {
        assert(olds.take(0) =~= Seq::empty());
        assert(olds.skip(0) =~= olds);
        assert(mon_views(gone@) =~= Seq::empty());
        assert(mon_views(here@) =~= Seq::empty());
    }
    while were.len() > 0
        invariant
            0 <= k <= olds.len(),
            were.len() == olds.len() - k,
            mon_views(were@) == olds.skip(k),
            mon_views(here@) == remaining(olds.take(k), fresh@),
            mon_views(gone@) == vanished(olds.take(k), fresh@),
        decreases were.len(),
    {
        let ghost was = were@;
        let mut om = were.remove(0);
        let ghost ov = om@;
        proof {
            assert(om@ == mon_views(was)[0]);
            assert(om@ == olds[k]);
            assert(olds.take(k + 1).drop_last() =~= olds.take(k));
            assert(olds.take(k + 1).last() == om@);
            assert forall|j: int| 0 <= j < were.len() implies mon_views(were@)[j] == olds.skip(
                k + 1,
            )[j] by {
                assert(were@[j] == was[j + 1]);
                assert(mon_views(was)[j + 1] == olds.skip(k)[j + 1]);
            }
            assert(mon_views(were@) =~= olds.skip(k + 1));
        }
        let ghost h = mon_views(here@);
        let ghost g = mon_views(gone@);
        match position_of(fresh, om.handle) {
            Some(f) => {
                om.bounds = fresh[f].bounds;
                om.work_area = fresh[f].work_area;
                proof {
                    assert(om@ =~= measured(ov, fresh@));
                }
                here.push(om);
                proof {
                    assert(mon_views(here@) =~= h.push(measured(ov, fresh@)));
                }
            },
            None => {
                gone.push(om);
                proof {
                    assert(mon_views(gone@) =~= g.push(ov));
                }
            },
        }
        proof {
            k = k + 1;
        }
    }
    proof {
        assert(olds.take(k) =~= olds);
    }
    (here, gone)
}

impl WindowManager {
    /// Does `fresh` still report one of the monitors?
    fn remains(&self, fresh: &Vec<MonitorInfo>) -> (r: bool)
        ensures
            r == (remaining(self@.monitors, fresh@).len() > 0),
    {
        let ghost mons = self@.monitors;
        let mut i: usize = 0;
        proof {
            assert(mons.take(0) =~= Seq::empty());
        }
        while i < self.monitors.len()
            invariant
                i <= self.monitors.len(),
                mons == self@.monitors,
                remaining(mons.take(i as int), fresh@).len() == 0,
            decreases self.monitors.len() - i,
        {
            proof {
                assert(mons[i as int] == self.monitors@[i as int]@);
                assert(mons.take(i + 1).drop_last() =~= mons.take(i as int));
                lemma_remaining_grows(mons, fresh@, i + 1);
            }
            if position_of(fresh, self.monitors[i].handle).is_some() {
                return true;
            }
            i = i + 1;
        }
        proof {
            assert(mons.take(i as int) =~= mons);
        }
        false
    }

    /// Reads the areas of the monitors anew. Windows stay in their workspaces;
    /// those of a monitor that disappeared collapse onto the first one that
    /// remains. Monitors that are new wait for the change of the displays to
    /// be handled.
    pub fn refresh_monitors(&mut self, desk: &mut Desktop, fresh: &Vec<MonitorInfo>)
        requires
            old(self).wf(),
        ensures
            world(*final(self), *final(desk)) == world(*old(self), *old(desk)).refreshed(fresh@),
            final(self).wf(),
            final(self).config == old(self).config,
            final(self).monitors.len() > 0 <==> old(self).monitors.len() > 0,
    {
        let ghost s = world(*self, *desk);
        proof {
            lemma_refreshed(s, fresh@);
        }
        if !self.remains(fresh) {
            return;
        }
        let mut were: Vec<MonitorState> = Vec::new();
        std::mem::swap(&mut were, &mut self.monitors);
        let (here, gone) = part_monitors(were, fresh);
        let mut here = here;
        let vanished_some: bool = gone.len() > 0;
        let count: usize = self.config.workspaces;
        proof {
            assert(shaped(s.wm.monitors, count));
            lemma_remaining(s.wm.monitors, fresh@, count);
            assert(mon_views(here@)[0] == here@[0]@);
            assert(here@[0]@.workspaces.len() == count);
        }
        take_in(desk, &mut here, gone);
        self.monitors = here;
        proof {
            assert(world(*self, *desk) =~= s.collapsed(fresh@));
            let t = world(*self, *desk);
            lemma_synced_monitors_keeps(t, t.wm.monitors, t.wm.monitors.len() as int);
        }
        if vanished_some {
            self.sync_visibility(desk);
        }
        proof {
            assert(self@.monitors.len() == self.monitors.len());
        }
    }

    fn knows(&self, f: &MonitorInfo) -> (r: bool)
        ensures
            r == known(self@.monitors, *f),
    {
        let mut k: usize = 0;
        while k < self.monitors.len()
            invariant
                k <= self.monitors.len(),
                forall|j: int|
                    0 <= j < k ==> !((#[trigger] self@.monitors[j]).handle == f.handle
                        && self@.monitors[j].bounds == f.bounds),
            decreases self.monitors.len() - k,
        {
            proof {
                assert(self@.monitors[k as int] == self.monitors@[k as int]@);
            }
            if self.monitors[k].handle == f.handle && self.monitors[k].bounds == f.bounds {
                return true;
            }
            k = k + 1;
        }
        false
    }

    /// Are these monitors other than the known ones?
    pub fn displays_changed(&self, fresh: &Vec<MonitorInfo>) -> (r: bool)
        ensures
            r == displays_changed(self@.monitors, fresh@),
    {
        if fresh.len() != self.monitors.len() {
            return true;
        }
        let mut i: usize = 0;
        while i < fresh.len()
            invariant
                i <= fresh.len(),
                fresh.len() == self@.monitors.len(),
                forall|j: int| 0 <= j < i ==> known(self@.monitors, #[trigger] fresh@[j]),
            decreases fresh.len() - i,
        {
            if !self.knows(&fresh[i]) {
                return true;
            }
            i = i + 1;
        }
        false
    }

    /// The whole reaction to a change of the displays. Says whether the
    /// monitors themselves changed; the bars are then rebuilt.
    pub fn handle_display_change(&mut self, desk: &mut Desktop, fresh: &Vec<MonitorInfo>) -> (r:
        bool)
        requires
            old(self).wf(),
        ensures
            world(*final(self), *final(desk)) == world(*old(self), *old(desk)).display_change(
                fresh@,
            ),
            r == displays_changed(old(self)@.monitors, fresh@),
            final(self).wf(),
            final(self).config == old(self).config,
    {
        let ghost s = world(*self, *desk);
        proof {
            lemma_redisplayed(s, fresh@);
        }
        if !self.displays_changed(fresh) {
            self.refresh_monitors(desk, fresh);
            self.retile_all(desk);
            desk.act(Action::PaintBorders);
            return false;
        }
        let count: usize = self.config.workspaces;
        let mut news: Vec<MonitorState> = Vec::new();
        let mut i: usize = 0;
        while i < fresh.len()
            invariant
                i <= fresh.len(),
                news.len() == i,
                forall|k: int|
                    0 <= k < i ==> (#[trigger] news@[k])@ == fresh_monitor(fresh@[k], count),
            decreases fresh.len() - i,
        {
            news.push(blank_monitor(&fresh[i], count));
            i = i + 1;
        }
        let ghost blank = Seq::new(
            fresh@.len(),
            |i: int| fresh_monitor(fresh@[i], s.wm.cfg.workspaces),
        );
        proof {
            assert(mon_views(news@) =~= blank);
        }
        let mut olds: Vec<MonitorState> = Vec::new();
        std::mem::swap(&mut olds, &mut self.monitors);
        let gone = carry_over(&mut news, olds, count);
        proof {
            assert(shaped(blank, count));
            assert(shaped(s.wm.monitors, count));
            lemma_carried(blank, s.wm.monitors, count);
            if news.len() > 0 {
                assert(mon_views(news@)[0] == news@[0]@);
                assert(news@[0]@.workspaces.len() == count);
            }
        }
        take_in(desk, &mut news, gone);
        self.monitors = news;
        proof {
            assert(world(*self, *desk) =~= s.redisplayed(fresh@));
            let t = world(*self, *desk);
            lemma_synced_monitors_keeps(t, t.wm.monitors, t.wm.monitors.len() as int);
        }
        self.sync_visibility(desk);
        self.retile_all(desk);
        desk.act(Action::PaintBorders);
        true
    }

    /// Changes the accent color.
    pub fn set_accent_color(&mut self, desk: &mut Desktop, hex: &str)
        requires
            old(self).wf(),
        ensures
            world(*final(self), *final(desk)) == (World {
                wm: WmView {
                    cfg: Settings { accent: hex@, ..old(self)@.cfg },
                    border_color: colorref(hex@) as u32,
                    ..old(self)@
                },
                desk: old(desk)@,
            }).act(Action::PaintBorders),
            final(self).wf(),
            final(self).config == (Config {
                active_border_color: final(self).config.active_border_color,
                ..old(self).config
            }),
            final(self).config.active_border_color@ == hex@,
    {
        self.config.active_border_color = owned(hex);
        self.border_color = parse_colorref(hex);
        desk.act(Action::PaintBorders);
    }

    /// Swaps in a configuration that was loaded anew. A change of the
    /// workspace count goes through the usual merge.
    pub fn apply_config(&mut self, desk: &mut Desktop, cfg: Config)
        requires
            old(self).wf(),
            cfg.wf(),
        ensures
            world(*final(self), *final(desk)) == (World {
                wm: WmView {
                    cfg: Settings { workspaces: old(self)@.cfg.workspaces, ..settings_of(cfg) },
                    border_color: colorref(cfg.active_border_color@) as u32,
                    ..old(self)@
                },
                desk: old(desk)@,
            }).set_workspace_count(cfg.workspaces).retiled_all().act(Action::PaintBorders),
            final(self).wf(),
            final(self).config == (Config { workspaces: final(self).config.workspaces, ..cfg }),
    {
        let mut cfg = cfg;
        let n: usize = cfg.workspaces;
        cfg.workspaces = self.config.workspaces;
        self.config = cfg;
        self.border_color = parse_colorref(self.config.active_border_color.as_str());
        let _ = self.set_workspace_count(desk, n);
        self.retile_all(desk);
        desk.act(Action::PaintBorders);
    }
}

} // verus!
