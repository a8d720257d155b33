//! Starting up, switching, and changing the number of workspaces.

use super::arrival_laws::{
    lemma_retiled_stays, lemma_stays_put, lemma_stays_then, lemma_switch_stays, stays,
};
use super::census::lemma_acts_valid;
use super::desktop::Action;
use super::displays::{
    cut_to, gathered, lemma_count_changed, lemma_cut_monitors, lemma_in_range,
    lemma_synced_monitors_keeps,
};
use super::display_laws::lemma_synced_monitors_same;
use super::spaces::lemma_hide_all_keeps;
use super::state::{initial, Settings, World, WsView};
use super::tiling::{lemma_retiled_keeps, lemma_retiled_up_to_keeps};
use super::{Command, WmEvent};
use crate::monitor::MonitorInfo;
use crate::window::Window;
use vstd::prelude::*;

verus! {

// ----------------------------------------------------------------- starting

/// At the start every monitor has as many workspaces as are configured, all
/// empty, and shows the first; nothing is hidden, parked or paused.
pub proof fn law_start_is_empty(cfg: Settings, monitors: Seq<MonitorInfo>, m: int, i: int)
    requires
        0 <= m < monitors.len(),
        0 <= i < cfg.workspaces,
    ensures
        ({
            let v = initial(cfg, monitors);
            &&& v.cfg == cfg
            &&& v.monitors.len() == monitors.len()
            &&& v.monitors[m].handle == monitors[m].handle
            &&& v.monitors[m].bounds == monitors[m].bounds
            &&& v.monitors[m].work_area == monitors[m].work_area
            &&& v.monitors[m].workspaces.len() == cfg.workspaces
            &&& v.monitors[m].active == 0
            &&& v.ws(m, i).tiled.len() == 0 && v.ws(m, i).floating.len() == 0
            &&& !v.ws(m, i).monocle && v.ws(m, i).fullscreen is None
            &&& v.hidden.len() == 0 && v.scratch.len() == 0
            &&& !v.paused && !v.scratch_shown
        }),
{
}

/// Where there is a monitor, every command is obeyed and every event handled.
pub proof fn law_monitors_are_enough(s: World, cmd: Command, ev: WmEvent)
    requires
        s.wm.monitors.len() > 0,
    ensures
        s.can_obey(cmd),
        s.can_handle(ev),
{
}

// ---------------------------------------------------------------- switching

/// After a switch the first window of the workspace that is shown has the
/// focus, the first tiled one if any is tiled.
pub proof fn law_switch_focuses_the_first(s: World, mi: int, target: int)
    requires
        s.wm.wf(),
        !s.wm.paused,
        0 <= mi < s.wm.monitors.len(),
        0 <= target < s.wm.cfg.workspaces,
        target != s.wm.monitors[mi].active,
    ensures
        ({
            let t = s.switch_on(mi, target);
            let ws = t.wm.ws(mi, target);
            &&& ws.tiled.len() > 0 ==> t.desk.foreground == Some(ws.tiled[0])
            &&& ws.tiled.len() == 0 && ws.floating.len() > 0 ==> t.desk.foreground == Some(
                ws.floating[0],
            )
        }),
{
    let list = s.wm.shown_ws(mi).all();
    lemma_hide_all_keeps(s, list);
    let a = s.hide_all(list).activated(mi, target as usize);
    let into = a.wm.ws(mi, target).all();
    lemma_hide_all_keeps(a, into);
    let c = a.show_all(into).act(Action::Journal);
    lemma_retiled_keeps(c, mi);
    let d = c.retiled(mi);
    assert(d.wm.monitors[mi].active == target);
    let t = s.switch_on(mi, target);
    assert(t == d.landed(mi).act(Action::PaintBorders));
    assert(d.landed(mi).wm == d.wm);
}

/// A switch to the workspace that is shown, or to one that is not there,
/// changes nothing.
pub proof fn law_no_switch_no_change(s: World, mi: int, target: int)
    requires
        s.wm.wf(),
        0 <= mi < s.wm.monitors.len(),
        target == s.wm.monitors[mi].active || target >= s.wm.cfg.workspaces,
    ensures
        s.switch_on(mi, target) == s,
{
}

// ----------------------------------------------------------------- counting

proof fn lemma_added_holds(a: Seq<Window>, b: Seq<Window>, w: Window)
    ensures
        a.contains(w) || b.contains(w) ==> (a + b).contains(w),
{
    if a.contains(w) {
        let i = choose|i: int| 0 <= i < a.len() && a[i] == w;
        assert((a + b)[i] == w);
    }
    if b.contains(w) {
        let i = choose|i: int| 0 <= i < b.len() && b[i] == w;
        assert((a + b)[a.len() + i] == w);
    }
}

proof fn lemma_gathered(ws: WsView, rest: Seq<WsView>, w: Window)
    ensures
        ws.tiled.contains(w) || (exists|j: int|
            0 <= j < rest.len() && (#[trigger] rest[j]).tiled.contains(w)) ==> gathered(
            ws,
            rest,
        ).tiled.contains(w),
        ws.floating.contains(w) || (exists|j: int|
            0 <= j < rest.len() && (#[trigger] rest[j]).floating.contains(w)) ==> gathered(
            ws,
            rest,
        ).floating.contains(w),
    decreases rest.len(),
{
    if rest.len() > 0 {
        let front = rest.drop_last();
        lemma_gathered(ws, front, w);
        let g = gathered(ws, front);
        lemma_added_holds(g.tiled, rest.last().tiled, w);
        lemma_added_holds(g.floating, rest.last().floating, w);
        if exists|j: int| 0 <= j < rest.len() && (#[trigger] rest[j]).tiled.contains(w) {
            let j = choose|j: int| 0 <= j < rest.len() && (#[trigger] rest[j]).tiled.contains(w);
            if j < front.len() {
                assert(front[j].tiled.contains(w));
            }
        }
        if exists|j: int| 0 <= j < rest.len() && (#[trigger] rest[j]).floating.contains(w) {
            let j = choose|j: int|
                0 <= j < rest.len() && (#[trigger] rest[j]).floating.contains(w);
            if j < front.len() {
                assert(front[j].floating.contains(w));
            }
        }
    }
}

/// Where the windows of workspace `i` are once there are `n`: those of a
/// workspace that is gone go to the last one.
pub open spec fn new_place(i: int, n: int) -> int {
    if i < n {
        i
    } else {
        n - 1
    }
}

proof fn lemma_cut_holds(spaces: Seq<WsView>, n: int, i: int, w: Window)
    requires
        1 <= n,
        0 <= i < spaces.len(),
    ensures
        spaces[i].tiled.contains(w) ==> cut_to(spaces, n)[new_place(i, n)].tiled.contains(w),
        spaces[i].floating.contains(w) ==> cut_to(spaces, n)[new_place(i, n)].floating.contains(w),
{
    if spaces.len() >= n {
        let rest = spaces.skip(n);
        lemma_gathered(spaces[n - 1], rest, w);
        if i >= n {
            assert(rest[i - n] == spaces[i]);
        }
    }
}

proof fn lemma_in_range_stays(s: World, n: int, k: int)
    requires
        s.wm.wf(),
        !s.wm.paused,
        1 <= n,
        0 <= k <= s.wm.monitors.len(),
    ensures
        stays(s, s.in_range(n, k)),
    decreases k,
{
    if k > 0 {
        lemma_in_range_stays(s, n, k - 1);
        lemma_in_range(s, n, k - 1);
        let t = s.in_range(n, k - 1);
        if t.wm.monitors[k - 1].active >= n {
            lemma_switch_stays(t, k - 1, n - 1);
            lemma_stays_then(s, t, t.switch_on(k - 1, n - 1));
        }
    } else {
        lemma_stays_put(s, s);
    }
}

proof fn lemma_retiled_up_to_stays(s: World, k: int)
    requires
        s.wm.wf(),
        0 <= k <= s.wm.monitors.len(),
    ensures
        stays(s, s.retiled_up_to(k)),
    decreases k,
{
    if k > 0 {
        lemma_retiled_up_to_stays(s, k - 1);
        lemma_retiled_up_to_keeps(s, k - 1);
        let t = s.retiled_up_to(k - 1);
        lemma_retiled_stays(t, k - 1);
        lemma_stays_then(s, t, t.retiled(k - 1));
    } else {
        lemma_stays_put(s, s);
    }
}

/// With another number of workspaces, up to 24, every window that exists stays
/// in its workspace, tiled or floating as it was; those of a workspace that is
/// gone are in the last one.
pub proof fn law_removed_workspaces_are_gathered(
    s: World,
    wanted: usize,
    m: int,
    i: int,
    w: Window,
)
    requires
        s.wm.wf(),
        !s.wm.paused,
        1 <= wanted <= 24,
        s.wm.has(m, i),
        s.desk.valid(w),
    ensures
        ({
            let t = s.set_workspace_count(wanted);
            let j = new_place(i, wanted as int);
            &&& t.wm.cfg.workspaces == wanted
            &&& s.wm.ws(m, i).tiled.contains(w) ==> t.wm.ws(m, j).tiled.contains(w)
            &&& s.wm.ws(m, i).floating.contains(w) ==> t.wm.ws(m, j).floating.contains(w)
        }),
{
    lemma_count_changed(s, wanted);
    let n = wanted as int;
    if n != s.wm.cfg.workspaces {
        let k = s.wm.monitors.len() as int;
        let a = s.in_range(n, k);
        lemma_in_range(s, n, k);
        lemma_in_range_stays(s, n, k);
        let b0 = a.cut_monitors(n, k);
        lemma_cut_monitors(a, n, k);
        lemma_cut_valid(a, n, k);
        let b = b0.counting(wanted);
        lemma_cut_holds(a.wm.monitors[m].workspaces, n, i, w);
        assert(b.wm.wf());
        let c = b.sync_visibility();
        lemma_synced_monitors_keeps(b, b.wm.monitors, k);
        lemma_synced_monitors_same(b, b.wm.monitors, k);
        let c0 = b.synced_monitors(b.wm.monitors, k);
        lemma_acts_valid(c0.desk);
        assert(c.desk.valid(w) == c0.desk.valid(w));
        assert(c0.desk.valid(w) == b.desk.valid(w));
        assert(b.desk.valid(w) == a.desk.valid(w));
        assert(a.desk.valid(w) == s.desk.valid(w));
        lemma_retiled_up_to_stays(c, k);
        let j = new_place(i, n);
        assert(c.wm.has(m, j));
        assert(s.wm.ws(m, i).tiled.contains(w) ==> a.wm.ws(m, i).tiled.contains(w));
        assert(s.wm.ws(m, i).floating.contains(w) ==> a.wm.ws(m, i).floating.contains(w));
        let d = c.retiled_up_to(k);
        assert(c.wm.ws(m, j).tiled.contains(w) ==> d.wm.ws(m, j).tiled.contains(w));
        assert(c.wm.ws(m, j).floating.contains(w) ==> d.wm.ws(m, j).floating.contains(w));
        assert(s.set_workspace_count(wanted).wm == d.wm);
    }
}

proof fn lemma_cut_valid(s: World, n: int, k: int)
    requires
        0 <= k,
    ensures
        s.cut_monitors(n, k).desk.seen == s.desk.seen,
    decreases k,
{
    if k > 0 {
        lemma_cut_valid(s, n, k - 1);
    }
}

/// New workspaces are empty.
pub proof fn law_new_workspaces_are_empty(spaces: Seq<WsView>, n: int, i: int)
    requires
        spaces.len() <= i < n,
    ensures
        ({
            let ws = cut_to(spaces, n)[i];
            &&& cut_to(spaces, n).len() == n
            &&& ws.tiled.len() == 0 && ws.floating.len() == 0 && ws.ratios.len() == 0
            &&& !ws.monocle && ws.fullscreen is None
        }),
{
}

} // verus!
