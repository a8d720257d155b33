//! What holds when the number of workspaces or the monitors change.

use super::census::{
    as_valid, census, count, lemma_acts_valid, lemma_count_add, lemma_loses_then, lemma_mons_update,
    lemma_safe_then, lemma_same_safe, lemma_spaces_update, loses_none, mons_count, safe,
    same_census, spaces_count, unique, ws_count,
};
use super::desktop::Action;
use super::displays::{
    carried, cut_to, displays_changed, gathered, known, lemma_carried, lemma_count_changed,
    lemma_cut_monitors, lemma_in_range, lemma_merged_spaces, lemma_redisplayed, lemma_refreshed,
    lemma_remaining, lemma_synced_monitors_keeps, lemma_taken_in, measured, merged_spaces, orphaned,
    remaining, shaped, taken_in, vanished,
};
use super::laws::{
    law_switch_is_safe, lemma_as_valid_then, lemma_hiding_same, lemma_same_then, lemma_start,
    lemma_still, lemma_then_act, lemma_then_retile_all,
};
use super::state::{
    empty_workspace, fresh_monitor, handle_from, lemma_handle_from, MonView, World, WsView,
};
use crate::config::workspace_count;
use crate::monitor::{with_handle, MonitorInfo};
use crate::window::Window;
use vstd::prelude::*;

verus! {

// --------------------------------------------------------------- visibility

proof fn lemma_synced_list_same(s: World, list: Seq<Window>, shown: bool)
    requires
        s.wm.wf(),
    ensures
        same_census(s, s.synced_list(list, shown)),
    decreases list.len(),
{
    if list.len() == 0 {
        lemma_still(s);
    } else {
        lemma_synced_list_same(s, list.drop_last(), shown);
        let t = s.synced_list(list.drop_last(), shown);
        lemma_hiding_same(t, list.last());
        lemma_still(t);
        lemma_same_then(s, t, t.synced(list.last(), shown));
    }
}

proof fn lemma_synced_spaces_same(s: World, mon: MonView, n: int)
    requires
        s.wm.wf(),
    ensures
        same_census(s, s.synced_spaces(mon, n)),
    decreases n,
{
    if n <= 0 {
        lemma_still(s);
    } else {
        lemma_synced_spaces_same(s, mon, n - 1);
        let t = s.synced_spaces(mon, n - 1);
        lemma_synced_list_same(t, mon.workspaces[n - 1].all(), n - 1 == mon.active);
        lemma_same_then(s, t, s.synced_spaces(mon, n));
    }
}

pub proof fn lemma_synced_monitors_same(s: World, mons: Seq<MonView>, n: int)
    requires
        s.wm.wf(),
    ensures
        same_census(s, s.synced_monitors(mons, n)),
    decreases n,
{
    if n <= 0 {
        lemma_still(s);
    } else {
        lemma_synced_monitors_same(s, mons, n - 1);
        let t = s.synced_monitors(mons, n - 1);
        lemma_synced_spaces_same(t, mons[n - 1], mons[n - 1].workspaces.len() as int);
        lemma_same_then(s, t, s.synced_monitors(mons, n));
    }
}

/// Showing, hiding and laying out everything anew is safe.
proof fn lemma_settled_safe(s: World)
    requires
        s.wm.wf(),
        unique(s.wm),
    ensures
        safe(s, s.sync_visibility().retiled_all().act(Action::PaintBorders)),
{
    let n = s.wm.monitors.len() as int;
    lemma_synced_monitors_same(s, s.wm.monitors, n);
    let t = s.synced_monitors(s.wm.monitors, n);
    lemma_same_safe(s, t);
    lemma_then_act(s, t, Action::Journal);
    lemma_then_retile_all(s, s.sync_visibility());
    lemma_then_act(s, s.sync_visibility().retiled_all(), Action::PaintBorders);
}

// ---------------------------------------------------------- workspace count

proof fn lemma_spaces_add(a: Seq<WsView>, b: Seq<WsView>, w: Window)
    ensures
        spaces_count(a + b, w) == spaces_count(a, w) + spaces_count(b, w),
    decreases b.len(),
{
    if b.len() == 0 {
        assert(a + b =~= a);
    } else {
        lemma_spaces_add(a, b.drop_last(), w);
        assert((a + b).drop_last() =~= a + b.drop_last());
    }
}

proof fn lemma_spaces_empty(s: Seq<WsView>, w: Window)
    requires
        forall|i: int| 0 <= i < s.len() ==> #[trigger] s[i] == empty_workspace(),
    ensures
        spaces_count(s, w) == 0,
    decreases s.len(),
{
    if s.len() > 0 {
        assert forall|i: int| 0 <= i < s.drop_last().len() implies #[trigger] s.drop_last()[i]
            == empty_workspace() by {
            assert(s[i] == empty_workspace());
        }
        lemma_spaces_empty(s.drop_last(), w);
        assert(s[s.len() - 1] == empty_workspace());
    }
}

proof fn lemma_gathered_count(ws: WsView, rest: Seq<WsView>, w: Window)
    ensures
        ws_count(gathered(ws, rest), w) == ws_count(ws, w) + spaces_count(rest, w),
    decreases rest.len(),
{
    if rest.len() > 0 {
        lemma_gathered_count(ws, rest.drop_last(), w);
        let g = gathered(ws, rest.drop_last());
        lemma_count_add(g.tiled, rest.last().tiled, w);
        lemma_count_add(g.floating, rest.last().floating, w);
    }
}

proof fn lemma_cut_count(spaces: Seq<WsView>, n: int, w: Window)
    requires
        n >= 1,
    ensures
        spaces_count(cut_to(spaces, n), w) == spaces_count(spaces, w),
{
    if spaces.len() < n {
        let c = cut_to(spaces, n);
        let a = c.take(spaces.len() as int);
        let b = c.skip(spaces.len() as int);
        assert(a =~= spaces);
        assert(a + b =~= c);
        lemma_spaces_add(a, b, w);
        lemma_spaces_empty(b, w);
    } else {
        let a = spaces.take(n);
        let b = spaces.skip(n);
        assert(a + b =~= spaces);
        lemma_spaces_add(a, b, w);
        lemma_gathered_count(spaces[n - 1], b, w);
        lemma_spaces_update(a, n - 1, gathered(spaces[n - 1], b), w);
    }
}

proof fn lemma_cut_monitors_count(s: World, n: int, k: int, w: Window)
    requires
        n >= 1,
        0 <= k <= s.wm.monitors.len(),
    ensures
        mons_count(s.cut_monitors(n, k).wm.monitors, w) == mons_count(s.wm.monitors, w),
        as_valid(s.desk, s.cut_monitors(n, k).desk),
    decreases k,
{
    lemma_acts_valid(s.desk);
    if k > 0 {
        lemma_cut_monitors_count(s, n, k - 1, w);
        lemma_cut_monitors(s, n, k - 1);
        let t = s.cut_monitors(n, k - 1);
        let mon = t.wm.monitors[k - 1];
        lemma_cut_count(mon.workspaces, n, w);
        lemma_mons_update(
            t.wm.monitors,
            k - 1,
            MonView { workspaces: cut_to(mon.workspaces, n), ..mon },
            w,
        );
        lemma_acts_valid(t.desk);
        lemma_as_valid_then(s.desk, t.desk, s.cut_monitors(n, k).desk);
    }
}

proof fn lemma_in_range_safe(s: World, n: int, k: int)
    requires
        s.wm.wf(),
        unique(s.wm),
        !s.wm.paused,
        1 <= n,
        k <= s.wm.monitors.len(),
    ensures
        safe(s, s.in_range(n, k)),
    decreases k,
{
    if k <= 0 {
        lemma_start(s);
    } else {
        lemma_in_range_safe(s, n, k - 1);
        let t = s.in_range(n, k - 1);
        lemma_start(t);
        law_switch_is_safe(t, k - 1, n - 1);
        lemma_safe_then(s, t, s.in_range(n, k));
    }
}

/// Changing the number of workspaces loses no window: those of removed
/// workspaces are merged into the last one that remains.
pub proof fn law_workspace_count_loses_no_window(s: World, wanted: usize)
    requires
        s.wm.wf(),
        unique(s.wm),
    ensures
        safe(s, s.set_workspace_count(wanted)),
{
    lemma_start(s);
    lemma_count_changed(s, wanted);
    let n = workspace_count(wanted);
    if !(s.wm.paused || n == s.wm.cfg.workspaces) {
        let k = s.wm.monitors.len() as int;
        lemma_in_range_safe(s, n as int, k);
        lemma_in_range(s, n as int, k);
        let a = s.in_range(n as int, k);
        lemma_cut_monitors(a, n as int, k);
        let b = a.cut_monitors(n as int, k).counting(n);
        assert(b.wm.wf());
        assert forall|w: Window| #[trigger] census(b.wm, w) == census(a.wm, w) by {
            lemma_cut_monitors_count(a, n as int, k, w);
        }
        lemma_cut_monitors_count(a, n as int, k, Window(0));
        assert(same_census(a, b));
        lemma_same_safe(a, b);
        lemma_safe_then(s, a, b);
        lemma_settled_safe(b);
        lemma_safe_then(s, b, s.set_workspace_count(wanted));
    }
}

// ----------------------------------------------------------------- monitors

/// No two monitors have the same handle.
pub open spec fn distinct(mons: Seq<MonView>) -> bool {
    forall|i: int, j: int|
        0 <= i < j < mons.len() ==> (#[trigger] mons[i]).handle != (#[trigger] mons[j]).handle
}

/// No two reported monitors have the same handle.
pub open spec fn distinct_infos(mons: Seq<MonitorInfo>) -> bool {
    forall|i: int, j: int|
        0 <= i < j < mons.len() ==> (#[trigger] mons[i]).handle != (#[trigger] mons[j]).handle
}

proof fn lemma_carried_untouched(news: Seq<MonView>, olds: Seq<MonView>, count: usize, i: int)
    requires
        0 <= i < news.len(),
        forall|j: int| 0 <= j < olds.len() ==> (#[trigger] olds[j]).handle != news[i].handle,
    ensures
        carried(news, olds, count).len() == news.len(),
        carried(news, olds, count)[i] == news[i],
        forall|k: int|
            0 <= k < news.len() ==> (#[trigger] carried(news, olds, count)[k]).handle
                == news[k].handle,
    decreases olds.len(),
{
    if olds.len() > 0 {
        let front = olds.drop_last();
        assert forall|j: int| 0 <= j < front.len() implies (#[trigger] front[j]).handle
            != news[i].handle by {
            assert(front[j] == olds[j]);
        }
        lemma_carried_untouched(news, front, count, i);
        let c = carried(news, front, count);
        lemma_handle_from(c, olds.last().handle, 0);
        assert(olds[olds.len() - 1].handle != news[i].handle);
    }
}

/// Carrying over loses no window: it is on a new monitor, or on one that is
/// gone.
proof fn lemma_carried_count(news: Seq<MonView>, olds: Seq<MonView>, count: usize, w: Window)
    requires
        shaped(news, count),
        shaped(olds, count),
        count >= 1,
        distinct(olds),
        distinct(news),
        forall|i: int| 0 <= i < news.len() ==> spaces_count((#[trigger] news[i]).workspaces, w) == 0,
    ensures
        mons_count(carried(news, olds, count), w) + mons_count(orphaned(news, olds, count), w)
            == mons_count(news, w) + mons_count(olds, w),
    decreases olds.len(),
{
    if olds.len() > 0 {
        let front = olds.drop_last();
        let old = olds[olds.len() - 1];
        assert(shaped(front, count)) by {
            assert forall|i: int| 0 <= i < front.len() implies (
            #[trigger] front[i]).workspaces.len() == count && front[i].active < count by {
                assert(front[i] == olds[i]);
            }
        }
        assert(distinct(front)) by {
            assert forall|i: int, j: int| 0 <= i < j < front.len() implies (
            #[trigger] front[i]).handle != (#[trigger] front[j]).handle by {
                assert(front[i] == olds[i] && front[j] == olds[j]);
            }
        }
        lemma_carried_count(news, front, count, w);
        lemma_carried(news, front, count);
        let c = carried(news, front, count);
        let o = orphaned(news, front, count);
        lemma_handle_from(c, old.handle, 0);
        match handle_from(c, old.handle, 0) {
            Some(i) => {
                assert(c[i].handle == news[i].handle);
                assert forall|j: int| 0 <= j < front.len() implies (#[trigger] front[j]).handle
                    != news[i].handle by {
                    assert(front[j] == olds[j]);
                    assert(olds[j].handle != olds[olds.len() - 1].handle);
                }
                lemma_carried_untouched(news, front, count, i);
                assert(spaces_count(news[i].workspaces, w) == 0);
                let m = MonView {
                    workspaces: old.workspaces,
                    active: if old.active < count {
                        old.active
                    } else {
                        (count - 1) as usize
                    },
                    ..c[i]
                };
                lemma_mons_update(c, i, m, w);
                assert(carried(news, olds, count) == c.update(i, m));
                assert(orphaned(news, olds, count) == o);
            },
            None => {
                assert(orphaned(news, olds, count) == o.push(old));
                assert(o.push(old).drop_last() =~= o);
            },
        }
    }
}

proof fn lemma_merged_count(spaces: Seq<WsView>, rest: Seq<WsView>, w: Window)
    requires
        spaces.len() > 0,
    ensures
        spaces_count(merged_spaces(spaces, rest), w) == spaces_count(spaces, w) + spaces_count(
            rest,
            w,
        ),
    decreases rest.len(),
{
    if rest.len() > 0 {
        let front = rest.drop_last();
        lemma_merged_count(spaces, front, w);
        lemma_merged_spaces(spaces, front);
        let m = merged_spaces(spaces, front);
        let i = if rest.len() - 1 < m.len() {
            rest.len() - 1
        } else {
            m.len() - 1
        };
        let ws = WsView {
            tiled: m[i].tiled + rest.last().tiled,
            floating: m[i].floating + rest.last().floating,
            ..m[i]
        };
        lemma_spaces_update(m, i, ws, w);
        lemma_count_add(m[i].tiled, rest.last().tiled, w);
        lemma_count_add(m[i].floating, rest.last().floating, w);
    }
}

proof fn lemma_taken_in_count(news: Seq<MonView>, gone: Seq<MonView>, count: usize, w: Window)
    requires
        shaped(news, count),
        count >= 1,
        news.len() > 0,
    ensures
        mons_count(taken_in(news, gone), w) == mons_count(news, w) + mons_count(gone, w),
    decreases gone.len(),
{
    if gone.len() > 0 {
        lemma_taken_in_count(news, gone.drop_last(), count, w);
        lemma_taken_in(news, gone.drop_last(), count);
        let t = taken_in(news, gone.drop_last());
        assert(t[0].workspaces.len() == count);
        lemma_merged_count(t[0].workspaces, gone.last().workspaces, w);
        lemma_mons_update(
            t,
            0,
            MonView {
                workspaces: merged_spaces(t[0].workspaces, gone.last().workspaces),
                ..t[0]
            },
            w,
        );
    }
}

proof fn lemma_blank_count(news: Seq<MonView>, w: Window)
    requires
        forall|i: int| 0 <= i < news.len() ==> spaces_count((#[trigger] news[i]).workspaces, w) == 0,
    ensures
        mons_count(news, w) == 0,
    decreases news.len(),
{
    if news.len() > 0 {
        assert forall|i: int| 0 <= i < news.drop_last().len() implies spaces_count(
            (#[trigger] news.drop_last()[i]).workspaces,
            w,
        ) == 0 by {
            assert(news.drop_last()[i] == news[i]);
        }
        lemma_blank_count(news.drop_last(), w);
        assert(spaces_count(news[news.len() - 1].workspaces, w) == 0);
    }
}

proof fn lemma_parted_count(mons: Seq<MonView>, fresh: Seq<MonitorInfo>, w: Window)
    ensures
        mons_count(mons, w) == mons_count(remaining(mons, fresh), w) + mons_count(
            vanished(mons, fresh),
            w,
        ),
    decreases mons.len(),
{
    if mons.len() > 0 {
        let front = mons.drop_last();
        let last = mons.last();
        lemma_parted_count(front, fresh, w);
        let here = remaining(front, fresh);
        let gone = vanished(front, fresh);
        assert(here.push(measured(last, fresh)).drop_last() =~= here);
        assert(gone.push(last).drop_last() =~= gone);
    }
}

/// Reading the monitors anew loses no window: every window that exists is
/// still listed, and none twice.
pub proof fn law_refresh_loses_no_window(s: World, fresh: Seq<MonitorInfo>)
    requires
        s.wm.wf(),
        unique(s.wm),
    ensures
        loses_none(s, s.refreshed(fresh)),
{
    lemma_acts_valid(s.desk);
    lemma_still(s);
    let here = remaining(s.wm.monitors, fresh);
    let gone = vanished(s.wm.monitors, fresh);
    if here.len() > 0 {
        let cnt = s.wm.cfg.workspaces;
        assert(shaped(s.wm.monitors, cnt));
        lemma_remaining(s.wm.monitors, fresh, cnt);
        lemma_refreshed(s, fresh);
        let t = s.collapsed(fresh);
        assert forall|w: Window| #[trigger] census(t.wm, w) == census(s.wm, w) by {
            lemma_parted_count(s.wm.monitors, fresh, w);
            lemma_taken_in_count(here, gone, cnt, w);
        }
        assert forall|w: Window| #[trigger] census(t.wm, w) <= 1 by {
            assert(census(s.wm, w) <= 1);
        }
        assert(as_valid(s.desk, t.desk));
        let n = t.wm.monitors.len() as int;
        lemma_synced_monitors_same(t, t.wm.monitors, n);
        let u = t.synced_monitors(t.wm.monitors, n);
        lemma_same_safe(t, u);
        lemma_then_act(t, u, Action::Journal);
        lemma_loses_then(s, t, t.sync_visibility());
    }
}

proof fn lemma_holds_added(a: Seq<Window>, b: Seq<Window>, w: Window)
    ensures
        a.contains(w) || b.contains(w) ==> (a + b).contains(w),
{
    if a.contains(w) {
        let i = choose|i: int| 0 <= i < a.len() && a[i] == w;
        assert((a + b)[i] == w);
    }
    if b.contains(w) {
        let i = choose|i: int| 0 <= i < b.len() && b[i] == w;
        assert((a + b)[a.len() + i] == w);
    }
}

proof fn lemma_taken_in_holds(
    news: Seq<MonView>,
    gone: Seq<MonView>,
    count: usize,
    wi: int,
    w: Window,
)
    requires
        shaped(news, count),
        shaped(gone, count),
        count >= 1,
        news.len() > 0,
        0 <= wi < count,
        news[0].workspaces[wi].holds(w) || exists|k: int|
            0 <= k < gone.len() && (#[trigger] gone[k]).workspaces[wi].holds(w),
    ensures
        taken_in(news, gone)[0].workspaces[wi].holds(w),
    decreases gone.len(),
{
    if gone.len() > 0 {
        let front = gone.drop_last();
        let last = gone.last();
        assert(shaped(front, count)) by {
            assert forall|j: int| 0 <= j < front.len() implies (#[trigger] front[j]).workspaces.len()
                == count && front[j].active < count by {
                assert(front[j] == gone[j]);
            }
        }
        assert(gone[gone.len() - 1].workspaces.len() == count);
        lemma_taken_in(news, front, count);
        let t = taken_in(news, front);
        assert(t[0].workspaces.len() == count);
        law_same_number_takes_in(t[0].workspaces, last.workspaces, wi);
        lemma_merged_spaces(t[0].workspaces, last.workspaces);
        let a = t[0].workspaces[wi];
        let b = last.workspaces[wi];
        if !b.holds(w) {
            if !news[0].workspaces[wi].holds(w) {
                let k = choose|k: int|
                    0 <= k < gone.len() && (#[trigger] gone[k]).workspaces[wi].holds(w);
                assert(front[k] == gone[k]);
            }
            lemma_taken_in_holds(news, front, count, wi, w);
        }
        lemma_holds_added(a.tiled, b.tiled, w);
        lemma_holds_added(a.floating, b.floating, w);
    }
}

proof fn lemma_vanished_has(mons: Seq<MonView>, fresh: Seq<MonitorInfo>, k: int)
    requires
        0 <= k < mons.len(),
        with_handle(fresh, mons[k].handle, 0) is None,
    ensures
        vanished(mons, fresh).contains(mons[k]),
    decreases mons.len(),
{
    let front = mons.drop_last();
    let v = vanished(front, fresh);
    if k < front.len() {
        lemma_vanished_has(front, fresh, k);
        let i = choose|i: int| 0 <= i < v.len() && v[i] == front[k];
        assert(vanished(mons, fresh)[i] == mons[k]);
    } else {
        assert(vanished(mons, fresh)[v.len() as int] == mons[k]);
    }
}

/// The windows of a monitor that disappeared are, once the monitors are read
/// anew, with the first one that remains, in the workspace of the same number.
pub proof fn law_vanished_windows_go_to_the_first(
    s: World,
    fresh: Seq<MonitorInfo>,
    k: int,
    wi: int,
    w: Window,
)
    requires
        s.wm.wf(),
        remaining(s.wm.monitors, fresh).len() > 0,
        s.wm.has(k, wi),
        with_handle(fresh, s.wm.monitors[k].handle, 0) is None,
        s.wm.ws(k, wi).holds(w),
    ensures
        s.refreshed(fresh).wm.has(0, wi),
        s.refreshed(fresh).wm.ws(0, wi).holds(w),
        s.refreshed(fresh).wm.monitors[0].handle == remaining(s.wm.monitors, fresh)[0].handle,
{
    let cnt = s.wm.cfg.workspaces;
    let here = remaining(s.wm.monitors, fresh);
    let gone = vanished(s.wm.monitors, fresh);
    assert(shaped(s.wm.monitors, cnt));
    lemma_remaining(s.wm.monitors, fresh, cnt);
    lemma_vanished_has(s.wm.monitors, fresh, k);
    let i = choose|i: int| 0 <= i < gone.len() && gone[i] == s.wm.monitors[k];
    assert(gone[i].workspaces[wi].holds(w));
    lemma_taken_in_holds(here, gone, cnt, wi, w);
    lemma_taken_in(here, gone, cnt);
    lemma_taken_in_handle(here, gone, cnt);
    let t = s.collapsed(fresh);
    lemma_refreshed(s, fresh);
    lemma_synced_monitors_keeps(t, t.wm.monitors, t.wm.monitors.len() as int);
}

proof fn lemma_taken_in_handle(news: Seq<MonView>, gone: Seq<MonView>, count: usize)
    requires
        shaped(news, count),
        count >= 1,
        news.len() > 0,
    ensures
        taken_in(news, gone)[0].handle == news[0].handle,
    decreases gone.len(),
{
    if gone.len() > 0 {
        lemma_taken_in_handle(news, gone.drop_last(), count);
        lemma_taken_in(news, gone.drop_last(), count);
    }
}

proof fn lemma_remaining_at(mons: Seq<MonView>, fresh: Seq<MonitorInfo>, i: int)
    requires
        0 <= i < remaining(mons, fresh).len(),
    ensures
        exists|k: int|
            0 <= k < mons.len() && with_handle(fresh, mons[k].handle, 0) is Some && remaining(
                mons,
                fresh,
            )[i] == measured(#[trigger] mons[k], fresh),
    decreases mons.len(),
{
    let front = mons.drop_last();
    let r = remaining(front, fresh);
    if i < r.len() {
        lemma_remaining_at(front, fresh, i);
        let k = choose|k: int|
            0 <= k < front.len() && with_handle(fresh, front[k].handle, 0) is Some && r[i]
                == measured(#[trigger] front[k], fresh);
        assert(mons[k] == front[k]);
    } else {
        assert(mons[mons.len() - 1] == mons.last());
    }
}

/// A monitor that remains but the first keeps its workspaces as the monitors
/// are read anew, and has the areas that are reported for it.
pub proof fn law_refresh_keeps_workspaces(s: World, fresh: Seq<MonitorInfo>, i: int)
    requires
        s.wm.wf(),
        0 < i < remaining(s.wm.monitors, fresh).len(),
    ensures
        exists|k: int|
            0 <= k < s.wm.monitors.len() && with_handle(
                fresh,
                s.wm.monitors[k].handle,
                0,
            ) is Some && s.refreshed(fresh).wm.monitors[i] == measured(
                #[trigger] s.wm.monitors[k],
                fresh,
            ),
{
    let cnt = s.wm.cfg.workspaces;
    let here = remaining(s.wm.monitors, fresh);
    assert(shaped(s.wm.monitors, cnt));
    lemma_remaining(s.wm.monitors, fresh, cnt);
    lemma_taken_in_rest(here, vanished(s.wm.monitors, fresh), cnt, i);
    lemma_remaining_at(s.wm.monitors, fresh, i);
    let t = s.collapsed(fresh);
    lemma_refreshed(s, fresh);
    lemma_synced_monitors_keeps(t, t.wm.monitors, t.wm.monitors.len() as int);
}

/// A change of the displays loses no window, as long as some monitor remains:
/// every window that exists is still listed, and none twice.
pub proof fn law_display_change_loses_no_window(s: World, fresh: Seq<MonitorInfo>)
    requires
        s.wm.wf(),
        unique(s.wm),
        fresh.len() > 0,
        distinct(s.wm.monitors),
        distinct_infos(fresh),
    ensures
        loses_none(s, s.display_change(fresh)),
{
    lemma_redisplayed(s, fresh);
    lemma_acts_valid(s.desk);
    if displays_changed(s.wm.monitors, fresh) {
        let cnt = s.wm.cfg.workspaces;
        let blank = Seq::new(fresh.len(), |i: int| fresh_monitor(fresh[i], cnt));
        let t = s.redisplayed(fresh);
        assert(shaped(blank, cnt));
        assert(shaped(s.wm.monitors, cnt));
        assert(distinct(blank)) by {
            assert forall|i: int, j: int| 0 <= i < j < blank.len() implies (
            #[trigger] blank[i]).handle != (#[trigger] blank[j]).handle by {
                assert(fresh[i].handle != fresh[j].handle);
            }
        }
        lemma_carried(blank, s.wm.monitors, cnt);
        let c = carried(blank, s.wm.monitors, cnt);
        let o = orphaned(blank, s.wm.monitors, cnt);
        assert forall|w: Window| #[trigger] census(t.wm, w) == census(s.wm, w) by {
            assert forall|i: int| 0 <= i < blank.len() implies spaces_count(
                (#[trigger] blank[i]).workspaces,
                w,
            ) == 0 by {
                lemma_spaces_empty(blank[i].workspaces, w);
            }
            lemma_carried_count(blank, s.wm.monitors, cnt, w);
            lemma_blank_count(blank, w);
            lemma_taken_in_count(c, o, cnt, w);
        }
        assert forall|w: Window| #[trigger] census(t.wm, w) <= 1 by {
            assert(census(s.wm, w) <= 1);
        }
        lemma_settled_safe(t);
        let u = s.display_change(fresh);
        lemma_as_valid_then(s.desk, t.desk, u.desk);
        assert forall|w: Window| s.desk.valid(w) implies #[trigger] census(u.wm, w) >= census(
            s.wm,
            w,
        ) by {
            assert(t.desk.valid(w) == s.desk.valid(w));
            assert(census(u.wm, w) >= census(t.wm, w));
        }
    } else {
        law_refresh_loses_no_window(s, fresh);
        let t = s.refreshed(fresh);
        lemma_start(t);
        lemma_then_retile_all(t, t);
        lemma_then_act(t, t.retiled_all(), Action::PaintBorders);
        lemma_loses_then(s, t, s.display_change(fresh));
    }
}

/// A monitor that remains keeps its workspaces when the others change. Only
/// the first one also takes in the windows of monitors that are gone.
pub proof fn law_surviving_monitor_keeps_workspaces(
    s: World,
    fresh: Seq<MonitorInfo>,
    i: int,
    k: int,
)
    requires
        s.wm.wf(),
        distinct(s.wm.monitors),
        distinct_infos(fresh),
        0 < i < fresh.len(),
        0 <= k < s.wm.monitors.len(),
        fresh[i].handle == s.wm.monitors[k].handle,
    ensures
        ({
            let m = s.redisplayed(fresh).wm.monitors[i];
            &&& m.workspaces == s.wm.monitors[k].workspaces
            &&& m.active == s.wm.monitors[k].active
            &&& m.bounds == fresh[i].bounds
            &&& m.work_area == fresh[i].work_area
        }),
{
    let cnt = s.wm.cfg.workspaces;
    let blank = Seq::new(fresh.len(), |j: int| fresh_monitor(fresh[j], cnt));
    assert(shaped(blank, cnt));
    assert(shaped(s.wm.monitors, cnt));
    lemma_carried(blank, s.wm.monitors, cnt);
    assert(distinct(blank)) by {
        assert forall|a: int, b: int| 0 <= a < b < blank.len() implies (#[trigger] blank[a]).handle
            != (#[trigger] blank[b]).handle by {
            assert(fresh[a].handle != fresh[b].handle);
        }
    }
    lemma_carried_to(blank, s.wm.monitors, cnt, i, k);
    lemma_taken_in_rest(
        carried(blank, s.wm.monitors, cnt),
        orphaned(blank, s.wm.monitors, cnt),
        cnt,
        i,
    );
}

proof fn lemma_carried_to(
    news: Seq<MonView>,
    olds: Seq<MonView>,
    count: usize,
    i: int,
    k: int,
)
    requires
        shaped(news, count),
        shaped(olds, count),
        count >= 1,
        distinct(news),
        distinct(olds),
        0 <= i < news.len(),
        0 <= k < olds.len(),
        news[i].handle == olds[k].handle,
    ensures
        carried(news, olds, count)[i] == (MonView {
            workspaces: olds[k].workspaces,
            active: olds[k].active,
            ..news[i]
        }),
    decreases olds.len(),
{
    let front = olds.drop_last();
    assert(shaped(front, count)) by {
        assert forall|j: int| 0 <= j < front.len() implies (#[trigger] front[j]).workspaces.len()
            == count && front[j].active < count by {
            assert(front[j] == olds[j]);
        }
    }
    assert(distinct(front)) by {
        assert forall|a: int, b: int| 0 <= a < b < front.len() implies (#[trigger] front[a]).handle
            != (#[trigger] front[b]).handle by {
            assert(front[a] == olds[a] && front[b] == olds[b]);
        }
    }
    lemma_carried(news, front, count);
    let c = carried(news, front, count);
    let old = olds[olds.len() - 1];
    lemma_handle_from(c, old.handle, 0);
    if k == olds.len() - 1 {
        assert forall|j: int| 0 <= j < front.len() implies (#[trigger] front[j]).handle
            != news[i].handle by {
            assert(front[j] == olds[j]);
            assert(olds[j].handle != olds[olds.len() - 1].handle);
        }
        lemma_carried_untouched(news, front, count, i);
        assert(c[i].handle == old.handle);
        let f = handle_from(c, old.handle, 0);
        assert(f is Some);
        assert(c[f->0].handle == news[f->0].handle);
        if f->0 < i {
            assert(news[f->0].handle != news[i].handle);
        } else if f->0 > i {
            assert(news[i].handle != news[f->0].handle);
        }
        assert(old.active < count);
    } else {
        assert(front[k] == olds[k]);
        lemma_carried_to(news, front, count, i, k);
        assert(olds[k].handle != olds[olds.len() - 1].handle);
        match handle_from(c, old.handle, 0) {
            Some(j) => {
                assert(c[j].handle == news[j].handle);
                assert(j != i);
            },
            None => {},
        }
    }
}

proof fn lemma_taken_in_rest(news: Seq<MonView>, gone: Seq<MonView>, count: usize, i: int)
    requires
        shaped(news, count),
        count >= 1,
        0 < i < news.len(),
    ensures
        taken_in(news, gone)[i] == news[i],
    decreases gone.len(),
{
    if gone.len() > 0 {
        lemma_taken_in_rest(news, gone.drop_last(), count, i);
        lemma_taken_in(news, gone.drop_last(), count);
    }
}

/// The windows of a monitor that is gone go to the workspace of the same
/// number, behind the windows there.
pub proof fn law_same_number_takes_in(spaces: Seq<WsView>, rest: Seq<WsView>, i: int)
    requires
        rest.len() <= spaces.len(),
        0 <= i < spaces.len(),
    ensures
        merged_spaces(spaces, rest)[i].tiled =~= spaces[i].tiled + if i < rest.len() {
            rest[i].tiled
        } else {
            Seq::empty()
        },
        merged_spaces(spaces, rest)[i].floating =~= spaces[i].floating + if i < rest.len() {
            rest[i].floating
        } else {
            Seq::empty()
        },
    decreases rest.len(),
{
    if rest.len() > 0 {
        law_same_number_takes_in(spaces, rest.drop_last(), i);
        lemma_merged_spaces(spaces, rest.drop_last());
        let m = merged_spaces(spaces, rest.drop_last());
        assert(m.len() == spaces.len());
        if i == rest.len() - 1 {
            assert(m[i].tiled =~= spaces[i].tiled);
            assert(m[i].floating =~= spaces[i].floating);
        }
    }
}

// ---------------------------------------------------------------- recognition

/// Monitors that are reported as they were are no change; one that is new, that
/// is missing, or that has other bounds, is.
pub proof fn law_change_of_displays_is_noticed(
    mons: Seq<MonView>,
    fresh: Seq<MonitorInfo>,
    i: int,
)
    ensures
        fresh.len() == mons.len() && (forall|k: int|
            0 <= k < mons.len() ==> (#[trigger] mons[k]).handle == fresh[k].handle
                && mons[k].bounds == fresh[k].bounds) ==> !displays_changed(mons, fresh),
        fresh.len() != mons.len() ==> displays_changed(mons, fresh),
        0 <= i < fresh.len() && (forall|k: int|
            0 <= k < mons.len() ==> (#[trigger] mons[k]).handle != fresh[i].handle
                || mons[k].bounds != fresh[i].bounds) ==> displays_changed(mons, fresh),
{
    if fresh.len() == mons.len() && (forall|k: int|
        0 <= k < mons.len() ==> (#[trigger] mons[k]).handle == fresh[k].handle && mons[k].bounds
            == fresh[k].bounds) {
        assert forall|j: int| 0 <= j < fresh.len() implies known(mons, #[trigger] fresh[j]) by {
            assert(mons[j].handle == fresh[j].handle);
        }
    }
    if 0 <= i < fresh.len() && (forall|k: int|
        0 <= k < mons.len() ==> (#[trigger] mons[k]).handle != fresh[i].handle || mons[k].bounds
            != fresh[i].bounds) {
        assert(!known(mons, fresh[i]));
    }
}

proof fn lemma_reported(fresh: Seq<MonitorInfo>, handle: isize, i: int, k: int)
    requires
        0 <= k <= i,
        forall|j: int| k <= j < i && j < fresh.len() ==> (#[trigger] fresh[j]).handle != handle,
    ensures
        i < fresh.len() && fresh[i].handle == handle ==> with_handle(fresh, handle, k) == Some(i),
        i >= fresh.len() ==> with_handle(fresh, handle, k) is None,
    decreases i - k,
{
    if k < i && k < fresh.len() {
        assert(fresh[k].handle != handle);
        lemma_reported(fresh, handle, i, k + 1);
    }
}

/// A monitor takes the areas that are reported under its handle, and keeps its
/// workspaces; one that is not reported keeps its areas.
pub proof fn law_monitor_takes_its_new_areas(m: MonView, fresh: Seq<MonitorInfo>, i: int)
    requires
        0 <= i <= fresh.len(),
        forall|j: int| 0 <= j < i ==> (#[trigger] fresh[j]).handle != m.handle,
    ensures
        i < fresh.len() && fresh[i].handle == m.handle ==> measured(m, fresh).bounds
            == fresh[i].bounds && measured(m, fresh).work_area == fresh[i].work_area,
        i == fresh.len() ==> measured(m, fresh) == m,
        measured(m, fresh).workspaces == m.workspaces,
        measured(m, fresh).active == m.active,
        measured(m, fresh).handle == m.handle,
{
    lemma_reported(fresh, m.handle, i, 0);
}

/// A monitor goes on exactly if it is still reported.
pub proof fn law_reported_monitors_go_on(mons: Seq<MonView>, fresh: Seq<MonitorInfo>, m: MonView)
    requires
        mons.contains(m),
    ensures
        (exists|j: int| 0 <= j < fresh.len() && (#[trigger] fresh[j]).handle == m.handle)
            ==> remaining(mons, fresh).contains(measured(m, fresh)),
        !(exists|j: int| 0 <= j < fresh.len() && (#[trigger] fresh[j]).handle == m.handle)
            ==> vanished(mons, fresh).contains(m),
    decreases mons.len(),
{
    let front = mons.drop_last();
    let told = exists|j: int| 0 <= j < fresh.len() && (#[trigger] fresh[j]).handle == m.handle;
    if !told {
        lemma_reported(fresh, m.handle, fresh.len() as int, 0);
    } else {
        lemma_some_reported(fresh, m.handle, 0);
    }
    let k = choose|k: int| 0 <= k < mons.len() && mons[k] == m;
    let (a, b) = (remaining(front, fresh), vanished(front, fresh));
    let (c, d) = (remaining(mons, fresh), vanished(mons, fresh));
    if k < front.len() {
        assert(front[k] == m);
        law_reported_monitors_go_on(front, fresh, m);
        if told {
            let x = choose|x: int| 0 <= x < a.len() && a[x] == measured(m, fresh);
            assert(c[x] == a[x]);
        } else {
            let x = choose|x: int| 0 <= x < b.len() && b[x] == m;
            assert(d[x] == b[x]);
        }
    } else if told {
        assert(c[c.len() - 1] == measured(m, fresh));
    } else {
        assert(d[d.len() - 1] == m);
    }
}

proof fn lemma_some_reported(fresh: Seq<MonitorInfo>, handle: isize, k: int)
    requires
        0 <= k,
        exists|j: int| k <= j < fresh.len() && (#[trigger] fresh[j]).handle == handle,
    ensures
        with_handle(fresh, handle, k) is Some,
    decreases fresh.len() - k,
{
    let j = choose|j: int| k <= j < fresh.len() && (#[trigger] fresh[j]).handle == handle;
    if fresh[k].handle != handle {
        assert(k + 1 <= j < fresh.len());
        lemma_some_reported(fresh, handle, k + 1);
    }
}

} // verus!
