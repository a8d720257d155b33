//! Counting windows: how often each one is listed, over all workspaces and
//! the scratchpad. The laws on what steps do to windows rest on this.

use super::desktop::{sight_from, Action, DeskView, Sight};
use super::state::{lemma_mon_from, MonView, WmView, World, WsView};
use super::tiling::{lemma_retiled_keeps, living};
use crate::lists::{swapped, without};
use crate::window::Window;
use vstd::prelude::*;

verus! {

/// How often `w` stands in `s`.
pub open spec fn count(s: Seq<Window>, w: Window) -> nat
    decreases s.len(),
{
    if s.len() == 0 {
        0
    } else {
        count(s.drop_last(), w) + one(s.last(), w)
    }
}

/// One if the two are the same, else nothing.
pub open spec fn one(x: Window, w: Window) -> nat {
    if x == w {
        1
    } else {
        0
    }
}

/// How often `w` stands in a workspace.
pub open spec fn ws_count(ws: WsView, w: Window) -> nat {
    count(ws.tiled, w) + count(ws.floating, w)
}

pub open spec fn spaces_count(s: Seq<WsView>, w: Window) -> nat
    decreases s.len(),
{
    if s.len() == 0 {
        0
    } else {
        spaces_count(s.drop_last(), w) + ws_count(s.last(), w)
    }
}

pub open spec fn mons_count(s: Seq<MonView>, w: Window) -> nat
    decreases s.len(),
{
    if s.len() == 0 {
        0
    } else {
        mons_count(s.drop_last(), w) + spaces_count(s.last().workspaces, w)
    }
}

/// How often `w` is listed anywhere.
pub open spec fn census(v: WmView, w: Window) -> nat {
    mons_count(v.monitors, w) + count(v.scratch, w)
}

/// No window is listed twice.
pub open spec fn unique(v: WmView) -> bool {
    forall|w: Window| #[trigger] census(v, w) <= 1
}

// ------------------------------------------------------------------- lists

pub proof fn lemma_count_push(s: Seq<Window>, x: Window, w: Window)
    ensures
        count(s.push(x), w) == count(s, w) + one(x, w),
{
    assert(s.push(x).drop_last() =~= s);
}

pub proof fn lemma_count_add(a: Seq<Window>, b: Seq<Window>, w: Window)
    ensures
        count(a + b, w) == count(a, w) + count(b, w),
    decreases b.len(),
{
    if b.len() == 0 {
        assert(a + b =~= a);
    } else {
        lemma_count_add(a, b.drop_last(), w);
        assert((a + b).drop_last() =~= a + b.drop_last());
    }
}

pub proof fn lemma_count_contains(s: Seq<Window>, w: Window)
    ensures
        s.contains(w) <==> count(s, w) > 0,
    decreases s.len(),
{
    if s.len() > 0 {
        lemma_count_contains(s.drop_last(), w);
        if s.contains(w) && s.last() != w {
            let i = choose|i: int| 0 <= i < s.len() && s[i] == w;
            assert(s.drop_last()[i] == w);
        }
        if s.drop_last().contains(w) {
            let i = choose|i: int| 0 <= i < s.drop_last().len() && s.drop_last()[i] == w;
            assert(s[i] == w);
        }
        if s.last() == w {
            assert(s[s.len() - 1] == w);
        }
    }
}

proof fn lemma_count_split(s: Seq<Window>, i: int, w: Window)
    requires
        0 <= i < s.len(),
    ensures
        count(s, w) == count(s.subrange(0, i), w) + one(s[i], w) + count(
            s.subrange(i + 1, s.len() as int),
            w,
        ),
{
    let a = s.subrange(0, i).push(s[i]);
    let b = s.subrange(i + 1, s.len() as int);
    assert(a + b =~= s);
    lemma_count_add(a, b, w);
    lemma_count_push(s.subrange(0, i), s[i], w);
}

pub proof fn lemma_count_remove(s: Seq<Window>, i: int, w: Window)
    requires
        0 <= i < s.len(),
    ensures
        count(s.remove(i), w) + one(s[i], w) == count(s, w),
{
    lemma_count_split(s, i, w);
    let a = s.subrange(0, i);
    let b = s.subrange(i + 1, s.len() as int);
    assert(s.remove(i) =~= a + b);
    lemma_count_add(a, b, w);
}

pub proof fn lemma_count_insert(s: Seq<Window>, i: int, x: Window, w: Window)
    requires
        0 <= i <= s.len(),
    ensures
        count(s.insert(i, x), w) == count(s, w) + one(x, w),
{
    let a = s.subrange(0, i);
    let b = s.subrange(i, s.len() as int);
    assert(s =~= a + b);
    assert(s.insert(i, x) =~= a.push(x) + b);
    lemma_count_add(a, b, w);
    lemma_count_add(a.push(x), b, w);
    lemma_count_push(a, x, w);
}

pub proof fn lemma_count_update(s: Seq<Window>, i: int, x: Window, w: Window)
    requires
        0 <= i < s.len(),
    ensures
        count(s.update(i, x), w) + one(s[i], w) == count(s, w) + one(x, w),
{
    let t = s.update(i, x);
    lemma_count_split(s, i, w);
    lemma_count_split(t, i, w);
    assert(t.subrange(0, i) =~= s.subrange(0, i));
    assert(t.subrange(i + 1, t.len() as int) =~= s.subrange(i + 1, s.len() as int));
}

pub proof fn lemma_count_swapped(s: Seq<Window>, i: int, j: int, w: Window)
    requires
        0 <= i < s.len(),
        0 <= j < s.len(),
    ensures
        count(swapped(s, i, j), w) == count(s, w),
{
    let t = s.update(i, s[j]);
    lemma_count_update(s, i, s[j], w);
    lemma_count_update(t, j, s[i], w);
    if i == j {
        assert(swapped(s, i, j) =~= s);
    } else {
        assert(t[j] == s[j]);
    }
}

pub proof fn lemma_count_without(s: Seq<Window>, x: Window, w: Window)
    ensures
        count(without(s, x), w) == if x == w {
            0
        } else {
            count(s, w)
        },
    decreases s.len(),
{
    if s.len() > 0 {
        lemma_count_without(s.drop_last(), x, w);
        if s.last() != x {
            lemma_count_push(without(s.drop_last(), x), s.last(), w);
        }
    }
}

pub proof fn lemma_count_living(s: Seq<Window>, d: DeskView, w: Window)
    ensures
        count(living(s, d), w) == if d.valid(w) {
            count(s, w)
        } else {
            0
        },
    decreases s.len(),
{
    if s.len() > 0 {
        lemma_count_living(s.drop_last(), d, w);
        if d.valid(s.last()) {
            lemma_count_push(living(s.drop_last(), d), s.last(), w);
        }
    }
}

// ------------------------------------------------------------------ places

pub proof fn lemma_spaces_update(s: Seq<WsView>, i: int, ws: WsView, w: Window)
    requires
        0 <= i < s.len(),
    ensures
        spaces_count(s.update(i, ws), w) + ws_count(s[i], w) == spaces_count(s, w) + ws_count(
            ws,
            w,
        ),
    decreases s.len(),
{
    if i == s.len() - 1 {
        assert(s.update(i, ws).drop_last() =~= s.drop_last());
    } else {
        lemma_spaces_update(s.drop_last(), i, ws, w);
        assert(s.update(i, ws).drop_last() =~= s.drop_last().update(i, ws));
    }
}

pub proof fn lemma_mons_update(s: Seq<MonView>, i: int, m: MonView, w: Window)
    requires
        0 <= i < s.len(),
    ensures
        mons_count(s.update(i, m), w) + spaces_count(s[i].workspaces, w) == mons_count(s, w)
            + spaces_count(m.workspaces, w),
    decreases s.len(),
{
    if i == s.len() - 1 {
        assert(s.update(i, m).drop_last() =~= s.drop_last());
    } else {
        lemma_mons_update(s.drop_last(), i, m, w);
        assert(s.update(i, m).drop_last() =~= s.drop_last().update(i, m));
    }
}

/// Changing one workspace changes the census by what changed there.
pub proof fn lemma_census_set_ws(v: WmView, mi: int, wi: int, ws: WsView, w: Window)
    requires
        v.has(mi, wi),
    ensures
        census(v.set_ws(mi, wi, ws), w) + ws_count(v.ws(mi, wi), w) == census(v, w) + ws_count(
            ws,
            w,
        ),
{
    let mon = v.monitors[mi];
    lemma_spaces_update(mon.workspaces, wi, ws, w);
    lemma_mons_update(
        v.monitors,
        mi,
        MonView { workspaces: mon.workspaces.update(wi, ws), ..mon },
        w,
    );
}

pub proof fn lemma_spaces_count_at(s: Seq<WsView>, i: int, w: Window)
    requires
        0 <= i < s.len(),
    ensures
        spaces_count(s, w) >= ws_count(s[i], w),
    decreases s.len(),
{
    if i < s.len() - 1 {
        lemma_spaces_count_at(s.drop_last(), i, w);
    }
}

pub proof fn lemma_mons_count_at(s: Seq<MonView>, i: int, w: Window)
    requires
        0 <= i < s.len(),
    ensures
        mons_count(s, w) >= spaces_count(s[i].workspaces, w),
    decreases s.len(),
{
    if i < s.len() - 1 {
        lemma_mons_count_at(s.drop_last(), i, w);
    }
}

/// What a workspace holds is part of the census.
pub proof fn lemma_census_at(v: WmView, mi: int, wi: int, w: Window)
    requires
        v.has(mi, wi),
    ensures
        census(v, w) >= ws_count(v.ws(mi, wi), w),
        v.ws(mi, wi).holds(w) <==> ws_count(v.ws(mi, wi), w) > 0,
{
    lemma_mons_count_at(v.monitors, mi, w);
    lemma_spaces_count_at(v.monitors[mi].workspaces, wi, w);
    lemma_count_contains(v.ws(mi, wi).tiled, w);
    lemma_count_contains(v.ws(mi, wi).floating, w);
}

proof fn lemma_spaces_none(s: Seq<WsView>, w: Window)
    requires
        forall|k: int| 0 <= k < s.len() ==> !(#[trigger] s[k]).holds(w),
    ensures
        spaces_count(s, w) == 0,
    decreases s.len(),
{
    if s.len() > 0 {
        assert forall|k: int| 0 <= k < s.drop_last().len() implies !(
        #[trigger] s.drop_last()[k]).holds(w) by {
            assert(s.drop_last()[k] == s[k]);
        }
        lemma_spaces_none(s.drop_last(), w);
        assert(!s[s.len() - 1].holds(w));
        lemma_count_contains(s.last().tiled, w);
        lemma_count_contains(s.last().floating, w);
    }
}

proof fn lemma_mons_none(s: Seq<MonView>, w: Window)
    requires
        forall|m: int, k: int|
            0 <= m < s.len() && 0 <= k < s[m].workspaces.len() ==> !(
            #[trigger] s[m].workspaces[k]).holds(w),
    ensures
        mons_count(s, w) == 0,
    decreases s.len(),
{
    if s.len() > 0 {
        let front = s.drop_last();
        assert forall|m: int, k: int|
            0 <= m < front.len() && 0 <= k < front[m].workspaces.len() implies !(
        #[trigger] front[m].workspaces[k]).holds(w) by {
            assert(front[m] == s[m]);
        }
        lemma_mons_none(front, w);
        let last = s[s.len() - 1].workspaces;
        assert forall|k: int| 0 <= k < last.len() implies !(#[trigger] last[k]).holds(w) by {
            assert(!s[s.len() - 1].workspaces[k].holds(w));
        }
        lemma_spaces_none(last, w);
    }
}

/// A window is listed exactly when it is managed.
pub proof fn lemma_census_managed(v: WmView, w: Window)
    ensures
        v.is_managed(w) <==> census(v, w) > 0,
        v.find(w) is None ==> mons_count(v.monitors, w) == 0,
        v.find(w) matches Some((mi, wi)) ==> v.has(mi, wi) && ws_count(v.ws(mi, wi), w) > 0,
{
    lemma_mon_from(v.monitors, w, 0);
    lemma_count_contains(v.scratch, w);
    match v.find(w) {
        Some((mi, wi)) => {
            lemma_census_at(v, mi, wi, w);
            lemma_mons_count_at(v.monitors, mi, w);
            lemma_spaces_count_at(v.monitors[mi].workspaces, wi, w);
        },
        None => {
            lemma_mons_none(v.monitors, w);
        },
    }
}

// ---------------------------------------------------------------- validity

pub proof fn lemma_sight_same(a: Seq<Sight>, b: Seq<Sight>, w: Window, i: int)
    requires
        a.len() == b.len(),
        0 <= i,
        forall|k: int| 0 <= k < a.len() ==> (#[trigger] a[k]).window == b[k].window,
    ensures
        sight_from(a, w, i) == sight_from(b, w, i),
    decreases a.len() - i,
{
    if i < a.len() {
        assert(a[i].window == b[i].window);
        lemma_sight_same(a, b, w, i + 1);
    }
}

/// The same windows exist.
pub open spec fn as_valid(a: DeskView, b: DeskView) -> bool {
    &&& a.order == b.order
    &&& forall|w: Window| #[trigger] b.valid(w) == a.valid(w)
}

pub proof fn lemma_seen_as_valid(d: DeskView, x: Window, visible: bool)
    ensures
        as_valid(d, d.seen_as(x, visible)),
{
    let e = d.seen_as(x, visible);
    super::desktop::lemma_sight_from(d.seen, x, 0);
    assert forall|w: Window| #[trigger] e.valid(w) == d.valid(w) by {
        lemma_sight_same(d.seen, e.seen, w, 0);
        super::desktop::lemma_sight_from(d.seen, w, 0);
    }
}

/// Showing a window shows no other and hides none.
pub proof fn lemma_shown_other(d: DeskView, x: Window, w: Window)
    requires
        w != x,
    ensures
        d.shown(x).visible(w) == d.visible(w),
{
    let e = d.shown(x);
    super::desktop::lemma_sight_from(d.seen, x, 0);
    super::desktop::lemma_sight_from(d.seen, w, 0);
    lemma_sight_same(d.seen, e.seen, w, 0);
}

/// Showing, hiding and the like leave existence alone.
pub proof fn lemma_acts_valid(d: DeskView)
    ensures
        forall|x: Window| as_valid(d, #[trigger] d.concealed(x)),
        forall|x: Window| as_valid(d, #[trigger] d.shown(x)),
        forall|x: Window| as_valid(d, #[trigger] d.focused(x)),
        forall|a: Action| as_valid(d, #[trigger] d.act(a)),
        forall|a: Seq<Action>| as_valid(d, #[trigger] d.act_all(a)),
        as_valid(d, d.focus_shell()),
{
    assert forall|x: Window| as_valid(d, #[trigger] d.concealed(x)) by {
        lemma_seen_as_valid(d, x, false);
        let e = d.seen_as(x, false);
        lemma_seen_same(e, d.concealed(x));
    }
    assert forall|x: Window| as_valid(d, #[trigger] d.shown(x)) by {
        lemma_seen_as_valid(d, x, true);
        lemma_seen_same(d.seen_as(x, true), d.shown(x));
    }
    assert forall|x: Window| as_valid(d, #[trigger] d.focused(x)) by {
        lemma_seen_same(d, d.focused(x));
    }
    assert forall|a: Action| as_valid(d, #[trigger] d.act(a)) by {
        lemma_seen_same(d, d.act(a));
    }
    assert forall|a: Seq<Action>| as_valid(d, #[trigger] d.act_all(a)) by {
        lemma_seen_same(d, d.act_all(a));
    }
    lemma_seen_same(d, d.focus_shell());
}

proof fn lemma_seen_same(a: DeskView, b: DeskView)
    requires
        a.seen == b.seen,
        a.order == b.order,
    ensures
        as_valid(a, b),
{
    assert forall|w: Window| #[trigger] b.valid(w) == a.valid(w) by {}
}

// ------------------------------------------------------------------- steps

/// From `s` to `t` no window that exists was lost and none is listed twice.
pub open spec fn safe(s: World, t: World) -> bool {
    &&& t.wm.wf()
    &&& t.wm.monitors.len() == s.wm.monitors.len()
    &&& unique(t.wm)
    &&& as_valid(s.desk, t.desk)
    &&& forall|w: Window| s.desk.valid(w) ==> #[trigger] census(t.wm, w) >= census(s.wm, w)
}

/// From `s` to `t` no window that exists was lost and none is listed twice,
/// whatever became of the monitors.
pub open spec fn loses_none(s: World, t: World) -> bool {
    &&& t.wm.wf()
    &&& unique(t.wm)
    &&& as_valid(s.desk, t.desk)
    &&& forall|w: Window| s.desk.valid(w) ==> #[trigger] census(t.wm, w) >= census(s.wm, w)
}

pub proof fn lemma_loses_then(s: World, t: World, u: World)
    requires
        loses_none(s, t),
        loses_none(t, u),
    ensures
        loses_none(s, u),
{
    assert forall|w: Window| s.desk.valid(w) implies #[trigger] census(u.wm, w) >= census(s.wm, w) by {
        assert(t.desk.valid(w) == s.desk.valid(w));
        assert(census(t.wm, w) >= census(s.wm, w));
    }
    assert forall|w: Window| #[trigger] u.desk.valid(w) == s.desk.valid(w) by {
        assert(t.desk.valid(w) == s.desk.valid(w));
    }
}

/// From `s` to `t` every window is listed as often as before.
pub open spec fn same_census(s: World, t: World) -> bool {
    &&& t.wm.wf()
    &&& t.wm.monitors.len() == s.wm.monitors.len()
    &&& as_valid(s.desk, t.desk)
    &&& forall|w: Window| #[trigger] census(t.wm, w) == census(s.wm, w)
}

pub proof fn lemma_safe_then(s: World, t: World, u: World)
    requires
        safe(s, t),
        safe(t, u),
    ensures
        safe(s, u),
{
    assert forall|w: Window| s.desk.valid(w) implies #[trigger] census(u.wm, w) >= census(s.wm, w) by {
        assert(t.desk.valid(w) == s.desk.valid(w));
        assert(census(t.wm, w) >= census(s.wm, w));
    }
    assert forall|w: Window| #[trigger] u.desk.valid(w) == s.desk.valid(w) by {
        assert(t.desk.valid(w) == s.desk.valid(w));
    }
}

pub proof fn lemma_same_safe(s: World, t: World)
    requires
        unique(s.wm),
        same_census(s, t),
    ensures
        safe(s, t),
{
    assert forall|w: Window| #[trigger] census(t.wm, w) <= 1 by {
        assert(census(s.wm, w) <= 1);
    }
}

/// Nothing changes when neither the lists nor the monitors do.
pub proof fn lemma_lists_same(s: World, t: World)
    requires
        s.wm.wf(),
        t.wm.monitors == s.wm.monitors,
        t.wm.scratch == s.wm.scratch,
        t.wm.cfg.workspaces == s.wm.cfg.workspaces,
        as_valid(s.desk, t.desk),
    ensures
        same_census(s, t),
{
}

/// Changing one workspace so that it holds the same windows is safe.
pub proof fn lemma_same_ws(s: World, mi: int, wi: int, ws: WsView)
    requires
        s.wm.wf(),
        s.wm.has(mi, wi),
        forall|w: Window| #[trigger] ws_count(ws, w) == ws_count(s.wm.ws(mi, wi), w),
    ensures
        same_census(s, World { wm: s.wm.set_ws(mi, wi, ws), ..s }),
{
    let t = World { wm: s.wm.set_ws(mi, wi, ws), ..s };
    assert forall|w: Window| #[trigger] census(t.wm, w) == census(s.wm, w) by {
        lemma_census_set_ws(s.wm, mi, wi, ws, w);
        assert(ws_count(ws, w) == ws_count(s.wm.ws(mi, wi), w));
    }
    lemma_seen_same(s.desk, t.desk);
}

/// Laying out a monitor is safe: only windows that are gone are dropped.
pub proof fn lemma_retiled_safe(s: World, mi: int)
    requires
        s.wm.wf(),
        unique(s.wm),
        0 <= mi < s.wm.monitors.len(),
    ensures
        safe(s, s.retiled(mi)),
{
    lemma_retiled_keeps(s, mi);
    let t = s.retiled(mi);
    lemma_seen_same(s.desk, t.desk);
    if !s.wm.paused {
        let wi = s.wm.monitors[mi].active as int;
        let ws0 = s.wm.shown_ws(mi);
        let ws = ws0.settled(s.wm.cfg, s.desk);
        assert(t.wm == s.wm.set_ws(mi, wi, ws));
        assert forall|w: Window|
            census(t.wm, w) <= census(s.wm, w) && (s.desk.valid(w) ==> #[trigger] census(t.wm, w)
                == census(s.wm, w)) by {
            lemma_census_set_ws(s.wm, mi, wi, ws, w);
            lemma_count_living(ws0.tiled, s.desk, w);
            lemma_count_living(ws0.floating, s.desk, w);
        }
        assert forall|w: Window| #[trigger] census(t.wm, w) <= 1 by {
            assert(census(s.wm, w) <= 1);
        }
    }
}

pub proof fn lemma_retiled_all_safe(s: World, n: int)
    requires
        s.wm.wf(),
        unique(s.wm),
        n <= s.wm.monitors.len(),
    ensures
        safe(s, s.retiled_up_to(n)),
    decreases n,
{
    if n > 0 {
        lemma_retiled_all_safe(s, n - 1);
        let t = s.retiled_up_to(n - 1);
        lemma_retiled_safe(t, n - 1);
        lemma_safe_then(s, t, t.retiled(n - 1));
    } else {
        lemma_seen_same(s.desk, s.desk);
    }
}

} // verus!
