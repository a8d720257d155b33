//! What each command does, told by what it changes.

use super::arrival_laws::{
    law_moved_window_arrives, lemma_all_contains, lemma_living_all, lemma_retiled_stays,
};
use super::census::{
    census, lemma_census_at, lemma_census_set_ws, lemma_count_contains, safe, unique,
};
use super::desktop::{Action, DeskView};
use super::events::{plain_list, plain_monitors, plain_spaces};
use super::laws::law_move_is_safe;
use super::manage::lemma_adopted_keeps;
use super::spaces::lemma_switch_keeps;
use super::state::{empty_workspace, handle_from, lemma_found, MonView, WmView, World, WsView};
use super::tiling::{lemma_retiled_keeps, lemma_retiled_up_to_keeps, living};
use super::Command;
use crate::lists::{lemma_place, place_from};
use crate::monitor::MonitorInfo;
use crate::window::Window;
use vstd::prelude::*;

verus! {

// ------------------------------------------------------------------- places

/// A window that is listed at most once is found where it is listed.
pub proof fn law_window_is_found(v: WmView, w: Window, mi: int, wi: int)
    requires
        unique(v),
        v.has(mi, wi),
        v.ws(mi, wi).holds(w),
    ensures
        v.find(w) == Some((mi, wi)),
{
    let s = World { wm: v, desk: arbitrary() };
    lemma_found(s);
    lemma_census_at(v, mi, wi, w);
    super::census::lemma_census_managed(v, w);
    if v.find(w) is None {
        super::census::lemma_mons_count_at(v.monitors, mi, w);
        super::census::lemma_spaces_count_at(v.monitors[mi].workspaces, wi, w);
        assert(false);
    }
    let (a, b) = v.find(w)->0;
    if (a, b) != (mi, wi) {
        let e = empty_workspace();
        let u = v.set_ws(mi, wi, e);
        lemma_census_set_ws(v, mi, wi, e, w);
        lemma_count_contains(e.tiled, w);
        lemma_count_contains(e.floating, w);
        assert(census(v, w) <= 1);
        assert(u.ws(a, b) == v.ws(a, b));
        lemma_census_at(u, a, b, w);
        assert(false);
    }
}

proof fn lemma_first_handle(s: Seq<MonView>, handle: isize, i: int, m: int)
    requires
        0 <= i <= m < s.len(),
        s[m].handle == handle,
        forall|k: int| i <= k < m ==> (#[trigger] s[k]).handle != handle,
    ensures
        handle_from(s, handle, i) == Some(m),
    decreases m - i,
{
    if i < m {
        assert(s[i].handle != handle);
        lemma_first_handle(s, handle, i + 1, m);
    }
}

/// The focused monitor is that of the focused window, if that is managed, and
/// else that of the cursor.
pub proof fn law_focused_monitor(s: World, m: int)
    requires
        0 <= m < s.wm.monitors.len(),
        forall|k: int|
            0 <= k < m ==> (#[trigger] s.wm.monitors[k]).handle != s.wm.monitors[m].handle,
    ensures
        s.desk.foreground matches Some(f) && s.wm.is_managed(f) && s.desk.monitor_of(f)
            == s.wm.monitors[m].handle ==> s.focused_monitor() == m,
        (s.desk.foreground matches Some(f) ==> !s.wm.is_managed(f)) && s.desk.cursor_monitor
            == s.wm.monitors[m].handle ==> s.focused_monitor() == m,
{
    lemma_first_handle(s.wm.monitors, s.wm.monitors[m].handle, 0, m);
}

pub proof fn lemma_around(i: int, n: int)
    requires
        0 <= i < n,
    ensures
        (i + 1) % n == (if i + 1 == n {
            0
        } else {
            i + 1
        }),
        (i - 1) % n == (if i == 0 {
            n - 1
        } else {
            i - 1
        }),
{
    if i + 1 == n {
        vstd::arithmetic::div_mod::lemma_mod_self_0(n);
    } else {
        vstd::arithmetic::div_mod::lemma_small_mod((i + 1) as nat, n as nat);
    }
    if i == 0 {
        vstd::arithmetic::div_mod::lemma_mod_add_multiples_vanish(-1, n);
        vstd::arithmetic::div_mod::lemma_small_mod((n - 1) as nat, n as nat);
    } else {
        vstd::arithmetic::div_mod::lemma_small_mod((i - 1) as nat, n as nat);
    }
}

// --------------------------------------------------------------- workspaces

/// The next workspace is one on, the previous one back, both around the ends,
/// on the focused monitor. The other monitors stay as they are.
pub proof fn law_workspaces_are_cycled(s: World, fresh: Seq<MonitorInfo>)
    requires
        s.wm.wf(),
        !s.wm.paused,
        s.wm.monitors.len() > 0,
    ensures
        ({
            let m = s.focused_monitor();
            let n = s.wm.monitors[m].workspaces.len() as int;
            let next = s.commanded(Command::NextWorkspace, fresh).wm;
            let prev = s.commanded(Command::PrevWorkspace, fresh).wm;
            &&& next.monitors[m].active == (s.wm.monitors[m].active + 1) % n
            &&& prev.monitors[m].active == (s.wm.monitors[m].active - 1) % n
            &&& forall|i: int|
                0 <= i < s.wm.monitors.len() && i != m ==> #[trigger] next.monitors[i]
                    == s.wm.monitors[i]
            &&& forall|i: int|
                0 <= i < s.wm.monitors.len() && i != m ==> #[trigger] prev.monitors[i]
                    == s.wm.monitors[i]
        }),
{
    lemma_found(s);
    let m = s.focused_monitor();
    let a = s.wm.monitors[m].active as int;
    let n = s.wm.monitors[m].workspaces.len() as int;
    lemma_around(a, n);
    lemma_switch_keeps(s, m, (a + 1) % n);
    lemma_switch_keeps(s, m, (a - 1) % n);
}

/// Switching to a workspace by its number shows that one on the focused
/// monitor and leaves the other monitors as they are. A number that there is
/// not changes nothing.
pub proof fn law_workspace_is_switched(s: World, fresh: Seq<MonitorInfo>, target: usize)
    requires
        s.wm.wf(),
        !s.wm.paused,
        s.wm.monitors.len() > 0,
    ensures
        ({
            let m = s.focused_monitor();
            let t = s.commanded(Command::SwitchWorkspace(target), fresh);
            &&& target < s.wm.cfg.workspaces ==> t.wm.monitors[m].active == target
            &&& target >= s.wm.cfg.workspaces ==> t == s
            &&& forall|i: int|
                0 <= i < s.wm.monitors.len() && i != m ==> #[trigger] t.wm.monitors[i]
                    == s.wm.monitors[i]
        }),
{
    lemma_found(s);
    lemma_switch_keeps(s, s.focused_monitor(), target as int);
}

/// The focused window is in workspace `wi` of its monitor, and nowhere else.
pub open spec fn only_in(v: WmView, w: Window, mi: int, wi: int) -> bool {
    v.has(mi, wi) && v.ws(mi, wi).holds(w) && forall|a: int, b: int|
        v.has(a, b) && #[trigger] v.ws(a, b).holds(w) ==> a == mi && b == wi
}

proof fn lemma_only_in(v: WmView, w: Window, mi: int, wi: int)
    requires
        unique(v),
        v.has(mi, wi),
        v.ws(mi, wi).holds(w),
    ensures
        only_in(v, w, mi, wi),
{
    law_window_is_found(v, w, mi, wi);
    assert forall|a: int, b: int| v.has(a, b) && #[trigger] v.ws(a, b).holds(w) implies a == mi
        && b == wi by {
        law_window_is_found(v, w, a, b);
    }
}

/// The focused window goes to the workspace of that number, and leaves the one
/// that it was in.
pub proof fn law_window_is_moved(s: World, fresh: Seq<MonitorInfo>, target: usize)
    requires
        s.wm.wf(),
        unique(s.wm),
        !s.wm.paused,
        target < s.wm.cfg.workspaces,
    ensures
        s.focused_window() matches Some((w, mi, wi)) ==> (s.desk.valid(w) ==> only_in(
            s.commanded(Command::MoveToWorkspace(target), fresh).wm,
            w,
            mi,
            target as int,
        )),
{
    let t = s.commanded(Command::MoveToWorkspace(target), fresh);
    assert(t == s.move_to_workspace(target as int));
    lemma_moved(s, target as int);
}

proof fn lemma_moved(s: World, target: int)
    requires
        s.wm.wf(),
        unique(s.wm),
        0 <= target < s.wm.cfg.workspaces,
    ensures
        s.focused_window() matches Some((w, mi, wi)) ==> (s.desk.valid(w) ==> only_in(
            s.move_to_workspace(target).wm,
            w,
            mi,
            target,
        )),
{
    law_moved_window_arrives(s, target);
    law_move_is_safe(s, target);
    if let Some((w, mi, wi)) = s.focused_window() {
        lemma_found(s);
        let t = s.move_to_workspace(target);
        if s.desk.valid(w) {
            lemma_unmoved(s, t, w, mi, target);
        }
    }
}

proof fn lemma_unmoved(s: World, t: World, w: Window, mi: int, wi: int)
    requires
        safe(s, t),
        0 <= mi < s.wm.monitors.len(),
        t.wm.ws(mi, wi).holds(w),
        0 <= wi < t.wm.cfg.workspaces,
    ensures
        only_in(t.wm, w, mi, wi),
{
    assert(t.wm.monitors[mi].workspaces.len() == t.wm.cfg.workspaces);
    lemma_only_in(t.wm, w, mi, wi);
}

/// The focused window goes one workspace on, or one back, around the ends.
pub proof fn law_window_is_moved_on(s: World, fresh: Seq<MonitorInfo>)
    requires
        s.wm.wf(),
        unique(s.wm),
        !s.wm.paused,
    ensures
        s.focused_window() matches Some((w, mi, wi)) ==> (s.desk.valid(w) ==> {
            let n = s.wm.monitors[mi].workspaces.len() as int;
            &&& only_in(
                s.commanded(Command::MoveNextWorkspace, fresh).wm,
                w,
                mi,
                (wi + 1) % n,
            )
            &&& only_in(
                s.commanded(Command::MovePrevWorkspace, fresh).wm,
                w,
                mi,
                (wi - 1) % n,
            )
        }),
{
    lemma_found(s);
    if let Some((w, mi, wi)) = s.focused_window() {
        let n = s.wm.monitors[mi].workspaces.len() as int;
        lemma_around(wi, n);
        law_window_is_moved(s, fresh, ((wi + 1) % n) as usize);
        law_window_is_moved(s, fresh, ((wi - 1) % n) as usize);
    }
}

/// Without a focused window there is none to move.
pub proof fn law_no_window_is_moved(s: World, fresh: Seq<MonitorInfo>, target: usize)
    requires
        s.focused_window() is None,
    ensures
        s.commanded(Command::MoveToWorkspace(target), fresh) == s,
        s.commanded(Command::MoveNextWorkspace, fresh) == s,
        s.commanded(Command::MovePrevWorkspace, fresh) == s,
{
}

// -------------------------------------------------------------------- focus

/// Focus goes one window on, or one back, around the ends of the list of the
/// shown workspace: the tiled windows, then the floating ones. From a window
/// that is not in the list it goes on from the first.
pub proof fn law_focus_goes_round(s: World, fresh: Seq<MonitorInfo>, i: int)
    requires
        !s.wm.paused,
        ({
            let ws = s.wm.shown_ws(s.focused_monitor());
            let all = ws.tiled + ws.floating;
            &&& 0 <= i < all.len()
            &&& match s.desk.foreground {
                Some(f) => if all.contains(f) {
                    all[i] == f && forall|k: int| 0 <= k < i ==> #[trigger] all[k] != f
                } else {
                    i == 0
                },
                None => i == 0,
            }
        }),
    ensures
        ({
            let ws = s.wm.shown_ws(s.focused_monitor());
            let all = ws.tiled + ws.floating;
            let n = all.len() as int;
            let next = s.commanded(Command::FocusNext, fresh);
            let prev = s.commanded(Command::FocusPrev, fresh);
            &&& next.desk.foreground == Some(all[(i + 1) % n])
            &&& prev.desk.foreground == Some(all[(i - 1) % n])
            &&& next.wm == s.wm
            &&& prev.wm == s.wm
            &&& next.desk.actions.contains(Action::Focus(all[(i + 1) % n]))
            &&& prev.desk.actions.contains(Action::Focus(all[(i - 1) % n]))
        }),
{
    let all = s.wm.shown_ws(s.focused_monitor()).all();
    lemma_around(i, all.len() as int);
    if let Some(f) = s.desk.foreground {
        lemma_place(all, f);
        if all.contains(f) {
            lemma_first_place(all, f, 0, i);
        }
    }
    let n = s.desk.actions.len() as int;
    let next = s.commanded(Command::FocusNext, fresh);
    let prev = s.commanded(Command::FocusPrev, fresh);
    assert(next.desk.actions[n] == Action::Focus(all[(i + 1) % all.len() as int]));
    assert(prev.desk.actions[n] == Action::Focus(all[(i - 1) % all.len() as int]));
}

pub proof fn lemma_first_place(list: Seq<Window>, w: Window, from: int, i: int)
    requires
        0 <= from <= i < list.len(),
        list[i] == w,
        forall|k: int| from <= k < i ==> #[trigger] list[k] != w,
    ensures
        place_from(list, w, from) == Some(i),
    decreases i - from,
{
    if from < i {
        lemma_first_place(list, w, from + 1, i);
    }
}

// ------------------------------------------------------------------- tiling

/// All windows tiled there exist.
pub open spec fn all_exist(s: World, mi: int, wi: int) -> bool {
    forall|i: int|
        0 <= i < s.wm.ws(mi, wi).tiled.len() ==> s.desk.valid(#[trigger] s.wm.ws(mi, wi).tiled[i])
}

/// In `b` places `i` and `j` of `a` are exchanged, and nothing else changed.
pub open spec fn exchanged(a: Seq<Window>, b: Seq<Window>, i: int, j: int) -> bool {
    &&& b.len() == a.len()
    &&& b[i] == a[j]
    &&& b[j] == a[i]
    &&& forall|k: int| 0 <= k < a.len() && k != i && k != j ==> #[trigger] b[k] == a[k]
}

/// The focused tiled window changes places with the next tiled window, or with
/// the previous one, around the ends.
pub proof fn law_neighbors_change_places(
    s: World,
    fresh: Seq<MonitorInfo>,
    f: Window,
    mi: int,
    wi: int,
    i: int,
)
    requires
        !s.wm.paused,
        s.wm.wf(),
        s.focused_window() == Some((f, mi, wi)),
        all_exist(s, mi, wi),
        0 <= i < s.wm.ws(mi, wi).tiled.len(),
        s.wm.ws(mi, wi).tiled[i] == f,
        forall|k: int| 0 <= k < i ==> #[trigger] s.wm.ws(mi, wi).tiled[k] != f,
    ensures
        ({
            let a = s.wm.ws(mi, wi).tiled;
            let n = a.len() as int;
            &&& exchanged(
                a,
                s.commanded(Command::SwapNext, fresh).wm.ws(mi, wi).tiled,
                i,
                (i + 1) % n,
            )
            &&& exchanged(
                a,
                s.commanded(Command::SwapPrev, fresh).wm.ws(mi, wi).tiled,
                i,
                (i - 1) % n,
            )
        }),
{
    lemma_found(s);
    let a = s.wm.ws(mi, wi).tiled;
    let n = a.len() as int;
    lemma_around(i, n);
    lemma_first_place(a, f, 0, i);
    lemma_exchange(s, mi, wi, i, (i + 1) % n);
    lemma_exchange(s, mi, wi, i, (i - 1) % n);
}

proof fn lemma_exchange(s: World, mi: int, wi: int, i: int, j: int)
    requires
        s.wm.wf(),
        s.wm.has(mi, wi),
        all_exist(s, mi, wi),
        0 <= i < s.wm.ws(mi, wi).tiled.len(),
        0 <= j < s.wm.ws(mi, wi).tiled.len(),
    ensures
        exchanged(
            s.wm.ws(mi, wi).tiled,
            s.swap_tiled(mi, wi, i, j).wm.ws(mi, wi).tiled,
            i,
            j,
        ),
{
    let a = s.wm.ws(mi, wi).tiled;
    let b = crate::lists::swapped(a, i, j);
    assert forall|k: int| 0 <= k < b.len() implies s.desk.valid(#[trigger] b[k]) by {
        assert(s.desk.valid(a[k]));
        assert(s.desk.valid(a[i]));
        assert(s.desk.valid(a[j]));
    }
    lemma_living_all(b, s.desk);
}

/// A promoted window becomes the first one; those before it move one place
/// back, and those behind it stay.
pub proof fn law_promotion_moves_to_the_front(
    s: World,
    fresh: Seq<MonitorInfo>,
    f: Window,
    mi: int,
    wi: int,
    i: int,
)
    requires
        !s.wm.paused,
        s.wm.wf(),
        s.focused_window() == Some((f, mi, wi)),
        all_exist(s, mi, wi),
        0 <= i < s.wm.ws(mi, wi).tiled.len(),
        s.wm.ws(mi, wi).tiled[i] == f,
        forall|k: int| 0 <= k < i ==> #[trigger] s.wm.ws(mi, wi).tiled[k] != f,
    ensures
        ({
            let a = s.wm.ws(mi, wi).tiled;
            let b = s.commanded(Command::Promote, fresh).wm.ws(mi, wi).tiled;
            &&& b.len() == a.len()
            &&& b[0] == f
            &&& forall|k: int| 0 < k <= i ==> #[trigger] b[k] == a[k - 1]
            &&& forall|k: int| i < k < a.len() ==> #[trigger] b[k] == a[k]
        }),
{
    assert(s.commanded(Command::Promote, fresh) == s.promote());
    lemma_promoted(s, f, mi, wi, i);
}

#[verifier::spinoff_prover]
proof fn lemma_promoted(s: World, f: Window, mi: int, wi: int, i: int)
    requires
        s.wm.wf(),
        s.focused_window() == Some((f, mi, wi)),
        all_exist(s, mi, wi),
        0 <= i < s.wm.ws(mi, wi).tiled.len(),
        s.wm.ws(mi, wi).tiled[i] == f,
        forall|k: int| 0 <= k < i ==> #[trigger] s.wm.ws(mi, wi).tiled[k] != f,
    ensures
        s.promote().wm.ws(mi, wi).tiled == s.wm.ws(mi, wi).tiled.remove(i).insert(0, f),
{
    lemma_found(s);
    let a = s.wm.ws(mi, wi).tiled;
    lemma_first_place(a, f, 0, i);
    let b = a.remove(i).insert(0, f);
    assert forall|k: int| 0 <= k < b.len() implies s.desk.valid(#[trigger] b[k]) by {
        assert(s.desk.valid(a[i]));
        if 0 < k <= i {
            assert(s.desk.valid(a[k - 1]));
        } else if k > i {
            assert(s.desk.valid(a[k]));
        }
    }
    lemma_living_all(b, s.desk);
    let ws = WsView { tiled: b, ..s.wm.ws(mi, wi) };
    let t = World { wm: s.wm.set_ws(mi, wi, ws), ..s };
    assert(t.wm.ws(mi, wi) == ws);
    assert(s.promote() == t.retiled(mi));
    lemma_retiled_tiles(t, mi, wi);
}

/// Where all tiled windows exist, a retile keeps them.
proof fn lemma_retiled_tiles(s: World, mi: int, wi: int)
    requires
        s.wm.wf(),
        s.wm.has(mi, wi),
        living(s.wm.ws(mi, wi).tiled, s.desk) == s.wm.ws(mi, wi).tiled,
    ensures
        s.retiled(mi).wm.ws(mi, wi).tiled == s.wm.ws(mi, wi).tiled,
{
}

/// Only a focused tiled window is promoted or changes places with a neighbor.
pub proof fn law_only_tiled_windows_are_reordered(s: World, fresh: Seq<MonitorInfo>)
    requires
        s.focused_window() matches Some((f, mi, wi)) ==> !s.wm.ws(mi, wi).tiled.contains(f),
    ensures
        s.commanded(Command::Promote, fresh) == s,
        s.commanded(Command::SwapNext, fresh) == s,
        s.commanded(Command::SwapPrev, fresh) == s,
{
    if let Some((f, mi, wi)) = s.focused_window() {
        lemma_place(s.wm.ws(mi, wi).tiled, f);
    }
}

// ------------------------------------------------------------------- others

/// Closing asks the focused window to close, and does nothing else.
pub proof fn law_focused_window_is_closed(s: World, fresh: Seq<MonitorInfo>)
    requires
        !s.wm.paused,
    ensures
        ({
            let t = s.commanded(Command::CloseWindow, fresh);
            &&& t.wm == s.wm
            &&& t.desk == (DeskView { actions: t.desk.actions, ..s.desk })
            &&& s.focused_window() is None ==> t.desk.actions == s.desk.actions
            &&& s.focused_window() matches Some((w, _, _)) ==> t.desk.actions
                == s.desk.actions.push(Action::Close(w))
        }),
{
}

/// Pinning makes the workspace of the focused window the home of its app,
/// counted from one. Where it is that already, the rule goes. The rules for
/// other apps stay, and so do the windows.
pub proof fn law_app_is_pinned(
    s: World,
    fresh: Seq<MonitorInfo>,
    w: Window,
    mi: int,
    wi: int,
    key: Seq<char>,
    other: Seq<char>,
)
    requires
        s.wm.wf(),
        !s.wm.paused,
        s.focused_window() == Some((w, mi, wi)),
        s.desk.rule_key_of(w) == Some(key),
        other != key,
    ensures
        ({
            let a = s.wm.cfg.app_rules;
            let t = s.commanded(Command::PinApp, fresh);
            let b = t.wm.cfg.app_rules;
            let here = a.contains_key(key) && a[key] == wi + 1;
            &&& here ==> !b.contains_key(key)
            &&& !here ==> b.contains_key(key) && b[key] == wi + 1
            &&& b.contains_key(other) == a.contains_key(other)
            &&& a.contains_key(other) ==> b[other] == a[other]
            &&& t.wm.monitors == s.wm.monitors
            &&& t.desk == s.desk
        }),
{
    lemma_found(s);
}

/// Without a focused window that has an app there is nothing to pin.
pub proof fn law_nothing_is_pinned(s: World, fresh: Seq<MonitorInfo>)
    requires
        s.focused_window() matches Some((w, _, _)) ==> s.desk.rule_key_of(w) is None,
    ensures
        s.commanded(Command::PinApp, fresh) == s,
{
}

/// What only concerns the panels changes nothing here.
pub proof fn law_panels_change_nothing(s: World, fresh: Seq<MonitorInfo>, n: usize)
    ensures
        s.commanded(Command::Exit, fresh) == s,
        s.commanded(Command::ShowHelp, fresh) == s,
        s.commanded(Command::Launcher, fresh) == s,
        s.commanded(Command::Launch(n), fresh) == s,
        s.commanded(Command::Overview, fresh) == s,
        s.commanded(Command::WindowSwitcher, fresh) == s,
{
}

// ------------------------------------------------------------------ pausing

proof fn lemma_plain_spaces(mon: MonView, n: int, i: int, w: Window)
    requires
        0 <= i < n <= mon.workspaces.len(),
        mon.workspaces[i].holds(w),
    ensures
        plain_spaces(mon, n).contains(Action::Border(w, None)),
    decreases n,
{
    let a = plain_spaces(mon, n - 1);
    let list = mon.workspaces[n - 1].all();
    let b = plain_list(list);
    if i == n - 1 {
        lemma_all_contains(mon.workspaces[i], w);
        let k = choose|k: int| 0 <= k < list.len() && list[k] == w;
        assert((a + b)[a.len() + k] == Action::Border(w, None));
    } else {
        lemma_plain_spaces(mon, n - 1, i, w);
        let k = choose|k: int| 0 <= k < a.len() && a[k] == Action::Border(w, None);
        assert((a + b)[k] == Action::Border(w, None));
    }
}

proof fn lemma_plain_monitors(mons: Seq<MonView>, n: int, m: int, i: int, w: Window)
    requires
        0 <= m < n <= mons.len(),
        0 <= i < mons[m].workspaces.len(),
        mons[m].workspaces[i].holds(w),
    ensures
        plain_monitors(mons, n).contains(Action::Border(w, None)),
    decreases n,
{
    let a = plain_monitors(mons, n - 1);
    let b = plain_spaces(mons[n - 1], mons[n - 1].workspaces.len() as int);
    if m == n - 1 {
        lemma_plain_spaces(mons[m], mons[m].workspaces.len() as int, i, w);
        let k = choose|k: int| 0 <= k < b.len() && b[k] == Action::Border(w, None);
        assert((a + b)[a.len() + k] == Action::Border(w, None));
    } else {
        lemma_plain_monitors(mons, n - 1, m, i, w);
        let k = choose|k: int| 0 <= k < a.len() && a[k] == Action::Border(w, None);
        assert((a + b)[k] == Action::Border(w, None));
    }
}

/// A pause leaves all windows where they are, and takes the border off every
/// window in a workspace.
pub proof fn law_pause_begins(s: World, fresh: Seq<MonitorInfo>, m: int, i: int, w: Window)
    requires
        !s.wm.paused,
        s.wm.has(m, i),
        s.wm.ws(m, i).holds(w),
    ensures
        ({
            let t = s.commanded(Command::TogglePause, fresh);
            &&& t.wm == (WmView { paused: true, ..s.wm })
            &&& t.desk.actions.contains(Action::Border(w, None))
        }),
{
    let t = s.commanded(Command::TogglePause, fresh);
    let n = s.wm.monitors.len() as int;
    let b = plain_monitors(s.wm.monitors, n);
    lemma_plain_monitors(s.wm.monitors, n, m, i, w);
    let k = choose|k: int| 0 <= k < b.len() && b[k] == Action::Border(w, None);
    assert(t.desk.actions[s.desk.actions.len() + k] == Action::Border(w, None));
}

proof fn lemma_held_is_managed(v: WmView, w: Window, m: int, i: int)
    requires
        v.has(m, i),
        v.ws(m, i).holds(w),
    ensures
        v.is_managed(w),
{
    lemma_census_at(v, m, i, w);
    super::census::lemma_census_managed(v, w);
}

/// Every window that is looked at and can be managed is managed then.
pub proof fn law_scan_misses_none(s: World, list: Seq<Window>, w: Window)
    requires
        s.wm.wf(),
        s.wm.monitors.len() > 0,
    ensures
        s.wm.is_managed(w) || (list.contains(w) && s.desk.manages(w, s.wm.cfg.rules))
            ==> s.adopted_all(list).wm.is_managed(w),
    decreases list.len(),
{
    if list.len() > 0 {
        let front = list.drop_last();
        let x = list.last();
        law_scan_misses_none(s, front, w);
        lemma_adopted_keeps(s, front);
        let a = s.adopted_all(front);
        lemma_found(a);
        if list.contains(w) && w != x {
            let k = choose|k: int| 0 <= k < list.len() && list[k] == w;
            assert(front[k] == w);
        }
        if !a.wm.is_managed(x) && a.desk.manages(x, a.wm.cfg.rules) {
            let b = a.adopted(x);
            let mi = a.wm.index_of(a.desk.monitor_of(x));
            let wi = a.wm.monitors[mi].active as int;
            let ws = a.wm.shown_ws(mi);
            assert(b.wm.ws(mi, wi).holds(x)) by {
                assert(ws.floating.push(x)[ws.floating.len() as int] == x);
                assert(ws.tiled.push(x)[ws.tiled.len() as int] == x);
            }
            lemma_held_is_managed(b.wm, x, mi, wi);
            if a.wm.is_managed(w) && w != x {
                if let Some((m, i)) = a.wm.find(w) {
                    assert(b.wm.has(m, i));
                    assert(b.wm.ws(m, i).holds(w)) by {
                        if m == mi && i == wi {
                            lemma_push_keeps(ws.tiled, x, w);
                            lemma_push_keeps(ws.floating, x, w);
                        }
                    }
                    lemma_held_is_managed(b.wm, w, m, i);
                }
            }
        }
    }
}

proof fn lemma_push_keeps(s: Seq<Window>, x: Window, w: Window)
    ensures
        s.contains(w) ==> s.push(x).contains(w),
{
    if s.contains(w) {
        let i = choose|i: int| 0 <= i < s.len() && s[i] == w;
        assert(s.push(x)[i] == w);
    }
}

/// The end of a pause takes in every window on screen that can be managed, and
/// the pause is over.
pub proof fn law_pause_ends(s: World, fresh: Seq<MonitorInfo>, w: Window)
    requires
        s.wm.wf(),
        s.wm.paused,
        s.wm.monitors.len() > 0,
    ensures
        ({
            let t = s.commanded(Command::TogglePause, fresh);
            &&& !t.wm.paused
            &&& s.desk.order.contains(w) && s.desk.manages(w, s.wm.cfg.rules)
                ==> t.wm.is_managed(w)
        }),
{
    let a = World { wm: WmView { paused: false, ..s.wm }, ..s };
    let b = a.adopted_all(s.desk.order);
    lemma_adopted_keeps(a, s.desk.order);
    law_scan_misses_none(a, s.desk.order, w);
    let n = b.wm.monitors.len() as int;
    lemma_retiled_up_to_keeps(b, n);
    if s.desk.order.contains(w) && s.desk.manages(w, s.wm.cfg.rules) {
        assert(b.desk.valid(w));
        lemma_retiles_keep_managed(b, n, w);
    }
}

proof fn lemma_retiles_keep_managed(s: World, n: int, w: Window)
    requires
        s.wm.wf(),
        n <= s.wm.monitors.len(),
        s.wm.is_managed(w),
        s.desk.valid(w),
    ensures
        s.retiled_up_to(n).wm.is_managed(w),
        s.retiled_up_to(n).desk.valid(w),
    decreases n,
{
    if n > 0 {
        lemma_retiles_keep_managed(s, n - 1, w);
        lemma_retiled_up_to_keeps(s, n - 1);
        let a = s.retiled_up_to(n - 1);
        lemma_found(a);
        lemma_retiled_keeps(a, n - 1);
        lemma_retiled_stays(a, n - 1);
        let b = a.retiled(n - 1);
        assert(b.desk.valid(w) == a.desk.valid(w));
        if let Some((m, i)) = a.wm.find(w) {
            assert(b.wm.ws(m, i).holds(w));
            assert(b.wm.monitors[m].workspaces.len() == a.wm.monitors[m].workspaces.len());
            lemma_held_is_managed(b.wm, w, m, i);
        }
    }
}

} // verus!
