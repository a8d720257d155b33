//! What the events of the system lead to: which windows are taken in, where
//! they go, and when they are let go.

use super::arrival_laws::lemma_living_all;
use super::census::{census, lemma_census_managed, unique};
use super::command_laws::{all_exist, lemma_first_place};
use super::desktop::Action;
use super::hiding_laws::law_showing_brings_companions;
use super::laws::{law_manage_is_safe, law_unmanage_loses_no_other};
use super::shaping::under;
use super::spaces::lemma_switch_keeps;
use super::state::{lemma_found, World};
use super::WmEvent;
use crate::layout::{resized, slots, Rect};
use crate::lists::{lemma_place, lemma_without};
use crate::text::lowercase;
use crate::window::Window;
use vstd::prelude::*;

verus! {

// ---------------------------------------------------------------- taking in

/// A window that shows up, comes to the front, gets its title or comes back
/// from being minimized is managed from then on, if it can be; it is listed
/// once.
pub proof fn law_new_windows_are_managed(s: World, w: Window)
    requires
        s.wm.wf(),
        unique(s.wm),
        !s.wm.paused,
        s.wm.monitors.len() > 0,
        !s.wm.is_managed(w),
        s.desk.manages(w, s.wm.cfg.rules),
    ensures
        census(s.handled(WmEvent::Shown(w)).wm, w) == 1,
        census(s.handled(WmEvent::Restored(w)).wm, w) == 1,
        census(s.handled(WmEvent::Foreground(w)).wm, w) == 1,
        census(s.handled(WmEvent::Retitled(w)).wm, w) == 1,
{
    let a = s.not_hidden(w);
    assert(unique(a.wm)) by {
        assert forall|x: Window| #[trigger] census(a.wm, x) <= 1 by {
            assert(census(s.wm, x) <= 1);
        }
    }
    assert(a.wm.find(w) == s.wm.find(w));
    law_manage_is_safe(a, w, true);
    law_manage_is_safe(a, w, false);
    law_manage_is_safe(s, w, true);
    let b = s.manage(w, true);
    let t = s.handled(WmEvent::Foreground(w));
    assert(t.wm == b.wm);
}

/// A window that cannot be managed, or is managed already, is put nowhere.
pub proof fn law_other_windows_are_left_alone(s: World, w: Window)
    requires
        s.wm.paused || s.wm.is_managed(w) || !s.desk.manages(w, s.wm.cfg.rules),
    ensures
        s.handled(WmEvent::Shown(w)).wm.monitors == s.wm.monitors,
        s.handled(WmEvent::Restored(w)).wm.monitors == s.wm.monitors,
        s.handled(WmEvent::Foreground(w)).wm.monitors == s.wm.monitors,
        s.handled(WmEvent::Retitled(w)).wm.monitors == s.wm.monitors,
{
}

/// A window that is shown was not hidden on purpose, or is no longer.
pub proof fn law_shown_windows_are_not_hidden(s: World, w: Window, x: Window)
    requires
        s.wm.paused || s.wm.is_managed(w) || !s.desk.manages(w, s.wm.cfg.rules),
    ensures
        ({
            let t = s.handled(WmEvent::Shown(w)).wm.hidden;
            t.contains(x) <==> s.wm.hidden.contains(x) && x != w
        }),
        ({
            let t = s.handled(WmEvent::Restored(w)).wm.hidden;
            t.contains(x) <==> s.wm.hidden.contains(x) && x != w
        }),
{
    lemma_without(s.wm.hidden, w);
}

/// A new window without a rule goes to the workspace that its monitor shows: a
/// floating one behind the others that float, any other right behind the
/// focused window if that is tiled there, and else behind all.
pub proof fn law_new_window_has_its_place(s: World, w: Window, i: int)
    requires
        s.wm.wf(),
        s.wm.monitors.len() > 0,
        s.rule_for(w) is None,
        ({
            let mi = s.wm.index_of(s.desk.monitor_of(w));
            let tiled = s.wm.shown_ws(mi).tiled;
            match s.desk.foreground {
                Some(f) => if tiled.contains(f) {
                    0 <= i < tiled.len() && tiled[i] == f && forall|k: int|
                        0 <= k < i ==> #[trigger] tiled[k] != f
                } else {
                    i == tiled.len() - 1
                },
                None => i == tiled.len() - 1,
            }
        }),
    ensures
        ({
            let mi = s.wm.index_of(s.desk.monitor_of(w));
            let a = s.wm.shown_ws(mi);
            let b = s.housed(w, true).wm.shown_ws(mi);
            if s.desk.floating(w, s.wm.cfg.rules) {
                b.tiled == a.tiled && b.floating == a.floating.push(w)
            } else {
                &&& b.floating == a.floating
                &&& b.tiled.len() == a.tiled.len() + 1
                &&& b.tiled[i + 1] == w
                &&& forall|k: int| 0 <= k <= i ==> #[trigger] b.tiled[k] == a.tiled[k]
                &&& forall|k: int| i + 1 < k < b.tiled.len() ==> #[trigger] b.tiled[k]
                    == a.tiled[k - 1]
            }
        }),
{
    lemma_found(s);
    let mi = s.wm.index_of(s.desk.monitor_of(w));
    let tiled = s.wm.shown_ws(mi).tiled;
    if let Some(f) = s.desk.foreground {
        lemma_place(tiled, f);
        if tiled.contains(f) {
            lemma_first_place(tiled, f, 0, i);
        }
    }
}

/// The rule for a window is that of its app, or else that of its program.
pub proof fn law_app_rule_comes_first(s: World, w: Window)
    ensures
        ({
            let rules = s.wm.cfg.app_rules;
            let app = s.desk.rule_key_of(w);
            let exe = s.desk.exe_name_of(w);
            let of_app = match app {
                Some(k) => rules.contains_key(k),
                None => false,
            };
            let of_exe = match exe {
                Some(e) => rules.contains_key(lowercase(e)),
                None => false,
            };
            &&& of_app ==> s.rule_for(w) == Some(rules[app->0])
            &&& !of_app && of_exe ==> s.rule_for(w) == Some(rules[lowercase(exe->0)])
            &&& !of_app && !of_exe ==> s.rule_for(w) is None
        }),
{
}

/// A restored window goes where its monitor looks, whatever the rules say.
pub proof fn law_restored_window_stays_in_view(s: World, w: Window)
    requires
        s.wm.wf(),
        s.wm.monitors.len() > 0,
    ensures
        s.housed(w, false).wm.shown_ws(s.wm.index_of(s.desk.monitor_of(w))).holds(w),
{
    lemma_found(s);
    let mi = s.wm.index_of(s.desk.monitor_of(w));
    let ws = s.wm.shown_ws(mi);
    if let Some(f) = s.desk.foreground {
        lemma_place(ws.tiled, f);
    }
    let at = s.slot_for(mi, s.wm.monitors[mi].active as int);
    assert(ws.floating.push(w)[ws.floating.len() as int] == w);
    assert(ws.tiled.insert(at, w)[at] == w);
}

// --------------------------------------------------------------- letting go

/// A window that was destroyed or minimized is not managed any more, nor one
/// that was hidden, unless it was hidden on purpose.
pub proof fn law_gone_windows_are_let_go(s: World, w: Window)
    requires
        s.wm.wf(),
        unique(s.wm),
    ensures
        !s.handled(WmEvent::Destroyed(w)).wm.is_managed(w),
        !s.handled(WmEvent::MinimizeStart(w)).wm.is_managed(w),
        !s.wm.hidden.contains(w) ==> !s.handled(WmEvent::Hidden(w)).wm.is_managed(w),
        s.wm.hidden.contains(w) ==> s.handled(WmEvent::Hidden(w)) == s,
{
    law_unmanage_loses_no_other(s, w);
    lemma_census_managed(s.unmanage(w).wm, w);
    if !s.wm.is_managed(w) {
        assert(s.not_hidden(w).wm.find(w) == s.wm.find(w));
    }
}

// ----------------------------------------------------------------- dragging

/// A tiled window that was dragged to another size, by more than ten pixels in
/// width or height against its slot, changes the ratios as the layout says;
/// the windows keep their order.
pub proof fn law_drag_changes_ratios(
    s: World,
    w: Window,
    mi: int,
    wi: int,
    i: int,
    area: Rect,
    k: int,
)
    requires
        s.wm.wf(),
        !s.wm.paused,
        s.wm.find(w) == Some((mi, wi)),
        s.wm.monitors[mi].active == wi,
        !s.wm.ws(mi, wi).monocle,
        s.wm.ws(mi, wi).tiled.len() >= 2,
        s.wm.ws(mi, wi).ratios.len() >= s.wm.ws(mi, wi).tiled.len() - 1,
        0 <= i < s.wm.ws(mi, wi).tiled.len(),
        s.wm.ws(mi, wi).tiled[i] == w,
        forall|j: int| 0 <= j < i ==> #[trigger] s.wm.ws(mi, wi).tiled[j] != w,
        all_exist(s, mi, wi),
        inset(s.wm.monitors[mi].work_area, s.wm.cfg.outer_gap as int, area),
        ({
            let a = s.wm.ws(mi, wi);
            let slot = slots(area, a.tiled.len(), a.ratios, s.wm.cfg.inner_gap as int)[i];
            let frame = s.desk.frame_of(w);
            frame.w - slot.w > 10 || slot.w - frame.w > 10 || frame.h - slot.h > 10 || slot.h
                - frame.h > 10
        }),
        0 <= k < s.wm.ws(mi, wi).ratios.len(),
    ensures
        ({
            let a = s.wm.ws(mi, wi);
            let b = s.handled(WmEvent::MoveSizeEnd(w, None)).wm.ws(mi, wi);
            &&& b.tiled == a.tiled
            &&& b.ratios.len() > k
            &&& b.ratios[k] == resized(
                area,
                a.tiled.len(),
                a.ratios,
                s.wm.cfg.inner_gap as int,
                i,
                s.desk.frame_of(w),
            )[k]
        }),
{
    lemma_found(s);
    let a = s.wm.ws(mi, wi);
    let frame = s.desk.frame_of(w);
    let gap = s.wm.cfg.inner_gap as int;
    assert(area == s.wm.monitors[mi].work_area.shrunk(s.wm.cfg.outer_gap as int));
    lemma_first_place(a.tiled, w, 0, i);
    lemma_living_all(a.tiled, s.desk);
    assert(a.tiled.contains(a.tiled[i]));
    assert(a.split(s.wm.cfg) == a);
    assert(resized(area, a.tiled.len(), a.ratios, gap, i, frame).len() >= a.ratios.len());
}

/// `area` is `outer` less the gap on every side.
pub open spec fn inset(outer: Rect, gap: int, area: Rect) -> bool {
    &&& area.x == outer.x + gap
    &&& area.y == outer.y + gap
    &&& area.w == outer.w - 2 * gap >= 1
    &&& area.h == outer.h - 2 * gap >= 1
}

/// A tiled window that kept its size, up to ten pixels, and was dropped on no
/// other changes nothing: the windows keep their order and the splits their
/// ratios.
pub proof fn law_drag_elsewhere_changes_nothing(
    s: World,
    w: Window,
    mi: int,
    wi: int,
    i: int,
    area: Rect,
)
    requires
        s.wm.wf(),
        !s.wm.paused,
        s.wm.find(w) == Some((mi, wi)),
        s.wm.monitors[mi].active == wi,
        !s.wm.ws(mi, wi).monocle,
        s.wm.ws(mi, wi).tiled.len() >= 2,
        s.wm.ws(mi, wi).ratios.len() >= s.wm.ws(mi, wi).tiled.len() - 1,
        0 <= i < s.wm.ws(mi, wi).tiled.len(),
        s.wm.ws(mi, wi).tiled[i] == w,
        forall|j: int| 0 <= j < i ==> #[trigger] s.wm.ws(mi, wi).tiled[j] != w,
        all_exist(s, mi, wi),
        inset(s.wm.monitors[mi].work_area, s.wm.cfg.outer_gap as int, area),
        ({
            let a = s.wm.ws(mi, wi);
            let slot = slots(area, a.tiled.len(), a.ratios, s.wm.cfg.inner_gap as int)[i];
            let frame = s.desk.frame_of(w);
            -10 <= frame.w - slot.w <= 10 && -10 <= frame.h - slot.h <= 10
        }),
        forall|j: int|
            0 <= j < s.wm.ws(mi, wi).tiled.len() ==> #[trigger] s.wm.ws(mi, wi).tiled[j] == w
                || !under_cursor(s, s.wm.ws(mi, wi).tiled[j]),
    ensures
        ({
            let a = s.wm.ws(mi, wi);
            let b = s.handled(WmEvent::MoveSizeEnd(w, None)).wm.ws(mi, wi);
            b.tiled == a.tiled && b.ratios == a.ratios
        }),
{
    lemma_found(s);
    let a = s.wm.ws(mi, wi);
    assert(area == s.wm.monitors[mi].work_area.shrunk(s.wm.cfg.outer_gap as int));
    lemma_first_place(a.tiled, w, 0, i);
    lemma_living_all(a.tiled, s.desk);
    assert(a.tiled.contains(a.tiled[i]));
    assert(a.split(s.wm.cfg) == a);
    law_drop_finds_the_window_under_the_cursor(s, a.tiled, w);
    if let Some(j) = under(a.tiled, w, s.desk, 0) {
        assert(a.tiled[j] == w || !under_cursor(s, a.tiled[j]));
        assert(false);
    }
}

/// The cursor is on the window: its left and top edges belong to it, the right
/// and bottom ones do not.
pub open spec fn under_cursor(s: World, w: Window) -> bool {
    let r = s.desk.rect_of(w);
    &&& r.x <= s.desk.cursor_x < r.x + r.w
    &&& r.y <= s.desk.cursor_y < r.y + r.h
}

/// Of the windows that the cursor is on, the dragged one left out, the first
/// is the one that it is dropped on.
pub proof fn law_drop_finds_the_window_under_the_cursor(s: World, list: Seq<Window>, w: Window)
    ensures
        match under(list, w, s.desk, 0) {
            Some(k) => {
                &&& 0 <= k < list.len()
                &&& list[k] != w
                &&& under_cursor(s, list[k])
                &&& forall|j: int|
                    0 <= j < k ==> #[trigger] list[j] == w || !under_cursor(s, list[j])
            },
            None => forall|j: int|
                0 <= j < list.len() ==> #[trigger] list[j] == w || !under_cursor(s, list[j]),
        },
{
    lemma_under_from(s, list, w, 0);
}

proof fn lemma_under_from(s: World, list: Seq<Window>, w: Window, i: int)
    requires
        0 <= i,
    ensures
        match under(list, w, s.desk, i) {
            Some(k) => {
                &&& i <= k < list.len()
                &&& list[k] != w
                &&& under_cursor(s, list[k])
                &&& forall|j: int|
                    i <= j < k ==> #[trigger] list[j] == w || !under_cursor(s, list[j])
            },
            None => forall|j: int|
                i <= j < list.len() ==> #[trigger] list[j] == w || !under_cursor(s, list[j]),
        },
    decreases list.len() - i,
{
    if i < list.len() {
        lemma_under_from(s, list, w, i + 1);
    }
}

// --------------------------------------------------------------- activating

/// A window that is chosen is focused, on the workspace that it is in.
pub proof fn law_chosen_window_is_focused(s: World, w: Window, mi: int, wi: int)
    requires
        s.wm.wf(),
        !s.wm.paused,
        s.wm.find(w) == Some((mi, wi)),
    ensures
        ({
            let t = s.activate(w);
            &&& t.wm.monitors[mi].active == wi
            &&& t.desk.foreground == Some(w)
        }),
{
    lemma_found(s);
    lemma_switch_keeps(s, mi, wi);
}

/// A parked window that is chosen comes up above all others, focused.
pub proof fn law_chosen_parked_window_comes_up(s: World, w: Window)
    requires
        s.wm.find(w) is None,
        s.wm.in_scratch(w),
        s.desk.facts(w) is Some,
    ensures
        ({
            let t = s.activate(w);
            &&& t.desk.foreground == Some(w)
            &&& t.desk.visible(w)
            &&& !t.wm.hidden.contains(w)
            &&& t.wm.scratch_shown
            &&& t.desk.actions.contains(Action::Topmost(w, true))
        }),
{
    law_showing_brings_companions(s, w, w, w);
    let a = s.show_managed(w);
    let t = s.activate(w);
    assert(t.desk.seen == a.desk.seen);
    assert(t.desk.visible(w) == a.desk.visible(w));
    let n = a.desk.actions.len() as int;
    assert(t.desk.actions[n] == Action::Topmost(w, true));
}

} // verus!
