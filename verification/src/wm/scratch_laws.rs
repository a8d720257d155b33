//! What the commands of the scratchpad do.

use super::arrival_laws::{
    law_parked_window_is_hidden, law_pulled_window_comes_out, lemma_living_all,
    lemma_living_contains,
};
use super::census::{
    census, lemma_census_at, lemma_count_contains, lemma_mons_count_at, lemma_spaces_count_at,
    unique,
};
use super::command_laws::{lemma_around, lemma_first_place};
use super::desktop::Action;
use super::hiding::{disowned, lemma_hiding_keeps, owned_by};
use super::hiding_laws::{
    law_hiding_takes_companions, law_showing_brings_companions, lemma_shown_alike, lemma_shown_wm,
};
use super::laws::law_scratchpad_is_safe;
use super::records::{kept, rect_from};
use super::scratch::{cascaded, parked_size};
use super::state::{lemma_found, WmView, World};
use super::tiling::living;
use super::Command;
use crate::layout::Rect;
use crate::lists::{lemma_place, without};
use crate::monitor::MonitorInfo;
use crate::window::Window;
use vstd::prelude::*;

verus! {

// ---------------------------------------------------------------- placement

/// The first window of the scratchpad comes up in the middle of the work area,
/// and each next one forty pixels further right and down, of the same size.
pub proof fn law_windows_cascade(wa: Rect, w: i32, h: i32, i: int)
    requires
        0 <= i < 1000,
        -0x1_0000 < wa.x < 0x1_0000,
        -0x1_0000 < wa.y < 0x1_0000,
        0 <= w <= wa.w < 0x1_0000,
        0 <= h <= wa.h < 0x1_0000,
    ensures
        ({
            let first = cascaded(wa, (w as int, h as int), 0);
            let a = cascaded(wa, (w as int, h as int), i);
            let b = cascaded(wa, (w as int, h as int), i + 1);
            &&& 0 <= (2 * wa.x + wa.w) - (2 * first.x + first.w) <= 1
            &&& 0 <= (2 * wa.y + wa.h) - (2 * first.y + first.h) <= 1
            &&& first.w == w && first.h == h
            &&& b == (Rect { x: (a.x + 40) as i32, y: (a.y + 40) as i32, ..a })
        }),
{
}

/// A parked window has the size that was remembered, as far as the work area
/// reaches, or three fifths of the work area.
pub proof fn law_parked_window_keeps_its_size(
    rects: Seq<(Window, Rect)>,
    w: Window,
    wa: Rect,
)
    requires
        wa.w >= 0,
        wa.h >= 0,
    ensures
        match rect_from(rects, w, 0) {
            Some(r) => {
                let (pw, ph) = parked_size(rects, w, wa);
                &&& pw <= r.w && pw <= wa.w && (pw == r.w || pw == wa.w)
                &&& ph <= r.h && ph <= wa.h && (ph == r.h || ph == wa.h)
            },
            None => {
                let (pw, ph) = parked_size(rects, w, wa);
                &&& 0 <= 3 * wa.w - 5 * pw < 5
                &&& 0 <= 3 * wa.h - 5 * ph < 5
            },
        },
{
}

// ----------------------------------------------------------------- toggling

/// What every step of hiding and showing keeps.
spec fn kept_apart(s: World, t: World) -> bool {
    &&& t.wm.scratch == s.wm.scratch
    &&& t.wm.monitors == s.wm.monitors
    &&& t.wm.cfg == s.wm.cfg
}

proof fn lemma_tucked_away(s: World, list: Seq<Window>, x: Window)
    requires
        s.wm.is_managed(x),
    ensures
        ({
            let t = s.tucked_all(list);
            &&& kept_apart(s, t)
            &&& t.wm.is_managed(x)
            &&& s.wm.hidden.contains(x) ==> t.wm.hidden.contains(x)
            &&& list.contains(x) ==> !t.desk.visible(x)
            &&& list.contains(x) && s.desk.visible(x) ==> t.wm.hidden.contains(x)
            &&& !list.contains(x) ==> t.desk.visible(x) == s.desk.visible(x)
        }),
    decreases list.len(),
{
    if list.len() > 0 {
        let front = list.drop_last();
        let w = list.last();
        lemma_tucked_away(s, front, x);
        let a = s.tucked_all(front);
        lemma_last_contains(list, x);
        if a.desk.visible(w) {
            let b = World {
                wm: WmView { rects: kept(a.wm.rects, w, a.desk.frame_of(w)), ..a.wm },
                ..a
            }.act(Action::Topmost(w, false));
            lemma_hiding_keeps(b, w);
            law_hiding_takes_companions(b, w, x);
            assert(b.wm.is_managed(x));
            assert(b.desk.visible(x) == a.desk.visible(x));
        }
    }
}

proof fn lemma_last_contains(list: Seq<Window>, x: Window)
    requires
        list.len() > 0,
    ensures
        list.contains(x) <==> list.drop_last().contains(x) || list.last() == x,
{
    let front = list.drop_last();
    if list.contains(x) {
        let k = choose|k: int| 0 <= k < list.len() && list[k] == x;
        if k < front.len() {
            assert(front[k] == x);
        }
    }
    if front.contains(x) {
        let k = choose|k: int| 0 <= k < front.len() && front[k] == x;
        assert(list[k] == x);
    }
    if list.last() == x {
        assert(list[list.len() - 1] == x);
    }
}

/// Toggling a scratchpad that is shown tucks every window of it away: none is
/// on screen, and each that was is remembered as hidden on purpose.
pub proof fn law_scratchpad_is_tucked_away(s: World, fresh: Seq<MonitorInfo>, x: Window)
    requires
        !s.wm.paused,
        s.wm.scratch_shown,
        s.wm.scratch.contains(x),
        s.desk.valid(x),
    ensures
        ({
            let t = s.commanded(Command::ScratchToggle, fresh);
            &&& !t.wm.scratch_shown
            &&& t.wm.scratch.contains(x)
            &&& !t.desk.visible(x)
            &&& s.desk.visible(x) ==> t.wm.hidden.contains(x)
        }),
{
    let a = s.scratch_pruned();
    let list = a.wm.scratch;
    lemma_living_contains(s.wm.scratch, s.desk, x);
    assert(a.wm.in_scratch(x));
    lemma_tucked_away(a, list, x);
    let b = a.tucked_all(list).scratch_is(false).act(Action::Journal);
    let t = s.commanded(Command::ScratchToggle, fresh);
    assert(t.desk.seen == b.desk.seen);
    assert(t.desk.visible(x) == b.desk.visible(x));
}

proof fn lemma_summoned(s: World, list: Seq<Window>, wa: Rect, x: Window)
    ensures
        ({
            let t = s.summoned_all(list, wa);
            &&& kept_apart(s, t)
            &&& !s.wm.hidden.contains(x) || list.contains(x) ==> !t.wm.hidden.contains(x)
            &&& t.desk.facts(x) is Some == s.desk.facts(x) is Some
            &&& list.contains(x) && s.desk.facts(x) is Some ==> t.desk.visible(x)
            &&& s.desk.visible(x) ==> t.desk.visible(x)
            &&& list.contains(x) ==> t.desk.actions.contains(Action::Topmost(x, true))
            &&& forall|a: Action|
                s.desk.actions.contains(a) ==> #[trigger] t.desk.actions.contains(a)
        }),
    decreases list.len(),
{
    if list.len() > 0 {
        let front = list.drop_last();
        let w = list.last();
        lemma_summoned(s, front, wa, x);
        lemma_last_contains(list, x);
        let a = s.summoned_all(front, wa);
        let b = a.show_managed(w);
        lemma_hiding_keeps(a, w);
        law_showing_brings_companions(a, w, x, w);
        lemma_shown_alike(a, w, x);
        lemma_shown_actions(a, w);
        let t = s.summoned_all(list, wa);
        let n = b.desk.actions.len() as int;
        assert(t.desk.seen == b.desk.seen);
        assert(t.desk.facts(x) == b.desk.facts(x));
        assert(t.desk.actions[n] == Action::Topmost(w, true));
        assert forall|p: Action| b.desk.actions.contains(p) implies #[trigger] t.desk.actions.contains(
            p,
        ) by {
            let k = choose|k: int| 0 <= k < n && b.desk.actions[k] == p;
            assert(t.desk.actions[k] == p);
        }
        assert forall|p: Action| s.desk.actions.contains(p) implies #[trigger] t.desk.actions.contains(
            p,
        ) by {
            assert(a.desk.actions.contains(p));
            assert(b.desk.actions.contains(p));
        }
        if front.contains(x) {
            assert(a.desk.actions.contains(Action::Topmost(x, true)));
            assert(b.desk.actions.contains(Action::Topmost(x, true)));
        }
    }
}

proof fn lemma_shown_actions(s: World, w: Window)
    ensures
        forall|a: Action|
            s.desk.actions.contains(a) ==> #[trigger] s.show_managed(w).desk.actions.contains(a),
{
    let a = World {
        wm: WmView {
            hidden: without(s.wm.hidden, w),
            companions: disowned(s.wm.companions, w),
            ..s.wm
        },
        desk: s.desk.shown(w),
    };
    assert forall|p: Action| s.desk.actions.contains(p) implies #[trigger] a.desk.actions.contains(
        p,
    ) by {
        let k = choose|k: int| 0 <= k < s.desk.actions.len() && s.desk.actions[k] == p;
        assert(a.desk.actions[k] == p);
    }
    lemma_unstowed_actions(a, owned_by(s.wm.companions, w));
}

proof fn lemma_unstowed_actions(s: World, list: Seq<Window>)
    ensures
        forall|a: Action|
            s.desk.actions.contains(a) ==> #[trigger] s.unstowed_all(list).desk.actions.contains(a),
    decreases list.len(),
{
    if list.len() > 0 {
        lemma_unstowed_actions(s, list.drop_last());
        let a = s.unstowed_all(list.drop_last());
        let b = s.unstowed_all(list);
        assert forall|p: Action| s.desk.actions.contains(p) implies #[trigger] b.desk.actions.contains(
            p,
        ) by {
            assert(a.desk.actions.contains(p));
            let k = choose|k: int| 0 <= k < a.desk.actions.len() && a.desk.actions[k] == p;
            assert(b.desk.actions[k] == p);
        }
    }
}

/// Toggling a scratchpad that is not shown brings up every window of it that
/// exists, above all others, and focuses the one that was parked last.
pub proof fn law_scratchpad_is_summoned(s: World, fresh: Seq<MonitorInfo>, x: Window)
    requires
        !s.wm.paused,
        !s.wm.scratch_shown,
        s.wm.scratch.contains(x),
        s.desk.valid(x),
    ensures
        ({
            let t = s.commanded(Command::ScratchToggle, fresh);
            &&& t.wm.scratch_shown
            &&& t.wm.scratch.contains(x)
            &&& t.desk.visible(x)
            &&& !t.wm.hidden.contains(x)
            &&& t.desk.actions.contains(Action::Topmost(x, true))
            &&& x == s.wm.scratch.last() ==> t.desk.foreground == Some(x)
            &&& t.desk.foreground matches Some(f) && s.wm.scratch.contains(f) && s.desk.valid(f)
        }),
{
    let a = s.scratch_pruned();
    let list = a.wm.scratch;
    lemma_living_contains(s.wm.scratch, s.desk, x);
    assert(list.len() > 0) by {
        let k = choose|k: int| 0 <= k < list.len() && list[k] == x;
    }
    lemma_living_contains(s.wm.scratch, s.desk, list.last());
    assert(list.contains(list.last())) by {
        assert(list[list.len() - 1] == list.last());
    }
    let wa = a.wm.monitors[a.focused_monitor()].work_area;
    lemma_summoned(a, list, wa, x);
    let b = a.summoned_all(list, wa);
    let t = s.commanded(Command::ScratchToggle, fresh);
    assert(t.desk.seen == b.desk.seen);
    assert(t.desk.visible(x) == b.desk.visible(x));
    let g = Action::Topmost(x, true);
    let k = choose|k: int| 0 <= k < b.desk.actions.len() && b.desk.actions[k] == g;
    assert(t.desk.actions[k] == g);
}

/// A scratchpad without windows that exist is not shown.
pub proof fn law_empty_scratchpad_is_not_shown(s: World, fresh: Seq<MonitorInfo>)
    requires
        !s.wm.paused,
        forall|x: Window| s.wm.scratch.contains(x) ==> !s.desk.valid(x),
    ensures
        ({
            let t = s.commanded(Command::ScratchToggle, fresh);
            &&& !t.wm.scratch_shown
            &&& t.wm.scratch.len() == 0
            &&& t.wm.monitors == s.wm.monitors
            &&& t.desk == s.desk
        }),
{
    let list = living(s.wm.scratch, s.desk);
    if list.len() > 0 {
        lemma_living_contains(s.wm.scratch, s.desk, list[0]);
        assert(list.contains(list[0]));
    }
}

// ------------------------------------------------------------------ cycling

/// Cycling goes on to the next window of a shown scratchpad, around the end;
/// from outside it goes to the first.
pub proof fn law_scratchpad_is_cycled(s: World, fresh: Seq<MonitorInfo>, i: int)
    requires
        !s.wm.paused,
        s.wm.scratch_shown,
        ({
            let list = s.wm.scratch;
            &&& 0 <= i < list.len()
            &&& forall|k: int| 0 <= k < list.len() ==> s.desk.valid(#[trigger] list[k])
            &&& s.desk.foreground == Some(list[i])
            &&& forall|k: int| 0 <= k < i ==> #[trigger] list[k] != list[i]
        }),
    ensures
        ({
            let list = s.wm.scratch;
            let t = s.commanded(Command::ScratchCycle, fresh);
            &&& t.desk.foreground == Some(list[(i + 1) % (list.len() as int)])
            &&& t.wm.scratch == list
            &&& t.wm.scratch_shown
        }),
{
    let list = s.wm.scratch;
    lemma_living_all(list, s.desk);
    lemma_around(i, list.len() as int);
    lemma_first_place(list, list[i], 0, i);
    let w = list[(i + 1) % (list.len() as int)];
    let a = s.scratch_pruned();
    lemma_hiding_keeps(a, w);
    lemma_shown_wm(a, w);
}

/// From a window that is not parked, cycling goes to the first parked one.
pub proof fn law_cycling_starts_at_the_first(s: World, fresh: Seq<MonitorInfo>)
    requires
        !s.wm.paused,
        s.wm.scratch_shown,
        s.wm.scratch.len() > 0,
        forall|k: int| 0 <= k < s.wm.scratch.len() ==> s.desk.valid(#[trigger] s.wm.scratch[k]),
        s.focused_scratch() is None,
    ensures
        s.commanded(Command::ScratchCycle, fresh).desk.foreground == Some(s.wm.scratch[0]),
{
    let list = s.wm.scratch;
    lemma_living_all(list, s.desk);
    if let Some(f) = s.desk.foreground {
        lemma_place(list, f);
    }
}

/// Cycling a scratchpad that is not shown shows it.
pub proof fn law_cycling_summons(s: World, fresh: Seq<MonitorInfo>)
    requires
        !s.wm.scratch_shown,
        s.wm.scratch.len() > 0,
        forall|k: int| 0 <= k < s.wm.scratch.len() ==> s.desk.valid(#[trigger] s.wm.scratch[k]),
    ensures
        s.commanded(Command::ScratchCycle, fresh) == s.commanded(Command::ScratchToggle, fresh),
{
    let list = s.wm.scratch;
    lemma_living_all(list, s.desk);
    assert(s.scratch_pruned() == s);
}

// ------------------------------------------------------------------ sending

/// A focused window of a workspace that is sent is parked, hidden, and no
/// longer in its workspace.
pub proof fn law_window_is_parked(s: World, fresh: Seq<MonitorInfo>, w: Window, mi: int, wi: int)
    requires
        s.wm.wf(),
        unique(s.wm),
        !s.wm.paused,
        s.focused_window() == Some((w, mi, wi)),
        s.focused_scratch() is None,
    ensures
        ({
            let t = s.commanded(Command::ScratchSend, fresh);
            &&& t.wm.scratch.contains(w)
            &&& t.wm.hidden.contains(w)
            &&& t.wm.find(w) is None
        }),
{
    law_parked_window_is_hidden(s);
    law_scratchpad_is_safe(s);
    let t = s.commanded(Command::ScratchSend, fresh);
    assert(t == s.scratch_send());
    if let Some((m, i)) = t.wm.find(w) {
        lemma_found(t);
        lemma_census_at(t.wm, m, i, w);
        lemma_count_contains(t.wm.scratch, w);
        lemma_mons_count_at(t.wm.monitors, m, w);
        lemma_spaces_count_at(t.wm.monitors[m].workspaces, i, w);
        assert(census(t.wm, w) <= 1);
        assert(false);
    }
}

/// A focused parked window that is sent comes out, to the workspace that the
/// monitor of the cursor shows.
pub proof fn law_window_is_pulled_out(s: World, fresh: Seq<MonitorInfo>, w: Window)
    requires
        s.wm.wf(),
        !s.wm.paused,
        s.wm.monitors.len() > 0,
        s.focused_scratch() == Some(w),
        s.desk.valid(w),
        s.wm.find(w) is None,
    ensures
        ({
            let t = s.commanded(Command::ScratchSend, fresh);
            &&& !t.wm.scratch.contains(w)
            &&& !t.wm.hidden.contains(w)
            &&& t.wm.shown_ws(s.wm.index_of(s.desk.cursor_monitor)).holds(w)
            &&& t.desk.foreground == Some(w)
        }),
{
    law_pulled_window_comes_out(s);
}

} // verus!
