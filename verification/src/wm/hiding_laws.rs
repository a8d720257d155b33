//! What goes off screen with a window, and what comes back with it.

use super::census::lemma_sight_same;
use super::desktop::{lemma_sight_from, Action, DeskView};
use super::hiding::{disowned, lemma_hiding_keeps, owned_by};
use super::laws::{lemma_including_keeps, lemma_without_keeps};
use super::state::{MonView, WmView, World};
use crate::window::{Facts, Window};
use vstd::prelude::*;

verus! {

proof fn lemma_seen_facts(d: DeskView, c: Window, visible: bool, x: Window)
    ensures
        d.seen_as(c, visible).facts(x) == match d.facts(x) {
            Some(f) => Some(
                if x == c {
                    Facts { visible, ..f }
                } else {
                    f
                },
            ),
            None => None,
        },
        d.seen_as(c, visible).order == d.order,
{
    let e = d.seen_as(c, visible);
    lemma_sight_from(d.seen, c, 0);
    lemma_sight_from(d.seen, x, 0);
    lemma_sight_same(d.seen, e.seen, x, 0);
}

/// `b` knows of `x` what `a` does, but for whether it is on screen.
spec fn alike(a: DeskView, b: DeskView, x: Window) -> bool {
    match a.facts(x) {
        Some(f) => b.facts(x) matches Some(g) && g == (Facts { visible: g.visible, ..f }),
        None => b.facts(x) is None,
    }
}

proof fn lemma_swept(s: World, w: Window, thread: u32, i: int, x: Window)
    requires
        0 <= i,
    ensures
        ({
            let t = s.swept(w, thread, i);
            &&& t.wm == s.wm
            &&& t.desk.order == s.desk.order
            &&& alike(s.desk, t.desk, x)
            &&& t.desk.visible(x) == (s.desk.visible(x) && !(s.pops_up(w, thread, x)
                && exists|k: int| i <= k < s.desk.order.len() && s.desk.order[k] == x))
        }),
    decreases s.desk.order.len() - i,
{
    if i < s.desk.order.len() {
        let c = s.desk.order[i];
        if s.pops_up(w, thread, c) {
            let a = World { desk: s.desk.concealed(c), ..s };
            lemma_seen_facts(s.desk, c, false, x);
            lemma_seen_facts(s.desk, c, false, c);
            assert(a.desk.facts(x) == s.desk.seen_as(c, false).facts(x));
            lemma_swept(a, w, thread, i + 1, x);
            if x == c {
                assert(s.desk.order[i] == x);
            } else {
                assert(a.pops_up(w, thread, x) == s.pops_up(w, thread, x));
                if exists|k: int| i <= k < s.desk.order.len() && s.desk.order[k] == x {
                    let k = choose|k: int| i <= k < s.desk.order.len() && s.desk.order[k] == x;
                    assert(i + 1 <= k && a.desk.order[k] == x);
                }
            }
        } else {
            lemma_swept(s, w, thread, i + 1, x);
        }
    }
}

proof fn lemma_attendants(s: World, order: Seq<Window>, w: Window, x: Window)
    ensures
        s.attendants(order, w).contains(x) <==> order.contains(x) && s.attends(w, x),
    decreases order.len(),
{
    if order.len() > 0 {
        let front = order.drop_last();
        lemma_attendants(s, front, w, x);
        let a = s.attendants(front, w);
        let b = s.attendants(order, w);
        if order.contains(x) && s.attends(w, x) {
            let k = choose|k: int| 0 <= k < order.len() && order[k] == x;
            if k < front.len() {
                assert(front[k] == x);
                let j = choose|j: int| 0 <= j < a.len() && a[j] == x;
                assert(b[j] == x);
            } else {
                assert(b[b.len() - 1] == x);
            }
        }
        if b.contains(x) {
            let j = choose|j: int| 0 <= j < b.len() && b[j] == x;
            if j < a.len() {
                assert(a[j] == x);
                let k = choose|k: int| 0 <= k < front.len() && front[k] == x;
                assert(order[k] == x);
            } else {
                assert(order[order.len() - 1] == x);
            }
        }
    }
}

proof fn lemma_stowed(s: World, list: Seq<Window>, x: Window)
    ensures
        ({
            let t = s.stowed_all(list);
            &&& t.wm.companions == s.wm.companions
            &&& t.desk.visible(x) == (s.desk.visible(x) && !list.contains(x))
            &&& t.wm.hidden.contains(x) <==> s.wm.hidden.contains(x) || list.contains(x)
        }),
    decreases list.len(),
{
    if list.len() > 0 {
        let front = list.drop_last();
        let c = list.last();
        lemma_stowed(s, front, x);
        let a = s.stowed_all(front);
        lemma_including_keeps(a.wm.hidden, c, x);
        lemma_seen_facts(a.desk, c, false, x);
        assert(a.desk.concealed(c).facts(x) == a.desk.seen_as(c, false).facts(x));
        assert(list.contains(x) <==> front.contains(x) || x == c) by {
            if list.contains(x) {
                let k = choose|k: int| 0 <= k < list.len() && list[k] == x;
                if k < front.len() {
                    assert(front[k] == x);
                }
            }
            if front.contains(x) {
                let k = choose|k: int| 0 <= k < front.len() && front[k] == x;
                assert(list[k] == x);
            }
            if x == c {
                assert(list[list.len() - 1] == x);
            }
        }
    }
}

/// A window on screen, not managed itself, that is a dialog or the like of
/// window `w`.
pub open spec fn companion_of(s: World, w: Window, x: Window) -> bool {
    &&& x != w
    &&& s.desk.order.contains(x)
    &&& s.desk.visible(x)
    &&& !s.wm.is_managed(x)
    &&& !s.desk.transient(x)
    &&& s.desk.root_owner_of(x) == w
}

/// A menu or the like that `w`, or the thread of `w`, has open.
pub open spec fn popup_of(s: World, w: Window, x: Window) -> bool {
    &&& x != w
    &&& s.desk.order.contains(x)
    &&& s.desk.visible(x)
    &&& !s.wm.is_managed(x)
    &&& s.desk.transient(x)
    &&& s.desk.root_owner_of(x) == w || (s.desk.thread_of(w) != 0 && s.desk.thread_of(x)
        == s.desk.thread_of(w))
}

/// Exactly the window itself, its companions and its menus go off screen. The
/// window and its companions are remembered as hidden on purpose, the
/// companions as belonging to it; the menus are not.
pub proof fn law_hiding_takes_companions(s: World, w: Window, x: Window)
    ensures
        ({
            let t = s.hide_managed(w);
            &&& t.desk.visible(x) == (s.desk.visible(x) && x != w && !companion_of(s, w, x)
                && !popup_of(s, w, x))
            &&& t.wm.hidden.contains(x) <==> s.wm.hidden.contains(x) || x == w || companion_of(
                s,
                w,
                x,
            )
            &&& companion_of(s, w, x) ==> t.wm.companions.contains((w, x))
        }),
{
    let a = World { desk: s.desk.act(Action::CancelModes(w)), ..s };
    assert(a.desk.facts(x) == s.desk.facts(x));
    assert(a.desk.facts(w) == s.desk.facts(w));
    let thread = a.desk.thread_of(w);
    let cs = a.attendants(a.desk.order, w);
    lemma_attendants(a, a.desk.order, w, x);
    lemma_swept(a, w, thread, 0, x);
    let b = a.swept(w, thread, 0);
    lemma_stowed(b, cs, x);
    let c = b.stowed_all(cs);
    let d = c.remembering(w, cs);
    lemma_including_keeps(d.wm.hidden, w, x);
    lemma_seen_facts(d.desk, w, false, x);
    assert(d.desk.concealed(w).facts(x) == d.desk.seen_as(w, false).facts(x));
    if companion_of(s, w, x) {
        let list = cs.map_values(|c: Window| (w, c));
        let k = choose|k: int| 0 <= k < cs.len() && cs[k] == x;
        let old_pairs = disowned(c.wm.companions, w);
        assert(list[k] == (w, x));
        assert((old_pairs + list)[old_pairs.len() + k] == (w, x));
    }
}

proof fn lemma_unstowed(s: World, list: Seq<Window>, x: Window)
    ensures
        ({
            let t = s.unstowed_all(list);
            &&& alike(s.desk, t.desk, x)
            &&& t.desk.visible(x) == (s.desk.visible(x) || (list.contains(x) && s.desk.valid(x)))
            &&& t.wm.hidden.contains(x) <==> s.wm.hidden.contains(x) && !list.contains(x)
            &&& t.wm.companions == s.wm.companions
        }),
    decreases list.len(),
{
    if list.len() > 0 {
        let front = list.drop_last();
        let c = list.last();
        lemma_unstowed(s, front, x);
        let a = s.unstowed_all(front);
        lemma_without_keeps(a.wm.hidden, c, x);
        lemma_seen_facts(a.desk, c, true, x);
        assert(a.desk.shown(c).facts(x) == a.desk.seen_as(c, true).facts(x));
        assert(list.contains(x) <==> front.contains(x) || x == c) by {
            if list.contains(x) {
                let k = choose|k: int| 0 <= k < list.len() && list[k] == x;
                if k < front.len() {
                    assert(front[k] == x);
                }
            }
            if front.contains(x) {
                let k = choose|k: int| 0 <= k < front.len() && front[k] == x;
                assert(list[k] == x);
            }
            if x == c {
                assert(list[list.len() - 1] == x);
            }
        }
    }
}

proof fn lemma_owned(pairs: Seq<(Window, Window)>, w: Window, x: Window, o: Window)
    ensures
        owned_by(pairs, w).contains(x) <==> pairs.contains((w, x)),
        disowned(pairs, w).contains((o, x)) <==> pairs.contains((o, x)) && o != w,
    decreases pairs.len(),
{
    if pairs.len() > 0 {
        let front = pairs.drop_last();
        let last = pairs.last();
        lemma_owned(front, w, x, o);
        assert(forall|p: (Window, Window)|
            #![trigger pairs.contains(p)]
            pairs.contains(p) <==> front.contains(p) || p == last) by {
            assert(pairs =~= front.push(last));
            assert forall|p: (Window, Window)|
                #![trigger pairs.contains(p)]
                pairs.contains(p) <==> front.contains(p) || p == last by {
                lemma_pushed_pair(front, last, p);
            }
        }
        let own = owned_by(front, w);
        lemma_pushed_window(own, last.1, x);
        lemma_pushed_pair(disowned(front, w), last, (o, x));
    }
}

proof fn lemma_pushed_pair(s: Seq<(Window, Window)>, p: (Window, Window), q: (Window, Window))
    ensures
        s.push(p).contains(q) <==> s.contains(q) || q == p,
{
    assert(s.push(p)[s.len() as int] == p);
    if s.contains(q) {
        let i = choose|i: int| 0 <= i < s.len() && s[i] == q;
        assert(s.push(p)[i] == q);
    }
    if s.push(p).contains(q) && q != p {
        let i = choose|i: int| 0 <= i < s.push(p).len() && s.push(p)[i] == q;
        assert(s[i] == q);
    }
}

proof fn lemma_pushed_window(s: Seq<Window>, p: Window, q: Window)
    ensures
        s.push(p).contains(q) <==> s.contains(q) || q == p,
{
    assert(s.push(p)[s.len() as int] == p);
    if s.contains(q) {
        let i = choose|i: int| 0 <= i < s.len() && s[i] == q;
        assert(s.push(p)[i] == q);
    }
    if s.push(p).contains(q) && q != p {
        let i = choose|i: int| 0 <= i < s.push(p).len() && s.push(p)[i] == q;
        assert(s[i] == q);
    }
}

/// A window that is shown again comes on screen, with those companions of it
/// that still exist. None of them is remembered as hidden any more, and none
/// as belonging to it; what belongs to another window stays with it.
pub proof fn law_showing_brings_companions(s: World, w: Window, x: Window, o: Window)
    ensures
        ({
            let t = s.show_managed(w);
            let mate = s.wm.companions.contains((w, x));
            &&& s.desk.facts(w) is Some ==> t.desk.visible(w)
            &&& x != w ==> t.desk.visible(x) == (s.desk.visible(x) || (mate && s.desk.valid(x)))
            &&& t.wm.hidden.contains(x) <==> s.wm.hidden.contains(x) && x != w && !mate
            &&& t.wm.companions.contains((o, x)) <==> s.wm.companions.contains((o, x)) && o != w
        }),
{
    let list = owned_by(s.wm.companions, w);
    let a = World {
        wm: WmView {
            hidden: crate::lists::without(s.wm.hidden, w),
            companions: disowned(s.wm.companions, w),
            ..s.wm
        },
        desk: s.desk.shown(w),
    };
    lemma_owned(s.wm.companions, w, x, o);
    lemma_without_keeps(s.wm.hidden, w, x);
    lemma_seen_facts(s.desk, w, true, x);
    lemma_seen_facts(s.desk, w, true, w);
    assert(a.desk.facts(x) == s.desk.seen_as(w, true).facts(x));
    assert(a.desk.facts(w) == s.desk.seen_as(w, true).facts(w));
    lemma_unstowed(a, list, x);
    lemma_unstowed(a, list, w);
}

/// A window that is hidden and shown again is on screen again, and so are its
/// companions.
pub proof fn law_showing_undoes_hiding(s: World, w: Window, x: Window)
    requires
        s.desk.facts(w) is Some,
        s.desk.valid(x),
        x == w || companion_of(s, w, x),
    ensures
        s.hide_managed(w).show_managed(w).desk.visible(x),
        !s.hide_managed(w).show_managed(w).wm.hidden.contains(x),
{
    law_hiding_takes_companions(s, w, x);
    law_hiding_takes_companions(s, w, w);
    let h = s.hide_managed(w);
    lemma_hidden_alike(s, w, x);
    lemma_hidden_alike(s, w, w);
    law_showing_brings_companions(h, w, x, w);
}

proof fn lemma_hidden_alike(s: World, w: Window, x: Window)
    ensures
        alike(s.desk, s.hide_managed(w).desk, x),
{
    let a = World { desk: s.desk.act(Action::CancelModes(w)), ..s };
    assert(a.desk.facts(x) == s.desk.facts(x));
    let thread = a.desk.thread_of(w);
    let cs = a.attendants(a.desk.order, w);
    lemma_swept(a, w, thread, 0, x);
    let b = a.swept(w, thread, 0);
    lemma_stowed_alike(b, cs, x);
    let d = b.stowed_all(cs).remembering(w, cs);
    lemma_seen_facts(d.desk, w, false, x);
    assert(d.desk.concealed(w).facts(x) == d.desk.seen_as(w, false).facts(x));
}

pub proof fn lemma_shown_alike(s: World, w: Window, x: Window)
    ensures
        s.show_managed(w).desk.facts(x) is Some == s.desk.facts(x) is Some,
{
    let a = World {
        wm: WmView {
            hidden: crate::lists::without(s.wm.hidden, w),
            companions: disowned(s.wm.companions, w),
            ..s.wm
        },
        desk: s.desk.shown(w),
    };
    lemma_seen_facts(s.desk, w, true, x);
    assert(a.desk.facts(x) == s.desk.seen_as(w, true).facts(x));
    lemma_unstowed(a, owned_by(s.wm.companions, w), x);
}

pub proof fn lemma_shown_wm(s: World, w: Window)
    ensures
        s.show_managed(w).wm.scratch_shown == s.wm.scratch_shown,
        s.show_managed(w).wm.scratch == s.wm.scratch,
{
    let a = World {
        wm: WmView {
            hidden: crate::lists::without(s.wm.hidden, w),
            companions: disowned(s.wm.companions, w),
            ..s.wm
        },
        desk: s.desk.shown(w),
    };
    lemma_unstowed_wm(a, owned_by(s.wm.companions, w));
}

proof fn lemma_unstowed_wm(s: World, list: Seq<Window>)
    ensures
        s.unstowed_all(list).wm.scratch_shown == s.wm.scratch_shown,
        s.unstowed_all(list).wm.scratch == s.wm.scratch,
    decreases list.len(),
{
    if list.len() > 0 {
        lemma_unstowed_wm(s, list.drop_last());
    }
}

proof fn lemma_stowed_alike(s: World, list: Seq<Window>, x: Window)
    ensures
        alike(s.desk, s.stowed_all(list).desk, x),
    decreases list.len(),
{
    if list.len() > 0 {
        let a = s.stowed_all(list.drop_last());
        lemma_stowed_alike(s, list.drop_last(), x);
        lemma_seen_facts(a.desk, list.last(), false, x);
        assert(a.desk.concealed(list.last()).facts(x) == a.desk.seen_as(
            list.last(),
            false,
        ).facts(x));
    }
}

// -------------------------------------------------------------- workspaces

/// `w` is managed, and remembered as hidden for its own sake alone.
pub open spec fn on_its_own(s: World, w: Window) -> bool {
    s.wm.is_managed(w) && forall|o: Window| !#[trigger] s.wm.companions.contains((o, w))
}

/// Nothing has become of `w`.
spec fn as_before(s: World, t: World, w: Window) -> bool {
    &&& on_its_own(t, w)
    &&& alike(s.desk, t.desk, w)
    &&& t.desk.visible(w) == s.desk.visible(w)
    &&& t.wm.hidden.contains(w) <==> s.wm.hidden.contains(w)
}

/// `w` was shown, or hidden, as its workspace is.
pub open spec fn follows(s: World, t: World, w: Window, shown: bool) -> bool {
    if shown {
        &&& !t.wm.hidden.contains(w)
        &&& t.desk.visible(w) == (s.desk.visible(w) || s.wm.hidden.contains(w))
    } else {
        &&& !t.desk.visible(w)
        &&& t.wm.hidden.contains(w) == (s.desk.visible(w) || s.wm.hidden.contains(w))
    }
}

proof fn lemma_hidden_pairs(s: World, v: Window, o: Window, x: Window)
    ensures
        s.hide_managed(v).wm.companions.contains((o, x)) ==> s.wm.companions.contains((o, x))
            || companion_of(s, v, x),
{
    let a = World { desk: s.desk.act(Action::CancelModes(v)), ..s };
    assert(a.desk.facts(x) == s.desk.facts(x));
    let thread = a.desk.thread_of(v);
    let cs = a.attendants(a.desk.order, v);
    lemma_attendants(a, a.desk.order, v, x);
    lemma_swept(a, v, thread, 0, x);
    let b = a.swept(v, thread, 0);
    lemma_stowed(b, cs, x);
    let c = b.stowed_all(cs);
    lemma_owned(c.wm.companions, v, x, o);
    let kept = disowned(c.wm.companions, v);
    let list = cs.map_values(|c: Window| (v, c));
    if cs.len() > 0 && (kept + list).contains((o, x)) {
        let k = choose|k: int| 0 <= k < (kept + list).len() && (kept + list)[k] == (o, x);
        if k < kept.len() {
            assert(kept[k] == (o, x));
        } else {
            assert(list[k - kept.len()] == (v, cs[k - kept.len()]));
        }
    }
}

proof fn lemma_hidden_apart(s: World, v: Window, w: Window)
    requires
        on_its_own(s, w),
    ensures
        on_its_own(s.hide_managed(v), w),
        alike(s.desk, s.hide_managed(v).desk, w),
        v != w ==> as_before(s, s.hide_managed(v), w),
{
    let t = s.hide_managed(v);
    lemma_hiding_keeps(s, v);
    law_hiding_takes_companions(s, v, w);
    lemma_hidden_alike(s, v, w);
    assert forall|o: Window| !#[trigger] t.wm.companions.contains((o, w)) by {
        lemma_hidden_pairs(s, v, o, w);
        assert(!s.wm.companions.contains((o, w)));
    }
}

proof fn lemma_shown_apart(s: World, v: Window, w: Window)
    requires
        on_its_own(s, w),
    ensures
        on_its_own(s.show_managed(v), w),
        alike(s.desk, s.show_managed(v).desk, w),
        v != w ==> as_before(s, s.show_managed(v), w),
{
    let t = s.show_managed(v);
    lemma_hiding_keeps(s, v);
    law_showing_brings_companions(s, v, w, v);
    assert(!s.wm.companions.contains((v, w)));
    assert forall|o: Window| !#[trigger] t.wm.companions.contains((o, w)) by {
        law_showing_brings_companions(s, v, w, o);
        assert(!s.wm.companions.contains((o, w)));
    }
    let a = World {
        wm: WmView {
            hidden: crate::lists::without(s.wm.hidden, v),
            companions: disowned(s.wm.companions, v),
            ..s.wm
        },
        desk: s.desk.shown(v),
    };
    lemma_seen_facts(s.desk, v, true, w);
    assert(a.desk.facts(w) == s.desk.seen_as(v, true).facts(w));
    lemma_unstowed(a, owned_by(s.wm.companions, v), w);
}

proof fn lemma_synced_one(s: World, v: Window, shown: bool, w: Window)
    requires
        on_its_own(s, w),
    ensures
        ({
            let t = s.synced(v, shown);
            &&& on_its_own(t, w)
            &&& alike(s.desk, t.desk, w)
            &&& v != w ==> as_before(s, t, w)
            &&& v == w && s.desk.valid(w) ==> follows(s, t, w, shown)
        }),
{
    lemma_hidden_apart(s, v, w);
    lemma_shown_apart(s, v, w);
    law_hiding_takes_companions(s, v, w);
    law_showing_brings_companions(s, v, w, w);
}

proof fn lemma_synced_listed(s: World, list: Seq<Window>, shown: bool, w: Window)
    requires
        on_its_own(s, w),
        s.desk.valid(w),
    ensures
        ({
            let t = s.synced_list(list, shown);
            &&& on_its_own(t, w)
            &&& alike(s.desk, t.desk, w)
            &&& !list.contains(w) ==> as_before(s, t, w)
            &&& list.contains(w) ==> follows(s, t, w, shown)
        }),
    decreases list.len(),
{
    if list.len() > 0 {
        let front = list.drop_last();
        lemma_synced_listed(s, front, shown, w);
        let a = s.synced_list(front, shown);
        lemma_synced_one(a, list.last(), shown, w);
        assert(list.contains(w) <==> front.contains(w) || list.last() == w) by {
            if list.contains(w) {
                let k = choose|k: int| 0 <= k < list.len() && list[k] == w;
                if k < front.len() {
                    assert(front[k] == w);
                }
            }
            if front.contains(w) {
                let k = choose|k: int| 0 <= k < front.len() && front[k] == w;
                assert(list[k] == w);
            }
            if list.last() == w {
                assert(list[list.len() - 1] == w);
            }
        }
    }
}

proof fn lemma_synced_in_spaces(s: World, mon: MonView, n: int, w: Window, i: int)
    requires
        on_its_own(s, w),
        s.desk.valid(w),
        n <= mon.workspaces.len(),
        forall|j: int|
            0 <= j < n && j != i ==> !(#[trigger] mon.workspaces[j]).all().contains(w),
        0 <= i < n ==> mon.workspaces[i].all().contains(w),
    ensures
        ({
            let t = s.synced_spaces(mon, n);
            &&& on_its_own(t, w)
            &&& alike(s.desk, t.desk, w)
            &&& !(0 <= i < n) ==> as_before(s, t, w)
            &&& 0 <= i < n ==> follows(s, t, w, i == mon.active)
        }),
    decreases n,
{
    if n > 0 {
        lemma_synced_in_spaces(s, mon, n - 1, w, i);
        let a = s.synced_spaces(mon, n - 1);
        lemma_synced_listed(a, mon.workspaces[n - 1].all(), n - 1 == mon.active, w);
        if i != n - 1 {
            assert(!mon.workspaces[n - 1].all().contains(w));
        }
    }
}

proof fn lemma_synced_in_monitors(
    s: World,
    mons: Seq<MonView>,
    n: int,
    w: Window,
    m: int,
    i: int,
)
    requires
        on_its_own(s, w),
        s.desk.valid(w),
        n <= mons.len(),
        0 <= m < mons.len(),
        0 <= i < mons[m].workspaces.len(),
        mons[m].workspaces[i].all().contains(w),
        forall|k: int, j: int|
            0 <= k < mons.len() && 0 <= j < mons[k].workspaces.len() && !(k == m && j == i)
                ==> !(#[trigger] mons[k].workspaces[j]).all().contains(w),
    ensures
        ({
            let t = s.synced_monitors(mons, n);
            &&& on_its_own(t, w)
            &&& alike(s.desk, t.desk, w)
            &&& m >= n ==> as_before(s, t, w)
            &&& m < n ==> follows(s, t, w, i == mons[m].active)
        }),
    decreases n,
{
    if n > 0 {
        lemma_synced_in_monitors(s, mons, n - 1, w, m, i);
        let a = s.synced_monitors(mons, n - 1);
        let mon = mons[n - 1];
        let count = mon.workspaces.len() as int;
        lemma_synced_in_spaces(
            a,
            mon,
            count,
            w,
            if m == n - 1 {
                i
            } else {
                count
            },
        );
    }
}

/// After every workspace was brought in line, a window of a workspace that is
/// shown is hidden no more, and one of another workspace is off screen, and
/// remembered as hidden if it was on screen.
pub proof fn law_windows_follow_their_workspace(s: World, w: Window, m: int, i: int)
    requires
        on_its_own(s, w),
        s.desk.valid(w),
        0 <= m < s.wm.monitors.len(),
        0 <= i < s.wm.monitors[m].workspaces.len(),
        s.wm.monitors[m].workspaces[i].all().contains(w),
        forall|k: int, j: int|
            0 <= k < s.wm.monitors.len() && 0 <= j < s.wm.monitors[k].workspaces.len() && !(k == m
                && j == i) ==> !(#[trigger] s.wm.monitors[k].workspaces[j]).all().contains(w),
    ensures
        follows(s, s.sync_visibility(), w, i == s.wm.monitors[m].active),
{
    let n = s.wm.monitors.len() as int;
    lemma_synced_in_monitors(s, s.wm.monitors, n, w, m, i);
    let t = s.synced_monitors(s.wm.monitors, n);
    assert(t.act(Action::Journal).desk.facts(w) == t.desk.facts(w));
}

} // verus!
