//! Hiding managed windows together with the unmanaged windows that belong to
//! them, and showing them again.

use super::desktop::{Action, Desktop};
use super::state::{world, WindowManager, WmView, World};
use crate::lists::{including, without};
use crate::window::Window;
use vstd::prelude::*;

verus! {

// ------------------------------------------------------- owners and windows

/// The windows that `owner` has in a list of owners and their windows.
pub open spec fn owned_by(pairs: Seq<(Window, Window)>, owner: Window) -> Seq<Window>
    decreases pairs.len(),
{
    if pairs.len() == 0 {
        Seq::empty()
    } else if pairs.last().0 == owner {
        owned_by(pairs.drop_last(), owner).push(pairs.last().1)
    } else {
        owned_by(pairs.drop_last(), owner)
    }
}

/// The list without the windows of `owner`.
pub open spec fn disowned(pairs: Seq<(Window, Window)>, owner: Window) -> Seq<(Window, Window)>
    decreases pairs.len(),
{
    if pairs.len() == 0 {
        pairs
    } else if pairs.last().0 == owner {
        disowned(pairs.drop_last(), owner)
    } else {
        disowned(pairs.drop_last(), owner).push(pairs.last())
    }
}

/// Takes the windows of `owner` out of the list.
fn take_owned(pairs: &mut Vec<(Window, Window)>, owner: Window) -> (r: Vec<Window>)
    ensures
        r@ == owned_by(old(pairs)@, owner),
        final(pairs)@ == disowned(old(pairs)@, owner),
{
    let mut r: Vec<Window> = Vec::new();
    let mut rest: Vec<(Window, Window)> = Vec::new();
    let mut i: usize = 0;
    proof {
        assert(pairs@.take(0) =~= Seq::empty());
    }
    while i < pairs.len()
        invariant
            i <= pairs.len(),
            r@ == owned_by(pairs@.take(i as int), owner),
            rest@ == disowned(pairs@.take(i as int), owner),
        decreases pairs.len() - i,
    {
        proof {
            assert(pairs@.take(i + 1).drop_last() =~= pairs@.take(i as int));
        }
        let (o, c) = pairs[i];
        if o == owner {
            r.push(c);
        } else {
            rest.push((o, c));
        }
        i = i + 1;
    }
    proof {
        assert(pairs@.take(i as int) =~= pairs@);
    }
    *pairs = rest;
    r
}

// ------------------------------------------------------------------ hiding

impl World {
    /// `c` is an unmanaged window on screen that belongs to `w` and goes and
    /// comes with it.
    pub open spec fn attends(self, w: Window, c: Window) -> bool {
        &&& c != w
        &&& self.desk.visible(c)
        &&& !self.wm.is_managed(c)
        &&& !self.desk.transient(c)
        &&& self.desk.root_owner_of(c) == w
    }

    /// `c` is a short-lived overlay on screen that belongs to `w`, or at
    /// least to its thread.
    pub open spec fn pops_up(self, w: Window, thread: u32, c: Window) -> bool {
        &&& c != w
        &&& self.desk.visible(c)
        &&& !self.wm.is_managed(c)
        &&& self.desk.transient(c)
        &&& self.desk.root_owner_of(c) == w || (thread != 0 && self.desk.thread_of(c) == thread)
    }

    /// Those of `order` that attend `w`.
    pub open spec fn attendants(self, order: Seq<Window>, w: Window) -> Seq<Window>
        decreases order.len(),
    {
        if order.len() == 0 {
            order
        } else if self.attends(w, order.last()) {
            self.attendants(order.drop_last(), w).push(order.last())
        } else {
            self.attendants(order.drop_last(), w)
        }
    }

    /// With the overlays of `w` hidden, from place `i` of the order on.
    pub open spec fn swept(self, w: Window, thread: u32, i: int) -> World
        decreases self.desk.order.len() - i,
    {
        if i >= self.desk.order.len() {
            self
        } else {
            let c = self.desk.order[i];
            if self.pops_up(w, thread, c) {
                World { desk: self.desk.concealed(c), ..self }.swept(w, thread, i + 1)
            } else {
                self.swept(w, thread, i + 1)
            }
        }
    }

    /// With `c` hidden on purpose.
    pub open spec fn stowed(self, c: Window) -> World {
        World {
            wm: WmView { hidden: including(self.wm.hidden, c), ..self.wm },
            desk: self.desk.concealed(c),
        }
    }

    /// With the windows of `list` hidden on purpose.
    pub open spec fn stowed_all(self, list: Seq<Window>) -> World
        decreases list.len(),
    {
        if list.len() == 0 {
            self
        } else {
            self.stowed_all(list.drop_last()).stowed(list.last())
        }
    }

    /// The list `cs` remembered as what was hidden along with `w`.
    pub open spec fn remembering(self, w: Window, cs: Seq<Window>) -> World {
        if cs.len() == 0 {
            self
        } else {
            World {
                wm: WmView {
                    companions: disowned(self.wm.companions, w) + cs.map_values(
                        |c: Window| (w, c),
                    ),
                    ..self.wm
                },
                ..self
            }
        }
    }

    /// `w` hidden for a workspace change. Its app is asked to leave its menu
    /// modes, overlays are hidden for good, and the windows that belong to
    /// `w` are hidden along with it.
    pub open spec fn hide_managed(self, w: Window) -> World {
        let a = World { desk: self.desk.act(Action::CancelModes(w)), ..self };
        let cs = a.attendants(a.desk.order, w);
        a.swept(w, a.desk.thread_of(w), 0).stowed_all(cs).remembering(w, cs).stowed(w)
    }

    /// With `c` no longer hidden on purpose, and shown if it still exists.
    pub open spec fn unstowed(self, c: Window) -> World {
        World {
            wm: WmView { hidden: without(self.wm.hidden, c), ..self.wm },
            desk: if self.desk.valid(c) {
                self.desk.shown(c)
            } else {
                self.desk
            },
        }
    }

    pub open spec fn unstowed_all(self, list: Seq<Window>) -> World
        decreases list.len(),
    {
        if list.len() == 0 {
            self
        } else {
            self.unstowed_all(list.drop_last()).unstowed(list.last())
        }
    }

    /// `w` shown again, with whatever was hidden along with it.
    pub open spec fn show_managed(self, w: Window) -> World {
        World {
            wm: WmView {
                hidden: without(self.wm.hidden, w),
                companions: disowned(self.wm.companions, w),
                ..self.wm
            },
            desk: self.desk.shown(w),
        }.unstowed_all(owned_by(self.wm.companions, w))
    }

    /// Those of `list` that are hidden on purpose shown again.
    pub open spec fn released_all(self, list: Seq<Window>) -> World
        decreases list.len(),
    {
        if list.len() == 0 {
            self
        } else {
            let s = self.released_all(list.drop_last());
            if s.wm.hidden.contains(list.last()) {
                s.unstowed(list.last())
            } else {
                s
            }
        }
    }

    /// What was hidden along with `w` shown again, as `w` goes away.
    pub open spec fn release_companions(self, w: Window) -> World {
        World {
            wm: WmView { companions: disowned(self.wm.companions, w), ..self.wm },
            ..self
        }.released_all(owned_by(self.wm.companions, w))
    }
}

proof fn lemma_owned_append(a: Seq<(Window, Window)>, b: Seq<(Window, Window)>, owner: Window)
    ensures
        owned_by(a + b, owner) == owned_by(a, owner) + owned_by(b, owner),
    decreases b.len(),
{
    if b.len() == 0 {
        assert(a + b =~= a);
    } else {
        lemma_owned_append(a, b.drop_last(), owner);
        assert((a + b).drop_last() =~= a + b.drop_last());
    }
    assert(owned_by(a + b, owner) =~= owned_by(a, owner) + owned_by(b, owner));
}

proof fn lemma_disowned(pairs: Seq<(Window, Window)>, w: Window, owner: Window)
    ensures
        owned_by(disowned(pairs, w), owner) == if owner == w {
            Seq::<Window>::empty()
        } else {
            owned_by(pairs, owner)
        },
    decreases pairs.len(),
{
    if pairs.len() > 0 {
        lemma_disowned(pairs.drop_last(), w, owner);
        let rest = disowned(pairs.drop_last(), w);
        assert(rest.push(pairs.last()).drop_last() =~= rest);
    }
}

proof fn lemma_owned_list(list: Seq<Window>, w: Window, owner: Window)
    ensures
        owned_by(list.map_values(|c: Window| (w, c)), owner) == if owner == w {
            list
        } else {
            Seq::<Window>::empty()
        },
    decreases list.len(),
{
    let pairs = list.map_values(|c: Window| (w, c));
    if list.len() > 0 {
        lemma_owned_list(list.drop_last(), w, owner);
        assert(pairs.drop_last() =~= list.drop_last().map_values(|c: Window| (w, c)));
        assert(list.drop_last().push(list.last()) =~= list);
    } else {
        assert(list =~= Seq::<Window>::empty());
    }
}

/// Each owner has one list of windows hidden along with it: a new list takes
/// the place of the old one, and the lists of other owners stay as they are.
pub proof fn law_one_list_per_owner(
    pairs: Seq<(Window, Window)>,
    w: Window,
    list: Seq<Window>,
    owner: Window,
)
    ensures
        owned_by(disowned(pairs, w) + list.map_values(|c: Window| (w, c)), owner) == if owner
            == w {
            list
        } else {
            owned_by(pairs, owner)
        },
        owned_by(disowned(pairs, w), w).len() == 0,
{
    lemma_owned_append(disowned(pairs, w), list.map_values(|c: Window| (w, c)), owner);
    lemma_disowned(pairs, w, owner);
    lemma_disowned(pairs, w, w);
    lemma_owned_list(list, w, owner);
    assert(Seq::<Window>::empty() + list =~= list);
    assert(owned_by(pairs, owner) + Seq::<Window>::empty() =~= owned_by(pairs, owner));
}

/// Hiding and showing touch neither settings nor monitors.
pub proof fn lemma_hiding_keeps(s: World, w: Window)
    ensures
        ({
            let h = s.hide_managed(w);
            &&& h.wm.cfg == s.wm.cfg
            &&& h.wm.monitors == s.wm.monitors
            &&& h.wm.scratch == s.wm.scratch
            &&& h.wm.paused == s.wm.paused
        }),
        ({
            let h = s.show_managed(w);
            &&& h.wm.cfg == s.wm.cfg
            &&& h.wm.monitors == s.wm.monitors
            &&& h.wm.scratch == s.wm.scratch
            &&& h.wm.paused == s.wm.paused
        }),
        ({
            let h = s.release_companions(w);
            &&& h.wm.cfg == s.wm.cfg
            &&& h.wm.monitors == s.wm.monitors
            &&& h.wm.scratch == s.wm.scratch
            &&& h.wm.paused == s.wm.paused
        }),
{
    let a = World { desk: s.desk.act(Action::CancelModes(w)), ..s };
    let cs = a.attendants(a.desk.order, w);
    let b = a.swept(w, a.desk.thread_of(w), 0);
    lemma_swept_keeps(a, w, a.desk.thread_of(w), 0);
    lemma_stowed_keeps(b, cs);
    let c = World {
        wm: WmView {
            hidden: without(s.wm.hidden, w),
            companions: disowned(s.wm.companions, w),
            ..s.wm
        },
        desk: s.desk.shown(w),
    };
    lemma_unstowed_keeps(c, owned_by(s.wm.companions, w));
    let d = World {
        wm: WmView { companions: disowned(s.wm.companions, w), ..s.wm },
        ..s
    };
    lemma_unstowed_keeps(d, owned_by(s.wm.companions, w));
}

proof fn lemma_swept_keeps(s: World, w: Window, thread: u32, i: int)
    ensures
        s.swept(w, thread, i).wm == s.wm,
    decreases s.desk.order.len() - i,
{
    if i < s.desk.order.len() {
        let c = s.desk.order[i];
        lemma_swept_keeps(World { desk: s.desk.concealed(c), ..s }, w, thread, i + 1);
        lemma_swept_keeps(s, w, thread, i + 1);
    }
}

proof fn lemma_stowed_keeps(s: World, list: Seq<Window>)
    ensures
        ({
            let h = s.stowed_all(list);
            h.wm == (WmView { hidden: h.wm.hidden, ..s.wm })
        }),
    decreases list.len(),
{
    if list.len() > 0 {
        lemma_stowed_keeps(s, list.drop_last());
    }
}

proof fn lemma_unstowed_keeps(s: World, list: Seq<Window>)
    ensures
        ({
            let h = s.unstowed_all(list);
            h.wm == (WmView { hidden: h.wm.hidden, ..s.wm })
        }),
        ({
            let h = s.released_all(list);
            h.wm == (WmView { hidden: h.wm.hidden, ..s.wm })
        }),
    decreases list.len(),
{
    if list.len() > 0 {
        lemma_unstowed_keeps(s, list.drop_last());
    }
}

impl WindowManager {
    /// The unmanaged windows on screen that belong to `w`.
    fn attendants(&self, desk: &Desktop, w: Window) -> (r: Vec<Window>)
        ensures
            r@ == world(*self, *desk).attendants(desk.order@, w),
    {
        let ghost s = world(*self, *desk);
        let mut r: Vec<Window> = Vec::new();
        let mut i: usize = 0;
        proof {
            assert(desk.order@.take(0) =~= Seq::empty());
        }
        while i < desk.order.len()
            invariant
                s == world(*self, *desk),
                i <= desk.order.len(),
                r@ == s.attendants(desk.order@.take(i as int), w),
            decreases desk.order.len() - i,
        {
            proof {
                assert(desk.order@.take(i + 1).drop_last() =~= desk.order@.take(i as int));
            }
            let c = desk.order[i];
            if c != w && desk.is_visible(c) && !self.is_managed(c) && !desk.is_transient_popup(c)
                && desk.root_owner(c) == w {
                r.push(c);
            }
            i = i + 1;
        }
        proof {
            assert(desk.order@.take(i as int) =~= desk.order@);
        }
        r
    }

    fn stow(&mut self, desk: &mut Desktop, c: Window)
        ensures
            world(*final(self), *final(desk)) == world(*old(self), *old(desk)).stowed(c),
            final(self).config == old(self).config,
    {
        self.hidden_by_us.include_window(c);
        desk.conceal(c);
    }

    fn unstow(&mut self, desk: &mut Desktop, c: Window)
        ensures
            world(*final(self), *final(desk)) == world(*old(self), *old(desk)).unstowed(c),
            final(self).config == old(self).config,
    {
        self.hidden_by_us.leave_out(c);
        if desk.is_valid(c) {
            desk.show(c);
        }
    }

    /// Hides a managed window for a workspace change, with the unmanaged
    /// windows that belong to it.
    pub fn hide_managed(&mut self, desk: &mut Desktop, w: Window)
        ensures
            world(*final(self), *final(desk)) == world(*old(self), *old(desk)).hide_managed(w),
            final(self).config == old(self).config,
    {
        let ghost s0 = world(*self, *desk);
        desk.act(Action::CancelModes(w));
        let ghost a = world(*self, *desk);
        let thread: u32 = desk.thread_id(w);
        let companions = self.attendants(desk, w);
        let mut i: usize = 0;
        while i < desk.order.len()
            invariant
                i <= desk.order.len(),
                self.config == old(self).config,
                a.swept(w, thread, 0) == world(*self, *desk).swept(w, thread, i as int),
            decreases desk.order.len() - i,
        {
            let ghost s = world(*self, *desk);
            let c = desk.order[i];
            if c != w && desk.is_visible(c) && !self.is_managed(c) && desk.is_transient_popup(c) && (
            desk.root_owner(c) == w || (thread != 0 && desk.thread_id(c) == thread)) {
                desk.conceal(c);
                proof {
                    assert(world(*self, *desk) == (World { desk: s.desk.concealed(c), ..s }));
                }
            }
            i = i + 1;
        }
        let ghost b = world(*self, *desk);
        let mut j: usize = 0;
        proof {
            assert(companions@.take(0) =~= Seq::empty());
        }
        while j < companions.len()
            invariant
                j <= companions.len(),
                self.config == old(self).config,
                world(*self, *desk) == b.stowed_all(companions@.take(j as int)),
            decreases companions.len() - j,
        {
            proof {
                assert(companions@.take(j + 1).drop_last() =~= companions@.take(j as int));
            }
            self.stow(desk, companions[j]);
            j = j + 1;
        }
        proof {
            assert(companions@.take(j as int) =~= companions@);
        }
        let ghost d = world(*self, *desk);
        if companions.len() > 0 {
            let _gone = take_owned(&mut self.companions_hidden, w);
            let ghost base = self.companions_hidden@;
            let mut k: usize = 0;
            while k < companions.len()
                invariant
                    k <= companions.len(),
                    self.config == old(self).config,
                    self.companions_hidden@ == base + companions@.take(k as int).map_values(
                        |c: Window| (w, c),
                    ),
                    desk@ == d.desk,
                    self@ == (WmView { companions: self@.companions, ..d.wm }),
                decreases companions.len() - k,
            {
                self.companions_hidden.push((w, companions[k]));
                proof {
                    assert(self.companions_hidden@ =~= base + companions@.take(k + 1).map_values(
                        |c: Window| (w, c),
                    ));
                }
                k = k + 1;
            }
            proof {
                assert(companions@.take(k as int) =~= companions@);
            }
        }
        proof {
            assert(world(*self, *desk) == d.remembering(w, companions@));
        }
        self.stow(desk, w);
    }

    /// Undoes `hide_managed`: shows the window and what was hidden with it.
    pub fn show_managed(&mut self, desk: &mut Desktop, w: Window)
        ensures
            world(*final(self), *final(desk)) == world(*old(self), *old(desk)).show_managed(w),
            final(self).config == old(self).config,
    {
        self.hidden_by_us.leave_out(w);
        desk.show(w);
        let companions = take_owned(&mut self.companions_hidden, w);
        let ghost b = world(*self, *desk);
        let mut j: usize = 0;
        proof {
            assert(companions@.take(0) =~= Seq::empty());
        }
        while j < companions.len()
            invariant
                j <= companions.len(),
                self.config == old(self).config,
                world(*self, *desk) == b.unstowed_all(companions@.take(j as int)),
            decreases companions.len() - j,
        {
            proof {
                assert(companions@.take(j + 1).drop_last() =~= companions@.take(j as int));
            }
            self.unstow(desk, companions[j]);
            j = j + 1;
        }
        proof {
            assert(companions@.take(j as int) =~= companions@);
        }
    }

    /// Shows what is still hidden along with `w`, which is going away.
    pub fn release_companions(&mut self, desk: &mut Desktop, w: Window)
        ensures
            world(*final(self), *final(desk)) == world(
                *old(self),
                *old(desk),
            ).release_companions(w),
            final(self).config == old(self).config,
    {
        let companions = take_owned(&mut self.companions_hidden, w);
        let ghost b = world(*self, *desk);
        let mut j: usize = 0;
        proof {
            assert(companions@.take(0) =~= Seq::empty());
        }
        while j < companions.len()
            invariant
                j <= companions.len(),
                self.config == old(self).config,
                world(*self, *desk) == b.released_all(companions@.take(j as int)),
            decreases companions.len() - j,
        {
            proof {
                assert(companions@.take(j + 1).drop_last() =~= companions@.take(j as int));
            }
            if self.hidden_by_us.has(companions[j]) {
                self.unstow(desk, companions[j]);
            }
            j = j + 1;
        }
        proof {
            assert(companions@.take(j as int) =~= companions@);
        }
    }
}

} // verus!
