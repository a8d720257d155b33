//! The icons of windows, fetched once and kept.

use crate::window::Window;
use vstd::prelude::*;

verus! {

/// An icon that was fetched for a window; 0 where it has none. An owned one
/// is to be destroyed in the end.
#[derive(Clone, Copy, Debug, PartialEq, Eq, Structural)]
pub struct Icon {
    pub window: Window,
    pub handle: isize,
    pub owned: bool,
}

/// More icons than this are not kept.
pub const MOST_ICONS: usize = 256;

/// The icons fetched so far, one for each window.
pub struct IconCache {
    icons: Vec<Icon>,
}

impl View for IconCache {
    type V = Seq<Icon>;

    closed spec fn view(&self) -> Seq<Icon> {
        self.icons@
    }
}

/// No window has two icons.
pub open spec fn one_icon_each(s: Seq<Icon>) -> bool {
    forall|i: int, j: int|
        0 <= i < j < s.len() ==> (#[trigger] s[i]).window != (#[trigger] s[j]).window
}

/// The icons without that of `w`.
pub open spec fn iconless(s: Seq<Icon>, w: Window) -> Seq<Icon>
    decreases s.len(),
{
    if s.len() == 0 {
        s
    } else if s.last().window == w {
        iconless(s.drop_last(), w)
    } else {
        iconless(s.drop_last(), w).push(s.last())
    }
}

/// The place of a window's icon, from the `i`th on.
pub open spec fn icon_from(s: Seq<Icon>, w: Window, i: int) -> Option<int>
    decreases s.len() - i,
{
    if i < 0 || i >= s.len() {
        None
    } else if s[i].window == w {
        Some(i)
    } else {
        icon_from(s, w, i + 1)
    }
}

/// The handles of the icons that are to be destroyed.
pub open spec fn owned_handles(s: Seq<Icon>) -> Seq<isize>
    decreases s.len(),
{
    if s.len() == 0 {
        Seq::empty()
    } else if s.last().owned && s.last().handle != 0 {
        owned_handles(s.drop_last()).push(s.last().handle)
    } else {
        owned_handles(s.drop_last())
    }
}

proof fn lemma_iconless(s: Seq<Icon>, w: Window)
    requires
        one_icon_each(s),
    ensures
        one_icon_each(iconless(s, w)),
        forall|i: int|
            0 <= i < iconless(s, w).len() ==> (#[trigger] iconless(s, w)[i]).window != w
                && s.contains(iconless(s, w)[i]),
    decreases s.len(),
{
    if s.len() > 0 {
        let front = s.drop_last();
        let last = s.last();
        assert(one_icon_each(front)) by {
            assert forall|i: int, j: int| 0 <= i < j < front.len() implies (#[trigger]
            front[i]).window != (#[trigger] front[j]).window by {
                assert(front[i] == s[i] && front[j] == s[j]);
            }
        }
        lemma_iconless(front, w);
        let rest = iconless(front, w);
        let all = iconless(s, w);
        assert forall|i: int| 0 <= i < all.len() implies (#[trigger] all[i]).window != w
            && s.contains(all[i]) by {
            if i < rest.len() {
                assert(all[i] == rest[i]);
                let k = choose|k: int| 0 <= k < front.len() && front[k] == rest[i];
                assert(s[k] == rest[i]);
            } else {
                assert(s[s.len() - 1] == all[i]);
            }
        }
        assert forall|i: int, j: int| 0 <= i < j < all.len() implies (#[trigger] all[i]).window
            != (#[trigger] all[j]).window by {
            assert(all[i] == rest[i]);
            if j < rest.len() {
                assert(all[j] == rest[j]);
            } else {
                let k = choose|k: int| 0 <= k < front.len() && front[k] == rest[i];
                assert(s[k].window != last.window);
            }
        }
    }
}

impl IconCache {
    #[verifier::type_invariant]
    closed spec fn wf(self) -> bool {
        one_icon_each(self.icons@)
    }

    pub fn new() -> (r: IconCache)
        ensures
            r@ == Seq::<Icon>::empty(),
    {
        IconCache { icons: Vec::new() }
    }

    /// The icons, with the windows they belong to.
    pub fn list(&self) -> (r: &Vec<Icon>)
        ensures
            r@ == self@,
            one_icon_each(r@),
    {
        proof {
            use_type_invariant(self);
        }
        &self.icons
    }

    /// Forgets all icons when there are too many. Gives those to destroy.
    pub fn make_room(&mut self) -> (r: Vec<isize>)
        ensures
            old(self)@.len() > MOST_ICONS ==> final(self)@.len() == 0 && r@ == owned_handles(
                old(self)@,
            ),
            old(self)@.len() <= MOST_ICONS ==> final(self)@ == old(self)@ && r@.len() == 0,
    {
        let mut r: Vec<isize> = Vec::new();
        if self.icons.len() <= MOST_ICONS {
            return r;
        }
        let ghost s = self.icons@;
        let mut i: usize = 0;
        proof {
            assert(s.take(0) =~= Seq::empty());
        }
        while i < self.icons.len()
            invariant
                i <= self.icons.len(),
                s == self.icons@,
                r@ == owned_handles(s.take(i as int)),
            decreases self.icons.len() - i,
        {
            proof {
                assert(s.take(i + 1).drop_last() =~= s.take(i as int));
            }
            let x: Icon = self.icons[i];
            if x.owned && x.handle != 0 {
                r.push(x.handle);
            }
            i = i + 1;
        }
        proof {
            assert(s.take(i as int) =~= s);
        }
        self.icons = Vec::new();
        r
    }

    /// What is kept for a window: nothing yet, or the handle of its icon.
    pub fn get(&self, w: Window) -> (r: Option<isize>)
        ensures
            r == match icon_from(self@, w, 0) {
                Some(i) => Some(self@[i].handle),
                None => None,
            },
    {
        let mut i: usize = 0;
        while i < self.icons.len()
            invariant
                i <= self.icons.len(),
                icon_from(self.icons@, w, i as int) == icon_from(self.icons@, w, 0),
            decreases self.icons.len() - i,
        {
            if self.icons[i].window.0 == w.0 {
                return Some(self.icons[i].handle);
            }
            i = i + 1;
        }
        None
    }

    /// Keeps the icon that was fetched for a window, in place of any other.
    pub fn keep(&mut self, window: Window, handle: isize, owned: bool)
        ensures
            final(self)@ == iconless(old(self)@, window).push(Icon { window, handle, owned }),
    {
        proof {
            use_type_invariant(&*self);
            lemma_iconless(self@, window);
        }
        let mut v: Vec<Icon> = Vec::new();
        std::mem::swap(&mut v, &mut self.icons);
        let mut rest: Vec<Icon> = Vec::new();
        let mut i: usize = 0;
        proof {
            assert(v@.take(0) =~= Seq::empty());
        }
        while i < v.len()
            invariant
                i <= v.len(),
                rest@ == iconless(v@.take(i as int), window),
            decreases v.len() - i,
        {
            proof {
                assert(v@.take(i + 1).drop_last() =~= v@.take(i as int));
            }
            let x: Icon = v[i];
            if x.window != window {
                rest.push(x);
            }
            i = i + 1;
        }
        proof {
            assert(v@.take(i as int) =~= v@);
        }
        rest.push(Icon { window, handle, owned });
        self.icons = rest;
    }
}

/// What was kept for a window is found again, and the icons of the others are
/// still there.
pub proof fn law_kept_icon_is_found(s: Seq<Icon>, w: Window, handle: isize, owned: bool)
    requires
        one_icon_each(s),
    ensures
        ({
            let t = iconless(s, w).push(Icon { window: w, handle, owned });
            &&& icon_from(t, w, 0) == Some(t.len() - 1)
            &&& t[t.len() - 1].handle == handle
            &&& forall|i: int| 0 <= i < s.len() && s[i].window != w ==> t.contains(#[trigger] s[i])
        }),
{
    lemma_iconless(s, w);
    let rest = iconless(s, w);
    lemma_icon_from_end(rest, w, handle, owned, 0);
    assert forall|i: int| 0 <= i < s.len() && s[i].window != w implies rest.push(
        Icon { window: w, handle, owned },
    ).contains(#[trigger] s[i]) by {
        lemma_stays(s, w, i);
        let k = choose|k: int| 0 <= k < rest.len() && rest[k] == s[i];
        assert(rest.push(Icon { window: w, handle, owned })[k] == s[i]);
    }
}

proof fn lemma_stays(s: Seq<Icon>, w: Window, i: int)
    requires
        0 <= i < s.len(),
        s[i].window != w,
    ensures
        iconless(s, w).contains(s[i]),
    decreases s.len(),
{
    let rest = iconless(s.drop_last(), w);
    if i == s.len() - 1 {
        assert(rest.push(s.last())[rest.len() as int] == s[i]);
    } else {
        assert(s.drop_last()[i] == s[i]);
        lemma_stays(s.drop_last(), w, i);
        let k = choose|k: int| 0 <= k < rest.len() && rest[k] == s[i];
        if s.last().window != w {
            assert(rest.push(s.last())[k] == s[i]);
        }
    }
}

proof fn lemma_icon_from_end(s: Seq<Icon>, w: Window, handle: isize, owned: bool, i: int)
    requires
        0 <= i <= s.len(),
        forall|k: int| 0 <= k < s.len() ==> (#[trigger] s[k]).window != w,
    ensures
        icon_from(s.push(Icon { window: w, handle, owned }), w, i) == Some(s.len() as int),
    decreases s.len() - i,
{
    if i < s.len() {
        assert(s.push(Icon { window: w, handle, owned })[i] == s[i]);
        lemma_icon_from_end(s, w, handle, owned, i + 1);
    }
}

} // verus!
