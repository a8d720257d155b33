//! Lists of windows: finding, leaving out, adding once.

use crate::window::Window;
use vstd::prelude::*;

verus! {

/// The first place of `w` at or after `i`.
pub open spec fn place_from(s: Seq<Window>, w: Window, i: int) -> Option<int>
    decreases s.len() - i,
{
    if i >= s.len() {
        None
    } else if s[i] == w {
        Some(i)
    } else {
        place_from(s, w, i + 1)
    }
}

/// The first place of `w`.
pub open spec fn place(s: Seq<Window>, w: Window) -> Option<int> {
    place_from(s, w, 0)
}

pub proof fn lemma_place_from(s: Seq<Window>, w: Window, i: int)
    requires
        0 <= i,
    ensures
        match place_from(s, w, i) {
            Some(k) => i <= k < s.len() && s[k] == w && forall|j: int| i <= j < k ==> s[j] != w,
            None => forall|j: int| i <= j < s.len() ==> s[j] != w,
        },
    decreases s.len() - i,
{
    if i < s.len() && s[i] != w {
        lemma_place_from(s, w, i + 1);
    }
}

/// A window is in a list exactly when it has a place there.
pub proof fn lemma_place(s: Seq<Window>, w: Window)
    ensures
        place(s, w) is Some <==> s.contains(w),
        place(s, w) matches Some(k) ==> 0 <= k < s.len() && s[k] == w,
{
    lemma_place_from(s, w, 0);
}

/// The first place of `w`, if it is there.
pub fn position(v: &Vec<Window>, w: Window) -> (r: Option<usize>)
    ensures
        match r {
            Some(i) => place(v@, w) == Some(i as int) && i < v.len() && v@[i as int] == w,
            None => place(v@, w) is None && !v@.contains(w),
        },
{
    let mut i: usize = 0;
    while i < v.len()
        invariant
            i <= v.len(),
            place(v@, w) == place_from(v@, w, i as int),
            forall|j: int| 0 <= j < i ==> v@[j] != w,
        decreases v.len() - i,
    {
        if v[i] == w {
            return Some(i);
        }
        i = i + 1;
    }
    None
}

/// Is `w` in the list?
pub fn contains_window(v: &Vec<Window>, w: Window) -> (r: bool)
    ensures
        r == v@.contains(w),
{
    match position(v, w) {
        Some(_) => true,
        None => false,
    }
}

/// The list without `w`.
pub open spec fn without(s: Seq<Window>, w: Window) -> Seq<Window>
    decreases s.len(),
{
    if s.len() == 0 {
        s
    } else if s.last() == w {
        without(s.drop_last(), w)
    } else {
        without(s.drop_last(), w).push(s.last())
    }
}

/// The list with `w` in it, added at the end where it was missing.
pub open spec fn including(s: Seq<Window>, w: Window) -> Seq<Window> {
    if s.contains(w) {
        s
    } else {
        s.push(w)
    }
}

/// Takes `w` out of the list.
pub fn leave_out(v: &mut Vec<Window>, w: Window)
    ensures
        final(v)@ == without(old(v)@, w),
{
    let mut r: Vec<Window> = Vec::new();
    let mut i: usize = 0;
    proof {
        assert(v@.take(0) =~= Seq::empty());
    }
    while i < v.len()
        invariant
            i <= v.len(),
            r@ == without(v@.take(i as int), w),
        decreases v.len() - i,
    {
        proof {
            assert(v@.take(i + 1).drop_last() =~= v@.take(i as int));
        }
        if v[i] != w {
            r.push(v[i]);
        }
        i = i + 1;
    }
    proof {
        assert(v@.take(i as int) =~= v@);
    }
    *v = r;
}

/// Adds `w` at the end where it is missing.
pub fn include_window(v: &mut Vec<Window>, w: Window)
    ensures
        final(v)@ == including(old(v)@, w),
{
    if !contains_window(v, w) {
        v.push(w);
    }
}

/// The same list once more.
pub fn copied(v: &Vec<Window>) -> (r: Vec<Window>)
    ensures
        r@ == v@,
{
    let mut r: Vec<Window> = Vec::new();
    let mut i: usize = 0;
    while i < v.len()
        invariant
            i <= v.len(),
            r@ == v@.take(i as int),
        decreases v.len() - i,
    {
        r.push(v[i]);
        proof {
            assert(v@.take(i + 1) =~= v@.take(i as int).push(v@[i as int]));
        }
        i = i + 1;
    }
    proof {
        assert(v@.take(i as int) =~= v@);
    }
    r
}

/// The list with two places exchanged.
pub open spec fn swapped(s: Seq<Window>, i: int, j: int) -> Seq<Window> {
    s.update(i, s[j]).update(j, s[i])
}

/// Exchanges two places.
pub fn swap_places(v: &mut Vec<Window>, i: usize, j: usize)
    requires
        i < old(v).len(),
        j < old(v).len(),
    ensures
        final(v)@ == swapped(old(v)@, i as int, j as int),
{
    let a = v[i];
    let b = v[j];
    v.set(i, b);
    v.set(j, a);
}

/// `without` keeps every other window, and their number.
pub proof fn lemma_without(s: Seq<Window>, w: Window)
    ensures
        !without(s, w).contains(w),
        forall|x: Window| x != w ==> (#[trigger] without(s, w).contains(x) <==> s.contains(x)),
        !s.contains(w) ==> without(s, w) == s,
        without(s, w).len() <= s.len(),
        s.contains(w) ==> without(s, w).len() < s.len(),
    decreases s.len(),
{
    if s.len() > 0 {
        lemma_without(s.drop_last(), w);
        let r = without(s.drop_last(), w);
        assert forall|x: Window| s.contains(x) <==> (s.drop_last().contains(x) || s.last() == x) by {
            if s.contains(x) {
                let i = choose|i: int| 0 <= i < s.len() && s[i] == x;
                if i < s.len() - 1 {
                    assert(s.drop_last()[i] == x);
                }
            }
            if s.drop_last().contains(x) {
                let i = choose|i: int| 0 <= i < s.drop_last().len() && s.drop_last()[i] == x;
                assert(s[i] == x);
            }
            if s.last() == x {
                assert(s[s.len() - 1] == x);
            }
        }
        if s.last() != w {
            assert forall|x: Window| r.push(s.last()).contains(x) <==> (r.contains(x) || s.last()
                == x) by {
                if r.push(s.last()).contains(x) {
                    let i = choose|i: int|
                        0 <= i < r.push(s.last()).len() && r.push(s.last())[i] == x;
                    if i < r.len() {
                        assert(r[i] == x);
                    }
                }
                if r.contains(x) {
                    let i = choose|i: int| 0 <= i < r.len() && r[i] == x;
                    assert(r.push(s.last())[i] == x);
                }
                if s.last() == x {
                    assert(r.push(s.last())[r.len() as int] == x);
                }
            }
        }
        assert forall|x: Window| x != w implies (#[trigger] without(s, w).contains(x)
            <==> s.contains(x)) by {
            assert(r.contains(x) <==> s.drop_last().contains(x));
            if s.last() != w {
                assert(r.push(s.last()).contains(x) <==> (r.contains(x) || s.last() == x));
            }
        }
        if !s.contains(w) {
            assert(without(s, w) =~= s);
        }
    }
}

} // verus!
