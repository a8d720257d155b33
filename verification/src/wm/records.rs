//! What the window manager records per window: which windows it has hidden,
//! each once, and the rectangle of each scratchpad window.

use crate::layout::Rect;
use crate::lists::{
    contains_window, include_window, including, leave_out, lemma_without, without,
};
use crate::window::Window;
use vstd::prelude::*;

verus! {

// ------------------------------------------------------------ hidden windows

/// A list of windows in which none stands twice.
pub struct WindowSet {
    list: Vec<Window>,
}

impl View for WindowSet {
    type V = Seq<Window>;

    closed spec fn view(&self) -> Seq<Window> {
        self.list@
    }
}

/// Taking a window out of a list in which none stands twice leaves such a list.
pub proof fn lemma_without_once(s: Seq<Window>, w: Window)
    requires
        s.no_duplicates(),
    ensures
        without(s, w).no_duplicates(),
    decreases s.len(),
{
    if s.len() > 0 {
        let front = s.drop_last();
        assert(front.no_duplicates()) by {
            assert forall|i: int, j: int|
                0 <= i < front.len() && 0 <= j < front.len() && i != j implies front[i]
                != front[j] by {
                assert(front[i] == s[i] && front[j] == s[j]);
            }
        }
        lemma_without_once(front, w);
        lemma_without(front, w);
        let rest = without(front, w);
        if s.last() != w {
            let all = rest.push(s.last());
            assert(!rest.contains(s.last())) by {
                if rest.contains(s.last()) {
                    let k = choose|k: int| 0 <= k < front.len() && front[k] == s.last();
                    assert(s[k] == s[s.len() - 1]);
                }
            }
            assert forall|i: int, j: int|
                0 <= i < all.len() && 0 <= j < all.len() && i != j implies all[i] != all[j] by {
                if i == rest.len() {
                    assert(rest.contains(rest[j]));
                } else if j == rest.len() {
                    assert(rest.contains(rest[i]));
                }
            }
        }
    }
}

impl WindowSet {
    #[verifier::type_invariant]
    closed spec fn wf(self) -> bool {
        self.list@.no_duplicates()
    }

    pub fn new() -> (r: WindowSet)
        ensures
            r@ == Seq::<Window>::empty(),
    {
        WindowSet { list: Vec::new() }
    }

    /// The windows, in the order in which they were added.
    pub fn list(&self) -> (r: &Vec<Window>)
        ensures
            r@ == self@,
            r@.no_duplicates(),
    {
        proof {
            use_type_invariant(self);
        }
        &self.list
    }

    /// Is `w` among them?
    pub fn has(&self, w: Window) -> (r: bool)
        ensures
            r == self@.contains(w),
    {
        contains_window(&self.list, w)
    }

    /// Adds `w` at the end where it is missing.
    pub fn include_window(&mut self, w: Window)
        ensures
            final(self)@ == including(old(self)@, w),
    {
        proof {
            use_type_invariant(&*self);
        }
        let mut v: Vec<Window> = Vec::new();
        std::mem::swap(&mut v, &mut self.list);
        include_window(&mut v, w);
        self.list = v;
    }

    /// Takes `w` out.
    pub fn leave_out(&mut self, w: Window)
        ensures
            final(self)@ == without(old(self)@, w),
    {
        proof {
            use_type_invariant(&*self);
            lemma_without_once(self@, w);
        }
        let mut v: Vec<Window> = Vec::new();
        std::mem::swap(&mut v, &mut self.list);
        leave_out(&mut v, w);
        self.list = v;
    }
}

// ---------------------------------------------------- remembered rectangles

/// The list without the rectangle of `w`.
pub open spec fn unkept(rects: Seq<(Window, Rect)>, w: Window) -> Seq<(Window, Rect)>
    decreases rects.len(),
{
    if rects.len() == 0 {
        rects
    } else if rects.last().0 == w {
        unkept(rects.drop_last(), w)
    } else {
        unkept(rects.drop_last(), w).push(rects.last())
    }
}

/// The list with `r` as the rectangle of `w`.
pub open spec fn kept(rects: Seq<(Window, Rect)>, w: Window, r: Rect) -> Seq<(Window, Rect)> {
    unkept(rects, w).push((w, r))
}

/// The rectangle of `w`, from place `i` on.
pub open spec fn rect_from(rects: Seq<(Window, Rect)>, w: Window, i: int) -> Option<Rect>
    decreases rects.len() - i,
{
    if i >= rects.len() {
        None
    } else if rects[i].0 == w {
        Some(rects[i].1)
    } else {
        rect_from(rects, w, i + 1)
    }
}

/// No window has two rectangles.
pub open spec fn one_rect_each(rects: Seq<(Window, Rect)>) -> bool {
    forall|i: int, j: int|
        0 <= i < j < rects.len() ==> (#[trigger] rects[i]).0 != (#[trigger] rects[j]).0
}

/// Forgetting the rectangle of a window leaves one at most for each window,
/// and none for that one.
pub proof fn lemma_unkept(rects: Seq<(Window, Rect)>, w: Window)
    requires
        one_rect_each(rects),
    ensures
        one_rect_each(unkept(rects, w)),
        forall|i: int|
            0 <= i < unkept(rects, w).len() ==> (#[trigger] unkept(rects, w)[i]).0 != w
                && rects.contains(unkept(rects, w)[i]),
    decreases rects.len(),
{
    if rects.len() > 0 {
        let front = rects.drop_last();
        let last = rects.last();
        assert(one_rect_each(front)) by {
            assert forall|i: int, j: int| 0 <= i < j < front.len() implies (#[trigger] front[i]).0
                != (#[trigger] front[j]).0 by {
                assert(front[i] == rects[i] && front[j] == rects[j]);
            }
        }
        lemma_unkept(front, w);
        let rest = unkept(front, w);
        let all = unkept(rects, w);
        assert forall|i: int| 0 <= i < all.len() implies (#[trigger] all[i]).0 != w
            && rects.contains(all[i]) by {
            if i < rest.len() {
                assert(all[i] == rest[i]);
                let k = choose|k: int| 0 <= k < front.len() && front[k] == rest[i];
                assert(rects[k] == rest[i]);
            } else {
                assert(rects[rects.len() - 1] == all[i]);
            }
        }
        assert forall|i: int, j: int| 0 <= i < j < all.len() implies (#[trigger] all[i]).0 != (
        #[trigger] all[j]).0 by {
            assert(all[i] == rest[i]);
            if j < rest.len() {
                assert(all[j] == rest[j]);
            } else {
                let k = choose|k: int| 0 <= k < front.len() && front[k] == rest[i];
                assert(rects[k].0 != last.0);
            }
        }
    }
}

/// The rectangle of each of some windows.
pub struct RectBook {
    list: Vec<(Window, Rect)>,
}

impl View for RectBook {
    type V = Seq<(Window, Rect)>;

    closed spec fn view(&self) -> Seq<(Window, Rect)> {
        self.list@
    }
}

impl RectBook {
    #[verifier::type_invariant]
    closed spec fn wf(self) -> bool {
        one_rect_each(self.list@)
    }

    pub fn new() -> (r: RectBook)
        ensures
            r@ == Seq::<(Window, Rect)>::empty(),
    {
        RectBook { list: Vec::new() }
    }

    /// The windows with their rectangles.
    pub fn list(&self) -> (r: &Vec<(Window, Rect)>)
        ensures
            r@ == self@,
            one_rect_each(r@),
    {
        proof {
            use_type_invariant(self);
        }
        &self.list
    }

    /// Forgets the rectangle of `w`.
    pub fn forget(&mut self, w: Window)
        ensures
            final(self)@ == unkept(old(self)@, w),
    {
        proof {
            use_type_invariant(&*self);
            lemma_unkept(self@, w);
        }
        let mut v: Vec<(Window, Rect)> = Vec::new();
        std::mem::swap(&mut v, &mut self.list);
        forget_rect(&mut v, w);
        self.list = v;
    }

    /// Remembers `r` as the rectangle of `w`.
    pub fn keep(&mut self, w: Window, r: Rect)
        ensures
            final(self)@ == kept(old(self)@, w, r),
    {
        proof {
            use_type_invariant(&*self);
            lemma_unkept(self@, w);
        }
        let mut v: Vec<(Window, Rect)> = Vec::new();
        std::mem::swap(&mut v, &mut self.list);
        forget_rect(&mut v, w);
        v.push((w, r));
        self.list = v;
    }

    /// The remembered rectangle of `w`.
    pub fn rect_of(&self, w: Window) -> (r: Option<Rect>)
        ensures
            r == rect_from(self@, w, 0),
    {
        let rects = &self.list;
        let mut i: usize = 0;
        while i < rects.len()
            invariant
                i <= rects.len(),
                rects@ == self@,
                rect_from(rects@, w, 0) == rect_from(rects@, w, i as int),
            decreases rects.len() - i,
        {
            if rects[i].0 == w {
                return Some(rects[i].1);
            }
            i = i + 1;
        }
        None
    }
}

fn forget_rect(rects: &mut Vec<(Window, Rect)>, w: Window)
    ensures
        final(rects)@ == unkept(old(rects)@, w),
{
    let mut r: Vec<(Window, Rect)> = Vec::new();
    let mut i: usize = 0;
    proof {
        assert(rects@.take(0) =~= Seq::empty());
    }
    while i < rects.len()
        invariant
            i <= rects.len(),
            r@ == unkept(rects@.take(i as int), w),
        decreases rects.len() - i,
    {
        proof {
            assert(rects@.take(i + 1).drop_last() =~= rects@.take(i as int));
        }
        if rects[i].0 != w {
            r.push(rects[i]);
        }
        i = i + 1;
    }
    proof {
        assert(rects@.take(i as int) =~= rects@);
    }
    *rects = r;
}

} // verus!
