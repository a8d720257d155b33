//! Window moves as animations: a window glides to its slot instead of
//! jumping. A new target while it moves starts over from where it is.

use crate::layout::{clip, sat, Rect};
use crate::single::{
    lemma_sig24, lemma_sig24_below, lemma_sig24_form, lemma_sig24_shifted, scaled, sig24, Factor,
};
use crate::window::{around, place_visible, Window};
use vstd::arithmetic::power2::{lemma2_to64, lemma_pow2_adds, pow2};
use vstd::prelude::*;

verus! {

/// Milliseconds between frames.
pub const FRAME_MS: u32 = 15;

/// A window on its way.
#[derive(Clone, Copy, Debug, PartialEq, Eq)]
pub struct Anim {
    pub window: Window,
    pub from: Rect,
    pub to: Rect,
    /// How far the visible frame lies inside the window; taken once.
    pub offsets: (i32, i32, i32, i32),
    /// When it started, in milliseconds.
    pub start_ms: u64,
    pub duration_ms: u32,
}

/// All windows on their way, each once, and the timer that drives them.
pub struct Animations {
    anims: Vec<Anim>,
    /// The timer, or 0.
    timer: usize,
}

impl View for Animations {
    type V = Seq<Anim>;

    closed spec fn view(&self) -> Seq<Anim> {
        self.anims@
    }
}

/// No window has two animations.
pub open spec fn one_each(anims: Seq<Anim>) -> bool {
    forall|i: int, j: int|
        0 <= i < j < anims.len() ==> (#[trigger] anims[i]).window != (#[trigger] anims[j]).window
}

/// What a new target asks for.
#[derive(Clone, Copy, Debug, PartialEq, Eq, Structural)]
pub enum Motion {
    /// Place the window there at once.
    Jump,
    /// The window is there already.
    Rest,
    /// Start an animation.
    Glide,
}

/// How far an animation is: the eased share of the way in parts of 2^24, and
/// whether the time is over.
#[derive(Clone, Copy, Debug, PartialEq, Eq, Structural)]
pub struct Beat {
    /// The window exists and is visible.
    pub alive: bool,
    pub eased: u32,
    pub done: bool,
}

/// A window and where to place it.
#[derive(Clone, Copy, Debug, PartialEq, Eq, Structural)]
pub struct Placement {
    pub window: Window,
    pub rect: Rect,
}

/// What a new target asks for, of a window whose visible frame is `frame`.
pub open spec fn motion(target: Rect, duration_ms: u32, visible: bool, frame: Rect) -> Motion {
    if duration_ms == 0 || !visible {
        Motion::Jump
    } else if frame == target {
        Motion::Rest
    } else {
        Motion::Glide
    }
}

/// What a new target asks for.
pub fn motion_for(target: Rect, duration_ms: u32, visible: bool, frame: Rect) -> (r: Motion)
    ensures
        r == motion(target, duration_ms, visible, frame),
{
    if duration_ms == 0 || !visible {
        Motion::Jump
    } else if frame == target {
        Motion::Rest
    } else {
        Motion::Glide
    }
}

/// The animations without that of `w`.
pub open spec fn still(anims: Seq<Anim>, w: Window) -> Seq<Anim>
    decreases anims.len(),
{
    if anims.len() == 0 {
        anims
    } else if anims.last().window == w {
        still(anims.drop_last(), w)
    } else {
        still(anims.drop_last(), w).push(anims.last())
    }
}

/// A share of the way from `a` to `b`.
pub open spec fn between(a: int, b: int, eased: u32) -> i32 {
    sat(a + scaled(sat(b - a) as int, eased * 0x4000_0000))
}

/// Where an animation is after a share of its way.
pub open spec fn rect_at(a: Anim, eased: u32) -> Rect {
    Rect {
        x: between(a.from.x as int, a.to.x as int, eased),
        y: between(a.from.y as int, a.to.y as int, eased),
        w: between(a.from.w as int, a.to.w as int, eased),
        h: between(a.from.h as int, a.to.h as int, eased),
    }
}

fn lerp(a: i32, b: i32, eased: u32) -> (r: i32)
    ensures
        r == between(a as int, b as int, eased),
{
    let f = Factor { units: eased as u128 * 0x4000_0000 };
    let way: i32 = clip(b as i64 - a as i64);
    clip(a as i64 + f.times(way) as i64)
}

/// The placements of one frame.
pub open spec fn frame(anims: Seq<Anim>, beats: Seq<Beat>) -> Seq<Placement>
    decreases anims.len(),
{
    if anims.len() == 0 {
        Seq::empty()
    } else {
        let a = anims.last();
        let b = beats[anims.len() - 1];
        let f = frame(anims.drop_last(), beats);
        if b.alive {
            f.push(Placement { window: a.window, rect: around(rect_at(a, b.eased), a.offsets) })
        } else {
            f
        }
    }
}

/// The animations that go on after a frame.
pub open spec fn going_on(anims: Seq<Anim>, beats: Seq<Beat>) -> Seq<Anim>
    decreases anims.len(),
{
    if anims.len() == 0 {
        anims
    } else {
        let b = beats[anims.len() - 1];
        let g = going_on(anims.drop_last(), beats);
        if b.alive && !b.done {
            g.push(anims.last())
        } else {
            g
        }
    }
}

proof fn lemma_still(anims: Seq<Anim>, w: Window)
    requires
        one_each(anims),
    ensures
        one_each(still(anims, w)),
        forall|i: int|
            0 <= i < still(anims, w).len() ==> (#[trigger] still(anims, w)[i]).window != w
                && anims.contains(still(anims, w)[i]),
    decreases anims.len(),
{
    if anims.len() > 0 {
        let front = anims.drop_last();
        let last = anims[anims.len() - 1];
        lemma_front(anims);
        lemma_still(front, w);
        let rest = still(front, w);
        let all = still(anims, w);
        assert forall|i: int| 0 <= i < all.len() implies (#[trigger] all[i]).window != w
            && anims.contains(all[i]) by {
            if i < rest.len() {
                assert(all[i] == rest[i]);
                lemma_in_front(anims, rest[i]);
            }
        }
        assert forall|i: int, j: int| 0 <= i < j < all.len() implies (#[trigger] all[i]).window != (
        #[trigger] all[j]).window by {
            assert(all[i] == rest[i]);
            if j < rest.len() {
                assert(all[j] == rest[j]);
            } else {
                let k = choose|k: int| 0 <= k < front.len() && front[k] == rest[i];
                assert(anims[k].window != last.window);
            }
        }
    }
}

proof fn lemma_front(anims: Seq<Anim>)
    requires
        one_each(anims),
        anims.len() > 0,
    ensures
        one_each(anims.drop_last()),
{
    let front = anims.drop_last();
    assert forall|i: int, j: int| 0 <= i < j < front.len() implies (#[trigger] front[i]).window != (
    #[trigger] front[j]).window by {
        assert(front[i] == anims[i] && front[j] == anims[j]);
    }
}

proof fn lemma_in_front(anims: Seq<Anim>, a: Anim)
    requires
        anims.len() > 0,
    ensures
        anims.drop_last().contains(a) ==> anims.contains(a),
{
    let front = anims.drop_last();
    if front.contains(a) {
        let k = choose|k: int| 0 <= k < front.len() && front[k] == a;
        assert(anims[k] == a);
    }
}

proof fn lemma_going_on(anims: Seq<Anim>, beats: Seq<Beat>)
    requires
        one_each(anims),
    ensures
        one_each(going_on(anims, beats)),
        forall|i: int|
            0 <= i < going_on(anims, beats).len() ==> anims.contains(
                #[trigger] going_on(anims, beats)[i],
            ),
    decreases anims.len(),
{
    if anims.len() > 0 {
        let front = anims.drop_last();
        let last = anims[anims.len() - 1];
        lemma_front(anims);
        lemma_going_on(front, beats);
        let rest = going_on(front, beats);
        let all = going_on(anims, beats);
        assert forall|i: int| 0 <= i < all.len() implies anims.contains(#[trigger] all[i]) by {
            if i < rest.len() {
                assert(all[i] == rest[i]);
                lemma_in_front(anims, rest[i]);
            }
        }
        assert forall|i: int, j: int| 0 <= i < j < all.len() implies (#[trigger] all[i]).window != (
        #[trigger] all[j]).window by {
            assert(all[i] == rest[i]);
            if j < rest.len() {
                assert(all[j] == rest[j]);
            } else {
                let k = choose|k: int| 0 <= k < front.len() && front[k] == rest[i];
                assert(anims[k].window != last.window);
            }
        }
    }
}

impl Default for Animations {
    fn default() -> (r: Animations)
        ensures
            r.wf(),
            r@.len() == 0,
            r.timer_id() == 0,
    {
        Animations { anims: Vec::new(), timer: 0 }
    }
}

impl Animations {
    /// A window has at most one animation.
    pub open spec fn wf(&self) -> bool {
        one_each(self@)
    }

    /// The timer that drives them, or 0.
    pub closed spec fn timer_id(&self) -> usize {
        self.timer
    }

    /// The windows on their way.
    pub fn list(&self) -> (r: &Vec<Anim>)
        ensures
            r@ == self@,
    {
        &self.anims
    }

    fn stop(&mut self, w: Window)
        requires
            old(self).wf(),
        ensures
            final(self).wf(),
            final(self)@ == still(old(self)@, w),
            final(self).timer_id() == old(self).timer_id(),
    {
        proof {
            lemma_still(self@, w);
        }
        let mut r: Vec<Anim> = Vec::new();
        let mut i: usize = 0;
        proof {
            assert(self.anims@.take(0) =~= Seq::empty());
        }
        while i < self.anims.len()
            invariant
                i <= self.anims.len(),
                r@ == still(self.anims@.take(i as int), w),
            decreases self.anims.len() - i,
        {
            proof {
                assert(self.anims@.take(i + 1).drop_last() =~= self.anims@.take(i as int));
            }
            if self.anims[i].window != w {
                r.push(self.anims[i]);
            }
            i = i + 1;
        }
        proof {
            assert(self.anims@.take(i as int) =~= self.anims@);
        }
        self.anims = r;
    }

    /// A new target for a window, whose visible frame is `frame` and lies
    /// inside the window by `offsets`. An invisible window, or one without
    /// animation, is placed at once. One that glides gets one animation, from
    /// its frame to the target and beginning now, in place of any it has.
    /// Says what to do, and whether the timer has to be started.
    pub fn set_target(
        &mut self,
        w: Window,
        target: Rect,
        duration_ms: u32,
        visible: bool,
        frame: Rect,
        offsets: (i32, i32, i32, i32),
        now_ms: u64,
    ) -> (r: (Motion, bool))
        requires
            old(self).wf(),
        ensures
            final(self).wf(),
            r.0 == motion(target, duration_ms, visible, frame),
            r.1 == (r.0 == Motion::Glide && old(self).timer_id() == 0),
            final(self).timer_id() == old(self).timer_id(),
            final(self)@ == if r.0 == Motion::Glide {
                still(old(self)@, w).push(
                    Anim {
                        window: w,
                        from: frame,
                        to: target,
                        offsets,
                        start_ms: now_ms,
                        duration_ms,
                    },
                )
            } else {
                still(old(self)@, w)
            },
    {
        self.stop(w);
        let m = motion_for(target, duration_ms, visible, frame);
        if m != Motion::Glide {
            return (m, false);
        }
        let ghost rest = self.anims@;
        self.anims.push(
            Anim { window: w, from: frame, to: target, offsets, start_ms: now_ms, duration_ms },
        );
        proof {
            lemma_still(old(self)@, w);
            assert(rest == still(old(self)@, w));
        }
        (m, self.timer == 0)
    }

    /// Is this the timer of the animations?
    pub fn is_anim_timer(&self, id: usize) -> (r: bool)
        ensures
            r == (id != 0 && self.timer_id() == id),
    {
        id != 0 && self.timer == id
    }

    /// Takes over the timer that was started.
    pub fn timer_started(&mut self, id: usize)
        ensures
            final(self).timer_id() == id,
            final(self)@ == old(self)@,
    {
        self.timer = id;
    }

    /// One frame: places every window that is alive, and drops animations
    /// that are over. Gives back the placements and, when nothing moves any
    /// more, the timer to stop.
    pub fn tick(&mut self, beats: &Vec<Beat>) -> (r: (Vec<Placement>, Option<usize>))
        requires
            old(self).wf(),
            beats.len() == old(self)@.len(),
        ensures
            final(self).wf(),
            r.0@ == frame(old(self)@, beats@),
            final(self)@ == going_on(old(self)@, beats@),
            r.1 == if final(self)@.len() == 0 && old(self).timer_id() != 0 {
                Some(old(self).timer_id())
            } else {
                None
            },
            final(self).timer_id() == if r.1 is Some {
                0
            } else {
                old(self).timer_id()
            },
    {
        proof {
            lemma_going_on(self@, beats@);
        }
        let mut out: Vec<Placement> = Vec::new();
        let mut rest: Vec<Anim> = Vec::new();
        let mut i: usize = 0;
        proof {
            assert(self.anims@.take(0) =~= Seq::empty());
        }
        while i < self.anims.len()
            invariant
                i <= self.anims.len(),
                beats.len() == self.anims.len(),
                out@ == frame(self.anims@.take(i as int), beats@),
                rest@ == going_on(self.anims@.take(i as int), beats@),
            decreases self.anims.len() - i,
        {
            proof {
                assert(self.anims@.take(i + 1).drop_last() =~= self.anims@.take(i as int));
            }
            let a = self.anims[i];
            let b = beats[i];
            if b.alive {
                let rect = Rect {
                    x: lerp(a.from.x, a.to.x, b.eased),
                    y: lerp(a.from.y, a.to.y, b.eased),
                    w: lerp(a.from.w, a.to.w, b.eased),
                    h: lerp(a.from.h, a.to.h, b.eased),
                };
                out.push(Placement { window: a.window, rect: place_visible(rect, a.offsets) });
                if !b.done {
                    rest.push(a);
                }
            }
            i = i + 1;
        }
        proof {
            assert(self.anims@.take(i as int) =~= self.anims@);
        }
        self.anims = rest;
        let mut stop: Option<usize> = None;
        if self.anims.len() == 0 && self.timer != 0 {
            stop = Some(self.timer);
            self.timer = 0;
        }
        (out, stop)
    }
}

// -------------------------------------------------------------------- laws

/// The distance from `a` to `b`.
pub open spec fn way(a: int, b: int) -> nat {
    if b < a {
        (a - b) as nat
    } else {
        (b - a) as nat
    }
}

/// The distance from `a` to `b` is one that single precision holds, as every
/// distance up to 2^24 is.
pub open spec fn exact_way(a: int, b: int) -> bool {
    i32::MIN <= b - a <= i32::MAX && sig24(way(a, b)) == way(a, b)
}

/// The distance from `a` to `b` is not rounded up to single precision.
pub open spec fn short_way(a: int, b: int) -> bool {
    i32::MIN <= b - a <= i32::MAX && sig24(way(a, b)) <= way(a, b)
}

/// `v` lies between `a` and `b`.
pub open spec fn on_the_way(a: int, v: int, b: int) -> bool {
    a <= v <= b || b <= v <= a
}

/// Distances up to 2^24 pixels are held exactly.
pub proof fn law_small_distances_are_exact(a: int, b: int)
    requires
        -0x100_0000 <= b - a <= 0x100_0000,
    ensures
        exact_way(a, b),
        short_way(a, b),
{
    lemma_sig24(way(a, b));
    if way(a, b) == 0x100_0000 {
        lemma2_to64();
        lemma_sig24_shifted(0x80_0000, 1);
    }
}

/// At the end of its way an animation is at its target, as far as single
/// precision holds the distances.
pub proof fn law_animation_ends_at_target(a: Anim)
    requires
        exact_way(a.from.x as int, a.to.x as int),
        exact_way(a.from.y as int, a.to.y as int),
        exact_way(a.from.w as int, a.to.w as int),
        exact_way(a.from.h as int, a.to.h as int),
    ensures
        rect_at(a, 0x100_0000) == a.to,
{
    lemma_full_way(a.from.x as int, a.to.x as int);
    lemma_full_way(a.from.y as int, a.to.y as int);
    lemma_full_way(a.from.w as int, a.to.w as int);
    lemma_full_way(a.from.h as int, a.to.h as int);
}

/// With a share of at most 2^24 an animation stays between its start and its
/// target, as far as the distances are not rounded up.
pub proof fn law_animation_stays_on_its_way(a: Anim, eased: u32)
    requires
        eased <= 0x100_0000,
        short_way(a.from.x as int, a.to.x as int),
        short_way(a.from.y as int, a.to.y as int),
        short_way(a.from.w as int, a.to.w as int),
        short_way(a.from.h as int, a.to.h as int),
    ensures
        ({
            let r = rect_at(a, eased);
            &&& on_the_way(a.from.x as int, r.x as int, a.to.x as int)
            &&& on_the_way(a.from.y as int, r.y as int, a.to.y as int)
            &&& on_the_way(a.from.w as int, r.w as int, a.to.w as int)
            &&& on_the_way(a.from.h as int, r.h as int, a.to.h as int)
        }),
{
    lemma_part_of_way(a.from.x as int, a.to.x as int, eased);
    lemma_part_of_way(a.from.y as int, a.to.y as int, eased);
    lemma_part_of_way(a.from.w as int, a.to.w as int, eased);
    lemma_part_of_way(a.from.h as int, a.to.h as int, eased);
}

/// A share of a rounded distance is at most that distance, and the whole share
/// is all of it.
proof fn lemma_share(n: nat, eased: u32)
    requires
        eased <= 0x100_0000,
    ensures
        ({
            let x = (sig24(n) * (eased * 0x4000_0000)) as nat;
            let q = sig24(x) / 0x40_0000_0000_0000;
            &&& 0 <= q <= sig24(n)
            &&& eased == 0x100_0000 ==> q == sig24(n)
        }),
{
    let d = sig24(n);
    let (m, e) = lemma_sig24_form(n);
    lemma2_to64();
    lemma_pow2_adds(32, 22);
    assert(pow2(54) == 0x40_0000_0000_0000);
    lemma_pow2_adds(e, 54);
    let units = eased * 0x4000_0000;
    let x = d * units;
    assert(d >= 0) by (nonlinear_arith)
        requires
            d == m * pow2(e),
    ;
    assert(d * 0x40_0000_0000_0000 == m * pow2(e + 54)) by (nonlinear_arith)
        requires
            d == m * pow2(e),
            pow2(e + 54) == pow2(e) * pow2(54),
            pow2(54) == 0x40_0000_0000_0000,
    ;
    assert(0 <= x <= d * 0x40_0000_0000_0000) by (nonlinear_arith)
        requires
            x == d * units,
            0 <= units <= 0x40_0000_0000_0000,
            d >= 0,
    ;
    lemma_sig24_below(x as nat, m, e + 54);
    let y = sig24(x as nat);
    let q = y / 0x40_0000_0000_0000;
    assert(0 <= q <= d) by (nonlinear_arith)
        requires
            q == y / 0x40_0000_0000_0000,
            0 <= y <= d * 0x40_0000_0000_0000,
    ;
    if eased == 0x100_0000 {
        lemma_sig24_shifted(m, e + 54);
        assert(x == d * 0x40_0000_0000_0000);
        assert(q == d) by (nonlinear_arith)
            requires
                q == y / 0x40_0000_0000_0000,
                y == d * 0x40_0000_0000_0000,
        ;
    }
}

proof fn lemma_part_of_way(a: int, b: int, eased: u32)
    requires
        short_way(a, b),
        i32::MIN <= a <= i32::MAX,
        i32::MIN <= b <= i32::MAX,
        eased <= 0x100_0000,
    ensures
        on_the_way(a, between(a, b, eased) as int, b),
{
    lemma_share(way(a, b), eased);
    assert(sat(b - a) == b - a);
}

proof fn lemma_full_way(a: int, b: int)
    requires
        exact_way(a, b),
        i32::MIN <= a <= i32::MAX,
        i32::MIN <= b <= i32::MAX,
    ensures
        between(a, b, 0x100_0000) == b,
{
    lemma_share(way(a, b), 0x100_0000);
    assert(sat(b - a) == b - a);
}

} // verus!
