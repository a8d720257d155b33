//! Layout arithmetic: rectangles, the spiral that tiles them, and the way a
//! mouse resize changes the splits.
//!
//! Coordinates are 32-bit. Sums are taken exactly and, where one leaves the
//! range, held at its end.

use crate::single::{law_keep_below_span, law_share_is_kept, Ratio, R_0_50};
use vstd::prelude::*;

verus! {

/// `v` held to the range of 32-bit integers.
pub open spec fn sat(v: int) -> i32 {
    if v > i32::MAX {
        i32::MAX
    } else if v < i32::MIN {
        i32::MIN
    } else {
        v as i32
    }
}

/// `v` held to the range of 32-bit integers.
pub fn clip(v: i64) -> (r: i32)
    ensures
        r == sat(v as int),
{
    if v > i32::MAX as i64 {
        i32::MAX
    } else if v < i32::MIN as i64 {
        i32::MIN
    } else {
        v as i32
    }
}

pub open spec fn most(a: i32, b: i32) -> i32 {
    if a < b {
        b
    } else {
        a
    }
}

pub open spec fn least(a: i32, b: i32) -> i32 {
    if b < a {
        b
    } else {
        a
    }
}

/// The larger of two integers.
pub fn larger(a: i32, b: i32) -> (r: i32)
    ensures
        r == most(a, b),
{
    if a < b {
        b
    } else {
        a
    }
}

/// The smaller of two integers.
pub fn smaller(a: i32, b: i32) -> (r: i32)
    ensures
        r == least(a, b),
{
    if b < a {
        b
    } else {
        a
    }
}

pub open spec fn distance(a: int, b: int) -> int {
    if a < b {
        b - a
    } else {
        a - b
    }
}

fn apart(a: i64, b: i64) -> (r: i64)
    requires
        -0x4_0000_0000 <= a <= 0x4_0000_0000,
        -0x4_0000_0000 <= b <= 0x4_0000_0000,
    ensures
        r == distance(a as int, b as int),
{
    if a < b {
        b - a
    } else {
        a - b
    }
}

/// A rectangle: its upper left corner and its size.
#[derive(Clone, Copy, Debug, PartialEq, Eq, Structural)]
pub struct Rect {
    pub x: i32,
    pub y: i32,
    pub w: i32,
    pub h: i32,
}

impl Default for Rect {
    fn default() -> (r: Rect)
        ensures
            r == (Rect { x: 0, y: 0, w: 0, h: 0 }),
    {
        Rect { x: 0, y: 0, w: 0, h: 0 }
    }
}

impl Rect {
    /// The point is inside: the left and upper edge count, the right and
    /// lower edge do not.
    pub open spec fn holds(self, px: int, py: int) -> bool {
        self.x <= px < self.x + self.w && self.y <= py < self.y + self.h
    }

    /// Drawn in by `by` on every side, keeping at least one pixel each way.
    pub open spec fn shrunk(self, by: int) -> Rect {
        Rect {
            x: sat(self.x + by),
            y: sat(self.y + by),
            w: most(sat(self.w - 2 * by), 1),
            h: most(sat(self.h - 2 * by), 1),
        }
    }

    pub fn contains(&self, px: i32, py: i32) -> (r: bool)
        ensures
            r == self.holds(px as int, py as int),
    {
        px >= self.x && (px as i64) < self.x as i64 + self.w as i64 && py >= self.y && (py as i64)
            < self.y as i64 + self.h as i64
    }

    pub fn shrink(&self, by: i32) -> (r: Rect)
        ensures
            r == self.shrunk(by as int),
    {
        let b: i64 = by as i64;
        Rect {
            x: clip(self.x as i64 + b),
            y: clip(self.y as i64 + b),
            w: larger(clip(self.w as i64 - 2 * b), 1),
            h: larger(clip(self.h as i64 - 2 * b), 1),
        }
    }
}

/// Division that cuts off toward zero.
pub open spec fn quot(a: int, b: int) -> int {
    if a >= 0 {
        a / b
    } else {
        -((-a) / b)
    }
}

/// Division that cuts off toward zero.
pub fn divided(a: i64, b: i64) -> (r: i64)
    requires
        b > 0,
        a > i64::MIN,
    ensures
        r == quot(a as int, b as int),
        a >= 0 ==> 0 <= r <= a,
        a < 0 ==> a <= r <= 0,
{
    if a >= 0 {
        proof {
            assert(0 <= a as int / b as int <= a) by (nonlinear_arith)
                requires
                    a >= 0,
                    b > 0,
            ;
        }
        a / b
    } else {
        proof {
            let n = -(a as int);
            assert(0 <= n / b as int <= n) by (nonlinear_arith)
                requires
                    n >= 0,
                    b > 0,
            ;
        }
        -((-a) / b)
    }
}

impl Rect {
    /// A rectangle of the given size in the middle of this one.
    pub open spec fn middle(self, w: int, h: int) -> Rect {
        Rect {
            x: sat(self.x + quot(self.w - w, 2)),
            y: sat(self.y + quot(self.h - h, 2)),
            w: sat(w),
            h: sat(h),
        }
    }

    /// Three fifths of the size of this one.
    pub open spec fn three_fifths(self) -> (int, int) {
        (quot(3 * self.w, 5), quot(3 * self.h, 5))
    }

    /// A rectangle of three fifths of the size in the middle of this one.
    pub open spec fn popped_out(self) -> Rect {
        self.middle(self.three_fifths().0, self.three_fifths().1)
    }

    /// A rectangle of the given size in the middle of this one.
    pub fn centered(&self, w: i32, h: i32) -> (r: Rect)
        ensures
            r == self.middle(w as int, h as int),
    {
        Rect {
            x: clip(self.x as i64 + divided(self.w as i64 - w as i64, 2)),
            y: clip(self.y as i64 + divided(self.h as i64 - h as i64, 2)),
            w,
            h,
        }
    }

    /// A size of three fifths of this rectangle's.
    pub fn pop_size(&self) -> (r: (i32, i32))
        ensures
            r.0 == self.three_fifths().0,
            r.1 == self.three_fifths().1,
    {
        (divided(3 * self.w as i64, 5) as i32, divided(3 * self.h as i64, 5) as i32)
    }

    /// A rectangle of three fifths of the size in the middle of this one.
    pub fn pop_out(&self) -> (r: Rect)
        ensures
            r == self.popped_out(),
    {
        let (w, h): (i32, i32) = self.pop_size();
        self.centered(w, h)
    }
}

// ------------------------------------------------------------------ spiral

/// The share kept at split `i`; an even one where none is given.
pub open spec fn ratio_at(ratios: Seq<Ratio>, i: int) -> Ratio {
    if 0 <= i < ratios.len() {
        ratios[i]
    } else {
        (Ratio { bits: R_0_50 })
    }
}

/// Is `r` split into left and right, rather than top and bottom?
pub open spec fn wide(r: Rect) -> bool {
    r.w >= r.h
}

/// The side that is split.
pub open spec fn side(r: Rect) -> i32 {
    if wide(r) {
        r.w
    } else {
        r.h
    }
}

/// What a split divides: the side without the gap.
pub open spec fn span(r: Rect, gap: int) -> i32 {
    most(sat(side(r) - gap), 2)
}

/// Where the split falls, counted from the near edge.
pub open spec fn cut(r: Rect, ratio: Ratio, gap: int) -> int {
    ratio.kept(span(r, gap) as int)
}

/// The near part of a split.
pub open spec fn near(r: Rect, ratio: Ratio, gap: int) -> Rect {
    let c = cut(r, ratio, gap);
    if wide(r) {
        Rect { w: most(c as i32, 1), ..r }
    } else {
        Rect { h: most(c as i32, 1), ..r }
    }
}

/// The far part of a split, which the next windows share.
pub open spec fn far(r: Rect, ratio: Ratio, gap: int) -> Rect {
    let c = cut(r, ratio, gap);
    if wide(r) {
        Rect { x: sat(r.x + c + gap), w: most(sat(r.w - c - gap), 1), ..r }
    } else {
        Rect { y: sat(r.y + c + gap), h: most(sat(r.h - c - gap), 1), ..r }
    }
}

/// What is left of the area after `j` splits.
pub open spec fn remainder(area: Rect, ratios: Seq<Ratio>, gap: int, j: nat) -> Rect
    decreases j,
{
    if j == 0 {
        area
    } else {
        far(
            remainder(area, ratios, gap, (j - 1) as nat),
            ratio_at(ratios, j - 1),
            gap,
        )
    }
}

/// The slot of window `i` among `count`.
pub open spec fn slot(area: Rect, count: nat, ratios: Seq<Ratio>, gap: int, i: int) -> Rect {
    let r = remainder(area, ratios, gap, i as nat);
    if i == count - 1 {
        r
    } else {
        near(r, ratio_at(ratios, i), gap)
    }
}

/// The slots of `count` windows, in order.
pub open spec fn slots(area: Rect, count: nat, ratios: Seq<Ratio>, gap: int) -> Seq<Rect> {
    Seq::new(count, |i: int| slot(area, count, ratios, gap, i))
}

fn span_of(r: Rect, gap: i32) -> (s: i32)
    ensures
        s == span(r, gap as int),
        s >= 2,
{
    let a: i32 = if r.w >= r.h {
        r.w
    } else {
        r.h
    };
    larger(clip(a as i64 - gap as i64), 2)
}

fn near_of(r: Rect, c: i32) -> (n: Rect)
    ensures
        forall|ratio: Ratio, gap: int|
            c == #[trigger] cut(r, ratio, gap) ==> n == near(r, ratio, gap),
{
    if r.w >= r.h {
        Rect { x: r.x, y: r.y, w: larger(c, 1), h: r.h }
    } else {
        Rect { x: r.x, y: r.y, w: r.w, h: larger(c, 1) }
    }
}

fn far_of(r: Rect, c: i32, gap: i32) -> (f: Rect)
    ensures
        forall|ratio: Ratio|
            c == #[trigger] cut(r, ratio, gap as int) ==> f == far(r, ratio, gap as int),
{
    let (c64, g): (i64, i64) = (c as i64, gap as i64);
    if r.w >= r.h {
        Rect {
            x: clip(r.x as i64 + c64 + g),
            y: r.y,
            w: larger(clip(r.w as i64 - c64 - g), 1),
            h: r.h,
        }
    } else {
        Rect {
            x: r.x,
            y: clip(r.y as i64 + c64 + g),
            w: r.w,
            h: larger(clip(r.h as i64 - c64 - g), 1),
        }
    }
}

fn ratio_or_even(ratios: &[Ratio], i: usize) -> (r: Ratio)
    ensures
        r == ratio_at(ratios@, i as int),
{
    if i < ratios.len() {
        ratios[i]
    } else {
        Ratio { bits: R_0_50 }
    }
}

/// The spiral: each window splits the space that is left, across its longer
/// side. `ratios[i]` is the share that window `i` keeps at its split; where
/// one is missing the split is even.
pub fn dwindle(area: Rect, count: usize, ratios: &[Ratio], gap: i32) -> (out: Vec<Rect>)
    ensures
        out@ == slots(area, count as nat, ratios@, gap as int),
{
    let mut out: Vec<Rect> = Vec::new();
    let mut cur = area;
    let mut i: usize = 0;
    while i < count
        invariant
            i <= count,
            cur == remainder(area, ratios@, gap as int, i as nat),
            out@ == slots(area, count as nat, ratios@, gap as int).take(i as int),
        decreases count - i,
    {
        if i == count - 1 {
            out.push(cur);
            proof {
                assert(out@ =~= slots(area, count as nat, ratios@, gap as int));
            }
            return out;
        }
        let ratio = ratio_or_even(ratios, i);
        let c: i32 = ratio.keep(span_of(cur, gap));
        out.push(near_of(cur, c));
        cur = far_of(cur, c, gap);
        proof {
            assert(out@ =~= slots(area, count as nat, ratios@, gap as int).take(i + 1));
        }
        i = i + 1;
    }
    out
}

// ------------------------------------------------------------------ resize

/// Edges that moved by no more than this count as unmoved.
pub const TOL: i32 = 4;

/// Enough ratios for `count` windows: missing ones are even.
pub open spec fn padded(ratios: Seq<Ratio>, count: nat) -> Seq<Ratio> {
    if ratios.len() + 1 < count {
        Seq::new((count - 1) as nat, |i: int| ratio_at(ratios, i))
    } else {
        ratios
    }
}

/// Where divider `j` was dragged to, if it was: window `idx` now has the
/// rectangle `actual`. It is dragged by that window's own far edge where the
/// split is its own, and by its near edge where that edge lies on the divider.
pub open spec fn dragged(
    area: Rect,
    count: nat,
    ratios: Seq<Ratio>,
    gap: int,
    idx: int,
    actual: Rect,
    j: int,
) -> Option<int> {
    let r = remainder(area, ratios, gap, j as nat);
    let c = cut(r, ratio_at(ratios, j), gap);
    let own = slot(area, count, ratios, gap, idx);
    if wide(r) {
        if j == idx {
            if distance(actual.x + actual.w, own.x + own.w) > TOL {
                Some(actual.x + actual.w)
            } else {
                None
            }
        } else if distance(own.x as int, r.x + c + gap) <= 2 && distance(
            actual.x as int,
            own.x as int,
        ) > TOL {
            Some(actual.x - gap)
        } else {
            None
        }
    } else {
        if j == idx {
            if distance(actual.y + actual.h, own.y + own.h) > TOL {
                Some(actual.y + actual.h)
            } else {
                None
            }
        } else if distance(own.y as int, r.y + c + gap) <= 2 && distance(
            actual.y as int,
            own.y as int,
        ) > TOL {
            Some(actual.y - gap)
        } else {
            None
        }
    }
}

/// The near edge of the split side.
pub open spec fn origin(r: Rect) -> i32 {
    if wide(r) {
        r.x
    } else {
        r.y
    }
}

/// The ratio at split `j` once window `idx` has been dragged to `actual`.
pub open spec fn dragged_ratio(
    area: Rect,
    count: nat,
    ratios: Seq<Ratio>,
    gap: int,
    idx: int,
    actual: Rect,
    j: int,
) -> Ratio {
    let r = remainder(area, ratios, gap, j as nat);
    if j <= idx && j < count - 1 {
        match dragged(area, count, ratios, gap, idx, actual, j) {
            Some(d) => Ratio::of_parts(sat(d - origin(r)) as int, span(r, gap) as int),
            None => ratios[j],
        }
    } else {
        ratios[j]
    }
}

/// All ratios once window `idx` has been dragged to `actual`.
pub open spec fn resized(
    area: Rect,
    count: nat,
    ratios: Seq<Ratio>,
    gap: int,
    idx: int,
    actual: Rect,
) -> Seq<Ratio> {
    if count < 2 || idx >= count {
        ratios
    } else {
        let all = padded(ratios, count);
        Seq::new(all.len(), |j: int| dragged_ratio(area, count, all, gap, idx, actual, j))
    }
}

/// Turns a mouse resize of tiled window `idx` into new ratios: its rectangle
/// changed from its slot to `actual`, so the dividers under the moved edges
/// get the ratios that put them there. A corner drag moves two edges and with
/// them two dividers.
#[verifier::spinoff_prover]
#[verifier::rlimit(50)]
pub fn resize_ratios(
    area: Rect,
    count: usize,
    ratios: &mut Vec<Ratio>,
    gap: i32,
    idx: usize,
    actual: Rect,
)
    ensures
        final(ratios)@ == resized(area, count as nat, old(ratios)@, gap as int, idx as int, actual),
{
    if count < 2 || idx >= count {
        return;
    }
    let ghost given = ratios@;
    while ratios.len() < count - 1
        invariant
            count >= 2,
            given.len() <= ratios.len(),
            given.len() + 1 < count ==> ratios.len() <= count - 1,
            given.len() + 1 >= count ==> ratios@ == given,
            forall|i: int| 0 <= i < ratios.len() ==> ratios@[i] == ratio_at(given, i),
        decreases count - 1 - ratios.len(),
    {
        ratios.push(Ratio { bits: R_0_50 });
    }
    let ghost all = ratios@;
    proof {
        assert(all =~= padded(given, count as nat));
    }
    let tiles = dwindle(area, count, ratios.as_slice(), gap);
    let own = tiles[idx];
    let g: i64 = gap as i64;
    let mut cur = area;
    let mut j: usize = 0;
    while j < count - 1 && j <= idx
        invariant
            2 <= count,
            idx < count,
            j <= count - 1,
            j <= idx + 1,
            g == gap,
            all == padded(given, count as nat),
            all.len() >= count - 1,
            own == slot(area, count as nat, all, gap as int, idx as int),
            cur == remainder(area, all, gap as int, j as nat),
            ratios.len() == all.len(),
            forall|k: int| 0 <= k < j ==> ratios@[k] == dragged_ratio(area, count as nat, all, gap as int, idx as int, actual, k),
            forall|k: int| j <= k < all.len() ==> ratios@[k] == all[k],
        decreases count - j,
    {
        let s: i32 = span_of(cur, gap);
        let c: i32 = ratios[j].keep(s);
        let (pos, size, at, length, from): (i32, i32, i32, i32, i32) = if cur.w >= cur.h {
            (own.x, own.w, actual.x, actual.w, cur.x)
        } else {
            (own.y, own.h, actual.y, actual.h, cur.y)
        };
        let (pos, size, at, length, from): (i64, i64, i64, i64, i64) = (
            pos as i64,
            size as i64,
            at as i64,
            length as i64,
            from as i64,
        );
        let moved: Option<i64> = if j == idx {
            if apart(at + length, pos + size) > TOL as i64 {
                Some(at + length)
            } else {
                None
            }
        } else if apart(pos, from + c as i64 + g) <= 2 && apart(at, pos) > TOL as i64 {
            Some(at - g)
        } else {
            None
        };
        let ghost before = ratios@;
        if let Some(d) = moved {
            ratios.set(j, Ratio::share(clip(d - from), s));
        }
        cur = far_of(cur, c, gap);
        j = j + 1;
    }
    proof {
        assert(ratios@ =~= resized(area, count as nat, given, gap as int, idx as int, actual));
    }
}

// -------------------------------------------------------------------- laws

pub open spec fn overlap(a: Rect, b: Rect) -> bool {
    a.x < b.x + b.w && b.x < a.x + a.w && a.y < b.y + b.h && b.y < a.y + a.h
}

/// `a` lies inside `b`.
pub open spec fn inside(a: Rect, b: Rect) -> bool {
    b.x <= a.x && b.y <= a.y && a.x + a.w <= b.x + b.w && a.y + a.h <= b.y + b.h
}

/// Split `j` starts its far part within the coordinates, and separates the
/// two parts: there is a gap, or the near part keeps a pixel of its own.
pub open spec fn separates(area: Rect, ratios: Seq<Ratio>, gap: int, j: int) -> bool {
    let r = remainder(area, ratios, gap, j as nat);
    let c = cut(r, ratio_at(ratios, j), gap);
    origin(r) + c + gap <= i32::MAX && (gap >= 1 || c >= 1)
}

/// Split `j` has room for both parts.
pub open spec fn roomy(area: Rect, ratios: Seq<Ratio>, gap: int, j: int) -> bool {
    side(remainder(area, ratios, gap, j as nat)) - gap >= 2
}

proof fn lemma_remainder_moves_on(area: Rect, ratios: Seq<Ratio>, gap: int, j: nat, k: nat)
    requires
        gap >= 0,
        j <= k,
    ensures
        remainder(area, ratios, gap, j).x <= remainder(area, ratios, gap, k).x,
        remainder(area, ratios, gap, j).y <= remainder(area, ratios, gap, k).y,
    decreases k,
{
    if j < k {
        lemma_remainder_moves_on(area, ratios, gap, j, (k - 1) as nat);
        let r = remainder(area, ratios, gap, (k - 1) as nat);
        law_keep_below_span(ratio_at(ratios, k - 1), span(r, gap) as int);
    }
}

/// No two windows overlap, where every split separates its parts. (Where a
/// split has no gap and keeps nothing, its near part is still drawn one pixel
/// wide, over the far part.)
pub proof fn law_rects_never_overlap(
    area: Rect,
    count: nat,
    ratios: Seq<Ratio>,
    gap: int,
    i: int,
    k: int,
)
    requires
        0 <= i < k < count,
        gap >= 0,
        forall|j: int| 0 <= j < count - 1 ==> separates(area, ratios, gap, j),
    ensures
        !overlap(
            slots(area, count, ratios, gap)[i],
            slots(area, count, ratios, gap)[k],
        ),
{
    assert(separates(area, ratios, gap, i));
    lemma_remainder_moves_on(area, ratios, gap, (i + 1) as nat, k as nat);
    let r = remainder(area, ratios, gap, i as nat);
    law_keep_below_span(ratio_at(ratios, i), span(r, gap) as int);
    assert(remainder(area, ratios, gap, (i + 1) as nat) == far(r, ratio_at(ratios, i), gap));
}

/// A lone window fills the area.
pub proof fn law_single_window_fills_area(area: Rect, ratios: Seq<Ratio>, gap: int)
    ensures
        slots(area, 1, ratios, gap) =~= seq![area],
{
}

/// A split with room, whose near part keeps a pixel, divides its side fully:
/// near part, gap and far part add up to it, and the other side is shared.
pub proof fn law_split_fills(r: Rect, ratio: Ratio, gap: int)
    requires
        0 <= gap,
        side(r) - gap >= 2,
        cut(r, ratio, gap) >= 1,
    ensures
        side(r) == if wide(r) {
            near(r, ratio, gap).w + gap + far(r, ratio, gap).w
        } else {
            near(r, ratio, gap).h + gap + far(r, ratio, gap).h
        },
        wide(r) ==> near(r, ratio, gap).h == r.h && far(r, ratio, gap).h == r.h,
        !wide(r) ==> near(r, ratio, gap).w == r.w && far(r, ratio, gap).w == r.w,
{
    law_keep_below_span(ratio, span(r, gap) as int);
}

proof fn lemma_remainder_inside(area: Rect, ratios: Seq<Ratio>, gap: int, j: nat)
    requires
        gap >= 0,
        area.x + area.w <= i32::MAX,
        area.y + area.h <= i32::MAX,
        forall|k: int| 0 <= k < j ==> roomy(area, ratios, gap, k),
    ensures
        inside(remainder(area, ratios, gap, j), area),
    decreases j,
{
    if j > 0 {
        lemma_remainder_inside(area, ratios, gap, (j - 1) as nat);
        assert(roomy(area, ratios, gap, j - 1));
        let r = remainder(area, ratios, gap, (j - 1) as nat);
        law_keep_below_span(ratio_at(ratios, j - 1), span(r, gap) as int);
    }
}

/// While every split has room, all windows stay inside the area.
pub proof fn law_slots_inside_area(area: Rect, count: nat, ratios: Seq<Ratio>, gap: int, i: int)
    requires
        0 <= i < count,
        gap >= 0,
        area.x + area.w <= i32::MAX,
        area.y + area.h <= i32::MAX,
        forall|k: int| 0 <= k < count - 1 ==> roomy(area, ratios, gap, k),
    ensures
        inside(slots(area, count, ratios, gap)[i], area),
{
    lemma_remainder_inside(area, ratios, gap, i as nat);
    if i < count - 1 {
        assert(roomy(area, ratios, gap, i));
        let r = remainder(area, ratios, gap, i as nat);
        law_keep_below_span(ratio_at(ratios, i), span(r, gap) as int);
    }
}

pub proof fn lemma_remainder_same(
    area: Rect,
    a: Seq<Ratio>,
    b: Seq<Ratio>,
    gap: int,
    j: nat,
)
    requires
        forall|k: int| 0 <= k < j ==> ratio_at(a, k) == ratio_at(b, k),
    ensures
        remainder(area, a, gap, j) == remainder(area, b, gap, j),
    decreases j,
{
    if j > 0 {
        lemma_remainder_same(area, a, b, gap, (j - 1) as nat);
    }
}

/// Filling up missing ratios moves no window.
pub proof fn law_padding_keeps_layout(area: Rect, count: nat, ratios: Seq<Ratio>, gap: int)
    ensures
        slots(area, count, padded(ratios, count), gap) =~= slots(area, count, ratios, gap),
{
    assert forall|i: int| 0 <= i < count implies slot(area, count, padded(ratios, count), gap, i)
        == slot(area, count, ratios, gap, i) by {
        lemma_remainder_same(area, padded(ratios, count), ratios, gap, i as nat);
    }
}

/// Edges that moved by no more than the tolerance leave all ratios alone.
pub proof fn law_tiny_jitter_leaves_ratios_alone(
    area: Rect,
    count: nat,
    ratios: Seq<Ratio>,
    gap: int,
    idx: int,
    actual: Rect,
)
    requires
        2 <= count,
        0 <= idx < count,
        ({
            let own = slots(area, count, ratios, gap)[idx];
            &&& distance(actual.x as int, own.x as int) <= TOL
            &&& distance(actual.y as int, own.y as int) <= TOL
            &&& distance(actual.x + actual.w, own.x + own.w) <= TOL
            &&& distance(actual.y + actual.h, own.y + own.h) <= TOL
        }),
    ensures
        resized(area, count, ratios, gap, idx, actual) =~= padded(ratios, count),
{
    law_padding_keeps_layout(area, count, ratios, gap);
    assert(slots(area, count, padded(ratios, count), gap)[idx] == slots(area, count, ratios, gap)[idx]);
}

/// A drag leaves alone the ratios of every split behind the dragged window,
/// and of every split whose divider was not dragged.
pub proof fn law_untouched_splits_stay(
    area: Rect,
    count: nat,
    ratios: Seq<Ratio>,
    gap: int,
    idx: int,
    actual: Rect,
    j: int,
)
    requires
        2 <= count,
        0 <= idx < count,
        0 <= j < padded(ratios, count).len(),
        j > idx || j >= count - 1 || dragged(
            area,
            count,
            padded(ratios, count),
            gap,
            idx,
            actual,
            j,
        ) is None,
    ensures
        resized(area, count, ratios, gap, idx, actual)[j] == ratio_at(ratios, j),
{
}

/// The new layout honours a drag of a window's own far edge, up to two pixels
/// of rounding, when the near edges stayed and the divider ends between 0.15
/// and 0.85 of what it divides.
pub proof fn law_drag_is_honoured(
    area: Rect,
    count: nat,
    ratios: Seq<Ratio>,
    gap: int,
    idx: int,
    actual: Rect,
)
    requires
        2 <= count,
        0 <= idx < count - 1,
        ({
            let own = slots(area, count, ratios, gap)[idx];
            let r = remainder(area, ratios, gap, idx as nat);
            let s = span(r, gap);
            let size = if wide(r) {
                actual.x + actual.w - own.x
            } else {
                actual.y + actual.h - own.y
            };
            &&& distance(actual.x as int, own.x as int) <= TOL
            &&& distance(actual.y as int, own.y as int) <= TOL
            &&& wide(r) ==> distance(actual.x + actual.w, own.x + own.w) > TOL
            &&& !wide(r) ==> distance(actual.y + actual.h, own.y + own.h) > TOL
            &&& s < 0x100_0000
            &&& 3 * s <= 20 * size <= 17 * s
        }),
    ensures
        ({
            let own = slots(area, count, ratios, gap)[idx];
            let r = remainder(area, ratios, gap, idx as nat);
            let after = slots(
                area,
                count,
                resized(area, count, ratios, gap, idx, actual),
                gap,
            )[idx];
            if wide(r) {
                distance(after.w as int, actual.x + actual.w - own.x) <= 2
            } else {
                distance(after.h as int, actual.y + actual.h - own.y) <= 2
            }
        }),
{
    let all = padded(ratios, count);
    let new = resized(area, count, ratios, gap, idx, actual);
    law_padding_keeps_layout(area, count, ratios, gap);
    let own = slots(area, count, ratios, gap)[idx];
    assert(slots(area, count, all, gap)[idx] == own);
    lemma_remainder_same(area, all, ratios, gap, idx as nat);
    assert forall|k: int| 0 <= k < idx implies ratio_at(new, k) == ratio_at(ratios, k) by {
        assert(dragged(area, count, all, gap, idx, actual, k) is None);
    }
    lemma_remainder_same(area, new, ratios, gap, idx as nat);
    let r = remainder(area, ratios, gap, idx as nat);
    let s = span(r, gap) as int;
    let size = if wide(r) {
        actual.x + actual.w - own.x
    } else {
        actual.y + actual.h - own.y
    };
    assert(own.x == r.x && own.y == r.y);
    assert(ratio_at(new, idx) == Ratio::of_parts(size, s));
    law_share_is_kept(size, s);
    law_keep_below_span(ratio_at(new, idx), s);
}

} // verus!
