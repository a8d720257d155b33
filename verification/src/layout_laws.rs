//! How an area is divided: along its longer side, the near part first, the
//! rest in the same way.

use crate::layout::{far, ratio_at, remainder, slots, Rect};
use crate::single::{lemma_sig24, lemma_sig24_shifted, sig24, Ratio};
use vstd::prelude::*;

verus! {

/// What a split leaves for the others: to the right of the near part where the
/// area is at least as wide as high, and below it else.
pub open spec fn rest_of(area: Rect, ratio: Ratio, gap: int, rest: Rect) -> bool {
    if area.w >= area.h {
        let part = ratio.kept(area.w - gap);
        &&& rest.x == area.x + part + gap
        &&& rest.w == area.w - part - gap
        &&& rest.y == area.y
        &&& rest.h == area.h
    } else {
        let part = ratio.kept(area.h - gap);
        &&& rest.y == area.y + part + gap
        &&& rest.h == area.h - part - gap
        &&& rest.x == area.x
        &&& rest.w == area.w
    }
}

/// The first window of several has the near part: it begins where the area
/// does, has the full breadth of it, and the share of the longer side that its
/// ratio keeps.
pub proof fn law_first_window_has_the_near_part(
    area: Rect,
    count: nat,
    ratios: Seq<Ratio>,
    gap: int,
)
    requires
        count >= 2,
        ratios.len() > 0,
        0 <= gap,
        area.w - gap >= 2,
        area.h - gap >= 2,
        ratios[0].kept(area.w - gap) >= 1,
        ratios[0].kept(area.h - gap) >= 1,
        ratios[0].kept(area.w - gap) <= area.w,
        ratios[0].kept(area.h - gap) <= area.h,
    ensures
        ({
            let r = slots(area, count, ratios, gap)[0];
            &&& r.x == area.x
            &&& r.y == area.y
            &&& area.w >= area.h ==> r.h == area.h && r.w == ratios[0].kept(area.w - gap)
            &&& area.w < area.h ==> r.w == area.w && r.h == ratios[0].kept(area.h - gap)
        }),
{
}

/// The other windows share the rest in the same way, by the other ratios.
pub proof fn law_rest_is_divided_alike(
    area: Rect,
    count: nat,
    ratios: Seq<Ratio>,
    gap: int,
    rest: Rect,
    i: int,
)
    requires
        count >= 2,
        ratios.len() > 0,
        0 <= gap,
        area.w - gap >= 2,
        area.h - gap >= 2,
        rest_of(area, ratios[0], gap, rest),
        rest.w >= 1,
        rest.h >= 1,
        0 <= i < count - 1,
    ensures
        slots(area, count, ratios, gap)[i + 1] == slots(
            rest,
            (count - 1) as nat,
            ratios.drop_first(),
            gap,
        )[i],
{
    assert(far(area, ratios[0], gap) == rest);
    lemma_shifted(area, ratios, gap, rest, i as nat);
}

proof fn lemma_shifted(area: Rect, ratios: Seq<Ratio>, gap: int, rest: Rect, j: nat)
    requires
        ratios.len() > 0,
        far(area, ratios[0], gap) == rest,
    ensures
        remainder(area, ratios, gap, j + 1) == remainder(
            rest,
            ratios.drop_first(),
            gap,
            j,
        ),
    decreases j,
{
    if j == 0 {
        assert(remainder(area, ratios, gap, 0) == area);
        assert(remainder(rest, ratios.drop_first(), gap, 0) == rest);
    } else {
        lemma_shifted(area, ratios, gap, rest, (j - 1) as nat);
        assert(ratio_at(ratios, j as int) == ratio_at(
            ratios.drop_first(),
            j - 1,
        ));
    }
}

/// A split without a ratio of its own is in the middle, up to a pixel.
pub proof fn law_missing_ratio_is_a_half(area: Rect, count: nat, gap: int)
    requires
        count >= 2,
        0 <= gap,
        2 <= area.w - gap < 0x100_0000,
        2 <= area.h - gap < 0x100_0000,
    ensures
        ({
            let r = slots(area, count, Seq::<Ratio>::empty(), gap)[0];
            &&& area.w >= area.h ==> 0 <= (area.w - gap) - 2 * r.w <= 1
            &&& area.w < area.h ==> 0 <= (area.h - gap) - 2 * r.h <= 1
        }),
{
    lemma_half(area.w - gap);
    lemma_half(area.h - gap);
}

proof fn lemma_half(span: int)
    requires
        2 <= span < 0x100_0000,
    ensures
        (Ratio { bits: 0x3F00_0000 }).kept(span) == span / 2,
{
    lemma_sig24(span as nat);
    let r = Ratio { bits: 0x3F00_0000 };
    assert(r.clamped() == Some(0x800_0000int));
    lemma_sig24_shifted(span as nat, 27);
    vstd::arithmetic::power2::lemma2_to64();
    assert(sig24((span * 0x800_0000) as nat) == span * 0x800_0000);
}

} // verus!
