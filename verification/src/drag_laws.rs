//! What a drag of a tiled window's edges does to the layout: the dividers
//! under the moved edges follow, and no other does.

use crate::layout::{
    far, law_padding_keeps_layout, lemma_remainder_same, padded, ratio_at, remainder, resized, sat,
    slots, span, Rect,
};
use crate::single::{law_keep_below_span, law_share_is_kept, Ratio};
use vstd::prelude::*;

verus! {

/// How far apart two coordinates are.
pub open spec fn apart(a: int, b: int) -> int {
    if a < b {
        b - a
    } else {
        a - b
    }
}

/// What split `j` divides: the area without the windows before `j`, and
/// without the gaps behind them.
pub open spec fn divided_at(area: Rect, ratios: Seq<Ratio>, gap: int, j: int) -> Rect {
    remainder(area, ratios, gap, j as nat)
}

/// Split `j` stands side by side, as a part at least as wide as high does.
pub open spec fn sideways(area: Rect, ratios: Seq<Ratio>, gap: int, j: int) -> bool {
    let r = divided_at(area, ratios, gap, j);
    r.w >= r.h
}

/// The edges of a window in the direction of split `j`: left and right where
/// that stands side by side, else top and bottom.
pub open spec fn near_edge(sideways: bool, r: Rect) -> int {
    if sideways {
        r.x as int
    } else {
        r.y as int
    }
}

pub open spec fn far_edge(sideways: bool, r: Rect) -> int {
    if sideways {
        r.x + r.w
    } else {
        r.y + r.h
    }
}

/// How many pixels split `j` has to share out: its side without the gap.
pub open spec fn to_share(area: Rect, ratios: Seq<Ratio>, gap: int, j: int) -> int {
    let r = divided_at(area, ratios, gap, j);
    let free = (if r.w >= r.h {
        r.w as int
    } else {
        r.h as int
    }) - gap;
    if free < 2 {
        2
    } else {
        free
    }
}

/// The divider behind window `j` lies between 0.15 and 0.85 of what split `j`
/// shares out, where its near part ends at `end`.
pub open spec fn within_reach(area: Rect, ratios: Seq<Ratio>, gap: int, j: int, end: int) -> bool {
    let part = end - near_edge(
        sideways(area, ratios, gap, j),
        divided_at(area, ratios, gap, j),
    );
    let all = to_share(area, ratios, gap, j);
    all < 0x100_0000 && 3 * all <= 20 * part && 20 * part <= 17 * all
}

/// The near edge of window `idx` lies behind the gap that follows window `j`.
pub open spec fn leans_on(
    area: Rect,
    count: nat,
    ratios: Seq<Ratio>,
    gap: int,
    idx: int,
    j: int,
) -> bool {
    let side = sideways(area, ratios, gap, j);
    let all = slots(area, count, ratios, gap);
    0 <= j < idx < count && near_edge(side, all[idx]) == far_edge(side, all[j]) + gap
}

proof fn lemma_own_slot(area: Rect, count: nat, ratios: Seq<Ratio>, gap: int, k: int)
    requires
        2 <= count,
        0 <= k < count,
    ensures
        slots(area, count, padded(ratios, count), gap)[k] == slots(area, count, ratios, gap)[k],
        remainder(area, padded(ratios, count), gap, k as nat) == remainder(
            area,
            ratios,
            gap,
            k as nat,
        ),
        k < count - 1 ==> ratio_at(padded(ratios, count), k) == ratio_at(ratios, k),
{
    law_padding_keeps_layout(area, count, ratios, gap);
    lemma_remainder_same(area, padded(ratios, count), ratios, gap, k as nat);
}

/// A near edge that is dragged takes its divider along: where the near edge
/// of window `idx`, the left one at a side-by-side split and the top one at a
/// stacked split, follows the gap behind window `j`, and moved by more than
/// four pixels, the new ratio of split `j` lets the near part end a gap before
/// the dragged edge, up to two pixels, on the part that it divided.
pub proof fn law_near_drag_moves_the_divider(
    area: Rect,
    count: nat,
    ratios: Seq<Ratio>,
    gap: int,
    idx: int,
    actual: Rect,
    j: int,
)
    requires
        leans_on(area, count, ratios, gap, idx, j),
        ({
            let side = sideways(area, ratios, gap, j);
            let own = slots(area, count, ratios, gap)[idx];
            apart(near_edge(side, actual), near_edge(side, own)) > 4
        }),
        within_reach(
            area,
            ratios,
            gap,
            j,
            near_edge(sideways(area, ratios, gap, j), actual) - gap,
        ),
    ensures
        ({
            let side = sideways(area, ratios, gap, j);
            let r = divided_at(area, ratios, gap, j);
            let new = resized(area, count, ratios, gap, idx, actual);
            let end = near_edge(side, r) + new[j].kept(to_share(area, ratios, gap, j));
            j < new.len() && apart(end + gap, near_edge(side, actual)) <= 2
        }),
{
    let side = sideways(area, ratios, gap, j);
    let all = to_share(area, ratios, gap, j);
    let r = divided_at(area, ratios, gap, j);
    lemma_own_slot(area, count, ratios, gap, idx);
    lemma_own_slot(area, count, ratios, gap, j);
    let part = near_edge(side, actual) - gap - near_edge(side, r);
    law_keep_below_span(ratio_at(ratios, j), all);
    law_share_is_kept(part, all);
    let new = resized(area, count, ratios, gap, idx, actual);
    assert(new[j] == Ratio::of_parts(part, all));
}

/// The far edge of a window that is dragged takes its divider along, also
/// where another edge moves at the same time: where the far edge of window
/// `idx`, but not of the last, moved by more than four pixels, the new ratio of
/// split `idx` lets the window end at the dragged edge, up to two pixels, on
/// the part that it divided.
pub proof fn law_far_drag_moves_the_divider(
    area: Rect,
    count: nat,
    ratios: Seq<Ratio>,
    gap: int,
    idx: int,
    actual: Rect,
)
    requires
        0 <= idx < count - 1,
        ({
            let side = sideways(area, ratios, gap, idx);
            let own = slots(area, count, ratios, gap)[idx];
            apart(far_edge(side, actual), far_edge(side, own)) > 4
        }),
        within_reach(
            area,
            ratios,
            gap,
            idx,
            far_edge(sideways(area, ratios, gap, idx), actual),
        ),
    ensures
        ({
            let side = sideways(area, ratios, gap, idx);
            let r = divided_at(area, ratios, gap, idx);
            let new = resized(area, count, ratios, gap, idx, actual);
            let end = near_edge(side, r) + new[idx].kept(to_share(area, ratios, gap, idx));
            idx < new.len() && apart(end, far_edge(side, actual)) <= 2
        }),
{
    let side = sideways(area, ratios, gap, idx);
    let all = to_share(area, ratios, gap, idx);
    let r = divided_at(area, ratios, gap, idx);
    lemma_own_slot(area, count, ratios, gap, idx);
    let part = far_edge(side, actual) - near_edge(side, r);
    law_share_is_kept(part, all);
    let new = resized(area, count, ratios, gap, idx, actual);
    assert(new[idx] == Ratio::of_parts(part, all));
}

/// A divider stays where no dragged edge lies on it: behind the dragged
/// window, where the far edge moved by four pixels at most, or, before that
/// window, where the near edge in the direction of the split moved by four
/// pixels at most or lies more than three pixels from the gap.
pub proof fn law_other_dividers_stay(
    area: Rect,
    count: nat,
    ratios: Seq<Ratio>,
    gap: int,
    idx: int,
    actual: Rect,
    j: int,
)
    requires
        2 <= count,
        0 <= idx < count,
        0 <= j < count - 1,
        ({
            let side = sideways(area, ratios, gap, j);
            let all = slots(area, count, ratios, gap);
            let own = all[idx];
            ||| j > idx
            ||| j == idx && apart(far_edge(side, actual), far_edge(side, own)) <= 4
            ||| j < idx && (apart(near_edge(side, actual), near_edge(side, own)) <= 4 || apart(
                near_edge(side, own),
                far_edge(side, all[j]) + gap,
            ) > 3)
        }),
    ensures
        resized(area, count, ratios, gap, idx, actual)[j] == ratio_at(ratios, j),
{
    lemma_own_slot(area, count, ratios, gap, idx);
    lemma_own_slot(area, count, ratios, gap, j);
    let r = divided_at(area, ratios, gap, j);
    law_keep_below_span(ratio_at(ratios, j), span(r, gap) as int);
}

/// No edge of window `idx` takes along a divider before `j`: in the direction
/// of each such split, its near edge moved by four pixels at most, or lies more
/// than three pixels from the gap.
pub open spec fn steady_before(
    area: Rect,
    count: nat,
    ratios: Seq<Ratio>,
    gap: int,
    idx: int,
    actual: Rect,
    j: int,
) -> bool {
    let all = slots(area, count, ratios, gap);
    forall|k: int|
        0 <= k < j ==> ({
            let side = #[trigger] sideways(area, ratios, gap, k);
            apart(near_edge(side, actual), near_edge(side, all[idx])) <= 4 || apart(
                near_edge(side, all[idx]),
                far_edge(side, all[k]) + gap,
            ) > 3
        })
}

/// A drag of a window's near edge is honoured, in both directions: the new
/// layout ends window `j` a gap before the dragged edge, up to two pixels, and
/// begins the next window at that edge. So it begins the dragged window there,
/// where that is the next one or no split between them stands in the same
/// direction.
pub proof fn law_near_drag_is_honoured(
    area: Rect,
    count: nat,
    ratios: Seq<Ratio>,
    gap: int,
    idx: int,
    actual: Rect,
    j: int,
)
    requires
        leans_on(area, count, ratios, gap, idx, j),
        ({
            let side = sideways(area, ratios, gap, j);
            let own = slots(area, count, ratios, gap)[idx];
            apart(near_edge(side, actual), near_edge(side, own)) > 4
        }),
        within_reach(
            area,
            ratios,
            gap,
            j,
            near_edge(sideways(area, ratios, gap, j), actual) - gap,
        ),
        steady_before(area, count, ratios, gap, idx, actual, j),
    ensures
        ({
            let side = sideways(area, ratios, gap, j);
            let new = resized(area, count, ratios, gap, idx, actual);
            let after = slots(area, count, new, gap);
            &&& apart(far_edge(side, after[j]) + gap, near_edge(side, actual)) <= 2
            &&& apart(near_edge(side, after[j + 1]), near_edge(side, actual)) <= 2
            &&& (forall|k: int| j < k < idx ==> #[trigger] sideways(area, new, gap, k) != side)
                ==> apart(near_edge(side, after[idx]), near_edge(side, actual)) <= 2
        }),
{
    let side = sideways(area, ratios, gap, j);
    let new = resized(area, count, ratios, gap, idx, actual);
    law_near_drag_moves_the_divider(area, count, ratios, gap, idx, actual, j);
    assert forall|k: int| 0 <= k < j implies ratio_at(new, k) == ratio_at(ratios, k) by {
        assert(sideways(area, ratios, gap, k) == sideways(area, ratios, gap, k));
        law_other_dividers_stay(area, count, ratios, gap, idx, actual, k);
    }
    lemma_remainder_same(area, new, ratios, gap, j as nat);
    assert(ratio_at(new, j) == new[j]);
    lemma_around(area, count, new, gap, j);
    if forall|k: int| j < k < idx ==> #[trigger] sideways(area, new, gap, k) != side {
        lemma_begins_alike(area, new, gap, side, (j + 1) as nat, idx as nat);
    }
}

proof fn lemma_begins_alike(
    area: Rect,
    ratios: Seq<Ratio>,
    gap: int,
    side: bool,
    from: nat,
    to: nat,
)
    requires
        from <= to,
        forall|k: int| from <= k < to ==> #[trigger] sideways(area, ratios, gap, k) != side,
    ensures
        near_edge(side, remainder(area, ratios, gap, to)) == near_edge(
            side,
            remainder(area, ratios, gap, from),
        ),
    decreases to - from,
{
    if from < to {
        lemma_begins_alike(area, ratios, gap, side, from, (to - 1) as nat);
        assert(sideways(area, ratios, gap, to - 1) != side);
    }
}

/// A drag of a window's far edge is honoured, in both directions, also where
/// its near edges are dragged across: where no divider before it moves, the new
/// layout ends the window at the dragged edge, up to two pixels, and begins the
/// next one a gap behind.
#[verifier::spinoff_prover]
#[verifier::rlimit(40)]
pub proof fn law_far_drag_is_honoured(
    area: Rect,
    count: nat,
    ratios: Seq<Ratio>,
    gap: int,
    idx: int,
    actual: Rect,
)
    requires
        0 <= idx < count - 1,
        ({
            let side = sideways(area, ratios, gap, idx);
            let own = slots(area, count, ratios, gap)[idx];
            apart(far_edge(side, actual), far_edge(side, own)) > 4
        }),
        within_reach(
            area,
            ratios,
            gap,
            idx,
            far_edge(sideways(area, ratios, gap, idx), actual),
        ),
        steady_before(area, count, ratios, gap, idx, actual, idx),
    ensures
        ({
            let side = sideways(area, ratios, gap, idx);
            let new = resized(area, count, ratios, gap, idx, actual);
            let after = slots(area, count, new, gap);
            &&& apart(far_edge(side, after[idx]), far_edge(side, actual)) <= 2
            &&& i32::MIN <= far_edge(side, actual) + gap <= i32::MAX ==> apart(
                near_edge(side, after[idx + 1]),
                far_edge(side, actual) + gap,
            ) <= 2
        }),
{
    let new = resized(area, count, ratios, gap, idx, actual);
    law_far_drag_moves_the_divider(area, count, ratios, gap, idx, actual);
    assert forall|k: int| 0 <= k < idx implies ratio_at(new, k) == ratio_at(ratios, k) by {
        assert(sideways(area, ratios, gap, k) == sideways(area, ratios, gap, k));
        law_other_dividers_stay(area, count, ratios, gap, idx, actual, k);
    }
    lemma_remainder_same(area, new, ratios, gap, idx as nat);
    assert(ratio_at(new, idx) == new[idx]);
    lemma_around(area, count, new, gap, idx);
}

/// Where the windows before and behind a divider end and begin.
proof fn lemma_around(area: Rect, count: nat, ratios: Seq<Ratio>, gap: int, j: int)
    requires
        0 <= j < count - 1,
        to_share(area, ratios, gap, j) < 0x100_0000,
    ensures
        ({
            let side = sideways(area, ratios, gap, j);
            let r = divided_at(area, ratios, gap, j);
            let c = ratio_at(ratios, j).kept(to_share(area, ratios, gap, j));
            let all = slots(area, count, ratios, gap);
            &&& far_edge(side, all[j]) == near_edge(side, r) + if c < 1 {
                1
            } else {
                c
            }
            &&& near_edge(side, all[j + 1]) == sat(near_edge(side, r) + c + gap)
            &&& near_edge(side, remainder(area, ratios, gap, (j + 1) as nat)) == sat(
                near_edge(side, r) + c + gap,
            )
            &&& 0 <= c
        }),
{
    let r = divided_at(area, ratios, gap, j);
    assert(span(r, gap) == to_share(area, ratios, gap, j));
    law_keep_below_span(ratio_at(ratios, j), to_share(area, ratios, gap, j));
    let next = remainder(area, ratios, gap, (j + 1) as nat);
    assert(next == far(r, ratio_at(ratios, j), gap));
}

/// A window alone, or one that is not there, changes no ratio by its drag.
pub proof fn law_no_split_no_change(
    area: Rect,
    count: nat,
    ratios: Seq<Ratio>,
    gap: int,
    idx: int,
    actual: Rect,
)
    requires
        count < 2 || idx >= count,
    ensures
        resized(area, count, ratios, gap, idx, actual) == ratios,
{
}

} // verus!
