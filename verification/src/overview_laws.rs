//! Where the cards of the overview lie, and what keys and clicks on it do.

use crate::layout::Rect;
use crate::overview::{
    body_of, card, card_from, card_size, clicked, columns, keyed, law_grid_is_square, mapped,
    row_count, stepped, window_under, OverviewStep,
};
use crate::scene::{Sheet, Span};
use crate::window::Window;
use crate::wm::command_laws::lemma_around;
use crate::wm::OverviewSnapshot;
use vstd::arithmetic::div_mod::{
    lemma_fundamental_div_mod, lemma_fundamental_div_mod_converse, lemma_small_mod,
};
use vstd::prelude::*;

verus! {

// -------------------------------------------------------------------- cards

/// The cards stand in rows, from the left and the top: card `i + 1` is right of
/// card `i`, a gap away, unless a row ends there, and the card of the next row
/// is below, a gap away.
pub proof fn law_cards_stand_in_rows(sh: Sheet, n: int, i: int)
    requires
        n >= 1,
        i >= 0,
    ensures
        card(sh, n, 0).left == sh.s(28),
        card(sh, n, 0).top == sh.s(28),
        i % columns(n) + 1 < columns(n) ==> {
            &&& card(sh, n, i + 1).left == card(sh, n, i).right + sh.s(18)
            &&& card(sh, n, i + 1).top == card(sh, n, i).top
        },
        card(sh, n, i + columns(n)).top == card(sh, n, i).bottom + sh.s(18),
        card(sh, n, i + columns(n)).left == card(sh, n, i).left,
        card(sh, n, i).right - card(sh, n, i).left == card(sh, n, 0).right - card(sh, n, 0).left,
        card(sh, n, i).bottom - card(sh, n, i).top == card(sh, n, 0).bottom - card(sh, n, 0).top,
{
    law_grid_is_square(n);
    let c = columns(n);
    let (w, h) = card_size(sh, n);
    let gap = sh.s(18);
    lemma_small_mod(0, c as nat);
    lemma_fundamental_div_mod_converse(0, c, 0, 0);
    lemma_fundamental_div_mod(i, c);
    let (q, r) = (i / c, i % c);
    if r + 1 < c {
        lemma_fundamental_div_mod_converse(i + 1, c, q, r + 1);
        assert((r + 1) * (w + gap) == r * (w + gap) + (w + gap)) by (nonlinear_arith);
    }
    assert(c * (q + 1) == c * q + c) by (nonlinear_arith);
    assert(q * c == c * q) by (nonlinear_arith);
    assert((q + 1) * c == c * (q + 1)) by (nonlinear_arith);
    lemma_fundamental_div_mod_converse(i + c, c, q + 1, r);
    assert((q + 1) * (h + gap) == q * (h + gap) + (h + gap)) by (nonlinear_arith);
    assert(0 * (w + gap) == 0 && 0 * (h + gap) == 0) by (nonlinear_arith);
}

// ------------------------------------------------------------------- arrows

proof fn lemma_row(selected: int, n: int)
    requires
        0 <= selected < n,
    ensures
        ({
            let (q, r) = (selected / columns(n), selected % columns(n));
            &&& 0 <= q < row_count(n)
            &&& 0 <= r < columns(n)
            &&& selected == q * columns(n) + r
        }),
        columns(n) >= 1,
        row_count(n) >= 1,
{
    law_grid_is_square(n);
    let c = columns(n);
    lemma_fundamental_div_mod(selected, c);
    let q = selected / c;
    let rows = row_count(n);
    assert(q * c == c * q) by (nonlinear_arith);
    assert(0 <= q < rows) by (nonlinear_arith)
        requires
            q == selected / c,
            0 <= selected < n,
            rows * c >= n,
            c >= 1,
    ;
}

proof fn lemma_turn(i: int, n: int)
    requires
        0 <= i < n,
    ensures
        i % n == i,
        (i + 1) % n == (if i + 1 == n {
            0
        } else {
            i + 1
        }),
        (i - 1) % n == (if i == 0 {
            n - 1
        } else {
            i - 1
        }),
{
    lemma_small_mod(i as nat, n as nat);
    lemma_around(i, n);
}

/// The right and left arrows go to the next and the previous card of the row,
/// the down and up arrows to the card below and above. Around the edge they
/// come in again on the other side; where the last row is short, at most to
/// the last card.
pub proof fn law_arrows_go_to_the_neighbor(selected: int, n: int)
    requires
        0 <= selected < n,
    ensures
        ({
            let c = columns(n);
            let at_left = selected % c == 0;
            let at_right = selected % c == c - 1;
            let at_top = selected < c;
            let at_bottom = selected / c == row_count(n) - 1;
            &&& !at_right && selected + 1 < n ==> stepped(selected, n, 0x27) == selected + 1
            &&& at_right ==> stepped(selected, n, 0x27) == selected - (c - 1)
            &&& !at_left ==> stepped(selected, n, 0x25) == selected - 1
            &&& at_left && selected + c - 1 < n ==> stepped(selected, n, 0x25) == selected + c - 1
            &&& !at_top ==> stepped(selected, n, 0x26) == selected - c
            &&& !at_bottom && selected + c < n ==> stepped(selected, n, 0x28) == selected + c
            &&& at_bottom ==> stepped(selected, n, 0x28) == selected % c
        }),
{
    lemma_row(selected, n);
    let c = columns(n);
    let rows = row_count(n);
    let (q, r) = (selected / c, selected % c);
    lemma_turn(r, c);
    lemma_turn(q, rows);
    assert((q + 1) * c == q * c + c) by (nonlinear_arith);
    assert((q - 1) * c == q * c - c) by (nonlinear_arith);
    assert(0 * c == 0) by (nonlinear_arith);
    if selected >= c {
        assert(q >= 1) by (nonlinear_arith)
            requires
                selected == q * c + r,
                selected >= c,
                r < c,
                c >= 1,
        ;
    }
    assert(q * c >= 0) by (nonlinear_arith)
        requires
            q >= 0,
            c >= 1,
    ;
}

// --------------------------------------------------------------------- keys

/// Escape closes, Enter jumps to the selected workspace, and a digit to the
/// workspace of that number, the zero to the tenth, where there is one.
pub proof fn law_overview_keys(selected: int, count: usize, digit: u32)
    requires
        0 <= selected <= usize::MAX,
        1 <= digit <= 9,
    ensures
        keyed(selected, 0x1B, Some(count)) == (selected, OverviewStep::Close),
        keyed(selected, 0x0D, Some(count)) == (selected, OverviewStep::Jump(selected as usize)),
        digit <= count ==> keyed(selected, (0x30 + digit) as u32, Some(count)) == (
            selected,
            OverviewStep::Jump((digit - 1) as usize),
        ),
        digit > count ==> keyed(selected, (0x30 + digit) as u32, Some(count)) == (
            selected,
            OverviewStep::Nothing,
        ),
        count >= 10 ==> keyed(selected, 0x30, Some(count)) == (
            selected,
            OverviewStep::Jump(9usize),
        ),
        count < 10 ==> keyed(selected, 0x30, Some(count)) == (selected, OverviewStep::Nothing),
{
}

/// An arrow selects the card that it leads to.
pub proof fn law_arrows_select(selected: int, count: usize, arrow: u32)
    requires
        0x25 <= arrow <= 0x28,
        count > 0,
    ensures
        keyed(selected, arrow, Some(count)) == (
            stepped(selected, count as int, arrow),
            OverviewStep::Redraw,
        ),
        keyed(selected, arrow, None) == (selected, OverviewStep::Nothing),
{
}

// ------------------------------------------------------------------- clicks

proof fn lemma_card_from(sh: Sheet, n: int, x: int, y: int, i: int)
    requires
        0 <= i,
    ensures
        match card_from(sh, n, x, y, i) {
            Some(k) => i <= k < n && card(sh, n, k).has(x, y) && forall|j: int|
                i <= j < k ==> !(#[trigger] card(sh, n, j)).has(x, y),
            None => forall|j: int| i <= j < n ==> !(#[trigger] card(sh, n, j)).has(x, y),
        },
    decreases n - i,
{
    if i < n {
        lemma_card_from(sh, n, x, y, i + 1);
    }
}

proof fn lemma_window_under(
    list: Seq<(Window, Rect)>,
    src: Rect,
    body: Span,
    x: int,
    y: int,
    k: int,
)
    requires
        0 <= k <= list.len(),
    ensures
        match window_under(list, src, body, x, y, k) {
            Some(w) => exists|j: int|
                0 <= j < k && (#[trigger] list[j]).0 == w && drawn_at(list[j].1, src, body, x, y)
                    && forall|m: int|
                    j < m < k ==> !drawn_at((#[trigger] list[m]).1, src, body, x, y),
            None => forall|j: int|
                0 <= j < k ==> !drawn_at((#[trigger] list[j]).1, src, body, x, y),
        },
    decreases k,
{
    if k > 0 {
        if drawn_at(list[k - 1].1, src, body, x, y) {
            assert(list[k - 1].0 == window_under(list, src, body, x, y, k)->0);
        } else {
            lemma_window_under(list, src, body, x, y, k - 1);
        }
    }
}

/// The miniature of a window is drawn over that point.
pub open spec fn drawn_at(r: Rect, src: Rect, body: Span, x: int, y: int) -> bool {
    mapped(r, src, body) matches Some(m) && m.has(x, y)
}

/// A click means the card that is drawn there, and of the windows drawn there
/// the one on top, which is the last; a click between the cards means nothing.
pub proof fn law_click_means_what_is_drawn(sh: Sheet, snap: OverviewSnapshot, x: int, y: int)
    ensures
        ({
            let n = snap.workspaces.len() as int;
            match clicked(sh, snap, x, y) {
                None => forall|j: int| 0 <= j < n ==> !(#[trigger] card(sh, n, j)).has(x, y),
                Some((i, w)) => {
                    let list = snap.workspaces@[i]@;
                    let body = body_of(sh, card(sh, n, i), snap.source);
                    &&& 0 <= i < n
                    &&& card(sh, n, i).has(x, y)
                    &&& w is None ==> forall|j: int|
                        0 <= j < list.len() ==> !drawn_at(
                            (#[trigger] list[j]).1,
                            snap.source,
                            body,
                            x,
                            y,
                        )
                    &&& w matches Some(v) ==> exists|j: int|
                        0 <= j < list.len() && (#[trigger] list[j]).0 == v && drawn_at(
                            list[j].1,
                            snap.source,
                            body,
                            x,
                            y,
                        ) && forall|m: int|
                            j < m < list.len() ==> !drawn_at(
                                (#[trigger] list[m]).1,
                                snap.source,
                                body,
                                x,
                                y,
                            )
                },
            }
        }),
{
    let n = snap.workspaces.len() as int;
    lemma_card_from(sh, n, x, y, 0);
    if let Some(i) = card_from(sh, n, x, y, 0) {
        let list = snap.workspaces@[i]@;
        let body = body_of(sh, card(sh, n, i), snap.source);
        lemma_window_under(list, snap.source, body, x, y, list.len() as int);
    }
}

/// A window that fills the source area fills the miniature.
pub proof fn law_full_window_fills_the_miniature(src: Rect, body: Span)
    requires
        src.w > 0,
        src.h > 0,
        body.left <= body.right,
        body.top <= body.bottom,
    ensures
        mapped(src, src, body) == Some(body),
{
    let (bw, bh) = (body.right - body.left, body.bottom - body.top);
    let (sw, sh) = (src.w as int, src.h as int);
    assert(0 * bw == 0 && 0 * bh == 0) by (nonlinear_arith);
    assert((sw * bw) / sw == bw && (sh * bh) / sh == bh) by (nonlinear_arith)
        requires
            sw > 0,
            sh > 0,
    ;
    assert(0int / sw == 0 && 0int / sh == 0) by (nonlinear_arith)
        requires
            sw > 0,
            sh > 0,
    ;
    assert(sw * bw >= 0 && sh * bh >= 0) by (nonlinear_arith)
        requires
            sw > 0,
            sh > 0,
            bw >= 0,
            bh >= 0,
    ;
}

/// A window that does not reach into the source area is not drawn.
pub proof fn law_far_window_is_not_drawn(r: Rect, src: Rect, body: Span)
    requires
        r.x + r.w <= src.x || src.x + src.w <= r.x || r.y + r.h <= src.y || src.y + src.h <= r.y,
    ensures
        mapped(r, src, body) is None,
{
}

/// Unless they would be too small, the cards fill the sheet from margin to
/// margin, with the gaps between; what cannot be divided is left over.
pub proof fn law_cards_fill_the_sheet(sh: Sheet, n: int)
    requires
        columns(n) > 0,
        row_count(n) > 0,
        card_size(sh, n).0 > 50,
        card_size(sh, n).1 > 50,
    ensures
        ({
            let (w, h) = card_size(sh, n);
            let (c, r) = (columns(n), row_count(n));
            let across = c * w + (c - 1) * sh.s(18) + 2 * sh.s(28);
            let down = r * h + (r - 1) * sh.s(18) + 2 * sh.s(28) + sh.s(30);
            &&& across <= sh.w < across + c
            &&& down <= sh.h < down + r
        }),
{
    let (c, r) = (columns(n), row_count(n));
    let a = sh.w - 2 * sh.s(28) - (c - 1) * sh.s(18);
    let b = sh.h - 2 * sh.s(28) - sh.s(30) - (r - 1) * sh.s(18);
    assert(a < 0 ==> (-a) / c >= 0) by (nonlinear_arith)
        requires
            c > 0,
    ;
    assert(b < 0 ==> (-b) / r >= 0) by (nonlinear_arith)
        requires
            r > 0,
    ;
    assert(c * (a / c) <= a < c * (a / c) + c) by (nonlinear_arith)
        requires
            c > 0,
    ;
    assert(r * (b / r) <= b < r * (b / r) + r) by (nonlinear_arith)
        requires
            r > 0,
    ;
}

/// The miniature stands in the middle of its card, below the title, up to a
/// pixel.
pub proof fn law_miniature_is_centered(sh: Sheet, c: Span, src: Rect)
    requires
        1 <= c.right - c.left - 2 * sh.s(8) < 0x7FFF_FFFF,
        1 <= c.bottom - c.top - sh.s(24) - 2 * sh.s(8) < 0x7FFF_FFFF,
    ensures
        ({
            let b = body_of(sh, c, src);
            &&& -1 <= (b.left - c.left) - (c.right - b.right) <= 1
            &&& -1 <= (b.top - c.top - sh.s(24)) - (c.bottom - b.bottom) <= 1
        }),
{
}

} // verus!
