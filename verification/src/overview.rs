//! The overview: every workspace of a monitor as a card with a miniature of
//! its layout. A click on a window jumps to it, a click on a card switches to
//! its workspace.

use crate::layout::{clip, divided, larger, quot, sat, Rect};
use crate::numerals::{decimal, show};
use crate::scene::{
    area, blank, bold, bold_pen, greater, lesser, max2, min2, normal, normal_pen, span, Align, Area,
    BarStyle, Scene, Sheet, Sketch, Span,
};
use crate::single::{quotient, scaled, sig24, Factor};
use crate::text::{is_blank, joined3, nth, owned, text_at, texts};
use crate::vk::{VK_DOWN, VK_ESCAPE, VK_LEFT, VK_RETURN, VK_RIGHT, VK_UP};
use crate::window::Window;
use crate::wm::desktop::{DeskView, Desktop};
use crate::wm::OverviewSnapshot;
use vstd::prelude::*;

verus! {

// ---------------------------------------------------------------- geometry

/// The smallest number, from `c` on, whose square reaches `n`.
pub open spec fn root_from(n: int, c: int) -> int
    decreases n - c,
{
    if c < 1 || c * c >= n || c >= n {
        c
    } else {
        root_from(n, c + 1)
    }
}

/// The number of columns of a grid of `n` cards.
pub open spec fn columns(n: int) -> int {
    root_from(n, 1)
}

/// The number of rows of a grid of `n` cards.
pub open spec fn row_count(n: int) -> int {
    (n + columns(n) - 1) / columns(n)
}

proof fn lemma_root_from(n: int, c: int)
    requires
        1 <= c,
        1 <= n,
        c > 1 ==> (c - 1) * (c - 1) < n,
    ensures
        c <= root_from(n, c),
        root_from(n, c) * root_from(n, c) >= n,
        root_from(n, c) > 1 ==> (root_from(n, c) - 1) * (root_from(n, c) - 1) < n,
        root_from(n, c) <= max2(c, n),
    decreases n - c,
{
    if c * c >= n {
    } else if c >= n {
        assert(c * c >= n) by (nonlinear_arith)
            requires
                c >= n,
                n >= 1,
        ;
    } else {
        lemma_root_from(n, c + 1);
    }
}

/// The grid is as square as it can be: one column less would not do.
pub proof fn law_grid_is_square(n: int)
    requires
        n >= 1,
    ensures
        columns(n) >= 1,
        columns(n) * columns(n) >= n,
        columns(n) > 1 ==> (columns(n) - 1) * (columns(n) - 1) < n,
        1 <= row_count(n) <= columns(n),
        row_count(n) * columns(n) >= n,
{
    lemma_root_from(n, 1);
    let c = columns(n);
    let r = row_count(n);
    assert(r * c >= n && r >= 1) by (nonlinear_arith)
        requires
            r == (n + c - 1) / c,
            c >= 1,
            n >= 1,
    ;
    assert(r <= c) by (nonlinear_arith)
        requires
            r == (n + c - 1) / c,
            c >= 1,
            c * c >= n,
    ;
}

/// The size of a card.
pub open spec fn card_size(sh: Sheet, n: int) -> (int, int) {
    let (cols, rows) = (columns(n), row_count(n));
    let (margin, gap, footer) = (sh.s(28), sh.s(18), sh.s(30));
    (
        max2(quot(sh.w - 2 * margin - (cols - 1) * gap, cols), 50),
        max2(quot(sh.h - 2 * margin - footer - (rows - 1) * gap, rows), 50),
    )
}

/// The card of workspace `i`, of `n`.
pub open spec fn card(sh: Sheet, n: int, i: int) -> Span {
    let (w, h) = card_size(sh, n);
    let (margin, gap) = (sh.s(28), sh.s(18));
    let left = margin + (i % columns(n)) * (w + gap);
    let top = margin + (i / columns(n)) * (h + gap);
    span(left, top, left + w, top + h)
}

/// Coordinates that leave room to calculate with.
pub open spec fn moderate(a: Span) -> bool {
    &&& -0x1000_0000_0000 <= a.left <= 0x1000_0000_0000
    &&& -0x1000_0000_0000 <= a.top <= 0x1000_0000_0000
    &&& -0x8000_0000 <= a.right - a.left <= 0x7FFF_FFFF
    &&& -0x8000_0000 <= a.bottom - a.top <= 0x7FFF_FFFF
}

/// How many workspaces an overview can show.
pub const MOST: usize = 0x40_0000;

/// The number of columns. Up to `MOST` cards this is the single-precision
/// square root, rounded up.
pub fn column_count(n: usize) -> (r: usize)
    requires
        1 <= n <= MOST,
    ensures
        r == columns(n as int),
        1 <= r <= 2048,
{
    let mut c: usize = 1;
    while c * c < n
        invariant
            1 <= c <= 2048,
            c * c <= 2048 * 2048,
            1 <= n <= MOST,
            root_from(n as int, c as int) == columns(n as int),
            c > 1 ==> (c - 1) * (c - 1) < n,
        decreases 2049 - c,
    {
        proof {
            let (ci, ni) = (c as int, n as int);
            assert(ci < 2048) by (nonlinear_arith)
                requires
                    ci * ci < ni,
                    ni <= 0x40_0000,
            ;
            assert(ci < ni) by (nonlinear_arith)
                requires
                    ci * ci < ni,
                    ci >= 1,
            ;
        }
        c = c + 1;
        proof {
            let ci = c as int;
            assert(ci * ci <= 2048 * 2048) by (nonlinear_arith)
                requires
                    1 <= ci <= 2048,
            ;
        }
    }
    c
}

/// The cards of `n` workspaces.
pub fn cards(sh: &Sheet, n: usize) -> (r: Vec<Area>)
    requires
        1 <= n <= MOST,
    ensures
        r.len() == n,
        forall|i: int| 0 <= i < n ==> (#[trigger] r@[i])@ == card(*sh, n as int, i),
        forall|i: int| 0 <= i < n ==> moderate((#[trigger] r@[i])@),
{
    proof {
        law_grid_is_square(n as int);
    }
    let c: usize = column_count(n);
    let cols: i64 = c as i64;
    let rows: i64 = (n as i64 + cols - 1) / cols;
    let margin: i64 = sh.px(28) as i64;
    let gap: i64 = sh.px(18) as i64;
    let footer: i64 = sh.px(30) as i64;
    proof {
        let (ci, ri, gi) = (cols as int, rows as int, gap as int);
        assert(0 <= (ci - 1) * gi <= 2048 * 0x8000_0000) by (nonlinear_arith)
            requires
                1 <= ci <= 2048,
                0 <= gi < 0x8000_0000,
        ;
        assert(0 <= (ri - 1) * gi <= 2048 * 0x8000_0000) by (nonlinear_arith)
            requires
                1 <= ri <= 2048,
                0 <= gi < 0x8000_0000,
        ;
    }
    let w: i64 = greater(divided(sh.w as i64 - 2 * margin - (cols - 1) * gap, cols), 50);
    let h: i64 = greater(divided(sh.h as i64 - 2 * margin - footer - (rows - 1) * gap, rows), 50);
    let mut r: Vec<Area> = Vec::new();
    let mut i: usize = 0;
    while i < n
        invariant
            i <= n <= MOST,
            n >= 1,
            r.len() == i,
            cols == columns(n as int),
            1 <= cols <= 2048,
            0 <= margin < 0x8000_0000,
            0 <= gap < 0x8000_0000,
            margin == sh.s(28),
            gap == sh.s(18),
            (w as int, h as int) == card_size(*sh, n as int),
            50 <= w <= 0x7FFF_FFFF,
            50 <= h <= 0x7FFF_FFFF,
            columns(n as int) * columns(n as int) >= n,
            forall|k: int| 0 <= k < i ==> (#[trigger] r@[k])@ == card(*sh, n as int, k),
            forall|k: int| 0 <= k < i ==> moderate((#[trigger] r@[k])@),
        decreases n - i,
    {
        let row: i64 = i as i64 / cols;
        let col: i64 = i as i64 % cols;
        proof {
            let (ri, ci, wi, hi, ii, cc) = (
                row as int,
                col as int,
                (w + gap) as int,
                (h + gap) as int,
                i as int,
                cols as int,
            );
            assert(0 <= ri <= 2048) by (nonlinear_arith)
                requires
                    ri == ii / cc,
                    0 <= ii < n,
                    cc * cc >= n,
                    1 <= cc <= 2048,
            ;
            assert(0 <= ci * wi <= 2048 * 0x1_0000_0000) by (nonlinear_arith)
                requires
                    0 <= ci <= 2048,
                    0 <= wi < 0x1_0000_0000,
            ;
            assert(0 <= ri * hi <= 2048 * 0x1_0000_0000) by (nonlinear_arith)
                requires
                    0 <= ri <= 2048,
                    0 <= hi < 0x1_0000_0000,
            ;
        }
        let left: i64 = margin + col * (w + gap);
        let top: i64 = margin + row * (h + gap);
        r.push(area(left, top, left + w, top + h));
        i = i + 1;
    }
    r
}

/// The factor by which a miniature of `src` is smaller, in units of 2^-54:
/// the smaller of the two ratios.
pub open spec fn shrinkage(iw: i32, ih: i32, src: Rect) -> int {
    let w = if src.w > 1 {
        src.w
    } else {
        1
    };
    let h = if src.h > 1 {
        src.h
    } else {
        1
    };
    min2(
        quotient(sig24(iw as nat) as nat, sig24(w as nat) as nat),
        quotient(sig24(ih as nat) as nat, sig24(h as nat) as nat),
    )
}

/// The area of the miniature in a card: below the header, in the proportions
/// of the monitor.
pub open spec fn body_of(sh: Sheet, card: Span, src: Rect) -> Span {
    let (header, pad) = (sh.s(24), sh.s(8));
    let iw = sat(max2(card.right - card.left - 2 * pad, 1));
    let ih = sat(max2(card.bottom - card.top - header - 2 * pad, 1));
    let k = shrinkage(iw, ih, src);
    let (bw, bh) = (scaled(src.w as int, k), scaled(src.h as int, k));
    let left = card.left + pad + quot(iw - bw, 2);
    let top = card.top + header + pad + quot(ih - bh, 2);
    span(left, top, left + bw, top + bh)
}

/// Coordinates that a miniature can have.
pub open spec fn drawable(a: Span) -> bool {
    &&& -0x2000_0000_0000 <= a.left <= 0x2000_0000_0000
    &&& -0x2000_0000_0000 <= a.top <= 0x2000_0000_0000
    &&& -0x8000_0000 <= a.right - a.left <= 0x7FFF_FFFF
    &&& -0x8000_0000 <= a.bottom - a.top <= 0x7FFF_FFFF
}

/// The area of the miniature in a card.
pub fn body_rect(sh: &Sheet, card: &Area, src: &Rect) -> (r: Area)
    requires
        moderate(card@),
    ensures
        r@ == body_of(*sh, card@, *src),
        drawable(r@),
{
    let header: i64 = sh.px(24) as i64;
    let pad: i64 = sh.px(8) as i64;
    let iw: i32 = clip(greater(card.right - card.left - 2 * pad, 1));
    let ih: i32 = clip(greater(card.bottom - card.top - header - 2 * pad, 1));
    let across = Factor::ratio(iw as u32, larger(src.w, 1) as u32);
    let down = Factor::ratio(ih as u32, larger(src.h, 1) as u32);
    let k = if across.units < down.units {
        across
    } else {
        down
    };
    let bw: i64 = k.times(src.w) as i64;
    let bh: i64 = k.times(src.h) as i64;
    let left: i64 = card.left + pad + divided(iw as i64 - bw, 2);
    let top: i64 = card.top + header + pad + divided(ih as i64 - bh, 2);
    area(left, top, left + bw, top + bh)
}

/// Where a window goes in a miniature; nothing when it lies outside the
/// source altogether.
pub open spec fn mapped(r: Rect, src: Rect, body: Span) -> Option<Span> {
    let (x1, y1) = (max2(r.x as int, src.x as int), max2(r.y as int, src.y as int));
    let (x2, y2) = (min2(r.x + r.w, src.x + src.w), min2(r.y + r.h, src.y + src.h));
    if x2 <= x1 || y2 <= y1 {
        None
    } else {
        let (bw, bh) = (body.right - body.left, body.bottom - body.top);
        let (sw, sh) = (max2(src.w as int, 1), max2(src.h as int, 1));
        Some(
            span(
                body.left + quot((x1 - src.x) * bw, sw),
                body.top + quot((y1 - src.y) * bh, sh),
                body.left + quot((x2 - src.x) * bw, sw),
                body.top + quot((y2 - src.y) * bh, sh),
            ),
        )
    }
}

/// `v` of `of` parts of a length.
fn part(v: i64, length: i64, of: i64) -> (r: i64)
    requires
        0 <= v <= of,
        0 < of < 0x8000_0000,
        -0x8000_0000 <= length <= 0x7FFF_FFFF,
    ensures
        r == quot(v * length, of as int),
        -0x8000_0000 <= r <= 0x8000_0000,
{
    proof {
        let (a, b, c) = (v as int, length as int, of as int);
        assert(-0x4000_0000_0000_0000 <= a * b <= 0x4000_0000_0000_0000) by (nonlinear_arith)
            requires
                0 <= a <= 0x8000_0000,
                -0x8000_0000 <= b <= 0x8000_0000,
        ;
        if b >= 0 {
            assert(a * b >= 0) by (nonlinear_arith)
                requires
                    a >= 0,
                    b >= 0,
            ;
            assert((a * b) / c <= b) by (nonlinear_arith)
                requires
                    0 <= a <= c,
                    c > 0,
                    b >= 0,
            ;
        } else {
            assert(a * b <= 0) by (nonlinear_arith)
                requires
                    a >= 0,
                    b < 0,
            ;
            let n = -(a * b);
            assert(n / c <= -b) by (nonlinear_arith)
                requires
                    n == -(a * b),
                    0 <= a <= c,
                    c > 0,
                    b < 0,
            ;
        }
    }
    divided(v * length, of)
}

/// Where a window goes in a miniature.
pub fn map_rect(r: &Rect, src: &Rect, body: &Area) -> (m: Option<Area>)
    requires
        drawable(body@),
    ensures
        match m {
            Some(a) => mapped(*r, *src, body@) == Some(a@),
            None => mapped(*r, *src, body@) is None,
        },
        m matches Some(a) ==> reachable(a@),
{
    let x1: i64 = greater(r.x as i64, src.x as i64);
    let y1: i64 = greater(r.y as i64, src.y as i64);
    let x2: i64 = lesser(r.x as i64 + r.w as i64, src.x as i64 + src.w as i64);
    let y2: i64 = lesser(r.y as i64 + r.h as i64, src.y as i64 + src.h as i64);
    if x2 <= x1 || y2 <= y1 {
        return None;
    }
    let bw: i64 = body.right - body.left;
    let bh: i64 = body.bottom - body.top;
    let sx: i64 = src.x as i64;
    let sy: i64 = src.y as i64;
    let sw: i64 = greater(src.w as i64, 1);
    let sh: i64 = greater(src.h as i64, 1);
    Some(
        area(
            body.left + part(x1 - sx, bw, sw),
            body.top + part(y1 - sy, bh, sh),
            body.left + part(x2 - sx, bw, sw),
            body.top + part(y2 - sy, bh, sh),
        ),
    )
}

/// Coordinates that a window in a miniature can have.
pub open spec fn reachable(a: Span) -> bool {
    &&& -0x4000_0000_0000 <= a.left <= 0x4000_0000_0000
    &&& -0x4000_0000_0000 <= a.top <= 0x4000_0000_0000
    &&& -0x4000_0000_0000 <= a.right <= 0x4000_0000_0000
    &&& -0x4000_0000_0000 <= a.bottom <= 0x4000_0000_0000
}

// -------------------------------------------------------------- the overview

/// The state of the overview.
pub struct Overview {
    /// Is its window open?
    pub shown: bool,
    /// The card that the arrow keys are on.
    pub selected: usize,
}

/// What to do with the window of the overview.
#[derive(Clone, Copy, Debug, PartialEq, Eq, Structural)]
pub enum OverviewStep {
    Nothing,
    Close,
    /// Open it over this area of the monitor.
    Open(isize, Rect),
    /// Draw it again.
    Redraw,
    /// Close it and switch to that workspace.
    Jump(usize),
}

/// The card that an arrow key leads to. The rows and columns wrap around; the
/// last row may be short.
pub open spec fn stepped(selected: int, n: int, vk: u32) -> int {
    let (cols, rows) = (columns(n), row_count(n));
    let dr: int = if vk == VK_UP {
        -1
    } else if vk == VK_DOWN {
        1
    } else {
        0
    };
    let dc: int = if vk == VK_LEFT {
        -1
    } else if vk == VK_RIGHT {
        1
    } else {
        0
    };
    let r = (selected / cols + dr) % rows;
    let c = (selected % cols + dc) % cols;
    min2(r * cols + c, n - 1)
}

/// What a key does; `n` is the number of workspaces, where it is known.
pub open spec fn keyed(selected: int, vk: u32, n: Option<usize>) -> (int, OverviewStep) {
    let count: int = match n {
        Some(k) => k as int,
        None => 0,
    };
    if vk == VK_ESCAPE {
        (selected, OverviewStep::Close)
    } else if vk == VK_RETURN {
        (selected, OverviewStep::Jump(selected as usize))
    } else if 0x30 <= vk <= 0x39 {
        let i = if vk == 0x30 {
            9
        } else {
            vk - 0x31
        };
        (
            selected,
            if i < count {
                OverviewStep::Jump(i as usize)
            } else {
                OverviewStep::Nothing
            },
        )
    } else if VK_LEFT <= vk % 0x1_0000 <= VK_DOWN && count > 0 {
        (stepped(selected, count, vk % 0x1_0000), OverviewStep::Redraw)
    } else {
        (selected, OverviewStep::Nothing)
    }
}

/// `a + d` modulo `m`.
fn wrapped(a: usize, back: bool, on: bool, m: usize) -> (r: usize)
    requires
        0 < m <= MOST,
        a <= 0x7FFF_FFFF,
        !(back && on),
    ensures
        r == (a + (if back {
            -1int
        } else if on {
            1int
        } else {
            0int
        })) % (m as int),
        r < m,
{
    if back {
        if a == 0 {
            proof {
                let mi = m as int;
                assert((-1int) % mi == mi - 1) by (nonlinear_arith)
                    requires
                        mi > 0,
                ;
            }
            m - 1
        } else {
            (a - 1) % m
        }
    } else if on {
        (a + 1) % m
    } else {
        a % m
    }
}

/// The card that an arrow key leads to.
fn step_to(selected: usize, n: usize, vk: u32) -> (r: usize)
    requires
        1 <= n <= MOST,
        selected <= 0x7FFF_FFFF,
    ensures
        r == stepped(selected as int, n as int, vk),
        r < n,
{
    proof {
        law_grid_is_square(n as int);
    }
    let cols: usize = column_count(n);
    let rows: usize = (n + cols - 1) / cols;
    let r: usize = wrapped(selected / cols, vk == VK_UP, vk == VK_DOWN, rows);
    let c: usize = wrapped(selected % cols, vk == VK_LEFT, vk == VK_RIGHT, cols);
    proof {
        let (ri, ci) = (r as int, cols as int);
        assert(0 <= ri * ci <= 2048 * 2048) by (nonlinear_arith)
            requires
                0 <= ri <= 2048,
                1 <= ci <= 2048,
        ;
    }
    let at: usize = r * cols + c;
    if at < n - 1 {
        at
    } else {
        n - 1
    }
}

/// The card under a point, from the `i`th on.
pub open spec fn card_from(sh: Sheet, n: int, x: int, y: int, i: int) -> Option<int>
    decreases n - i,
{
    if i < 0 || i >= n {
        None
    } else if card(sh, n, i).has(x, y) {
        Some(i)
    } else {
        card_from(sh, n, x, y, i + 1)
    }
}

/// The topmost of the first `k` windows under a point; the later ones lie on
/// top.
pub open spec fn window_under(
    list: Seq<(Window, Rect)>,
    src: Rect,
    body: Span,
    x: int,
    y: int,
    k: int,
) -> Option<Window>
    decreases k,
{
    if k <= 0 || k > list.len() {
        None
    } else if mapped(list[k - 1].1, src, body) matches Some(m) && m.has(x, y) {
        Some(list[k - 1].0)
    } else {
        window_under(list, src, body, x, y, k - 1)
    }
}

/// The workspace that a click switches to, and the window that it focuses.
pub open spec fn clicked(sh: Sheet, snap: OverviewSnapshot, x: int, y: int) -> Option<
    (int, Option<Window>),
> {
    let n = snap.workspaces.len() as int;
    match card_from(sh, n, x, y, 0) {
        Some(i) => {
            let list = snap.workspaces@[i]@;
            let body = body_of(sh, card(sh, n, i), snap.source);
            Some((i, window_under(list, snap.source, body, x, y, list.len() as int)))
        },
        None => None,
    }
}

/// What a click hits: the workspace to switch to, and the window to focus.
pub fn on_click(sh: &Sheet, snap: &OverviewSnapshot, x: i32, y: i32) -> (r: Option<
    (usize, Option<Window>),
>)
    requires
        1 <= snap.workspaces.len() <= MOST,
    ensures
        match r {
            Some((i, w)) => clicked(*sh, *snap, x as int, y as int) == Some((i as int, w)),
            None => clicked(*sh, *snap, x as int, y as int) is None,
        },
        r matches Some((i, w)) ==> i < snap.workspaces.len(),
{
    let n = snap.workspaces.len();
    let grid = cards(sh, n);
    let mut i: usize = 0;
    while i < n && !grid[i].hit(x as i64, y as i64)
        invariant
            i <= n,
            n == grid.len(),
            forall|k: int| 0 <= k < n ==> (#[trigger] grid@[k])@ == card(*sh, n as int, k),
            card_from(*sh, n as int, x as int, y as int, i as int) == card_from(
                *sh,
                n as int,
                x as int,
                y as int,
                0,
            ),
        decreases n - i,
    {
        proof {
            assert(grid@[i as int]@ == card(*sh, n as int, i as int));
        }
        i = i + 1;
    }
    if i == n {
        return None;
    }
    proof {
        assert(grid@[i as int]@ == card(*sh, n as int, i as int));
        assert(moderate(grid@[i as int]@));
    }
    let body = body_rect(sh, &grid[i], &snap.source);
    let list = &snap.workspaces[i];
    let mut k: usize = list.len();
    while k > 0
        invariant
            k <= list.len(),
            drawable(body@),
            window_under(list@, snap.source, body@, x as int, y as int, k as int) == window_under(
                list@,
                snap.source,
                body@,
                x as int,
                y as int,
                list.len() as int,
            ),
            clicked(*sh, *snap, x as int, y as int) == Some(
                (
                    i as int,
                    window_under(
                        list@,
                        snap.source,
                        body@,
                        x as int,
                        y as int,
                        list.len() as int,
                    ),
                ),
            ),
            i < snap.workspaces.len(),
        decreases k,
    {
        let at: (Window, Rect) = list[k - 1];
        match map_rect(&at.1, &snap.source, &body) {
            Some(m) => {
                if m.hit(x as i64, y as i64) {
                    return Some((i, Some(at.0)));
                }
            },
            None => {},
        }
        k = k - 1;
    }
    Some((i, None))
}

impl Overview {
    pub fn new() -> (r: Overview)
        ensures
            !r.shown,
            r.selected == 0,
    {
        Overview { shown: false, selected: 0 }
    }

    /// Opens or closes the overview. `place` is the focused monitor with its
    /// work area and active workspace, if there is one.
    pub fn toggle(&mut self, place: Option<(isize, Rect, usize)>) -> (r: OverviewStep)
        ensures
            old(self).shown ==> r == OverviewStep::Close && !final(self).shown
                && final(self).selected == old(self).selected,
            !old(self).shown ==> !final(self).shown && match place {
                Some((handle, wa, active)) => r == OverviewStep::Open(handle, wa)
                    && final(self).selected == active,
                None => r == OverviewStep::Nothing && final(self).selected == old(self).selected,
            },
    {
        if self.shown {
            self.shown = false;
            return OverviewStep::Close;
        }
        match place {
            Some((handle, wa, active)) => {
                self.selected = active;
                OverviewStep::Open(handle, wa)
            },
            None => OverviewStep::Nothing,
        }
    }

    /// The window was created.
    pub fn opened(&mut self)
        ensures
            final(self).shown,
            final(self).selected == old(self).selected,
    {
        self.shown = true;
    }

    /// Closes the overview; says whether there is a window to destroy.
    pub fn close(&mut self) -> (r: bool)
        ensures
            r == old(self).shown,
            !final(self).shown,
            final(self).selected == old(self).selected,
    {
        let was = self.shown;
        self.shown = false;
        was
    }

    /// A key was pressed; `n` is the number of workspaces, where it is known.
    pub fn on_key(&mut self, vk: u32, n: Option<usize>) -> (r: OverviewStep)
        requires
            old(self).selected <= 0x7FFF_FFFF,
            n matches Some(k) ==> k <= MOST,
        ensures
            (final(self).selected as int, r) == keyed(old(self).selected as int, vk, n),
            final(self).shown == old(self).shown,
    {
        if vk == VK_ESCAPE {
            return OverviewStep::Close;
        }
        if vk == VK_RETURN {
            return OverviewStep::Jump(self.selected);
        }
        let count: usize = match n {
            Some(k) => k,
            None => 0,
        };
        if 0x30 <= vk && vk <= 0x39 {
            let i: usize = if vk == 0x30 {
                9
            } else {
                (vk - 0x31) as usize
            };
            if i < count {
                return OverviewStep::Jump(i);
            }
            return OverviewStep::Nothing;
        }
        // Arrow keys are told by the low half of the code.
        let low: u32 = vk % 0x1_0000;
        if VK_LEFT <= low && low <= VK_DOWN && count > 0 {
            self.selected = step_to(self.selected, count, low);
            return OverviewStep::Redraw;
        }
        OverviewStep::Nothing
    }
}

// ----------------------------------------------------------------- painting

/// The title of a card.
pub open spec fn card_title(names: Seq<Seq<char>>, i: int) -> Seq<char> {
    let name = text_at(names, i);
    if name.len() == 0 {
        decimal((i + 1) as nat)
    } else {
        decimal((i + 1) as nat) + " · "@ + name
    }
}

/// One window of a miniature.
pub open spec fn window_drawn(
    k: Sketch,
    sh: Sheet,
    st: BarStyle,
    d: DeskView,
    w: Window,
    m: Span,
) -> Sketch {
    let focused = d.foreground == Some(w);
    let t = if focused {
        sh.s(2)
    } else {
        1
    };
    let ground = k.fill(
        m,
        if focused {
            st.accent
        } else {
            st.cell_occupied
        },
    );
    let inner = span(m.left + t, m.top + t, m.right - t, m.bottom - t);
    let filled = if inner.right > inner.left && inner.bottom > inner.top {
        ground.fill(inner, st.cell_occupied)
    } else {
        ground
    };
    let (mw, mh) = (m.right - m.left, m.bottom - m.top);
    let half = quot(min2(mw, mh), 2);
    let size = if half < sh.s(16) {
        sh.s(16)
    } else if half > sh.s(48) {
        sh.s(48)
    } else {
        half
    };
    let lift = if mh >= sh.s(52) {
        sh.s(8)
    } else {
        0
    };
    let iconed = if mw >= sh.s(22) && mh >= sh.s(22) {
        filled.window_icon(
            w,
            m.left + quot(mw - size, 2),
            m.top + quot(mh - size, 2) - lift,
            size,
        )
    } else {
        filled
    };
    if mw >= sh.s(80) && mh >= sh.s(52) {
        iconed.text(
            d.title_of(w),
            span(m.left + sh.s(4), m.bottom - sh.s(18), m.right - sh.s(4), m.bottom - sh.s(2)),
            st.fg,
            normal(sh.s(11)).at(Align::Center).cut(),
        )
    } else {
        iconed
    }
}

/// The windows of a card, from the `j`th on.
pub open spec fn windows_drawn(
    k: Sketch,
    sh: Sheet,
    st: BarStyle,
    d: DeskView,
    list: Seq<(Window, Rect)>,
    src: Rect,
    body: Span,
    j: int,
) -> Sketch
    decreases list.len() - j,
{
    if j < 0 || j >= list.len() {
        k
    } else {
        let next = match mapped(list[j].1, src, body) {
            Some(m) => window_drawn(k, sh, st, d, list[j].0, m),
            None => k,
        };
        windows_drawn(next, sh, st, d, list, src, body, j + 1)
    }
}

/// A card without its windows: the halo of the selected one, ring, ground and
/// title.
pub open spec fn card_drawn(
    k: Sketch,
    sh: Sheet,
    st: BarStyle,
    snap: OverviewSnapshot,
    selected: int,
    i: int,
) -> Sketch {
    let c = card(sh, snap.workspaces.len() as int, i);
    let active = i == snap.active;
    let (halo, t) = (sh.s(4), sh.s(2));
    let under = if i == selected {
        k.fill(span(c.left - halo, c.top - halo, c.right + halo, c.bottom + halo), st.fg)
    } else {
        k
    };
    under.fill(
        c,
        if active {
            st.accent
        } else {
            st.cell_empty
        },
    ).fill(
        span(c.left + t, c.top + t, c.right - t, c.bottom - t),
        if active {
            st.cell_empty
        } else {
            st.bg
        },
    ).text(
        card_title(texts(snap.names@), i),
        span(c.left + sh.s(10), c.top + sh.s(2), c.right - sh.s(10), c.top + sh.s(24)),
        if active {
            st.accent
        } else {
            st.fg
        },
        bold(sh.s(14)).cut(),
    )
}

/// The cards, from the `i`th on.
pub open spec fn cards_drawn(
    k: Sketch,
    sh: Sheet,
    st: BarStyle,
    snap: OverviewSnapshot,
    selected: int,
    d: DeskView,
    i: int,
) -> Sketch
    decreases snap.workspaces.len() - i,
{
    let n = snap.workspaces.len() as int;
    if i < 0 || i >= n {
        k
    } else {
        let body = body_of(sh, card(sh, n, i), snap.source);
        cards_drawn(
            windows_drawn(
                card_drawn(k, sh, st, snap, selected, i),
                sh,
                st,
                d,
                snap.workspaces@[i]@,
                snap.source,
                body,
                0,
            ),
            sh,
            st,
            snap,
            selected,
            d,
            i + 1,
        )
    }
}

/// The whole overview; only the ground where there is nothing to show.
pub open spec fn painted(
    sh: Sheet,
    st: BarStyle,
    snap: Option<OverviewSnapshot>,
    selected: int,
    d: DeskView,
) -> Sketch {
    let ground = blank().fill(span(0, 0, sh.w as int, sh.h as int), st.bg);
    match snap {
        Some(p) => cards_drawn(ground, sh, st, p, selected, d, 0).text(
            "←↑↓→ + Enter or digits to jump · click a window · Esc closes"@,
            span(0, sh.h - sh.s(26), sh.w as int, sh.h - sh.s(4)),
            st.cell_occupied,
            normal(sh.s(11)).at(Align::Center),
        ),
        None => ground,
    }
}

fn draw_window(k: &mut Scene, sh: &Sheet, st: &BarStyle, desk: &Desktop, w: Window, m: &Area)
    requires
        reachable(m@),
    ensures
        final(k)@ == window_drawn(old(k)@, *sh, *st, desk@, w, m@),
{
    let focused: bool = match desk.foreground {
        Some(f) => f.0 == w.0,
        None => false,
    };
    let t: i64 = if focused {
        sh.px(2) as i64
    } else {
        1
    };
    k.fill(
        *m,
        if focused {
            st.accent
        } else {
            st.cell_occupied
        },
    );
    let inner = area(m.left + t, m.top + t, m.right - t, m.bottom - t);
    if inner.right > inner.left && inner.bottom > inner.top {
        k.fill(inner, st.cell_occupied);
    }
    let mw: i64 = m.right - m.left;
    let mh: i64 = m.bottom - m.top;
    let tall: bool = mh >= sh.px(52) as i64;
    if mw >= sh.px(22) as i64 && mh >= sh.px(22) as i64 {
        let half: i64 = divided(lesser(mw, mh), 2);
        let low: i64 = sh.px(16) as i64;
        let high: i64 = sh.px(48) as i64;
        let size: i64 = if half < low {
            low
        } else if half > high {
            high
        } else {
            half
        };
        let lift: i64 = if tall {
            sh.px(8) as i64
        } else {
            0
        };
        k.window_icon(
            w,
            m.left + divided(mw - size, 2),
            m.top + divided(mh - size, 2) - lift,
            size,
        );
    }
    if mw >= sh.px(80) as i64 && tall {
        let pen = normal_pen(sh.px(11) as i64).to(Align::Center).cutting();
        let at = area(
            m.left + sh.px(4) as i64,
            m.bottom - sh.px(18) as i64,
            m.right - sh.px(4) as i64,
            m.bottom - sh.px(2) as i64,
        );
        k.text(desk.title(w), at, st.fg, pen);
    }
}

fn title_text(names: &Vec<String>, i: usize) -> (r: String)
    requires
        i < MOST,
    ensures
        r@ == card_title(texts(names@), i as int),
{
    let name = nth(names, i);
    let number = show(i as u64 + 1);
    if is_blank(name.as_str()) {
        number
    } else {
        joined3(number.as_str(), " · ", name.as_str())
    }
}

fn draw_card(
    k: &mut Scene,
    sh: &Sheet,
    st: &BarStyle,
    snap: &OverviewSnapshot,
    selected: usize,
    i: usize,
    c: &Area,
)
    requires
        i < snap.workspaces.len() <= MOST,
        c@ == card(*sh, snap.workspaces.len() as int, i as int),
        moderate(c@),
    ensures
        final(k)@ == card_drawn(old(k)@, *sh, *st, *snap, selected as int, i as int),
{
    let active: bool = i == snap.active;
    if i == selected {
        let halo: i64 = sh.px(4) as i64;
        k.fill(area(c.left - halo, c.top - halo, c.right + halo, c.bottom + halo), st.fg);
    }
    k.fill(
        *c,
        if active {
            st.accent
        } else {
            st.cell_empty
        },
    );
    let t: i64 = sh.px(2) as i64;
    k.fill(
        area(c.left + t, c.top + t, c.right - t, c.bottom - t),
        if active {
            st.cell_empty
        } else {
            st.bg
        },
    );
    let at = area(
        c.left + sh.px(10) as i64,
        c.top + sh.px(2) as i64,
        c.right - sh.px(10) as i64,
        c.top + sh.px(24) as i64,
    );
    let pen = bold_pen(sh.px(14) as i64).cutting();
    k.text(
        title_text(&snap.names, i),
        at,
        if active {
            st.accent
        } else {
            st.fg
        },
        pen,
    );
}

fn draw_windows(
    k: &mut Scene,
    sh: &Sheet,
    st: &BarStyle,
    desk: &Desktop,
    list: &Vec<(Window, Rect)>,
    src: &Rect,
    body: &Area,
)
    requires
        drawable(body@),
    ensures
        final(k)@ == windows_drawn(old(k)@, *sh, *st, desk@, list@, *src, body@, 0),
{
    let mut j: usize = 0;
    while j < list.len()
        invariant
            j <= list.len(),
            drawable(body@),
            windows_drawn(k@, *sh, *st, desk@, list@, *src, body@, j as int) == windows_drawn(
                old(k)@,
                *sh,
                *st,
                desk@,
                list@,
                *src,
                body@,
                0,
            ),
        decreases list.len() - j,
    {
        let at: (Window, Rect) = list[j];
        match map_rect(&at.1, src, body) {
            Some(m) => {
                draw_window(k, sh, st, desk, at.0, &m);
            },
            None => {},
        }
        j = j + 1;
    }
}

/// The whole overview.
pub fn paint(
    sh: &Sheet,
    st: &BarStyle,
    snap: &Option<OverviewSnapshot>,
    selected: usize,
    desk: &Desktop,
) -> (r: Scene)
    requires
        snap matches Some(p) ==> 1 <= p.workspaces.len() <= MOST,
    ensures
        r@ == painted(*sh, *st, *snap, selected as int, desk@),
{
    let mut k = Scene::new();
    k.fill(area(0, 0, sh.w as i64, sh.h as i64), st.bg);
    let p = match snap {
        Some(p) => p,
        None => {
            return k;
        },
    };
    let n = p.workspaces.len();
    let grid = cards(sh, n);
    let ghost start = k@;
    let mut i: usize = 0;
    while i < n
        invariant
            i <= n,
            n == p.workspaces.len(),
            n <= MOST,
            grid.len() == n,
            forall|x: int| 0 <= x < n ==> (#[trigger] grid@[x])@ == card(*sh, n as int, x),
            forall|x: int| 0 <= x < n ==> moderate((#[trigger] grid@[x])@),
            cards_drawn(k@, *sh, *st, *p, selected as int, desk@, i as int) == cards_drawn(
                start,
                *sh,
                *st,
                *p,
                selected as int,
                desk@,
                0,
            ),
        decreases n - i,
    {
        proof {
            assert(grid@[i as int]@ == card(*sh, n as int, i as int));
            assert(moderate(grid@[i as int]@));
        }
        draw_card(&mut k, sh, st, p, selected, i, &grid[i]);
        let body = body_rect(sh, &grid[i], &p.source);
        draw_windows(&mut k, sh, st, desk, &p.workspaces[i], &p.source, &body);
        i = i + 1;
    }
    let pen = normal_pen(sh.px(11) as i64).to(Align::Center);
    let h: i64 = sh.h as i64;
    k.text(
        owned("←↑↓→ + Enter or digits to jump · click a window · Esc closes"),
        area(0, h - sh.px(26) as i64, sh.w as i64, h - sh.px(4) as i64),
        st.cell_occupied,
        pen,
    );
    k
}

// --------------------------------------------------------------------- laws

/// The arrow keys stay on the cards.
pub proof fn law_arrows_stay_on_cards(selected: int, n: int, vk: u32)
    requires
        selected >= 0,
        n >= 1,
    ensures
        0 <= stepped(selected, n, vk) < n,
{
    law_grid_is_square(n);
    let (cols, rows) = (columns(n), row_count(n));
    let r = (selected / cols + (if vk == VK_UP {
        -1int
    } else if vk == VK_DOWN {
        1int
    } else {
        0int
    })) % rows;
    assert(0 <= r);
    assert(r * cols >= 0) by (nonlinear_arith)
        requires
            r >= 0,
            cols >= 1,
    ;
}

/// A window inside the source area is drawn inside the miniature.
pub proof fn law_miniature_stays_inside(r: Rect, src: Rect, body: Span)
    requires
        src.w > 0,
        src.h > 0,
        body.left <= body.right,
        body.top <= body.bottom,
    ensures
        mapped(r, src, body) matches Some(m) ==> body.left <= m.left <= m.right <= body.right
            && body.top <= m.top <= m.bottom <= body.bottom,
{
    if mapped(r, src, body) is Some {
        let (x1, y1) = (max2(r.x as int, src.x as int), max2(r.y as int, src.y as int));
        let (x2, y2) = (min2(r.x + r.w, src.x + src.w), min2(r.y + r.h, src.y + src.h));
        lemma_parts(x1 - src.x, x2 - src.x, body.right - body.left, src.w as int);
        lemma_parts(y1 - src.y, y2 - src.y, body.bottom - body.top, src.h as int);
    }
}

proof fn lemma_parts(a: int, b: int, length: int, of: int)
    requires
        0 <= a <= b <= of,
        of > 0,
        length >= 0,
    ensures
        0 <= quot(a * length, of) <= quot(b * length, of) <= length,
{
    assert(0 <= a * length <= b * length <= of * length) by (nonlinear_arith)
        requires
            0 <= a <= b <= of,
            length >= 0,
    ;
    let (p, q) = (a * length, b * length);
    assert(0 <= p / of <= q / of <= length) by (nonlinear_arith)
        requires
            0 <= p <= q <= of * length,
            of > 0,
    ;
}

} // verus!
