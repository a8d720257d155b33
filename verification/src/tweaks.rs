//! The appearance panel: the number of workspaces, the thickness of the focus
//! frame and the accent color.

use crate::config::{colorref, parse_colorref, swapped_channels, without_hashes};
use crate::layout::{divided, quot, Rect};
use crate::numerals::{
    decimal, digit_of, digits_value, hex_byte, hex_char, push_hex_byte, show, show_signed,
    signed_decimal,
};
use crate::scene::{
    area, blank, bold, bold_pen, normal, normal_pen, perch, perched, span, Align, Area, BarStyle, Perch,
    Scene, Sheet, Sketch, Span,
};
use crate::text::{ascii_lowered, joined, owned, same_ignoring_ascii_case};
use vstd::prelude::*;

verus! {

/// The accent colors on offer.
pub open spec fn palette() -> Seq<Seq<char>> {
    seq![
        "#7aa2f7"@,
        "#89dceb"@,
        "#94e2d5"@,
        "#a6e3a1"@,
        "#f9e2af"@,
        "#fab387"@,
        "#f38ba8"@,
        "#f5c2e7"@,
        "#cba6f7"@,
        "#cdd6f4"@,
    ]
}

/// The `i`th of the accent colors on offer.
pub fn palette_color(i: usize) -> (r: String)
    requires
        i < 10,
    ensures
        r@ == palette()[i as int],
{
    if i == 0 {
        owned("#7aa2f7")
    } else if i == 1 {
        owned("#89dceb")
    } else if i == 2 {
        owned("#94e2d5")
    } else if i == 3 {
        owned("#a6e3a1")
    } else if i == 4 {
        owned("#f9e2af")
    } else if i == 5 {
        owned("#fab387")
    } else if i == 6 {
        owned("#f38ba8")
    } else if i == 7 {
        owned("#f5c2e7")
    } else if i == 8 {
        owned("#cba6f7")
    } else {
        owned("#cdd6f4")
    }
}

// ----------------------------------------------------------------- geometry

pub open spec fn line_height(sh: Sheet) -> int {
    sh.s(34)
}

/// The top of the first row.
pub open spec fn rows_top(sh: Sheet) -> int {
    sh.s(20) + sh.s(26) + sh.s(8)
}

/// The top of a row.
pub open spec fn row_top(sh: Sheet, row: int) -> int {
    rows_top(sh) + row * line_height(sh)
}

/// The boxes of a stepper at height `y`: less, the value, more; at the right
/// edge of the panel.
pub open spec fn stepper(sh: Sheet, y: int) -> (Span, Span, Span) {
    let (bw, bh, w) = (sh.s(28), sh.s(24), sh.w as int);
    let top = y + quot(line_height(sh) - bh, 2);
    let plus = span(w - sh.s(20) - bw, top, w - sh.s(20), top + bh);
    let val = span(plus.left - sh.s(56), top, plus.left, top + bh);
    (span(val.left - bw, top, val.left, top + bh), val, plus)
}

/// The `i`th color swatch at height `y`.
pub open spec fn swatch(sh: Sheet, y: int, i: int) -> Span {
    let (size, gap) = (sh.s(24), sh.s(6));
    let top = y + quot(line_height(sh) - size, 2);
    let left = sh.s(20) + i * (size + gap);
    span(left, top, left + size, top + size)
}

/// The chip at height `y` that opens the color dialog.
pub open spec fn custom_chip(sh: Sheet, y: int) -> Span {
    let bh = sh.s(24);
    let top = y + quot(line_height(sh) - bh, 2);
    span(sh.w - sh.s(20) - sh.s(84), top, sh.w - sh.s(20), top + bh)
}

/// Coordinates that leave room to calculate with.
pub open spec fn moderate(a: Area) -> bool {
    &&& -0x100_0000_0000 <= a.left <= 0x100_0000_0000
    &&& -0x100_0000_0000 <= a.top <= 0x100_0000_0000
    &&& -0x100_0000_0000 <= a.right <= 0x100_0000_0000
    &&& -0x100_0000_0000 <= a.bottom <= 0x100_0000_0000
}

/// The top of a row.
pub fn tweaks_row_top(sh: &Sheet, row: i64) -> (r: i64)
    requires
        0 <= row <= 4,
    ensures
        r == row_top(*sh, row as int),
        0 <= r <= 0x8_0000_0000,
{
    let line: i64 = sh.px(34) as i64;
    proof {
        let (a, b) = (row as int, line as int);
        assert(0 <= a * b <= 4 * 0x8000_0000) by (nonlinear_arith)
            requires
                0 <= a <= 4,
                0 <= b <= 0x8000_0000,
        ;
    }
    sh.px(20) as i64 + sh.px(26) as i64 + sh.px(8) as i64 + row * line
}

/// The boxes of a stepper at height `y`.
pub fn stepper_rects(sh: &Sheet, y: i64) -> (r: (Area, Area, Area))
    requires
        0 <= y <= 0x8_0000_0000,
    ensures
        (r.0@, r.1@, r.2@) == stepper(*sh, y as int),
        moderate(r.0),
        moderate(r.1),
        moderate(r.2),
{
    let bw: i64 = sh.px(28) as i64;
    let bh: i64 = sh.px(24) as i64;
    let w: i64 = sh.w as i64;
    let pad: i64 = sh.px(20) as i64;
    let top: i64 = y + divided(sh.px(34) as i64 - bh, 2);
    let plus = area(w - pad - bw, top, w - pad, top + bh);
    let val = area(plus.left - sh.px(56) as i64, top, plus.left, top + bh);
    let minus = area(val.left - bw, top, val.left, top + bh);
    (minus, val, plus)
}

/// The `i`th color swatch at height `y`.
pub fn swatch_rect(sh: &Sheet, y: i64, i: usize) -> (r: Area)
    requires
        0 <= y <= 0x8_0000_0000,
        i < 10,
    ensures
        r@ == swatch(*sh, y as int, i as int),
        moderate(r),
{
    let size: i64 = sh.px(24) as i64;
    let each: i64 = size + sh.px(6) as i64;
    proof {
        let (a, b) = (i as int, each as int);
        assert(0 <= a * b <= 10 * 0x1_0000_0000) by (nonlinear_arith)
            requires
                0 <= a <= 10,
                0 <= b <= 0x1_0000_0000,
        ;
    }
    let top: i64 = y + divided(sh.px(34) as i64 - size, 2);
    let left: i64 = sh.px(20) as i64 + i as i64 * each;
    area(left, top, left + size, top + size)
}

/// The chip at height `y` that opens the color dialog.
pub fn custom_chip_rect(sh: &Sheet, y: i64) -> (r: Area)
    requires
        0 <= y <= 0x8_0000_0000,
    ensures
        r@ == custom_chip(*sh, y as int),
        moderate(r),
{
    let bh: i64 = sh.px(24) as i64;
    let top: i64 = y + divided(sh.px(34) as i64 - bh, 2);
    let right: i64 = sh.w as i64 - sh.px(20) as i64;
    area(right - sh.px(84) as i64, top, right, top + bh)
}

/// The place of the panel.
pub open spec fn tweaks_place(bounds: Rect, dpi: u32) -> Rect {
    let sh = Sheet { w: 0, h: 0, dpi };
    perched(bounds, sh.s(348), row_top(sh, 4) + sh.s(44), Perch::Middle)
}

/// The place of the panel.
pub fn tweaks_panel(bounds: &Rect, dpi: u32) -> (r: Rect)
    ensures
        r == tweaks_place(*bounds, dpi),
{
    let sh = Sheet { w: 0, h: 0, dpi };
    perch(
        bounds,
        sh.px(348) as i64,
        tweaks_row_top(&sh, 4) + sh.px(44) as i64,
        Perch::Middle,
    )
}

// -------------------------------------------------------------------- clicks

/// What a click is for.
#[derive(Clone, Copy, Debug, PartialEq, Eq, Structural)]
pub enum TweakClick {
    Nothing,
    /// One workspace less or more.
    Workspaces(i32),
    /// A frame thinner or thicker by one pixel.
    Thickness(i32),
    /// Open the color dialog.
    Custom,
    /// That color of the palette.
    Color(usize),
}

/// What a stepper answers to a click.
pub open spec fn stepped(sh: Sheet, row: int, x: int, y: int) -> Option<i32> {
    let (minus, val, plus) = stepper(sh, row_top(sh, row));
    if minus.has(x, y) {
        Some(-1i32)
    } else if plus.has(x, y) {
        Some(1)
    } else {
        None
    }
}

/// The swatch under a point, from the `i`th on.
pub open spec fn swatch_from(sh: Sheet, x: int, y: int, i: int) -> TweakClick
    decreases 10 - i,
{
    if i < 0 || i >= 10 {
        TweakClick::Nothing
    } else if swatch(sh, row_top(sh, 3), i).has(x, y) {
        TweakClick::Color(i as usize)
    } else {
        swatch_from(sh, x, y, i + 1)
    }
}

/// What a click is for.
pub open spec fn clicked(sh: Sheet, x: int, y: int) -> TweakClick {
    if stepped(sh, 0, x, y) is Some {
        TweakClick::Workspaces(stepped(sh, 0, x, y)->0)
    } else if stepped(sh, 1, x, y) is Some {
        TweakClick::Thickness(stepped(sh, 1, x, y)->0)
    } else if custom_chip(sh, row_top(sh, 2)).has(x, y) {
        TweakClick::Custom
    } else {
        swatch_from(sh, x, y, 0)
    }
}

fn step_at(sh: &Sheet, row: i64, x: i64, y: i64) -> (r: Option<i32>)
    requires
        0 <= row <= 4,
    ensures
        r == stepped(*sh, row as int, x as int, y as int),
{
    let (minus, val, plus) = stepper_rects(sh, tweaks_row_top(sh, row));
    if minus.hit(x, y) {
        Some(-1)
    } else if plus.hit(x, y) {
        Some(1)
    } else {
        None
    }
}

/// What a click is for.
pub fn on_tweaks_click(sh: &Sheet, x: i32, y: i32) -> (r: TweakClick)
    ensures
        r == clicked(*sh, x as int, y as int),
{
    let (ax, ay) = (x as i64, y as i64);
    match step_at(sh, 0, ax, ay) {
        Some(d) => {
            return TweakClick::Workspaces(d);
        },
        None => {},
    }
    match step_at(sh, 1, ax, ay) {
        Some(d) => {
            return TweakClick::Thickness(d);
        },
        None => {},
    }
    let chip = custom_chip_rect(sh, tweaks_row_top(sh, 2));
    if chip.hit(ax, ay) {
        return TweakClick::Custom;
    }
    let row: i64 = tweaks_row_top(sh, 3);
    let mut i: usize = 0;
    while i < 10
        invariant
            i <= 10,
            ax == x,
            ay == y,
            row == row_top(*sh, 3),
            0 <= row <= 0x8_0000_0000,
            swatch_from(*sh, x as int, y as int, i as int) == clicked(*sh, x as int, y as int),
        decreases 10 - i,
    {
        let at = swatch_rect(sh, row, i);
        if at.hit(ax, ay) {
            return TweakClick::Color(i);
        }
        i = i + 1;
    }
    TweakClick::Nothing
}

/// The number of workspaces after a step, between 1 and 24.
pub fn adjust_workspaces(cur: usize, delta: i32) -> (r: usize)
    requires
        cur <= 0x7FFF_FFFF,
    ensures
        r == if cur + delta < 1 {
            1int
        } else if cur + delta > 24 {
            24int
        } else {
            cur + delta
        },
{
    let to: i64 = cur as i64 + delta as i64;
    if to < 1 {
        1
    } else if to > 24 {
        24
    } else {
        to as usize
    }
}

/// The thickness of the frame after a step, between 0 and 12; nothing when it
/// stays as it is.
pub fn adjust_thickness(cur: i32, delta: i32) -> (r: Option<i32>)
    ensures
        ({
            let to: int = if cur + delta < 0 {
                0
            } else if cur + delta > 12 {
                12
            } else {
                cur + delta
            };
            r == if to == cur {
                None
            } else {
                Some(to as i32)
            }
        }),
{
    let to: i64 = cur as i64 + delta as i64;
    let new: i32 = if to < 0 {
        0
    } else if to > 12 {
        12
    } else {
        to as i32
    };
    if new == cur {
        None
    } else {
        Some(new)
    }
}

/// A color of the dialog, blue in the high byte, as "#rrggbb".
pub open spec fn hex_of(c: u32) -> Seq<char> {
    "#"@ + hex_byte(c as int % 256) + hex_byte(c as int / 256 % 256) + hex_byte(
        c as int / 65536 % 256,
    )
}

/// A color of the dialog as "#rrggbb".
pub fn color_text(c: u32) -> (r: String)
    ensures
        r@ == hex_of(c),
{
    let mut r = owned("#");
    push_hex_byte(&mut r, c % 256);
    push_hex_byte(&mut r, c / 256 % 256);
    push_hex_byte(&mut r, c / 65536 % 256);
    r
}

// ----------------------------------------------------------------- painting

/// A stepper: less, the value, more.
pub open spec fn stepper_drawn(k: Sketch, sh: Sheet, st: BarStyle, y: int, value: Seq<char>) -> Sketch {
    let (minus, val, plus) = stepper(sh, y);
    let pen = normal(sh.s(15)).at(Align::Center);
    k.chip(minus, st.cell_empty, st.cell_occupied).text("−"@, minus, st.accent, pen).text(
        value,
        val,
        st.fg,
        pen,
    ).chip(plus, st.cell_empty, st.cell_occupied).text("+"@, plus, st.accent, pen)
}

/// The swatches from the `i`th on; the color in use has a ring.
pub open spec fn swatches_drawn(k: Sketch, sh: Sheet, st: BarStyle, color: Seq<char>, i: int) -> Sketch
    decreases 10 - i,
{
    if i < 0 || i >= 10 {
        k
    } else {
        let r = swatch(sh, row_top(sh, 3), i);
        let t = sh.s(3);
        let ringed = if ascii_lowered(palette()[i]) == ascii_lowered(color) {
            k.fill(span(r.left - t, r.top - t, r.right + t, r.bottom + t), st.fg)
        } else {
            k
        };
        swatches_drawn(
            ringed.fill(r, colorref(palette()[i]) as u32),
            sh,
            st,
            color,
            i + 1,
        )
    }
}

/// The words for a thickness.
pub open spec fn thickness_text(t: i32) -> Seq<char> {
    if t == 0 {
        "off"@
    } else {
        signed_decimal(t as int) + " px"@
    }
}

/// The span of a row.
pub open spec fn row_span(sh: Sheet, row: int) -> Span {
    span(sh.s(20), row_top(sh, row), sh.w - sh.s(20), row_top(sh, row + 1))
}

/// The whole panel.
pub open spec fn tweaks_painted(
    sh: Sheet,
    st: BarStyle,
    workspaces: usize,
    thickness: i32,
    color: Seq<char>,
) -> Sketch {
    let (pad, w, h) = (sh.s(20), sh.w as int, sh.h as int);
    let title = span(pad, pad, w - pad, pad + sh.s(26));
    let pen = normal(sh.s(15));
    let chip = custom_chip(sh, row_top(sh, 2));
    let titled = blank().frame(sh, st).text(
        "wtm appearance"@,
        title,
        st.accent,
        bold(sh.s(15)),
    ).text("applies instantly"@, title, st.cell_occupied, pen.at(Align::Right));
    let counted = stepper_drawn(
        titled.text("workspaces"@, row_span(sh, 0), st.fg, pen),
        sh,
        st,
        row_top(sh, 0),
        decimal(workspaces as nat),
    );
    let framed = stepper_drawn(
        counted.text("focus frame"@, row_span(sh, 1), st.fg, pen),
        sh,
        st,
        row_top(sh, 1),
        thickness_text(thickness),
    );
    let colored = framed.text("accent color"@, row_span(sh, 2), st.fg, pen).chip(
        chip,
        st.cell_empty,
        st.cell_occupied,
    ).text("custom…"@, chip, st.accent, pen.at(Align::Center)).text(
        color,
        span(pad, row_top(sh, 2), chip.left - sh.s(10), row_top(sh, 3)),
        st.cell_occupied,
        pen.at(Align::Right),
    );
    swatches_drawn(colored, sh, st, color, 0).text(
        "saved to config.toml · Esc closes"@,
        span(pad, h - sh.s(26) - sh.s(6), w - pad, h - sh.s(6)),
        st.cell_occupied,
        pen,
    )
}

fn draw_stepper(k: &mut Scene, sh: &Sheet, st: &BarStyle, y: i64, value: String)
    requires
        0 <= y <= 0x8_0000_0000,
    ensures
        final(k)@ == stepper_drawn(old(k)@, *sh, *st, y as int, value@),
{
    let (minus, val, plus) = stepper_rects(sh, y);
    let pen = normal_pen(sh.px(15) as i64).to(Align::Center);
    k.chip(minus, st.cell_empty, st.cell_occupied);
    k.text(owned("−"), minus, st.accent, pen);
    k.text(value, val, st.fg, pen);
    k.chip(plus, st.cell_empty, st.cell_occupied);
    k.text(owned("+"), plus, st.accent, pen);
}

fn draw_swatches(k: &mut Scene, sh: &Sheet, st: &BarStyle, color: &str)
    ensures
        final(k)@ == swatches_drawn(old(k)@, *sh, *st, color@, 0),
{
    let row: i64 = tweaks_row_top(sh, 3);
    let t: i64 = sh.px(3) as i64;
    let mut i: usize = 0;
    while i < 10
        invariant
            i <= 10,
            row == row_top(*sh, 3),
            0 <= row <= 0x8_0000_0000,
            t == sh.s(3),
            0 <= t < 0x8000_0000,
            swatches_drawn(k@, *sh, *st, color@, i as int) == swatches_drawn(
                old(k)@,
                *sh,
                *st,
                color@,
                0,
            ),
        decreases 10 - i,
    {
        let r = swatch_rect(sh, row, i);
        let hex = palette_color(i);
        if same_ignoring_ascii_case(hex.as_str(), color) {
            k.fill(area(r.left - t, r.top - t, r.right + t, r.bottom + t), st.fg);
        }
        k.fill(r, parse_colorref(hex.as_str()));
        i = i + 1;
    }
}

fn row_area(sh: &Sheet, row: i64) -> (r: Area)
    requires
        0 <= row <= 3,
    ensures
        r@ == row_span(*sh, row as int),
{
    let pad: i64 = sh.px(20) as i64;
    area(pad, tweaks_row_top(sh, row), sh.w as i64 - pad, tweaks_row_top(sh, row + 1))
}

/// The whole panel.
pub fn paint_tweaks(sh: &Sheet, st: &BarStyle, workspaces: usize, thickness: i32, color: &str) -> (k:
    Scene)
    ensures
        k@ == tweaks_painted(*sh, *st, workspaces, thickness, color@),
{
    let pad: i64 = sh.px(20) as i64;
    let w: i64 = sh.w as i64;
    let h: i64 = sh.h as i64;
    let pen = normal_pen(sh.px(15) as i64);
    let mut k = Scene::new();
    k.frame(sh, st);
    let title = area(pad, pad, w - pad, pad + sh.px(26) as i64);
    k.text(owned("wtm appearance"), title, st.accent, bold_pen(sh.px(15) as i64));
    k.text(owned("applies instantly"), title, st.cell_occupied, pen.to(Align::Right));
    k.text(owned("workspaces"), row_area(sh, 0), st.fg, pen);
    draw_stepper(&mut k, sh, st, tweaks_row_top(sh, 0), show(workspaces as u64));
    k.text(owned("focus frame"), row_area(sh, 1), st.fg, pen);
    let value = if thickness == 0 {
        owned("off")
    } else {
        let n = show_signed(thickness as i64);
        joined(n.as_str(), " px")
    };
    draw_stepper(&mut k, sh, st, tweaks_row_top(sh, 1), value);
    k.text(owned("accent color"), row_area(sh, 2), st.fg, pen);
    let chip = custom_chip_rect(sh, tweaks_row_top(sh, 2));
    k.chip(chip, st.cell_empty, st.cell_occupied);
    k.text(owned("custom…"), chip, st.accent, pen.to(Align::Center));
    k.text(
        owned(color),
        area(pad, tweaks_row_top(sh, 2), chip.left - sh.px(10) as i64, tweaks_row_top(sh, 3)),
        st.cell_occupied,
        pen.to(Align::Right),
    );
    draw_swatches(&mut k, sh, st, color);
    let edge: i64 = sh.px(6) as i64;
    k.text(
        owned("saved to config.toml · Esc closes"),
        area(pad, h - sh.px(26) as i64 - edge, w - pad, h - edge),
        st.cell_occupied,
        pen,
    );
    k
}

// --------------------------------------------------------------------- laws

proof fn lemma_hex_byte(s: Seq<char>, v: int, n: int)
    requires
        digits_value(s, 16) == Some(v),
        0 <= n < 256,
    ensures
        digits_value(s + hex_byte(n), 16) == Some(v * 256 + n),
{
    let t = s + hex_byte(n);
    let u = s.push(hex_char(n / 16));
    assert(t.drop_last() =~= u);
    assert(u.drop_last() =~= s);
    assert(digit_of(hex_char(n / 16), 16) == Some(n / 16));
    assert(digit_of(hex_char(n % 16), 16) == Some(n % 16));
    assert(digits_value(u, 16) == Some(v * 16 + n / 16));
    assert((v * 16 + n / 16) * 16 + n % 16 == v * 256 + n);
}

/// A color written by the panel is read back as the same color.
pub proof fn law_color_reads_back(c: u32)
    requires
        c < 0x100_0000,
    ensures
        colorref(hex_of(c)) == c,
{
    reveal_strlit("#");
    let (r, g, b) = (c as int % 256, c as int / 256 % 256, c as int / 65536 % 256);
    let none = Seq::<char>::empty();
    let s1 = none + hex_byte(r);
    let s2 = s1 + hex_byte(g);
    let s3 = s2 + hex_byte(b);
    assert(digits_value(none, 16) == Some(0int));
    lemma_hex_byte(none, 0, r);
    lemma_hex_byte(s1, r, g);
    lemma_hex_byte(s2, r * 256 + g, b);
    let hex = hex_of(c);
    assert(hex.drop_first() =~= s3);
    assert(s3[0] == hex_char(r / 16));
    assert(s3[0] as u32 >= 48);
    assert(hex[0] == '#');
    assert(without_hashes(s3) == s3);
    assert(without_hashes(hex) == s3);
    let rgb = (r * 256 + g) * 256 + b;
    assert(digits_value(s3, 16) == Some(rgb));
    assert(rgb % 256 == b);
    assert(rgb / 256 % 256 == g);
    assert(rgb / 65536 % 256 == r);
    assert(swapped_channels(rgb) == b * 65536 + g * 256 + r);
    assert(c as int == b * 65536 + g * 256 + r);
}

} // verus!
