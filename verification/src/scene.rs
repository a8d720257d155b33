//! What the bar and the panels draw: lists of filled areas, texts and icons,
//! back to front.

use crate::border::{at_dpi, scale_to_dpi};
use crate::layout::{clip, divided, quot, sat, Rect};
use crate::single::{lemma_sig24, quotient, sig24};
use crate::window::Window;
use vstd::prelude::*;

verus! {

/// The colors and the height of the bar.
#[derive(Clone, Copy, Debug, PartialEq, Eq, Structural)]
pub struct BarStyle {
    /// In logical pixels.
    pub height: i32,
    pub bg: u32,
    pub fg: u32,
    pub accent: u32,
    pub cell_empty: u32,
    pub cell_occupied: u32,
    pub alpha: u8,
}

/// The style in use before any configuration is applied.
pub open spec fn plain_style() -> BarStyle {
    BarStyle {
        height: 32,
        bg: 0x251818,
        fg: 0xf4d6cd,
        accent: 0x00F7A27A,
        cell_empty: 0x443131,
        cell_occupied: 0x5a4745,
        alpha: 255,
    }
}

/// The style in use.
pub fn style(set: &Option<BarStyle>) -> (r: BarStyle)
    ensures
        r == match *set {
            Some(s) => s,
            None => plain_style(),
        },
{
    match set {
        Some(s) => *s,
        None => BarStyle {
            height: 32,
            bg: 0x251818,
            fg: 0xf4d6cd,
            accent: 0x00F7A27A,
            cell_empty: 0x443131,
            cell_occupied: 0x5a4745,
            alpha: 255,
        },
    }
}

/// Changes the accent color, once a style is set.
pub fn set_accent(set: &mut Option<BarStyle>, color: u32)
    ensures
        *final(set) == match *old(set) {
            Some(s) => Some(BarStyle { accent: color, ..s }),
            None => None,
        },
{
    match *set {
        Some(s) => {
            *set = Some(BarStyle { accent: color, ..s });
        },
        None => {},
    }
}

// ------------------------------------------------------------------ sheets

/// A client area to draw on: its size in pixels and its resolution.
#[derive(Clone, Copy, Debug, PartialEq, Eq, Structural)]
pub struct Sheet {
    pub w: i32,
    pub h: i32,
    pub dpi: u32,
}

impl Sheet {
    /// A length in logical pixels, in pixels.
    #[verifier::opaque]
    pub open spec fn s(self, v: int) -> int {
        at_dpi(v, self.dpi)
    }

    /// A length in logical pixels, in pixels.
    pub fn px(&self, v: i32) -> (r: i32)
        ensures
            r == self.s(v as int),
            v >= 0 ==> r >= 0,
    {
        reveal(Sheet::s);
        proof {
            let q = quotient(sig24(self.dpi as nat) as nat, sig24(96) as nat);
            if v >= 0 {
                lemma_sig24((sig24(v as nat) * q) as nat);
            }
        }
        scale_to_dpi(v, self.dpi)
    }
}

/// The larger of two numbers.
pub open spec fn max2(a: int, b: int) -> int {
    if a > b {
        a
    } else {
        b
    }
}

/// The smaller of two numbers.
pub open spec fn min2(a: int, b: int) -> int {
    if a < b {
        a
    } else {
        b
    }
}

pub fn greater(a: i64, b: i64) -> (r: i64)
    ensures
        r == max2(a as int, b as int),
{
    if a > b {
        a
    } else {
        b
    }
}

pub fn lesser(a: i64, b: i64) -> (r: i64)
    ensures
        r == min2(a as int, b as int),
{
    if a < b {
        a
    } else {
        b
    }
}

// ------------------------------------------------------------------- marks

/// An area of a sheet.
#[derive(Clone, Copy, Debug, PartialEq, Eq, Structural)]
pub struct Area {
    pub left: i64,
    pub top: i64,
    pub right: i64,
    pub bottom: i64,
}

/// An area of a sheet.
pub struct Span {
    pub left: int,
    pub top: int,
    pub right: int,
    pub bottom: int,
}

impl View for Area {
    type V = Span;

    open spec fn view(&self) -> Span {
        Span {
            left: self.left as int,
            top: self.top as int,
            right: self.right as int,
            bottom: self.bottom as int,
        }
    }
}

pub open spec fn span(left: int, top: int, right: int, bottom: int) -> Span {
    Span { left, top, right, bottom }
}

pub fn area(left: i64, top: i64, right: i64, bottom: i64) -> (r: Area)
    ensures
        r@ == span(left as int, top as int, right as int, bottom as int),
{
    Area { left, top, right, bottom }
}

impl Span {
    /// Is the point in the area? The right and bottom edges are not.
    pub open spec fn has(self, x: int, y: int) -> bool {
        self.left <= x < self.right && self.top <= y < self.bottom
    }
}

impl Area {
    /// Is the point in the area? The right and bottom edges are not.
    pub fn hit(&self, x: i64, y: i64) -> (r: bool)
        ensures
            r == self@.has(x as int, y as int),
    {
        self.left <= x && x < self.right && self.top <= y && y < self.bottom
    }
}

#[derive(Clone, Copy, Debug, PartialEq, Eq, Structural)]
pub enum Weight {
    Normal,
    Bold,
    /// The icon font of the system, normal weight.
    Glyphs,
}

#[derive(Clone, Copy, Debug, PartialEq, Eq, Structural)]
pub enum Align {
    Left,
    Center,
    Right,
}

/// How a text is drawn; always on one line, centered between top and bottom.
#[derive(Clone, Copy, Debug, PartialEq, Eq, Structural)]
pub struct Pen {
    /// Font height in pixels.
    pub height: i64,
    pub weight: Weight,
    pub align: Align,
    /// Cut a text that is too wide, with an ellipsis.
    pub ellipsis: bool,
}

/// How a text is drawn.
pub struct Quill {
    pub height: int,
    pub weight: Weight,
    pub align: Align,
    pub ellipsis: bool,
}

impl View for Pen {
    type V = Quill;

    open spec fn view(&self) -> Quill {
        Quill {
            height: self.height as int,
            weight: self.weight,
            align: self.align,
            ellipsis: self.ellipsis,
        }
    }
}

impl Quill {
    pub open spec fn at(self, align: Align) -> Quill {
        Quill { align, ..self }
    }

    pub open spec fn cut(self) -> Quill {
        Quill { ellipsis: true, ..self }
    }
}

impl Pen {
    /// The same pen with another alignment.
    pub fn to(&self, align: Align) -> (r: Pen)
        ensures
            r@ == self@.at(align),
    {
        Pen { align, ..*self }
    }

    /// The same pen with an ellipsis.
    pub fn cutting(&self) -> (r: Pen)
        ensures
            r@ == self@.cut(),
    {
        Pen { ellipsis: true, ..*self }
    }
}

/// Left-aligned normal text.
pub open spec fn normal(height: int) -> Quill {
    Quill { height, weight: Weight::Normal, align: Align::Left, ellipsis: false }
}

/// Left-aligned bold text.
pub open spec fn bold(height: int) -> Quill {
    Quill { height, weight: Weight::Bold, align: Align::Left, ellipsis: false }
}

pub fn normal_pen(height: i64) -> (r: Pen)
    ensures
        r@ == normal(height as int),
{
    Pen { height, weight: Weight::Normal, align: Align::Left, ellipsis: false }
}

pub fn bold_pen(height: i64) -> (r: Pen)
    ensures
        r@ == bold(height as int),
{
    Pen { height, weight: Weight::Bold, align: Align::Left, ellipsis: false }
}

/// Where a panel stands on its monitor; always in the middle from left to
/// right.
#[derive(Clone, Copy, Debug, PartialEq, Eq, Structural)]
pub enum Perch {
    Middle,
    /// A third of the free height from the top.
    Third,
    /// A fifth of the monitor from the top.
    Fifth,
}

/// The place of a panel of that size on a monitor.
pub open spec fn perched(bounds: Rect, w: int, h: int, at: Perch) -> Rect {
    let down = match at {
        Perch::Middle => quot(bounds.h - h, 2),
        Perch::Third => quot(bounds.h - h, 3),
        Perch::Fifth => quot(bounds.h as int, 5),
    };
    Rect {
        x: sat(bounds.x + quot(bounds.w - w, 2)),
        y: sat(bounds.y + down),
        w: sat(w),
        h: sat(h),
    }
}

/// The place of a panel of that size on a monitor.
pub fn perch(bounds: &Rect, w: i64, h: i64, at: Perch) -> (r: Rect)
    requires
        -0x6000_0000_0000_0000 <= w <= 0x6000_0000_0000_0000,
        -0x6000_0000_0000_0000 <= h <= 0x6000_0000_0000_0000,
    ensures
        r == perched(*bounds, w as int, h as int, at),
{
    let down: i64 = match at {
        Perch::Middle => divided(bounds.h as i64 - h, 2),
        Perch::Third => divided(bounds.h as i64 - h, 3),
        Perch::Fifth => divided(bounds.h as i64, 5),
    };
    Rect {
        x: clip(bounds.x as i64 + divided(bounds.w as i64 - w, 2)),
        y: clip(bounds.y as i64 + down),
        w: clip(w),
        h: clip(h),
    }
}

/// One thing to draw.
#[derive(Debug)]
pub enum Draw {
    Fill { area: Area, color: u32 },
    /// An area with rounded corners.
    Round { area: Area, color: u32, radius: i64 },
    Text { text: String, area: Area, color: u32, pen: Pen },
    /// The icon of a window, if it has one.
    WindowIcon { window: Window, x: i64, y: i64, size: i64 },
    /// The icon of a file, if it has one.
    FileIcon { path: String, x: i64, y: i64, size: i64 },
}

/// One thing to draw.
pub enum Mark {
    Fill { area: Span, color: u32 },
    Round { area: Span, color: u32, radius: int },
    Text { text: Seq<char>, area: Span, color: u32, pen: Quill },
    WindowIcon { window: Window, x: int, y: int, size: int },
    FileIcon { path: Seq<char>, x: int, y: int, size: int },
}

impl View for Draw {
    type V = Mark;

    open spec fn view(&self) -> Mark {
        match *self {
            Draw::Fill { area, color } => Mark::Fill { area: area@, color },
            Draw::Round { area, color, radius } => Mark::Round {
                area: area@,
                color,
                radius: radius as int,
            },
            Draw::Text { text, area, color, pen } => Mark::Text {
                text: text@,
                area: area@,
                color,
                pen: pen@,
            },
            Draw::WindowIcon { window, x, y, size } => Mark::WindowIcon {
                window,
                x: x as int,
                y: y as int,
                size: size as int,
            },
            Draw::FileIcon { path, x, y, size } => Mark::FileIcon {
                path: path@,
                x: x as int,
                y: y as int,
                size: size as int,
            },
        }
    }
}

/// A drawing: the later marks lie on top.
pub struct Scene {
    pub marks: Vec<Draw>,
}

/// A drawing.
#[verifier::ext_equal]
pub struct Sketch {
    pub marks: Seq<Mark>,
}

impl View for Scene {
    type V = Sketch;

    open spec fn view(&self) -> Sketch {
        Sketch { marks: self.marks@.map_values(|d: Draw| d@) }
    }
}

/// Nothing drawn yet.
pub open spec fn blank() -> Sketch {
    Sketch { marks: Seq::empty() }
}

impl Sketch {
    pub open spec fn with(self, m: Mark) -> Sketch {
        Sketch { marks: self.marks.push(m) }
    }

    pub open spec fn fill(self, area: Span, color: u32) -> Sketch {
        self.with(Mark::Fill { area, color })
    }

    pub open spec fn round(self, area: Span, color: u32, radius: int) -> Sketch {
        self.with(Mark::Round { area, color, radius })
    }

    pub open spec fn text(self, text: Seq<char>, area: Span, color: u32, pen: Quill) -> Sketch {
        self.with(Mark::Text { text, area, color, pen })
    }

    pub open spec fn window_icon(self, window: Window, x: int, y: int, size: int) -> Sketch {
        self.with(Mark::WindowIcon { window, x, y, size })
    }

    pub open spec fn file_icon(self, path: Seq<char>, x: int, y: int, size: int) -> Sketch {
        self.with(Mark::FileIcon { path, x, y, size })
    }

    /// A small outlined button.
    pub open spec fn chip(self, a: Span, bg: u32, border: u32) -> Sketch {
        self.round(a, border, 6).round(
            span(a.left + 1, a.top + 1, a.right - 1, a.bottom - 1),
            bg,
            5,
        )
    }

    /// The ground of a panel and its four edges.
    pub open spec fn frame(self, sh: Sheet, st: BarStyle) -> Sketch {
        let t = sh.s(2);
        self.fill(span(0, 0, sh.w as int, sh.h as int), st.bg).fill(
            span(0, 0, sh.w as int, t),
            st.accent,
        ).fill(span(0, sh.h - t, sh.w as int, sh.h as int), st.accent).fill(
            span(0, 0, t, sh.h as int),
            st.accent,
        ).fill(span(sh.w - t, 0, sh.w as int, sh.h as int), st.accent)
    }
}

impl Scene {
    pub fn new() -> (r: Scene)
        ensures
            r@ == blank(),
    {
        let r = Scene { marks: Vec::new() };
        proof {
            assert(r@.marks =~= blank().marks);
        }
        r
    }

    fn add_mark(&mut self, d: Draw)
        ensures
            final(self)@ == old(self)@.with(d@),
    {
        let ghost before = self.marks@;
        self.marks.push(d);
        proof {
            assert(before.push(d).map_values(|d: Draw| d@) =~= before.map_values(
                |d: Draw| d@,
            ).push(d@));
        }
    }

    pub fn fill(&mut self, area: Area, color: u32)
        ensures
            final(self)@ == old(self)@.fill(area@, color),
    {
        self.add_mark(Draw::Fill { area, color });
    }

    pub fn round(&mut self, area: Area, color: u32, radius: i64)
        ensures
            final(self)@ == old(self)@.round(area@, color, radius as int),
    {
        self.add_mark(Draw::Round { area, color, radius });
    }

    pub fn text(&mut self, text: String, area: Area, color: u32, pen: Pen)
        ensures
            final(self)@ == old(self)@.text(text@, area@, color, pen@),
    {
        self.add_mark(Draw::Text { text, area, color, pen });
    }

    pub fn window_icon(&mut self, window: Window, x: i64, y: i64, size: i64)
        ensures
            final(self)@ == old(self)@.window_icon(window, x as int, y as int, size as int),
    {
        self.add_mark(Draw::WindowIcon { window, x, y, size });
    }

    pub fn file_icon(&mut self, path: String, x: i64, y: i64, size: i64)
        ensures
            final(self)@ == old(self)@.file_icon(path@, x as int, y as int, size as int),
    {
        self.add_mark(Draw::FileIcon { path, x, y, size });
    }

    /// A small outlined button.
    pub fn chip(&mut self, a: Area, bg: u32, border: u32)
        requires
            a.left < i64::MAX,
            a.top < i64::MAX,
            a.right > i64::MIN,
            a.bottom > i64::MIN,
        ensures
            final(self)@ == old(self)@.chip(a@, bg, border),
    {
        self.round(a, border, 6);
        self.round(area(a.left + 1, a.top + 1, a.right - 1, a.bottom - 1), bg, 5);
    }

    /// The ground of a panel and its four edges.
    pub fn frame(&mut self, sh: &Sheet, st: &BarStyle)
        ensures
            final(self)@ == old(self)@.frame(*sh, *st),
    {
        let w: i64 = sh.w as i64;
        let h: i64 = sh.h as i64;
        let t: i64 = sh.px(2) as i64;
        self.fill(area(0, 0, w, h), st.bg);
        self.fill(area(0, 0, w, t), st.accent);
        self.fill(area(0, h - t, w, h), st.accent);
        self.fill(area(0, 0, t, h), st.accent);
        self.fill(area(w - t, 0, w, h), st.accent);
    }
}

} // verus!
