//! The focus frame: a hollow window drawn around the focused one.

use crate::config::Config;
use crate::layout::{clip, larger, most, sat, Rect};
use crate::single::{quotient, scaled, sig24, Factor};
use vstd::prelude::*;

verus! {

/// The style of the frame.
pub struct Frame {
    /// In pixels; 0 hides the frame.
    pub thickness: i32,
    /// Corner radius in logical pixels.
    pub radius: i32,
}

/// What to do with the frame window.
#[derive(Clone, Copy, Debug, PartialEq, Eq, Structural)]
pub enum FrameStep {
    Hide,
    /// Place it, and cut out its region.
    Show(Rect, Region),
}

/// The region of the frame, relative to its window: the outer rectangle
/// without the inner one. The corners are rounded when the diameters are not
/// zero.
#[derive(Clone, Copy, Debug, PartialEq, Eq, Structural)]
pub struct Region {
    pub outer: Rect,
    pub outer_diameter: i32,
    pub inner: Rect,
    pub inner_diameter: i32,
}

/// A length in logical pixels on a screen of that resolution.
pub open spec fn at_dpi(v: int, dpi: u32) -> int {
    scaled(v, quotient(sig24(dpi as nat) as nat, sig24(96) as nat))
}

/// A length in logical pixels on a screen of that resolution.
pub fn scale_to_dpi(v: i32, dpi: u32) -> (r: i32)
    ensures
        r == at_dpi(v as int, dpi),
{
    Factor::ratio(dpi, 96).times(v)
}

/// The frame around `target`: `t` wide, rounded with radius `r` at its inner
/// edge and `r + t` at its outer one, so that the band is even.
pub open spec fn framed(target: Rect, t: int, r: int) -> (Rect, Region) {
    let w = sat(target.w + 2 * t);
    let h = sat(target.h + 2 * t);
    (
        Rect { x: sat(target.x - t), y: sat(target.y - t), w, h },
        Region {
            outer: Rect { x: 0, y: 0, w, h },
            outer_diameter: if r > 0 {
                sat(2 * (r + t))
            } else {
                0
            },
            inner: Rect { x: sat(t), y: sat(t), w: sat(w - 2 * t), h: sat(h - 2 * t) },
            inner_diameter: if r > 0 {
                sat(2 * r)
            } else {
                0
            },
        },
    )
}

impl Frame {
    /// The style that a configuration asks for.
    pub fn init(cfg: &Config) -> (r: Frame)
        ensures
            r.thickness == most(cfg.border_thickness, 0),
            r.radius == most(cfg.border_corner_radius, 0),
    {
        Frame {
            thickness: larger(cfg.border_thickness, 0),
            radius: larger(cfg.border_corner_radius, 0),
        }
    }

    pub fn set_radius(&mut self, r: i32)
        ensures
            final(self).radius == most(r, 0),
            final(self).thickness == old(self).thickness,
    {
        self.radius = larger(r, 0);
    }

    pub fn set_thickness(&mut self, t: i32)
        ensures
            final(self).thickness == most(t, 0),
            final(self).radius == old(self).radius,
    {
        self.thickness = larger(t, 0);
    }

    /// Where the frame goes, on a screen of that resolution.
    pub fn update(&self, target: Option<Rect>, dpi: u32) -> (r: FrameStep)
        ensures
            r == match target {
                None => FrameStep::Hide,
                Some(at) => if self.thickness <= 0 {
                    FrameStep::Hide
                } else {
                    let f = framed(at, self.thickness as int, at_dpi(self.radius as int, dpi));
                    FrameStep::Show(f.0, f.1)
                },
            },
    {
        let at = match target {
            Some(at) => at,
            None => {
                return FrameStep::Hide;
            },
        };
        if self.thickness <= 0 {
            return FrameStep::Hide;
        }
        let t: i64 = self.thickness as i64;
        let r: i64 = scale_to_dpi(self.radius, dpi) as i64;
        let w: i32 = clip(at.w as i64 + 2 * t);
        let h: i32 = clip(at.h as i64 + 2 * t);
        let place = Rect { x: clip(at.x as i64 - t), y: clip(at.y as i64 - t), w, h };
        let region = Region {
            outer: Rect { x: 0, y: 0, w, h },
            outer_diameter: if r > 0 {
                clip(2 * (r + t))
            } else {
                0
            },
            inner: Rect {
                x: self.thickness,
                y: self.thickness,
                w: clip(w as i64 - 2 * t),
                h: clip(h as i64 - 2 * t),
            },
            inner_diameter: if r > 0 {
                clip(2 * r)
            } else {
                0
            },
        };
        FrameStep::Show(place, region)
    }
}

// -------------------------------------------------------------------- laws

/// The hole of the frame is exactly the framed window, within the
/// coordinates.
pub proof fn law_frame_leaves_window_free(target: Rect, t: int, r: int)
    requires
        0 <= t,
        i32::MIN <= target.x - t,
        i32::MIN <= target.y - t,
        target.w + 2 * t <= i32::MAX,
        target.h + 2 * t <= i32::MAX,
    ensures
        ({
            let (place, region) = framed(target, t, r);
            &&& place.x + region.inner.x == target.x
            &&& place.y + region.inner.y == target.y
            &&& region.inner.w == target.w
            &&& region.inner.h == target.h
        }),
{
}

} // verus!
