//! Sizes and states of windows: growing and shrinking, floating, monocle and
//! fullscreen.

use super::arrival_laws::law_float_toggles;
use super::census::unique;
use super::command_laws::lemma_first_place;
use super::desktop::Action;
use super::laws::law_fullscreen_toggles;
use super::records::{kept, rect_from, unkept};
use super::shaping::rescaled;
use super::state::{lemma_found, World};
use super::Command;
use crate::layout::Rect;
use crate::lists::lemma_place;
use crate::monitor::MonitorInfo;
use crate::ratio_laws::law_step_is_a_twentieth;
use crate::single::{lemma_sig24, scaled, GROW, SHRINK};
use crate::window::Window;
use vstd::prelude::*;

verus! {

// ------------------------------------------------------------------- tiles

/// Growing a tiled window moves the divider behind it on by a twentieth of the
/// span, and shrinking it moves it back. The last window has its divider
/// before it: that goes the other way. The other ratios stay. A split without
/// a ratio has the configured one.
pub proof fn law_tile_is_resized(
    s: World,
    fresh: Seq<MonitorInfo>,
    f: Window,
    mi: int,
    wi: int,
    i: int,
    span: int,
)
    requires
        s.wm.wf(),
        !s.wm.paused,
        s.focused_scratch() is None,
        s.focused_window() == Some((f, mi, wi)),
        s.wm.ws(mi, wi).tiled.len() >= 2,
        0 <= i < s.wm.ws(mi, wi).tiled.len(),
        s.wm.ws(mi, wi).tiled[i] == f,
        forall|k: int| 0 <= k < i ==> #[trigger] s.wm.ws(mi, wi).tiled[k] != f,
        2 <= span < 0x1_0000,
    ensures
        ({
            let a = s.wm.ws(mi, wi);
            let n = a.tiled.len();
            let k = if i + 1 < n {
                i
            } else {
                i - 1
            };
            let old_ratio = if k < a.ratios.len() {
                a.ratios[k]
            } else {
                s.wm.cfg.split_ratio
            };
            let grown = s.commanded(Command::GrowWindow, fresh).wm.ws(mi, wi).ratios;
            let shrunk = s.commanded(Command::ShrinkWindow, fresh).wm.ws(mi, wi).ratios;
            let (on, back) = if i + 1 < n {
                (grown, shrunk)
            } else {
                (shrunk, grown)
            };
            &&& k < on.len() && k < back.len()
            &&& 0x3E19_999A <= old_ratio.bits <= 0x3F4C_CCCC ==> -40 <= 20 * (on[k].kept(span)
                - old_ratio.kept(span)) - span <= 40
            &&& 0x3E4C_CCCE <= old_ratio.bits <= 0x3F59_999A ==> -40 <= 20 * (old_ratio.kept(span)
                - back[k].kept(span)) - span <= 40
            &&& forall|j: int|
                0 <= j < a.ratios.len() && j != k ==> #[trigger] on[j] == a.ratios[j]
            &&& forall|j: int|
                0 <= j < a.ratios.len() && j != k ==> #[trigger] back[j] == a.ratios[j]
        }),
{
    lemma_found(s);
    let a = s.wm.ws(mi, wi);
    lemma_first_place(a.tiled, f, 0, i);
    let k = if i + 1 < a.tiled.len() {
        i
    } else {
        i - 1
    };
    let r = a.split(s.wm.cfg).ratios[k];
    law_step_is_a_twentieth(r, span);
}

/// A single tiled window is not resized.
pub proof fn law_single_tile_keeps_its_size(s: World, fresh: Seq<MonitorInfo>)
    requires
        s.focused_scratch() is None,
        s.focused_window() matches Some((f, mi, wi)) ==> s.wm.ws(mi, wi).tiled.contains(f)
            && s.wm.ws(mi, wi).tiled.len() < 2,
    ensures
        s.commanded(Command::GrowWindow, fresh) == s,
        s.commanded(Command::ShrinkWindow, fresh) == s,
{
    if let Some((f, mi, wi)) = s.focused_window() {
        lemma_place(s.wm.ws(mi, wi).tiled, f);
    }
}

// ---------------------------------------------------------------- overlays

/// `b` has the center of `a`, up to a pixel.
pub open spec fn same_center(a: Rect, b: Rect) -> bool {
    &&& -1 <= (2 * b.x + b.w) - (2 * a.x + a.w) <= 1
    &&& -1 <= (2 * b.y + b.h) - (2 * a.y + a.h) <= 1
}

proof fn lemma_grown(v: int)
    requires
        0 <= v < 0x1_0000,
    ensures
        -101 <= 100 * scaled(v, GROW as int) - 108 * v <= 1,
        0 <= scaled(v, GROW as int) <= 0x2_0000,
{
    lemma_sig24(v as nat);
    let x = v * (GROW as int);
    assert(x == 19455551163334656 * v);
    lemma_sig24(x as nat);
}

proof fn lemma_shrunk(v: int)
    requires
        0 <= v < 0x1_0000,
    ensures
        -109 <= 108 * scaled(v, SHRINK as int) - 100 * v <= 1,
        0 <= scaled(v, SHRINK as int) <= 0x2_0000,
{
    lemma_sig24(v as nat);
    let x = v * (SHRINK as int);
    assert(x == 16679998341513216 * v);
    lemma_sig24(x as nat);
}

/// Growing makes both sides eight percent longer, up to a pixel, but no shorter
/// than 200 and 150 pixels; the center stays.
pub proof fn law_growing_adds_eight_percent(r: Rect)
    requires
        0 <= r.w < 0x1_0000,
        0 <= r.h < 0x1_0000,
        -0x1_0000 < r.x < 0x1_0000,
        -0x1_0000 < r.y < 0x1_0000,
    ensures
        ({
            let b = rescaled(r, true);
            &&& b.w >= 200 && b.h >= 150
            &&& b.w > 200 ==> -101 <= 100 * b.w - 108 * r.w <= 1
            &&& b.h > 150 ==> -101 <= 100 * b.h - 108 * r.h <= 1
            &&& b.w == 200 ==> 108 * r.w <= 20101
            &&& b.h == 150 ==> 108 * r.h <= 15101
            &&& same_center(r, b)
        }),
{
    lemma_grown(r.w as int);
    lemma_grown(r.h as int);
}

/// Shrinking takes back what growing adds, up to a pixel, but leaves at least
/// 200 and 150 pixels; the center stays.
pub proof fn law_shrinking_takes_eight_percent(r: Rect)
    requires
        0 <= r.w < 0x1_0000,
        0 <= r.h < 0x1_0000,
        -0x1_0000 < r.x < 0x1_0000,
        -0x1_0000 < r.y < 0x1_0000,
    ensures
        ({
            let b = rescaled(r, false);
            &&& b.w >= 200 && b.h >= 150
            &&& b.w > 200 ==> -109 <= 108 * b.w - 100 * r.w <= 1
            &&& b.h > 150 ==> -109 <= 108 * b.h - 100 * r.h <= 1
            &&& b.w == 200 ==> 100 * r.w <= 21709
            &&& b.h == 150 ==> 100 * r.h <= 16309
            &&& same_center(r, b)
        }),
{
    lemma_shrunk(r.w as int);
    lemma_shrunk(r.h as int);
}

/// A parked or floating window that is grown or shrunk moves to its new frame,
/// and nothing else happens.
pub proof fn law_overlay_is_resized(s: World, fresh: Seq<MonitorInfo>, w: Window)
    requires
        !s.wm.paused,
        s.focused_scratch() == Some(w) || (s.focused_scratch() is None && (s.focused_window() matches Some(
            (f, mi, wi),
        ) && f == w && !s.wm.ws(mi, wi).tiled.contains(f))),
    ensures
        ({
            let grown = s.commanded(Command::GrowWindow, fresh);
            let shrunk = s.commanded(Command::ShrinkWindow, fresh);
            let r = s.desk.frame_of(w);
            let ms = s.wm.cfg.animation_ms;
            &&& grown.wm == s.wm
            &&& grown.desk.actions == s.desk.actions.push(Action::Glide(w, rescaled(r, true), ms))
            &&& shrunk.wm == s.wm
            &&& shrunk.desk.actions == s.desk.actions.push(
                Action::Glide(w, rescaled(r, false), ms),
            )
        }),
{
    if let Some((f, mi, wi)) = s.focused_window() {
        lemma_place(s.wm.ws(mi, wi).tiled, f);
    }
}

// ---------------------------------------------------------------- floating

/// A window that pops out gets three fifths of the work area, up to a pixel, in
/// its middle.
pub proof fn law_popped_out_takes_three_fifths(wa: Rect)
    requires
        0 <= wa.w < 0x1_0000,
        0 <= wa.h < 0x1_0000,
        -0x1_0000 < wa.x < 0x1_0000,
        -0x1_0000 < wa.y < 0x1_0000,
    ensures
        ({
            let b = wa.popped_out();
            &&& 0 <= 3 * wa.w - 5 * b.w < 5
            &&& 0 <= 3 * wa.h - 5 * b.h < 5
            &&& same_center(wa, b)
        }),
{
}

/// The command to float makes a tiled window float, popped out in the middle,
/// and tiles a floating one, behind the others.
pub proof fn law_float_is_toggled(s: World, fresh: Seq<MonitorInfo>, f: Window, mi: int, wi: int)
    requires
        s.wm.wf(),
        unique(s.wm),
        !s.wm.paused,
        s.focused_window() == Some((f, mi, wi)),
        s.desk.valid(f),
    ensures
        ({
            let t = s.commanded(Command::ToggleFloat, fresh);
            let a = s.wm.ws(mi, wi);
            let b = t.wm.ws(mi, wi);
            &&& a.tiled.contains(f) ==> {
                &&& b.floating.contains(f)
                &&& !b.tiled.contains(f)
                &&& t.desk.actions.contains(
                    Action::Glide(
                        f,
                        s.wm.monitors[mi].work_area.popped_out(),
                        s.wm.cfg.animation_ms,
                    ),
                )
            }
            &&& a.floating.contains(f) ==> {
                &&& !b.floating.contains(f)
                &&& b.tiled.len() > 0
                &&& b.tiled.last() == f
            }
        }),
{
    let t = s.commanded(Command::ToggleFloat, fresh);
    assert(t == s.toggle_float());
    law_float_toggles(s);
    let a = s.wm.ws(mi, wi);
    lemma_place(a.tiled, f);
    if a.tiled.contains(f) {
        let g = Action::Glide(
            f,
            s.wm.monitors[mi].work_area.popped_out(),
            s.wm.cfg.animation_ms,
        );
        let n = s.desk.actions.len() as int;
        assert(t.desk.actions[n] == g);
    }
}

// ------------------------------------------------------ monocle, fullscreen

/// The command for monocle turns it on or off for the workspace that the
/// focused monitor shows, and keeps it for every other.
pub proof fn law_monocle_is_toggled(s: World, fresh: Seq<MonitorInfo>, m: int, i: int)
    requires
        s.wm.wf(),
        !s.wm.paused,
        s.wm.monitors.len() > 0,
        s.wm.has(m, i),
    ensures
        ({
            let t = s.commanded(Command::ToggleMonocle, fresh);
            let k = s.focused_monitor();
            &&& m == k && i == s.wm.monitors[k].active ==> t.wm.ws(m, i).monocle == !s.wm.ws(
                m,
                i,
            ).monocle
            &&& !(m == k && i == s.wm.monitors[k].active) ==> t.wm.ws(m, i) == s.wm.ws(m, i)
        }),
{
    lemma_found(s);
}

/// The command for fullscreen gives it to the focused window of the shown
/// workspace, or takes it from it.
pub proof fn law_fullscreen_is_toggled(
    s: World,
    fresh: Seq<MonitorInfo>,
    f: Window,
    mi: int,
    wi: int,
)
    requires
        s.wm.wf(),
        !s.wm.paused,
        s.focused_scratch() is None,
        s.focused_window() == Some((f, mi, wi)),
        wi == s.wm.monitors[mi].active,
        s.desk.valid(f),
    ensures
        ({
            let t = s.commanded(Command::ToggleFullscreen, fresh);
            let was = s.wm.ws(mi, wi).fullscreen == Some(f);
            &&& t.wm.ws(mi, wi).fullscreen == if was {
                None::<Window>
            } else {
                Some(f)
            }
            &&& t.desk.actions.contains(Action::Topmost(f, !was))
        }),
{
    lemma_found(s);
    law_fullscreen_toggles(s);
    let t = s.commanded(Command::ToggleFullscreen, fresh);
    assert(t == s.toggle_fullscreen());
    let ws = s.wm.ws(mi, wi);
    let n = s.desk.actions.len() as int;
    if ws.fullscreen == Some(f) || ws.fullscreen is None {
        assert(t.desk.actions[n] == Action::Topmost(f, ws.fullscreen != Some(f)));
    } else {
        assert(t.desk.actions[n + 1] == Action::Topmost(f, true));
    }
}

/// A size that is less than 60 pixels off in both directions.
pub open spec fn nearly(r: Rect, bounds: Rect) -> bool {
    &&& -60 < r.w - bounds.w < 60
    &&& -60 < r.h - bounds.h < 60
}

/// A parked window that nearly covers its monitor goes back to the size that
/// was remembered, centered; any other gets the bounds of the monitor, and its
/// frame is remembered.
pub proof fn law_parked_window_is_fullscreened(s: World, fresh: Seq<MonitorInfo>, w: Window)
    requires
        !s.wm.paused,
        s.focused_scratch() == Some(w),
    ensures
        ({
            let t = s.commanded(Command::ToggleFullscreen, fresh);
            let mon = s.wm.monitors[s.wm.index_of(s.desk.monitor_of(w))];
            let frame = s.desk.frame_of(w);
            let ms = s.wm.cfg.animation_ms;
            let n = s.desk.actions.len() as int;
            &&& t.desk.actions.len() == n + 2
            &&& t.desk.actions[n + 1] == Action::PaintBorders
            &&& t.wm.monitors == s.wm.monitors
            &&& !nearly(frame, mon.bounds) ==> {
                &&& t.desk.actions[n] == Action::Glide(w, mon.bounds, ms)
                &&& rect_from(t.wm.rects, w, 0) == Some(frame)
            }
            &&& nearly(frame, mon.bounds) ==> {
                &&& t.wm.rects == s.wm.rects
                &&& match rect_from(s.wm.rects, w, 0) {
                    Some(r) => {
                        let kept_w = if r.w < mon.work_area.w {
                            r.w
                        } else {
                            mon.work_area.w
                        };
                        let kept_h = if r.h < mon.work_area.h {
                            r.h
                        } else {
                            mon.work_area.h
                        };
                        !nearly(Rect { x: 0, y: 0, w: kept_w, h: kept_h }, mon.bounds)
                            ==> t.desk.actions[n] == Action::Glide(
                            w,
                            mon.work_area.middle(kept_w as int, kept_h as int),
                            ms,
                        )
                    },
                    None => t.desk.actions[n] == Action::Glide(
                        w,
                        mon.work_area.popped_out(),
                        ms,
                    ),
                }
            }
        }),
{
    law_frames_are_remembered(s.wm.rects, w, s.desk.frame_of(w), w);
}

// ------------------------------------------------------- remembered frames

proof fn lemma_rect_push(s: Seq<(Window, Rect)>, e: (Window, Rect), w: Window, i: int)
    requires
        0 <= i <= s.len(),
    ensures
        rect_from(s.push(e), w, i) == match rect_from(s, w, i) {
            Some(r) => Some(r),
            None => if e.0 == w {
                Some(e.1)
            } else {
                None
            },
        },
    decreases s.len() - i,
{
    if i < s.len() {
        lemma_rect_push(s, e, w, i + 1);
    } else {
        assert(rect_from(s.push(e), w, i + 1) is None);
    }
}

proof fn lemma_unkept_found(s: Seq<(Window, Rect)>, w: Window, x: Window)
    ensures
        rect_from(unkept(s, w), x, 0) == if x == w {
            None
        } else {
            rect_from(s, x, 0)
        },
    decreases s.len(),
{
    if s.len() > 0 {
        let front = s.drop_last();
        lemma_unkept_found(front, w, x);
        lemma_rect_push(front, s.last(), x, 0);
        lemma_rect_push(unkept(front, w), s.last(), x, 0);
        assert(front.push(s.last()) =~= s);
    }
}

/// A frame that is remembered is found again, one that is forgotten is not,
/// and those of the other windows stay.
pub proof fn law_frames_are_remembered(s: Seq<(Window, Rect)>, w: Window, r: Rect, x: Window)
    ensures
        rect_from(kept(s, w, r), w, 0) == Some(r),
        rect_from(unkept(s, w), w, 0) is None,
        x != w ==> rect_from(kept(s, w, r), x, 0) == rect_from(s, x, 0),
        x != w ==> rect_from(unkept(s, w), x, 0) == rect_from(s, x, 0),
{
    lemma_unkept_found(s, w, w);
    lemma_unkept_found(s, w, x);
    lemma_rect_push(unkept(s, w), (w, r), w, 0);
    lemma_rect_push(unkept(s, w), (w, r), x, 0);
}

} // verus!
