//! What the bar, the overview, the switcher and the focus frame show of the
//! state.

use super::desktop::{DeskView, Desktop};
use super::state::{handle_from, lemma_handle_from, world, WindowManager, World, WsView};
use super::{BarSnapshot, OverviewSnapshot, SwitchEntry};
use crate::layout::{clip, dwindle, larger, most, sat, slots, Rect};
use crate::numerals::{decimal, show};
use crate::text::{is_blank, joined, owned, texts};
use crate::window::Window;
use vstd::prelude::*;

verus! {

// ------------------------------------------------------------- focus frame

impl World {
    /// Where the focus frame goes: around the focused window when it is
    /// managed, shown, neither fullscreen nor alone without gaps.
    pub open spec fn border_target(self) -> Option<Rect> {
        match self.desk.foreground {
            None => None,
            Some(w) => {
                let seen = self.desk.visible(w) && !self.desk.minimized(w);
                if self.wm.paused || !seen {
                    None
                } else if self.wm.in_scratch(w) {
                    Some(self.desk.frame_of(w))
                } else {
                    match self.wm.find(w) {
                        None => None,
                        Some((mi, wi)) => {
                            let ws = self.wm.ws(mi, wi);
                            if wi != self.wm.monitors[mi].active || ws.fullscreen == Some(w) || (
                            ws.solo(self.wm.cfg) && ws.tiled[0] == w) {
                                None
                            } else {
                                Some(self.desk.frame_of(w))
                            }
                        },
                    }
                }
            },
        }
    }
}

impl WindowManager {
    /// Where the focus frame goes; none hides it.
    pub fn border_target(&self, desk: &Desktop) -> (r: Option<Rect>)
        ensures
            r == world(*self, *desk).border_target(),
    {
        if self.paused {
            return None;
        }
        let w = match desk.foreground {
            Some(w) => w,
            None => {
                return None;
            },
        };
        if !desk.is_visible(w) || desk.is_minimized(w) {
            return None;
        }
        if self.in_scratch(w) {
            return Some(desk.visible_rect(w));
        }
        let (mi, wi): (usize, usize) = match self.find(w) {
            Some(x) => x,
            None => {
                return None;
            },
        };
        proof {
            assert(self@.monitors[mi as int] == self.monitors@[mi as int]@);
        }
        let mon = &self.monitors[mi];
        let ws = &mon.workspaces[wi];
        let full = match ws.fullscreen {
            Some(f) => f == w,
            None => false,
        };
        if wi != mon.active || full {
            return None;
        }
        if self.config.smart_gaps && ws.fullscreen.is_none() && ws.floating.len() == 0
            && ws.tiled.len() == 1 && ws.tiled[0] == w {
            return None;
        }
        Some(desk.visible_rect(w))
    }
}

// ---------------------------------------------------------------- switcher

/// The name of workspace `wi`, or its number.
pub open spec fn space_name(names: Seq<Seq<char>>, wi: int) -> Seq<char> {
    if wi < names.len() && names[wi].len() > 0 {
        names[wi]
    } else {
        "ws "@ + decimal((wi + 1) as nat)
    }
}

/// Where a window lives, in words.
pub open spec fn place_text(names: Seq<Seq<char>>, several: bool, mi: int, wi: int) -> Seq<char> {
    if several {
        "M"@ + decimal((mi + 1) as nat) + " · "@ + space_name(names, wi)
    } else {
        space_name(names, wi)
    }
}

/// The rows of the windows of `list` that still exist.
pub open spec fn listed(list: Seq<Window>, place: Seq<char>, d: DeskView) -> Seq<
    (Window, Seq<char>),
>
    decreases list.len(),
{
    if list.len() == 0 {
        Seq::empty()
    } else if d.valid(list.last()) {
        listed(list.drop_last(), place, d).push((list.last(), place))
    } else {
        listed(list.drop_last(), place, d)
    }
}

impl World {
    /// The rows of the workspaces before `n` of monitor `mi`.
    pub open spec fn listed_spaces(self, mi: int, n: int) -> Seq<(Window, Seq<char>)>
        decreases n,
    {
        if n <= 0 {
            Seq::empty()
        } else {
            self.listed_spaces(mi, n - 1) + listed(
                self.wm.ws(mi, n - 1).all(),
                place_text(self.wm.cfg.names, self.wm.monitors.len() > 1, mi, n - 1),
                self.desk,
            )
        }
    }

    /// The rows of the monitors before `n`.
    pub open spec fn listed_monitors(self, n: int) -> Seq<(Window, Seq<char>)>
        decreases n,
    {
        if n <= 0 {
            Seq::empty()
        } else {
            self.listed_monitors(n - 1) + self.listed_spaces(
                n - 1,
                self.wm.monitors[n - 1].workspaces.len() as int,
            )
        }
    }

    /// Every managed window that exists, with where it lives.
    pub open spec fn window_list(self) -> Seq<(Window, Seq<char>)> {
        self.listed_monitors(self.wm.monitors.len() as int) + listed(
            self.wm.scratch,
            "scratchpad"@,
            self.desk,
        )
    }
}

pub open spec fn entry_views(v: Seq<SwitchEntry>) -> Seq<(Window, Seq<char>)> {
    v.map_values(|e: SwitchEntry| (e.window, e.place@))
}

fn list_into(out: &mut Vec<SwitchEntry>, list: &Vec<Window>, place: &String, desk: &Desktop)
    ensures
        entry_views(final(out)@) == entry_views(old(out)@) + listed(list@, place@, desk@),
{
    let ghost base = entry_views(out@);
    let mut i: usize = 0;
    proof {
        assert(list@.take(0) =~= Seq::empty());
        assert(entry_views(out@) =~= base + listed(list@.take(0), place@, desk@));
    }
    while i < list.len()
        invariant
            i <= list.len(),
            entry_views(out@) == base + listed(list@.take(i as int), place@, desk@),
        decreases list.len() - i,
    {
        proof {
            assert(list@.take(i + 1).drop_last() =~= list@.take(i as int));
        }
        if desk.is_valid(list[i]) {
            let ghost was = entry_views(out@);
            out.push(SwitchEntry { window: list[i], place: place.clone() });
            proof {
                assert(entry_views(out@) =~= was.push((list@[i as int], place@)));
                assert(entry_views(out@) =~= base + listed(list@.take(i + 1), place@, desk@));
            }
        }
        i = i + 1;
    }
    proof {
        assert(list@.take(i as int) =~= list@);
    }
}

impl WindowManager {
    fn place_text(&self, mi: usize, wi: usize) -> (r: String)
        requires
            mi < self.monitors.len(),
            wi < usize::MAX,
        ensures
            r@ == place_text(
                self@.cfg.names,
                self@.monitors.len() > 1,
                mi as int,
                wi as int,
            ),
    {
        let named = wi < self.config.workspace_names.len()
            && !is_blank(self.config.workspace_names[wi].as_str());
        let name = if named {
            self.config.workspace_names[wi].clone()
        } else {
            joined("ws ", show((wi + 1) as u64).as_str())
        };
        proof {
            if wi < self@.cfg.names.len() {
                assert(self@.cfg.names[wi as int] == self.config.workspace_names@[wi as int]@);
            }
            assert(name@ == space_name(self@.cfg.names, wi as int));
        }
        if self.monitors.len() > 1 {
            let head = joined("M", show((mi + 1) as u64).as_str());
            let head = joined(head.as_str(), " · ");
            joined(head.as_str(), name.as_str())
        } else {
            name
        }
    }

    /// Every managed window with where it lives, for the switcher.
    pub fn window_list(&self, desk: &Desktop) -> (r: Vec<SwitchEntry>)
        ensures
            entry_views(r@) == world(*self, *desk).window_list(),
    {
        let ghost s = world(*self, *desk);
        let mut out: Vec<SwitchEntry> = Vec::new();
        let mut mi: usize = 0;
        proof {
            assert(entry_views(out@) =~= s.listed_monitors(0));
        }
        while mi < self.monitors.len()
            invariant
                s == world(*self, *desk),
                mi <= self.monitors.len(),
                entry_views(out@) == s.listed_monitors(mi as int),
            decreases self.monitors.len() - mi,
        {
            let mon = &self.monitors[mi];
            proof {
                assert(s.wm.monitors[mi as int] == mon@);
                assert(s.listed_monitors(mi as int) + s.listed_spaces(mi as int, 0)
                    =~= s.listed_monitors(mi as int));
            }
            let mut wi: usize = 0;
            while wi < mon.workspaces.len()
                invariant
                    s == world(*self, *desk),
                    mi < self.monitors.len(),
                    s.wm.monitors[mi as int] == mon@,
                    wi <= mon.workspaces.len(),
                    entry_views(out@) == s.listed_monitors(mi as int) + s.listed_spaces(
                        mi as int,
                        wi as int,
                    ),
                decreases mon.workspaces.len() - wi,
            {
                let list = mon.workspaces[wi].all_windows();
                let place = self.place_text(mi, wi);
                proof {
                    assert(list@ == s.wm.ws(mi as int, wi as int).all());
                }
                list_into(&mut out, &list, &place, desk);
                proof {
                    assert(entry_views(out@) =~= s.listed_monitors(mi as int) + s.listed_spaces(
                        mi as int,
                        wi + 1,
                    ));
                }
                wi = wi + 1;
            }
            mi = mi + 1;
        }
        let place = owned("scratchpad");
        list_into(&mut out, &self.scratch, &place, desk);
        out
    }

    /// The monitor that the user works on.
    pub fn focused_monitor_index(&self, desk: &Desktop) -> (r: usize)
        ensures
            r == world(*self, *desk).focused_monitor(),
    {
        self.focused_monitor(desk)
    }
}

// ---------------------------------------------------------------- overview

/// The names of `count` workspaces, empty where there is none.
pub open spec fn name_row(names: Seq<Seq<char>>, count: nat) -> Seq<Seq<char>> {
    Seq::new(
        count,
        |i: int|
            if i < names.len() {
                names[i]
            } else {
                Seq::empty()
            },
    )
}

/// The rectangle of window `i` of a stack, each one peeking out under the one
/// before.
pub open spec fn peeking(area: Rect, i: int) -> Rect {
    Rect {
        x: sat(area.x + 16 * i),
        y: sat(area.y + 16 * i),
        w: most(sat(area.w - 32 * i), 60),
        h: most(sat(area.h - 32 * i), 60),
    }
}

/// The windows of a workspace with the rectangles that they have in the
/// overview.
pub open spec fn miniature(ws: WsView, area: Rect, gap: int, d: DeskView) -> Seq<(Window, Rect)> {
    let rects = slots(area, ws.tiled.len(), ws.ratios, gap);
    ws.tiled.map(
        |i: int, w: Window|
            (
                w,
                if ws.monocle {
                    peeking(area, i)
                } else {
                    rects[i]
                },
            ),
    ) + ws.floating.map_values(|w: Window| (w, d.frame_of(w)))
}

fn peek(area: Rect, i: usize) -> (r: Rect)
    ensures
        r == peeking(area, i as int),
{
    let off: i64 = if i > 0x4000_0000 {
        16 * 0x4000_0000
    } else {
        16 * i as i64
    };
    Rect {
        x: clip(area.x as i64 + off),
        y: clip(area.y as i64 + off),
        w: larger(clip(area.w as i64 - 2 * off), 60),
        h: larger(clip(area.h as i64 - 2 * off), 60),
    }
}

impl WindowManager {
    fn name_row(&self, count: usize) -> (r: Vec<String>)
        ensures
            texts(r@) == name_row(self@.cfg.names, count as nat),
    {
        let mut r: Vec<String> = Vec::new();
        let mut i: usize = 0;
        let ghost e = name_row(self@.cfg.names, count as nat);
        while i < count
            invariant
                i <= count,
                e == name_row(self@.cfg.names, count as nat),
                r.len() == i,
                forall|k: int| 0 <= k < i ==> (#[trigger] r@[k])@ == e[k],
            decreases count - i,
        {
            if i < self.config.workspace_names.len() {
                proof {
                    assert(self@.cfg.names[i as int] == self.config.workspace_names@[i as int]@);
                }
                r.push(self.config.workspace_names[i].clone());
            } else {
                r.push(String::new());
            }
            i = i + 1;
        }
        proof {
            assert(texts(r@) =~= e);
        }
        r
    }

    fn miniature(&self, desk: &Desktop, mi: usize, wi: usize, area: Rect) -> (r: Vec<
        (Window, Rect),
    >)
        requires
            self@.has(mi as int, wi as int),
        ensures
            r@ == miniature(
                self@.ws(mi as int, wi as int),
                area,
                self@.cfg.inner_gap as int,
                desk@,
            ),
    {
        proof {
            assert(self@.monitors[mi as int] == self.monitors@[mi as int]@);
        }
        let ws = &self.monitors[mi].workspaces[wi];
        let ghost e = miniature(ws@, area, self@.cfg.inner_gap as int, desk@);
        let rects = dwindle(area, ws.tiled.len(), ws.ratios.as_slice(), self.config.inner_gap);
        let mut r: Vec<(Window, Rect)> = Vec::new();
        let mut i: usize = 0;
        while i < ws.tiled.len()
            invariant
                i <= ws.tiled.len(),
                e == miniature(ws@, area, self@.cfg.inner_gap as int, desk@),
                rects@ == slots(
                    area,
                    ws.tiled.len() as nat,
                    ws.ratios@,
                    self@.cfg.inner_gap as int,
                ),
                r@ == e.take(i as int),
            decreases ws.tiled.len() - i,
        {
            if ws.monocle {
                r.push((ws.tiled[i], peek(area, i)));
            } else {
                r.push((ws.tiled[i], rects[i]));
            }
            proof {
                assert(r@ =~= e.take(i + 1));
            }
            i = i + 1;
        }
        let mut j: usize = 0;
        while j < ws.floating.len()
            invariant
                j <= ws.floating.len(),
                e == miniature(ws@, area, self@.cfg.inner_gap as int, desk@),
                r@ == e.take(ws.tiled.len() + j),
            decreases ws.floating.len() - j,
        {
            r.push((ws.floating[j], desk.visible_rect(ws.floating[j])));
            proof {
                assert(r@ =~= e.take(ws.tiled.len() + j + 1));
            }
            j = j + 1;
        }
        proof {
            assert(r@ =~= e);
        }
        r
    }

    /// What the overview shows of a monitor, or of the first one if there is
    /// none with that handle.
    pub fn overview_snapshot(&self, desk: &Desktop, handle: isize) -> (r: Option<OverviewSnapshot>)
        ensures
            match r {
                None => self@.monitors.len() == 0,
                Some(o) => {
                    let mon = self@.monitors[self@.index_of(handle)];
                    let area = mon.work_area.shrunk(self@.cfg.outer_gap as int);
                    &&& self@.monitors.len() > 0
                    &&& o.source == mon.work_area
                    &&& o.active == mon.active
                    &&& texts(o.names@) == name_row(self@.cfg.names, mon.workspaces.len())
                    &&& o.workspaces@.len() == mon.workspaces.len()
                    &&& forall|i: int|
                        0 <= i < mon.workspaces.len() ==> (#[trigger] o.workspaces@[i])@
                            == miniature(
                            mon.workspaces[i],
                            area,
                            self@.cfg.inner_gap as int,
                            desk@,
                        )
                },
            },
    {
        if self.monitors.len() == 0 {
            return None;
        }
        let mi: usize = self.monitor_index_of_handle(handle);
        proof {
            assert(self@.monitors[mi as int] == self.monitors@[mi as int]@);
        }
        let mon = &self.monitors[mi];
        let area = mon.work_area.shrink(self.config.outer_gap);
        let mut workspaces: Vec<Vec<(Window, Rect)>> = Vec::new();
        let mut wi: usize = 0;
        while wi < mon.workspaces.len()
            invariant
                wi <= mon.workspaces.len(),
                mi < self.monitors.len(),
                self@.monitors[mi as int] == mon@,
                workspaces.len() == wi,
                forall|i: int|
                    0 <= i < wi ==> (#[trigger] workspaces@[i])@ == miniature(
                        mon@.workspaces[i],
                        area,
                        self@.cfg.inner_gap as int,
                        desk@,
                    ),
            decreases mon.workspaces.len() - wi,
        {
            workspaces.push(self.miniature(desk, mi, wi, area));
            wi = wi + 1;
        }
        Some(
            OverviewSnapshot {
                source: mon.work_area,
                active: mon.active,
                names: self.name_row(mon.workspaces.len()),
                workspaces,
            },
        )
    }
}

// --------------------------------------------------------------------- bar

/// The windows of `list` that still exist, at most `n`.
pub open spec fn first_living(list: Seq<Window>, d: DeskView, n: nat) -> Seq<Window>
    decreases list.len(),
{
    if list.len() == 0 {
        list
    } else {
        let f = first_living(list.drop_last(), d, n);
        if f.len() < n && d.valid(list.last()) {
            f.push(list.last())
        } else {
            f
        }
    }
}

fn first_five(list: &Vec<Window>, desk: &Desktop) -> (r: Vec<Window>)
    ensures
        r@ == first_living(list@, desk@, 5),
{
    let mut r: Vec<Window> = Vec::new();
    let mut i: usize = 0;
    proof {
        assert(list@.take(0) =~= Seq::empty());
    }
    while i < list.len()
        invariant
            i <= list.len(),
            r@ == first_living(list@.take(i as int), desk@, 5),
        decreases list.len() - i,
    {
        proof {
            assert(list@.take(i + 1).drop_last() =~= list@.take(i as int));
        }
        if r.len() < 5 && desk.is_valid(list[i]) {
            r.push(list[i]);
        }
        i = i + 1;
    }
    proof {
        assert(list@.take(i as int) =~= list@);
    }
    r
}

impl World {
    /// The title on the bar: that of the focused window, if it is managed.
    pub open spec fn bar_title(self) -> Seq<char> {
        match self.desk.foreground {
            Some(f) => if self.wm.is_managed(f) {
                self.desk.title_of(f)
            } else {
                Seq::empty()
            },
            None => Seq::empty(),
        }
    }
}

impl WindowManager {
    /// What the bar shows of a monitor; none when there is none with that
    /// handle.
    pub fn bar_snapshot(&self, desk: &Desktop, handle: isize) -> (r: Option<BarSnapshot>)
        ensures
            match r {
                None => handle_from(self@.monitors, handle, 0) is None,
                Some(b) => {
                    let found = handle_from(self@.monitors, handle, 0);
                    let mon = self@.monitors[found->0];
                    &&& found is Some
                    &&& b.active == mon.active
                    &&& b.paused == self@.paused
                    &&& b.title@ == world(*self, *desk).bar_title()
                    &&& texts(b.names@) == name_row(self@.cfg.names, mon.workspaces.len())
                    &&& b.occupied@ == mon.workspaces.map_values(
                        |ws: WsView| ws.tiled.len() > 0 || ws.floating.len() > 0,
                    )
                    &&& b.cell_windows@.len() == mon.workspaces.len()
                    &&& forall|i: int|
                        0 <= i < mon.workspaces.len() ==> (#[trigger] b.cell_windows@[i])@
                            == first_living(mon.workspaces[i].all(), desk@, 5)
                },
            },
    {
        let mi: usize = self.monitor_index_of_handle(handle);
        proof {
            lemma_handle_from(self@.monitors, handle, 0);
        }
        if mi >= self.monitors.len() || self.monitors[mi].handle != handle {
            proof {
                if mi < self.monitors.len() {
                    assert(self@.monitors[mi as int] == self.monitors@[mi as int]@);
                }
            }
            return None;
        }
        proof {
            assert(self@.monitors[mi as int] == self.monitors@[mi as int]@);
            if handle_from(self@.monitors, handle, 0) is None {
                assert(self@.monitors[mi as int].handle != handle);
            }
        }
        let mon = &self.monitors[mi];
        let mut occupied: Vec<bool> = Vec::new();
        let mut cell_windows: Vec<Vec<Window>> = Vec::new();
        let mut wi: usize = 0;
        let ghost occ = mon@.workspaces.map_values(
            |ws: WsView| ws.tiled.len() > 0 || ws.floating.len() > 0,
        );
        while wi < mon.workspaces.len()
            invariant
                wi <= mon.workspaces.len(),
                occ == mon@.workspaces.map_values(
                    |ws: WsView| ws.tiled.len() > 0 || ws.floating.len() > 0,
                ),
                occupied@ == occ.take(wi as int),
                cell_windows.len() == wi,
                forall|i: int|
                    0 <= i < wi ==> (#[trigger] cell_windows@[i])@ == first_living(
                        mon@.workspaces[i].all(),
                        desk@,
                        5,
                    ),
            decreases mon.workspaces.len() - wi,
        {
            let ws = &mon.workspaces[wi];
            proof {
                assert(mon@.workspaces[wi as int] == ws@);
            }
            occupied.push(ws.tiled.len() > 0 || ws.floating.len() > 0);
            let all = ws.all_windows();
            cell_windows.push(first_five(&all, desk));
            proof {
                assert(occupied@ =~= occ.take(wi + 1));
            }
            wi = wi + 1;
        }
        proof {
            assert(occupied@ =~= occ);
        }
        let title = match desk.foreground {
            Some(f) => if self.is_managed(f) {
                desk.title(f)
            } else {
                String::new()
            },
            None => String::new(),
        };
        Some(
            BarSnapshot {
                active: mon.active,
                names: self.name_row(mon.workspaces.len()),
                occupied,
                cell_windows,
                title,
                paused: self.paused,
            },
        )
    }
}

} // verus!
