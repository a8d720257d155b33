//! The state of the window manager, its model, and how windows are found.

use super::desktop::{DeskView, Desktop};
use super::records::{RectBook, WindowSet};
use crate::config::{colorref, parse_colorref, Config};
use crate::layout::Rect;
use crate::lists::{contains_window, leave_out, without};
use crate::monitor::MonitorInfo;
use crate::single::Ratio;
use crate::text::texts;
use crate::window::{rules_of, Rules, Window};
use vstd::prelude::*;

verus! {

/// The windows of one workspace.
pub struct Workspace {
    /// In layout order; the first has the largest slot.
    pub tiled: Vec<Window>,
    pub floating: Vec<Window>,
    /// The share that window `i` keeps at its split.
    pub ratios: Vec<Ratio>,
    /// Every tiled window is full size.
    pub monocle: bool,
    /// The window that covers the whole monitor, if any.
    pub fullscreen: Option<Window>,
}

#[verifier::ext_equal]
pub struct WsView {
    pub tiled: Seq<Window>,
    pub floating: Seq<Window>,
    pub ratios: Seq<Ratio>,
    pub monocle: bool,
    pub fullscreen: Option<Window>,
}

impl View for Workspace {
    type V = WsView;

    open spec fn view(&self) -> WsView {
        WsView {
            tiled: self.tiled@,
            floating: self.floating@,
            ratios: self.ratios@,
            monocle: self.monocle,
            fullscreen: self.fullscreen,
        }
    }
}

/// One monitor with its workspaces.
pub struct MonitorState {
    pub handle: isize,
    /// The whole monitor.
    pub bounds: Rect,
    /// The monitor without bars.
    pub work_area: Rect,
    pub workspaces: Vec<Workspace>,
    pub active: usize,
}

#[verifier::ext_equal]
pub struct MonView {
    pub handle: isize,
    pub bounds: Rect,
    pub work_area: Rect,
    pub workspaces: Seq<WsView>,
    pub active: usize,
}

impl View for MonitorState {
    type V = MonView;

    open spec fn view(&self) -> MonView {
        MonView {
            handle: self.handle,
            bounds: self.bounds,
            work_area: self.work_area,
            workspaces: self.workspaces@.map_values(|w: Workspace| w@),
            active: self.active,
        }
    }
}

/// The settings that the window manager goes by.
#[verifier::ext_equal]
pub struct Settings {
    pub outer_gap: i32,
    pub inner_gap: i32,
    pub split_ratio: Ratio,
    pub accent: Seq<char>,
    pub workspaces: usize,
    pub names: Seq<Seq<char>>,
    pub app_rules: Map<Seq<char>, usize>,
    pub animation_ms: u32,
    pub follow_moved_window: bool,
    pub smart_gaps: bool,
    pub rules: Rules,
}

pub open spec fn settings_of(c: Config) -> Settings {
    Settings {
        outer_gap: c.outer_gap,
        inner_gap: c.inner_gap,
        split_ratio: c.split_ratio,
        accent: c.active_border_color@,
        workspaces: c.workspaces,
        names: texts(c.workspace_names@),
        app_rules: c.app_rules@,
        animation_ms: c.animation_ms,
        follow_moved_window: c.follow_moved_window,
        smart_gaps: c.smart_gaps,
        rules: rules_of(c),
    }
}

/// The window manager.
pub struct WindowManager {
    pub config: Config,
    pub monitors: Vec<MonitorState>,
    /// Windows that were hidden here, not by their app.
    pub hidden_by_us: WindowSet,
    pub border_color: u32,
    pub paused: bool,
    /// Windows parked outside every workspace.
    pub scratch: Vec<Window>,
    pub scratch_shown: bool,
    /// The rectangle that the user last gave each scratchpad window.
    pub scratch_rects: RectBook,
    /// Unmanaged windows hidden along with their managed owner: owner first.
    pub companions_hidden: Vec<(Window, Window)>,
}

#[verifier::ext_equal]
pub struct WmView {
    pub cfg: Settings,
    pub monitors: Seq<MonView>,
    pub hidden: Seq<Window>,
    pub border_color: u32,
    pub paused: bool,
    pub scratch: Seq<Window>,
    pub scratch_shown: bool,
    pub rects: Seq<(Window, Rect)>,
    pub companions: Seq<(Window, Window)>,
}

impl View for WindowManager {
    type V = WmView;

    open spec fn view(&self) -> WmView {
        WmView {
            cfg: settings_of(self.config),
            monitors: self.monitors@.map_values(|m: MonitorState| m@),
            hidden: self.hidden_by_us@,
            border_color: self.border_color,
            paused: self.paused,
            scratch: self.scratch@,
            scratch_shown: self.scratch_shown,
            rects: self.scratch_rects@,
            companions: self.companions_hidden@,
        }
    }
}

/// The window manager and the desktop together.
#[verifier::ext_equal]
pub struct World {
    pub wm: WmView,
    pub desk: DeskView,
}

pub open spec fn world(wm: WindowManager, desk: Desktop) -> World {
    World { wm: wm@, desk: desk@ }
}

// --------------------------------------------------------------- workspace

impl WsView {
    pub open spec fn all(self) -> Seq<Window> {
        self.tiled + self.floating
    }

    pub open spec fn holds(self, w: Window) -> bool {
        self.tiled.contains(w) || self.floating.contains(w)
    }

    pub open spec fn removed(self, w: Window) -> WsView {
        WsView {
            tiled: without(self.tiled, w),
            floating: without(self.floating, w),
            ..self
        }
    }

    /// With `w` as the last tiled window.
    pub open spec fn tile(self, w: Window) -> WsView {
        WsView { tiled: self.tiled.push(w), ..self }
    }

    /// With `w` as the last floating window.
    pub open spec fn float(self, w: Window) -> WsView {
        WsView { floating: self.floating.push(w), ..self }
    }

    /// With `w` added at the end, floating or tiled.
    pub open spec fn add(self, w: Window, floats: bool) -> WsView {
        if floats {
            self.float(w)
        } else {
            self.tile(w)
        }
    }
}

pub open spec fn empty_workspace() -> WsView {
    WsView {
        tiled: Seq::empty(),
        floating: Seq::empty(),
        ratios: Seq::empty(),
        monocle: false,
        fullscreen: None,
    }
}

impl Default for Workspace {
    fn default() -> (r: Workspace)
        ensures
            r@ == empty_workspace(),
    {
        Workspace {
            tiled: Vec::new(),
            floating: Vec::new(),
            ratios: Vec::new(),
            monocle: false,
            fullscreen: None,
        }
    }
}

impl Workspace {
    /// All windows, the tiled ones first.
    pub fn all_windows(&self) -> (r: Vec<Window>)
        ensures
            r@ == self@.all(),
    {
        let mut r = crate::lists::copied(&self.tiled);
        let mut f = crate::lists::copied(&self.floating);
        r.append(&mut f);
        r
    }

    pub fn holds(&self, w: Window) -> (r: bool)
        ensures
            r == self@.holds(w),
    {
        contains_window(&self.tiled, w) || contains_window(&self.floating, w)
    }

    /// Takes `w` out, and says whether it was there.
    pub fn remove(&mut self, w: Window) -> (r: bool)
        ensures
            final(self)@ == old(self)@.removed(w),
            r == old(self)@.holds(w),
    {
        let r = self.holds(w);
        leave_out(&mut self.tiled, w);
        leave_out(&mut self.floating, w);
        r
    }

    /// Adds `w` at the end, floating or tiled.
    pub fn add_window(&mut self, w: Window, floats: bool)
        ensures
            final(self)@ == old(self)@.add(w, floats),
    {
        if floats {
            self.floating.push(w);
        } else {
            self.tiled.push(w);
        }
    }
}

// ---------------------------------------------------------------- monitors

pub open spec fn mon_views(s: Seq<MonitorState>) -> Seq<MonView> {
    s.map_values(|m: MonitorState| m@)
}

pub open spec fn ws_views(s: Seq<Workspace>) -> Seq<WsView> {
    s.map_values(|w: Workspace| w@)
}

/// With workspace `wi` of monitor `mi` replaced.
pub open spec fn with_ws(ms: Seq<MonView>, mi: int, wi: int, ws: WsView) -> Seq<MonView> {
    ms.update(mi, MonView { workspaces: ms[mi].workspaces.update(wi, ws), ..ms[mi] })
}

impl WmView {
    pub open spec fn ws(self, mi: int, wi: int) -> WsView {
        self.monitors[mi].workspaces[wi]
    }

    /// The workspace that monitor `mi` shows.
    pub open spec fn shown_ws(self, mi: int) -> WsView {
        self.ws(mi, self.monitors[mi].active as int)
    }

    pub open spec fn set_ws(self, mi: int, wi: int, ws: WsView) -> WmView {
        WmView { monitors: with_ws(self.monitors, mi, wi, ws), ..self }
    }

    /// Monitor and workspace indices are in range.
    pub open spec fn has(self, mi: int, wi: int) -> bool {
        0 <= mi < self.monitors.len() && 0 <= wi < self.monitors[mi].workspaces.len()
    }

    /// Every monitor has as many workspaces as are configured, at least one,
    /// and shows one of them.
    pub open spec fn wf(self) -> bool {
        &&& self.cfg.workspaces >= 1
        &&& forall|i: int|
            0 <= i < self.monitors.len() ==> (#[trigger] self.monitors[i]).workspaces.len()
                == self.cfg.workspaces && self.monitors[i].active < self.cfg.workspaces
    }
}

/// Replacing one workspace of the state replaces it in the model.
pub proof fn lemma_with_ws(a: Seq<MonitorState>, b: Seq<MonitorState>, mi: int, wi: int)
    requires
        0 <= mi < a.len(),
        0 <= wi < a[mi].workspaces@.len(),
        b.len() == a.len(),
        forall|i: int| 0 <= i < a.len() && i != mi ==> b[i] == a[i],
        b[mi].handle == a[mi].handle,
        b[mi].bounds == a[mi].bounds,
        b[mi].work_area == a[mi].work_area,
        b[mi].active == a[mi].active,
        b[mi].workspaces@.len() == a[mi].workspaces@.len(),
        forall|k: int|
            0 <= k < a[mi].workspaces@.len() && k != wi ==> b[mi].workspaces@[k]
                == a[mi].workspaces@[k],
    ensures
        mon_views(b) == with_ws(mon_views(a), mi, wi, b[mi].workspaces@[wi]@),
{
    let e = with_ws(mon_views(a), mi, wi, b[mi].workspaces@[wi]@);
    assert(ws_views(b[mi].workspaces@) =~= ws_views(a[mi].workspaces@).update(
        wi,
        b[mi].workspaces@[wi]@,
    ));
    assert(mon_views(b)[mi] == e[mi]);
    assert forall|i: int| 0 <= i < e.len() implies mon_views(b)[i] == e[i] by {}
    assert(mon_views(b) =~= e);
}

// ------------------------------------------------------------------ lookup

/// The first workspace at or after `i` that holds `w`.
pub open spec fn ws_from(s: Seq<WsView>, w: Window, i: int) -> Option<int>
    decreases s.len() - i,
{
    if i >= s.len() {
        None
    } else if s[i].holds(w) {
        Some(i)
    } else {
        ws_from(s, w, i + 1)
    }
}

/// The first monitor at or after `i` that has `w`, and the workspace there.
pub open spec fn mon_from(s: Seq<MonView>, w: Window, i: int) -> Option<(int, int)>
    decreases s.len() - i,
{
    if i >= s.len() {
        None
    } else {
        match ws_from(s[i].workspaces, w, 0) {
            Some(k) => Some((i, k)),
            None => mon_from(s, w, i + 1),
        }
    }
}

pub proof fn lemma_ws_from(s: Seq<WsView>, w: Window, i: int)
    requires
        0 <= i,
    ensures
        match ws_from(s, w, i) {
            Some(k) => i <= k < s.len() && s[k].holds(w),
            None => forall|k: int| i <= k < s.len() ==> !(#[trigger] s[k]).holds(w),
        },
    decreases s.len() - i,
{
    if i < s.len() && !s[i].holds(w) {
        lemma_ws_from(s, w, i + 1);
    }
}

pub proof fn lemma_mon_from(s: Seq<MonView>, w: Window, i: int)
    requires
        0 <= i,
    ensures
        match mon_from(s, w, i) {
            Some((m, k)) => i <= m < s.len() && 0 <= k < s[m].workspaces.len()
                && s[m].workspaces[k].holds(w),
            None => forall|m: int, k: int|
                i <= m < s.len() && 0 <= k < s[m].workspaces.len() ==> !(
                #[trigger] s[m].workspaces[k]).holds(w),
        },
    decreases s.len() - i,
{
    if i < s.len() {
        lemma_ws_from(s[i].workspaces, w, 0);
        if ws_from(s[i].workspaces, w, 0) is None {
            lemma_mon_from(s, w, i + 1);
        }
    }
}

/// The monitor with that handle at or after `i`.
pub open spec fn handle_from(s: Seq<MonView>, handle: isize, i: int) -> Option<int>
    decreases s.len() - i,
{
    if i >= s.len() {
        None
    } else if s[i].handle == handle {
        Some(i)
    } else {
        handle_from(s, handle, i + 1)
    }
}

pub proof fn lemma_handle_from(s: Seq<MonView>, handle: isize, i: int)
    requires
        0 <= i,
    ensures
        match handle_from(s, handle, i) {
            Some(k) => i <= k < s.len() && s[k].handle == handle,
            None => forall|k: int| i <= k < s.len() ==> (#[trigger] s[k]).handle != handle,
        },
    decreases s.len() - i,
{
    if i < s.len() && s[i].handle != handle {
        lemma_handle_from(s, handle, i + 1);
    }
}

impl WmView {
    /// Where `w` lives: monitor and workspace.
    pub open spec fn find(self, w: Window) -> Option<(int, int)> {
        mon_from(self.monitors, w, 0)
    }

    pub open spec fn in_scratch(self, w: Window) -> bool {
        self.scratch.contains(w)
    }

    pub open spec fn is_managed(self, w: Window) -> bool {
        self.find(w) is Some || self.in_scratch(w)
    }

    /// The monitor with that handle, or the first one.
    pub open spec fn index_of(self, handle: isize) -> int {
        match handle_from(self.monitors, handle, 0) {
            Some(i) => i,
            None => 0,
        }
    }
}

impl World {
    /// The monitor that the user works on: that of the foreground window if
    /// it is managed, else the one under the cursor.
    pub open spec fn focused_monitor(self) -> int {
        match self.desk.foreground {
            Some(f) => if self.wm.is_managed(f) {
                self.wm.index_of(self.desk.monitor_of(f))
            } else {
                self.wm.index_of(self.desk.cursor_monitor)
            },
            None => self.wm.index_of(self.desk.cursor_monitor),
        }
    }

    /// The foreground window, if it lives in a workspace: with its place.
    pub open spec fn focused_window(self) -> Option<(Window, int, int)> {
        match self.desk.foreground {
            Some(f) => match self.wm.find(f) {
                Some((mi, wi)) => Some((f, mi, wi)),
                None => None,
            },
            None => None,
        }
    }

    /// The foreground window, if it is parked in the scratchpad.
    pub open spec fn focused_scratch(self) -> Option<Window> {
        match self.desk.foreground {
            Some(f) => if self.wm.in_scratch(f) {
                Some(f)
            } else {
                None
            },
            None => None,
        }
    }
}

/// What is looked up lies in range.
pub proof fn lemma_found(s: World)
    ensures
        forall|w: Window| #[trigger]
            s.wm.find(w) matches Some((mi, wi)) ==> s.wm.has(mi, wi) && s.wm.ws(mi, wi).holds(w),
        forall|h: isize|
            s.wm.monitors.len() > 0 ==> 0 <= #[trigger] s.wm.index_of(h) < s.wm.monitors.len(),
        s.wm.monitors.len() > 0 ==> 0 <= s.focused_monitor() < s.wm.monitors.len(),
        s.focused_window() matches Some((w, mi, wi)) ==> s.wm.has(mi, wi) && s.wm.ws(
            mi,
            wi,
        ).holds(w),
{
    assert forall|w: Window| (#[trigger] s.wm.find(w)) is Some implies s.wm.has(
        (s.wm.find(w)->0).0,
        (s.wm.find(w)->0).1,
    ) && s.wm.ws((s.wm.find(w)->0).0, (s.wm.find(w)->0).1).holds(w) by {
        lemma_mon_from(s.wm.monitors, w, 0);
    }
    assert forall|h: isize| s.wm.monitors.len() > 0 implies 0 <= #[trigger] s.wm.index_of(h)
        < s.wm.monitors.len() by {
        lemma_handle_from(s.wm.monitors, h, 0);
    }
}

impl WindowManager {
    pub open spec fn wf(&self) -> bool {
        self@.wf() && self.config.wf()
    }

    /// Starts with the given monitors and nothing managed.
    pub fn new(config: Config, monitors: Vec<MonitorInfo>) -> (r: WindowManager)
        requires
            config.wf(),
            config.workspaces >= 1,
        ensures
            r.wf(),
            r.config == config,
            r@ == initial(settings_of(config), monitors@),
    {
        let border_color = parse_colorref(config.active_border_color.as_str());
        let mut list: Vec<MonitorState> = Vec::new();
        let mut i: usize = 0;
        while i < monitors.len()
            invariant
                i <= monitors.len(),
                list.len() == i,
                forall|k: int|
                    0 <= k < i ==> (#[trigger] list@[k])@ == fresh_monitor(
                        monitors@[k],
                        config.workspaces,
                    ),
            decreases monitors.len() - i,
        {
            let m = &monitors[i];
            list.push(blank_monitor(m, config.workspaces));
            i = i + 1;
        }
        let r = WindowManager {
            config,
            monitors: list,
            hidden_by_us: WindowSet::new(),
            border_color,
            paused: false,
            scratch: Vec::new(),
            scratch_shown: false,
            scratch_rects: RectBook::new(),
            companions_hidden: Vec::new(),
        };
        proof {
            assert(r@.monitors =~= initial(settings_of(config), monitors@).monitors);
            assert(r@ =~= initial(settings_of(config), monitors@));
            assert forall|k: int| 0 <= k < r@.monitors.len() implies (
            #[trigger] r@.monitors[k]).workspaces.len() == r@.cfg.workspaces by {
                assert(r@.monitors[k] == fresh_monitor(monitors@[k], config.workspaces));
            }
        }
        r
    }

    /// Where `w` lives: monitor and workspace.
    pub fn find(&self, w: Window) -> (r: Option<(usize, usize)>)
        ensures
            match r {
                Some((mi, wi)) => self@.find(w) == Some((mi as int, wi as int)) && self@.has(
                    mi as int,
                    wi as int,
                ) && self@.ws(mi as int, wi as int).holds(w),
                None => self@.find(w) is None,
            },
    {
        let mut mi: usize = 0;
        while mi < self.monitors.len()
            invariant
                mi <= self.monitors.len(),
                self@.find(w) == mon_from(self@.monitors, w, mi as int),
            decreases self.monitors.len() - mi,
        {
            let mon = &self.monitors[mi];
            let mut wi: usize = 0;
            while wi < mon.workspaces.len()
                invariant
                    mi < self.monitors.len(),
                    *mon == self.monitors@[mi as int],
                    wi <= mon.workspaces.len(),
                    self@.find(w) == mon_from(self@.monitors, w, mi as int),
                    ws_from(mon@.workspaces, w, 0) == ws_from(mon@.workspaces, w, wi as int),
                decreases mon.workspaces.len() - wi,
            {
                if mon.workspaces[wi].holds(w) {
                    return Some((mi, wi));
                }
                wi = wi + 1;
            }
            mi = mi + 1;
        }
        None
    }

    pub fn in_scratch(&self, w: Window) -> (r: bool)
        ensures
            r == self@.in_scratch(w),
    {
        contains_window(&self.scratch, w)
    }

    pub fn is_managed(&self, w: Window) -> (r: bool)
        ensures
            r == self@.is_managed(w),
    {
        self.find(w).is_some() || self.in_scratch(w)
    }

    /// Does hovering activate this window?
    pub fn hover_focus_target(&self, w: Window) -> (r: bool)
        ensures
            r == (!self@.paused && self@.is_managed(w)),
    {
        !self.paused && self.is_managed(w)
    }

    /// The monitor with that handle, or the first one.
    pub fn monitor_index_of_handle(&self, handle: isize) -> (r: usize)
        ensures
            r == self@.index_of(handle),
            self.monitors.len() > 0 ==> r < self.monitors.len(),
    {
        let mut i: usize = 0;
        while i < self.monitors.len()
            invariant
                i <= self.monitors.len(),
                handle_from(self@.monitors, handle, 0) == handle_from(
                    self@.monitors,
                    handle,
                    i as int,
                ),
            decreases self.monitors.len() - i,
        {
            if self.monitors[i].handle == handle {
                return i;
            }
            i = i + 1;
        }
        0
    }

    /// The monitor that the user works on.
    pub fn focused_monitor(&self, desk: &Desktop) -> (r: usize)
        ensures
            r == world(*self, *desk).focused_monitor(),
            self.monitors.len() > 0 ==> r < self.monitors.len(),
    {
        if let Some(f) = desk.foreground {
            if self.is_managed(f) {
                return self.monitor_index_of_handle(desk.monitor(f));
            }
        }
        self.monitor_index_of_handle(desk.cursor_monitor)
    }

    /// The foreground window, if it lives in a workspace.
    pub fn focused_window(&self, desk: &Desktop) -> (r: Option<(Window, usize, usize)>)
        ensures
            match r {
                Some((w, mi, wi)) => world(*self, *desk).focused_window() == Some(
                    (w, mi as int, wi as int),
                ) && self@.has(mi as int, wi as int) && self@.ws(mi as int, wi as int).holds(w),
                None => world(*self, *desk).focused_window() is None,
            },
    {
        match desk.foreground {
            Some(f) => match self.find(f) {
                Some((mi, wi)) => Some((f, mi, wi)),
                None => None,
            },
            None => None,
        }
    }

    /// The foreground window, if it is parked in the scratchpad.
    pub fn focused_scratch(&self, desk: &Desktop) -> (r: Option<Window>)
        ensures
            r == world(*self, *desk).focused_scratch(),
    {
        match desk.foreground {
            Some(f) => if self.in_scratch(f) {
                Some(f)
            } else {
                None
            },
            None => None,
        }
    }

    pub fn is_paused(&self) -> (r: bool)
        ensures
            r == self@.paused,
    {
        self.paused
    }
}

/// A monitor whose workspaces are all empty.
pub open spec fn fresh_monitor(m: MonitorInfo, count: usize) -> MonView {
    MonView {
        handle: m.handle,
        bounds: m.bounds,
        work_area: m.work_area,
        workspaces: Seq::new(count as nat, |i: int| empty_workspace()),
        active: 0,
    }
}

/// A monitor whose workspaces are all empty.
pub fn blank_monitor(m: &MonitorInfo, count: usize) -> (r: MonitorState)
    ensures
        r@ == fresh_monitor(*m, count),
{
    let mut workspaces: Vec<Workspace> = Vec::new();
    let mut i: usize = 0;
    while i < count
        invariant
            i <= count,
            workspaces.len() == i,
            forall|k: int| 0 <= k < i ==> (#[trigger] workspaces@[k])@ == empty_workspace(),
        decreases count - i,
    {
        workspaces.push(Workspace::default());
        i = i + 1;
    }
    let r = MonitorState {
        handle: m.handle,
        bounds: m.bounds,
        work_area: m.work_area,
        workspaces,
        active: 0,
    };
    proof {
        assert(r@.workspaces =~= fresh_monitor(*m, count).workspaces);
    }
    r
}

/// The state at the start.
pub open spec fn initial(cfg: Settings, monitors: Seq<MonitorInfo>) -> WmView {
    WmView {
        cfg,
        monitors: Seq::new(
            monitors.len(),
            |i: int| fresh_monitor(monitors[i], cfg.workspaces),
        ),
        hidden: Seq::empty(),
        border_color: colorref(cfg.accent) as u32,
        paused: false,
        scratch: Seq::empty(),
        scratch_shown: false,
        rects: Seq::empty(),
        companions: Seq::empty(),
    }
}

} // verus!
