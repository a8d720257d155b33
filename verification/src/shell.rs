//! The parts that a configuration reaches, and reloading it while running.

use crate::bar::{configured_style, style_for};
use crate::border::Frame;
use crate::config::{Config, LauncherEntry};
use crate::help::{bound_rows, help_views, set_keybinds, HelpEntry};
use crate::launcher::entries_of;
use crate::layout::most;
use crate::monitor::MonitorInfo;
use crate::mouse::{Hook, Mouse};
use crate::overview::Overview;
use crate::scene::BarStyle;
use crate::single::{is_nan, Ratio};
use crate::strmap::StrMap;
use crate::text::{same, texts};
use crate::wm::desktop::{Action, Desktop};
use crate::wm::state::{settings_of, world, Settings, WindowManager, WmView, World};
use vstd::prelude::*;

verus! {

/// The parts that a configuration reaches.
pub struct Shell {
    pub wm: WindowManager,
    /// The style of the bar, once it is set.
    pub style: Option<BarStyle>,
    /// The rows of the keybindings panel.
    pub keybinds: Vec<HelpEntry>,
    pub overview: Overview,
    pub frame: Frame,
    pub mouse: Mouse,
}

/// The world after a configuration was swapped in.
pub open spec fn reconfigured(s: World, cfg: Config) -> World {
    (World {
        wm: WmView {
            cfg: Settings { workspaces: s.wm.cfg.workspaces, ..settings_of(cfg) },
            border_color: crate::config::colorref(cfg.active_border_color@) as u32,
            ..s.wm
        },
        desk: s.desk,
    }).set_workspace_count(cfg.workspaces).retiled_all().act(Action::PaintBorders)
}

impl Shell {
    /// Beside the window manager's world, the parts hold what `cfg` says. The
    /// overview is closed; the frame and the mouse are as they were.
    pub open spec fn configured(self, was: Shell, cfg: Config) -> bool {
        &&& self.wm.config == (Config { workspaces: self.wm.config.workspaces, ..cfg })
        &&& self.style == Some(configured_style(cfg))
        &&& help_views(self.keybinds@) == bound_rows(cfg.keybindings@)
        &&& !self.overview.shown
        &&& self.overview.selected == was.overview.selected
        &&& self.frame == was.frame
        &&& self.mouse == was.mouse
    }

    /// Applies a fresh configuration to all parts; the overview closes, and
    /// the bars are to be rebuilt after this. Says whether the overview was
    /// open.
    pub fn apply_new_config(&mut self, desk: &mut Desktop, cfg: Config) -> (r: bool)
        requires
            old(self).wm.wf(),
            cfg.wf(),
        ensures
            final(self).wm.wf(),
            world(final(self).wm, *final(desk)) == reconfigured(
                world(old(self).wm, *old(desk)),
                cfg,
            ),
            final(self).configured(*old(self), cfg),
            r == old(self).overview.shown,
    {
        self.wm.apply_config(desk, cfg);
        self.keybinds = set_keybinds(&self.wm.config.keybindings);
        self.style = Some(style_for(&self.wm.config));
        self.overview.close()
    }

    /// The bars were rebuilt, which changed the work areas: tiles anew, and
    /// applies the rest of the configuration. Says what to do about the mouse
    /// hook; the hotkeys are registered anew after this.
    pub fn bars_rebuilt(&mut self, desk: &mut Desktop, fresh: &Vec<MonitorInfo>) -> (r: Hook)
        requires
            old(self).wm.wf(),
        ensures
            final(self).wm.wf(),
            world(final(self).wm, *final(desk)) == world(old(self).wm, *old(desk)).refreshed(
                fresh@,
            ).retiled_all(),
            final(self).wm.config == old(self).wm.config,
            final(self).frame.radius == most(old(self).wm.config.border_corner_radius, 0),
            final(self).frame.thickness == most(old(self).wm.config.border_thickness, 0),
            final(self).style == old(self).style,
            final(self).keybinds == old(self).keybinds,
            final(self).overview == old(self).overview,
            final(self).mouse == old(self).mouse,
            r == if old(self).wm.config.focus_follows_mouse && !old(self).mouse.hooked {
                Hook::Install
            } else if !old(self).wm.config.focus_follows_mouse && old(self).mouse.hooked {
                Hook::Remove
            } else {
                Hook::Keep
            },
    {
        self.wm.refresh_monitors(desk, fresh);
        self.wm.retile_all(desk);
        self.frame.set_radius(self.wm.config.border_corner_radius);
        self.frame.set_thickness(self.wm.config.border_thickness);
        self.mouse.set_enabled(self.wm.config.focus_follows_mouse)
    }

    /// Applies the configuration that was read, if it could be. Says whether
    /// the bars are to be rebuilt.
    pub fn force_config_reload(&mut self, desk: &mut Desktop, loaded: Option<Config>) -> (r: bool)
        requires
            old(self).wm.wf(),
            loaded matches Some(cfg) ==> cfg.wf(),
        ensures
            final(self).wm.wf(),
            r == (loaded is Some),
            match loaded {
                Some(cfg) => {
                    &&& world(final(self).wm, *final(desk)) == reconfigured(
                        world(old(self).wm, *old(desk)),
                        cfg,
                    )
                    &&& final(self).configured(*old(self), cfg)
                },
                None => *final(self) == *old(self) && *final(desk) == *old(desk),
            },
    {
        match loaded {
            Some(cfg) => {
                let _ = self.apply_new_config(desk, cfg);
                true
            },
            None => false,
        }
    }
}

// ------------------------------------------------------------------ watching

/// The time of the last change of a file: seconds and nanoseconds.
pub struct Watch {
    pub seen: Option<(u64, u32)>,
}

impl Watch {
    /// Looks at the file again; a change is one between two times it was
    /// there.
    pub fn poll(&mut self, now: Option<(u64, u32)>) -> (r: bool)
        ensures
            final(self).seen == now,
            r == (old(self).seen is Some && now is Some && old(self).seen != now),
    {
        let changed: bool = match (self.seen, now) {
            (Some(a), Some(b)) => a.0 != b.0 || a.1 != b.1,
            _ => false,
        };
        self.seen = now;
        changed
    }
}

/// Equal as single-precision numbers.
pub open spec fn same_ratio(a: Ratio, b: Ratio) -> bool {
    !is_nan(a.bits) && !is_nan(b.bits) && (a.bits == b.bits || (a.bits % 0x8000_0000 == 0 && b.bits
        % 0x8000_0000 == 0))
}

/// The same settings throughout.
pub open spec fn same_settings(a: Config, b: Config) -> bool {
    &&& a.outer_gap == b.outer_gap
    &&& a.inner_gap == b.inner_gap
    &&& same_ratio(a.split_ratio, b.split_ratio)
    &&& a.active_border_color@ == b.active_border_color@
    &&& a.border_thickness == b.border_thickness
    &&& a.border_corner_radius == b.border_corner_radius
    &&& a.workspaces == b.workspaces
    &&& texts(a.workspace_names@) == texts(b.workspace_names@)
    &&& a.app_rules.pairs() == b.app_rules.pairs()
    &&& a.bar_enabled == b.bar_enabled
    &&& a.bar_height == b.bar_height
    &&& a.bar_background@ == b.bar_background@
    &&& a.bar_foreground@ == b.bar_foreground@
    &&& a.bar_alpha == b.bar_alpha
    &&& a.animation_ms == b.animation_ms
    &&& a.follow_moved_window == b.follow_moved_window
    &&& a.focus_follows_mouse == b.focus_follows_mouse
    &&& a.smart_gaps == b.smart_gaps
    &&& a.keybindings.pairs() == b.keybindings.pairs()
    &&& entries_of(a.launcher@) == entries_of(b.launcher@)
    &&& texts(a.float_classes@) == texts(b.float_classes@)
    &&& texts(a.float_titles@) == texts(b.float_titles@)
    &&& texts(a.ignore_classes@) == texts(b.ignore_classes@)
    &&& texts(a.ignore_exes@) == texts(b.ignore_exes@)
    &&& texts(a.ignore_titles@) == texts(b.ignore_titles@)
}

fn same_texts(a: &Vec<String>, b: &Vec<String>) -> (r: bool)
    ensures
        r == (texts(a@) == texts(b@)),
{
    proof {
        assert(texts(a@).len() == a.len());
        assert(texts(b@).len() == b.len());
    }
    if a.len() != b.len() {
        return false;
    }
    let mut i: usize = 0;
    while i < a.len()
        invariant
            i <= a.len(),
            a.len() == b.len(),
            forall|k: int| 0 <= k < i ==> a@[k]@ == b@[k]@,
        decreases a.len() - i,
    {
        if !same(a[i].as_str(), b[i].as_str()) {
            proof {
                assert(texts(a@)[i as int] != texts(b@)[i as int]);
            }
            return false;
        }
        i = i + 1;
    }
    proof {
        assert(texts(a@) =~= texts(b@));
    }
    true
}

fn same_rules(a: &StrMap<usize>, b: &StrMap<usize>) -> (r: bool)
    ensures
        r == (a.pairs() == b.pairs()),
{
    proof {
        assert(a.pairs().len() == a.entries.len());
        assert(b.pairs().len() == b.entries.len());
    }
    if a.entries.len() != b.entries.len() {
        return false;
    }
    let mut i: usize = 0;
    while i < a.entries.len()
        invariant
            i <= a.entries.len(),
            a.entries.len() == b.entries.len(),
            forall|k: int| 0 <= k < i ==> a.pairs()[k] == b.pairs()[k],
        decreases a.entries.len() - i,
    {
        let (x, y) = (&a.entries[i], &b.entries[i]);
        if !same(x.0.as_str(), y.0.as_str()) || x.1 != y.1 {
            proof {
                assert(a.pairs()[i as int] != b.pairs()[i as int]);
            }
            return false;
        }
        i = i + 1;
    }
    proof {
        assert(a.pairs() =~= b.pairs());
    }
    true
}

fn same_bindings(a: &StrMap<String>, b: &StrMap<String>) -> (r: bool)
    ensures
        r == (a.pairs() == b.pairs()),
{
    proof {
        assert(a.pairs().len() == a.entries.len());
        assert(b.pairs().len() == b.entries.len());
    }
    if a.entries.len() != b.entries.len() {
        return false;
    }
    let mut i: usize = 0;
    while i < a.entries.len()
        invariant
            i <= a.entries.len(),
            a.entries.len() == b.entries.len(),
            forall|k: int| 0 <= k < i ==> a.pairs()[k] == b.pairs()[k],
        decreases a.entries.len() - i,
    {
        let (x, y) = (&a.entries[i], &b.entries[i]);
        if !same(x.0.as_str(), y.0.as_str()) || !same(x.1.as_str(), y.1.as_str()) {
            proof {
                assert(a.pairs()[i as int] != b.pairs()[i as int]);
            }
            return false;
        }
        i = i + 1;
    }
    proof {
        assert(a.pairs() =~= b.pairs());
    }
    true
}

fn same_entry(a: &LauncherEntry, b: &LauncherEntry) -> (r: bool)
    ensures
        r == (a@ == b@),
{
    same(a.name.as_str(), b.name.as_str()) && same(a.command.as_str(), b.command.as_str()) && same(
        a.args.as_str(),
        b.args.as_str(),
    ) && same(a.dir.as_str(), b.dir.as_str()) && same(a.key.as_str(), b.key.as_str()) && same(
        a.group.as_str(),
        b.group.as_str(),
    )
}

fn same_entries(a: &Vec<LauncherEntry>, b: &Vec<LauncherEntry>) -> (r: bool)
    ensures
        r == (entries_of(a@) == entries_of(b@)),
{
    proof {
        assert(entries_of(a@).len() == a.len());
        assert(entries_of(b@).len() == b.len());
    }
    if a.len() != b.len() {
        return false;
    }
    let mut i: usize = 0;
    while i < a.len()
        invariant
            i <= a.len(),
            a.len() == b.len(),
            forall|k: int| 0 <= k < i ==> a@[k]@ == b@[k]@,
        decreases a.len() - i,
    {
        if !same_entry(&a[i], &b[i]) {
            proof {
                assert(entries_of(a@)[i as int] != entries_of(b@)[i as int]);
            }
            return false;
        }
        i = i + 1;
    }
    proof {
        assert(entries_of(a@) =~= entries_of(b@));
    }
    true
}

fn nan_bits(b: u32) -> (r: bool)
    ensures
        r == is_nan(b),
{
    b % 0x8000_0000 > 0x7F80_0000
}

/// Do two configurations hold the same settings? One that was saved by a panel
/// is not worth a reload.
pub fn same_config(a: &Config, b: &Config) -> (r: bool)
    ensures
        r == same_settings(*a, *b),
{
    let (x, y) = (a.split_ratio.bits, b.split_ratio.bits);
    let ratios = !nan_bits(x) && !nan_bits(y) && (x == y || (x % 0x8000_0000 == 0 && y % 0x8000_0000
        == 0));
    let numbers = a.outer_gap == b.outer_gap && a.inner_gap == b.inner_gap && a.border_thickness
        == b.border_thickness && a.border_corner_radius == b.border_corner_radius && a.workspaces
        == b.workspaces && a.bar_height == b.bar_height && a.bar_alpha == b.bar_alpha
        && a.animation_ms == b.animation_ms;
    let switches = a.bar_enabled == b.bar_enabled && a.follow_moved_window == b.follow_moved_window
        && a.focus_follows_mouse == b.focus_follows_mouse && a.smart_gaps == b.smart_gaps;
    ratios && numbers && switches && same(
        a.active_border_color.as_str(),
        b.active_border_color.as_str(),
    ) && same(a.bar_background.as_str(), b.bar_background.as_str()) && same(
        a.bar_foreground.as_str(),
        b.bar_foreground.as_str(),
    ) && same_texts(&a.workspace_names, &b.workspace_names) && same_rules(
        &a.app_rules,
        &b.app_rules,
    ) && same_bindings(&a.keybindings, &b.keybindings) && same_entries(&a.launcher, &b.launcher)
        && same_texts(&a.float_classes, &b.float_classes) && same_texts(
        &a.float_titles,
        &b.float_titles,
    ) && same_texts(&a.ignore_classes, &b.ignore_classes) && same_texts(
        &a.ignore_exes,
        &b.ignore_exes,
    ) && same_texts(&a.ignore_titles, &b.ignore_titles)
}

} // verus!
