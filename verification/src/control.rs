//! What follows from commands, clicks and changes: for the window manager,
//! and for the program around it.

use crate::bar::BarClick;
use crate::config::{colorref, parse_colorref, Config};
use crate::layout::{most, Rect};
use crate::monitor::MonitorInfo;
use crate::mouse::Hook;
use crate::overview::{keyed, OverviewStep, MOST};
use crate::panels::{
    idle, Change, ChangeView, Panel, Panels, Task, TaskList, TaskView,
};
use crate::scene::{set_accent, BarStyle};
use crate::shell::{reconfigured, same_config, same_settings, Shell};
use crate::text::{owned, same};
use crate::tray::TrayStep;
use crate::tweaks::{
    adjust_thickness, adjust_workspaces, color_text, hex_of, palette, palette_color, TweakClick,
};
use crate::window::Window;
use crate::wm::desktop::{Action, Desktop};
use crate::wm::displays::displays_changed;
use crate::wm::state::{world, Settings, WmView, World};
use crate::wm::{Command, WmEvent};
use vstd::prelude::*;

verus! {

/// Bars and focus frame show something new.
pub open spec fn refresh() -> Seq<TaskView> {
    seq![TaskView::RedrawBars, TaskView::Frame]
}

fn refreshed() -> (r: TaskList)
    ensures
        r@ == refresh(),
{
    let mut r = TaskList::of(Task::RedrawBars);
    r.add_task(Task::Frame);
    assert(r@ =~= refresh());
    r
}

/// A workspace count moved by `delta`, within the limits.
pub open spec fn moved_count(cur: usize, delta: i32) -> usize {
    (if cur + delta < 1 {
        1int
    } else if cur + delta > 24 {
        24int
    } else {
        cur + delta
    }) as usize
}

/// A thickness moved by `delta`, within the limits.
pub open spec fn moved_thickness(cur: i32, delta: i32) -> i32 {
    (if cur + delta < 0 {
        0int
    } else if cur + delta > 12 {
        12int
    } else {
        cur + delta
    }) as i32
}

impl Shell {
    /// All but the window manager is the same.
    pub open spec fn same_around(self, other: Shell) -> bool {
        &&& self.style == other.style
        &&& self.keybinds == other.keybinds
        &&& self.overview == other.overview
        &&& self.frame == other.frame
        &&& self.mouse == other.mouse
    }

    // ---------------------------------------------------------- the manager

    /// The tasks after a command: the rule of a program to save, the end of
    /// the program, and a refresh.
    pub open spec fn command_tasks(s: World, c: Command) -> Seq<TaskView> {
        let rule = if c == Command::PinApp && !s.wm.paused {
            match s.pin_change() {
                Some((key, n)) => seq![TaskView::Save(ChangeView::Rule(key, n))],
                None => idle(),
            }
        } else {
            idle()
        };
        let end = if c == Command::Exit {
            seq![TaskView::Quit]
        } else {
            idle()
        };
        rule + end + refresh()
    }

    /// A command for the window manager. One that needs a monitor does
    /// nothing where there is none.
    pub fn command(&mut self, desk: &mut Desktop, c: Command, fresh: &Vec<MonitorInfo>) -> (r:
        TaskList)
        requires
            old(self).wm.wf(),
        ensures
            final(self).wm.wf(),
            final(self).same_around(*old(self)),
            world(final(self).wm, *final(desk)) == if world(old(self).wm, *old(desk)).can_obey(c) {
                world(old(self).wm, *old(desk)).commanded(c, fresh@)
            } else {
                world(old(self).wm, *old(desk))
            },
            final(self).wm.config == (Config {
                app_rules: final(self).wm.config.app_rules,
                ..old(self).wm.config
            }),
            !(c is PinApp) || old(self).wm.paused ==> final(self).wm.config == old(self).wm.config,
            r@ == Self::command_tasks(world(old(self).wm, *old(desk)), c),
    {
        let ghost s = world(self.wm, *desk);
        let mut r = TaskList::new();
        if self.wm.can_obey(desk, c) {
            let o = self.wm.handle_command(desk, c, fresh);
            if let Some(rule) = o.rule {
                r.add_task(Task::Save(Change::Rule(rule.key, rule.workspace)));
            }
            if !o.running {
                r.add_task(Task::Quit);
            }
        }
        r.add_tasks(refreshed());
        assert(r@ =~= Self::command_tasks(s, c));
        r
    }

    /// Something happened to a window. Where that needs a monitor and there is
    /// none, nothing follows.
    pub fn event(&mut self, desk: &mut Desktop, ev: WmEvent) -> (r: TaskList)
        requires
            old(self).wm.wf(),
        ensures
            final(self).wm.wf(),
            final(self).wm.config == old(self).wm.config,
            final(self).same_around(*old(self)),
            world(final(self).wm, *final(desk)) == if world(old(self).wm, *old(desk)).can_handle(
                ev,
            ) {
                world(old(self).wm, *old(desk)).handled(ev)
            } else {
                world(old(self).wm, *old(desk))
            },
            r@ == refresh(),
    {
        if self.wm.can_handle(desk, ev) {
            self.wm.handle_event(desk, ev);
        }
        refreshed()
    }

    /// The displays came to rest after a change. The bars are created anew
    /// only when the monitors truly changed.
    pub fn on_display_settled(&mut self, desk: &mut Desktop, fresh: &Vec<MonitorInfo>) -> (r:
        TaskList)
        requires
            old(self).wm.wf(),
        ensures
            final(self).wm.wf(),
            final(self).wm.config == old(self).wm.config,
            final(self).same_around(*old(self)),
            world(final(self).wm, *final(desk)) == world(old(self).wm, *old(desk)).display_change(
                fresh@,
            ),
            r@ == if displays_changed(old(self).wm@.monitors, fresh@) {
                seq![TaskView::Rebuild(false)]
            } else {
                refresh()
            },
    {
        if self.wm.handle_display_change(desk, fresh) {
            TaskList::of(Task::Rebuild(false))
        } else {
            refreshed()
        }
    }

    /// The bars were created anew, which changed the work areas: tiles anew,
    /// and applies the rest of a configuration where one was loaded.
    pub fn rebuilt(&mut self, desk: &mut Desktop, fresh: &Vec<MonitorInfo>, all: bool) -> (r:
        TaskList)
        requires
            old(self).wm.wf(),
        ensures
            final(self).wm.wf(),
            final(self).wm.config == old(self).wm.config,
            world(final(self).wm, *final(desk)) == world(old(self).wm, *old(desk)).refreshed(
                fresh@,
            ).retiled_all(),
            final(self).style == old(self).style,
            final(self).keybinds == old(self).keybinds,
            final(self).overview == old(self).overview,
            final(self).mouse == old(self).mouse,
            !all ==> final(self).frame == old(self).frame && r@ == refresh(),
            all ==> {
                let c = old(self).wm.config;
                &&& final(self).frame.radius == most(c.border_corner_radius, 0)
                &&& final(self).frame.thickness == most(c.border_thickness, 0)
                &&& r@ == seq![
                    TaskView::FrameColor(colorref(c.active_border_color@) as u32),
                    TaskView::Mouse(
                        if c.focus_follows_mouse && !old(self).mouse.hooked {
                            Hook::Install
                        } else if !c.focus_follows_mouse && old(self).mouse.hooked {
                            Hook::Remove
                        } else {
                            Hook::Keep
                        },
                    ),
                    TaskView::Hotkeys,
                ] + refresh()
            },
    {
        if !all {
            self.wm.refresh_monitors(desk, fresh);
            self.wm.retile_all(desk);
            return refreshed();
        }
        let hook = self.bars_rebuilt(desk, fresh);
        let color: u32 = parse_colorref(self.wm.config.active_border_color.as_str());
        let mut r = TaskList::of(Task::FrameColor(color));
        r.add_task(Task::Mouse(hook));
        r.add_task(Task::Hotkeys);
        assert(r@ =~= seq![
            TaskView::FrameColor(color),
            TaskView::Mouse(hook),
            TaskView::Hotkeys,
        ]);
        r.add_tasks(refreshed());
        r
    }

    // -------------------------------------------------------- configuration

    /// The tasks after a configuration was swapped in.
    pub open spec fn reload_tasks(self, source: Seq<char>, minutes: u32) -> Seq<TaskView> {
        (if self.overview.shown {
            seq![TaskView::Close(Panel::Overview)]
        } else {
            idle()
        }).push(TaskView::Meetings(source, minutes)).push(TaskView::Rebuild(true))
    }

    /// Swaps in a configuration that was read.
    pub fn reconfigure(
        &mut self,
        desk: &mut Desktop,
        panels: &mut Panels,
        cfg: Config,
        source: String,
        minutes: u32,
    ) -> (r: TaskList)
        requires
            old(self).wm.wf(),
            cfg.wf(),
        ensures
            final(self).wm.wf(),
            world(final(self).wm, *final(desk)) == reconfigured(
                world(old(self).wm, *old(desk)),
                cfg,
            ),
            final(self).configured(*old(self), cfg),
            *final(panels) == (Panels {
                calendar_source: source,
                calendar_refresh_min: minutes,
                ..*old(panels)
            }),
            r@ == old(self).reload_tasks(source@, minutes),
    {
        let mut r = TaskList::new();
        if self.apply_new_config(desk, cfg) {
            r.add_task(Task::Close(Panel::Overview));
        }
        r.add_task(Task::Meetings(owned(source.as_str()), minutes));
        r.add_task(Task::Rebuild(true));
        assert(r@ =~= old(self).reload_tasks(source@, minutes));
        panels.calendar_source = source;
        panels.calendar_refresh_min = minutes;
        r
    }

    /// The file of the configuration changed and was read: it is swapped in,
    /// unless it says what is set already. Saving from a panel changes the
    /// file too.
    pub fn poll_config_reload(
        &mut self,
        desk: &mut Desktop,
        panels: &mut Panels,
        cfg: Config,
        source: String,
        minutes: u32,
    ) -> (r: TaskList)
        requires
            old(self).wm.wf(),
            cfg.wf(),
        ensures
            final(self).wm.wf(),
            ({
                let known = same_settings(old(self).wm.config, cfg)
                    && old(panels).calendar_source@ == source@ && old(panels).calendar_refresh_min
                    == minutes;
                if known {
                    *final(self) == *old(self) && *final(desk) == *old(desk) && *final(panels)
                        == *old(panels) && r@ == idle()
                } else {
                    &&& world(final(self).wm, *final(desk)) == reconfigured(
                        world(old(self).wm, *old(desk)),
                        cfg,
                    )
                    &&& final(self).configured(*old(self), cfg)
                    &&& *final(panels) == (Panels {
                        calendar_source: source,
                        calendar_refresh_min: minutes,
                        ..*old(panels)
                    })
                    &&& r@ == old(self).reload_tasks(source@, minutes)
                }
            }),
    {
        if same_config(&self.wm.config, &cfg) && same(
            panels.calendar_source.as_str(),
            source.as_str(),
        ) && panels.calendar_refresh_min == minutes {
            TaskList::new()
        } else {
            self.reconfigure(desk, panels, cfg, source, minutes)
        }
    }

    // -------------------------------------------------------------- overview

    /// The task that closes the overview, if it is open.
    pub open spec fn closing_overview(self) -> Seq<TaskView> {
        if self.overview.shown {
            seq![TaskView::Close(Panel::Overview)]
        } else {
            idle()
        }
    }

    /// Closes the overview, if it is open.
    pub fn close_overview(&mut self) -> (r: TaskList)
        ensures
            final(self).wm == old(self).wm,
            final(self).style == old(self).style,
            final(self).keybinds == old(self).keybinds,
            final(self).frame == old(self).frame,
            final(self).mouse == old(self).mouse,
            !final(self).overview.shown,
            final(self).overview.selected == old(self).overview.selected,
            r@ == old(self).closing_overview(),
    {
        if self.overview.close() {
            TaskList::of(Task::Close(Panel::Overview))
        } else {
            TaskList::new()
        }
    }

    /// Opens the overview on the focused monitor, or closes it.
    pub fn toggle_overview(&mut self, desk: &Desktop) -> (r: TaskList)
        ensures
            final(self).wm == old(self).wm,
            final(self).style == old(self).style,
            final(self).keybinds == old(self).keybinds,
            final(self).frame == old(self).frame,
            final(self).mouse == old(self).mouse,
            !final(self).overview.shown,
            ({
                let s = world(old(self).wm, *desk);
                let mi = s.focused_monitor();
                let opens = !old(self).overview.shown && mi < s.wm.monitors.len();
                &&& r@ == if old(self).overview.shown {
                    seq![TaskView::Close(Panel::Overview)]
                } else if opens {
                    seq![
                        TaskView::Open(
                            Panel::Overview,
                            s.wm.monitors[mi].work_area,
                            s.wm.monitors[mi].handle,
                        ),
                    ]
                } else {
                    idle()
                }
                &&& final(self).overview.selected == if opens {
                    s.wm.monitors[mi].active
                } else {
                    old(self).overview.selected
                }
            }),
    {
        let mi: usize = self.wm.focused_monitor_index(desk);
        let mut place: Option<(isize, Rect, usize)> = None;
        if mi < self.wm.monitors.len() {
            let m = &self.wm.monitors[mi];
            place = Some((m.handle, m.work_area, m.active));
            proof {
                assert(self.wm@.monitors[mi as int] == self.wm.monitors@[mi as int]@);
            }
        }
        match self.overview.toggle(place) {
            OverviewStep::Open(handle, at) => TaskList::of(
                Task::Open(Panel::Overview, at, handle),
            ),
            OverviewStep::Close => TaskList::of(Task::Close(Panel::Overview)),
            _ => TaskList::new(),
        }
    }

    /// The tasks after a workspace was chosen in the overview.
    pub open spec fn jump_tasks(self, w: Option<Window>) -> Seq<TaskView> {
        self.closing_overview() + match w {
            Some(w) => seq![TaskView::Focus(w)],
            None => idle(),
        } + refresh()
    }

    /// A workspace was chosen in the overview of a monitor, and perhaps a
    /// window on it: the overview closes, the workspace is shown, and the
    /// window gets the focus.
    pub fn jump_to(&mut self, desk: &mut Desktop, handle: isize, target: usize, w: Option<Window>) -> (r:
        TaskList)
        requires
            old(self).wm.wf(),
        ensures
            final(self).wm.wf(),
            final(self).wm.config == old(self).wm.config,
            final(self).style == old(self).style,
            final(self).keybinds == old(self).keybinds,
            final(self).frame == old(self).frame,
            final(self).mouse == old(self).mouse,
            !final(self).overview.shown,
            final(self).overview.selected == old(self).overview.selected,
            world(final(self).wm, *final(desk)) == world(old(self).wm, *old(desk)).switch_on(
                old(self).wm@.index_of(handle),
                target as int,
            ),
            r@ == old(self).jump_tasks(w),
    {
        let mut r = self.close_overview();
        let mi: usize = self.wm.monitor_index_of_handle(handle);
        self.wm.switch_workspace_on(desk, mi, target);
        if let Some(w) = w {
            r.add_task(Task::Focus(w));
        }
        r.add_tasks(refreshed());
        assert(r@ =~= old(self).jump_tasks(w));
        r
    }

    /// A key in the overview of a monitor with `n` workspaces, where that is
    /// known.
    pub fn overview_key(&mut self, desk: &mut Desktop, handle: isize, vk: u32, n: Option<usize>) -> (r:
        TaskList)
        requires
            old(self).wm.wf(),
            old(self).overview.selected <= 0x7FFF_FFFF,
            n matches Some(k) ==> k <= MOST,
        ensures
            final(self).wm.wf(),
            final(self).wm.config == old(self).wm.config,
            final(self).style == old(self).style,
            final(self).keybinds == old(self).keybinds,
            final(self).frame == old(self).frame,
            final(self).mouse == old(self).mouse,
            ({
                let (selected, step) = keyed(old(self).overview.selected as int, vk, n);
                &&& final(self).overview.selected == selected
                &&& final(self).overview.shown == (old(self).overview.shown && !(step is Close)
                    && !(step is Jump))
                &&& world(final(self).wm, *final(desk)) == match step {
                    OverviewStep::Jump(i) => world(old(self).wm, *old(desk)).switch_on(
                        old(self).wm@.index_of(handle),
                        i as int,
                    ),
                    _ => world(old(self).wm, *old(desk)),
                }
                &&& r@ == match step {
                    OverviewStep::Close => old(self).closing_overview(),
                    OverviewStep::Redraw => seq![TaskView::Redraw(Panel::Overview)],
                    OverviewStep::Jump(_) => old(self).jump_tasks(None),
                    _ => idle(),
                }
            }),
    {
        match self.overview.on_key(vk, n) {
            OverviewStep::Close => self.close_overview(),
            OverviewStep::Redraw => TaskList::of(Task::Redraw(Panel::Overview)),
            OverviewStep::Jump(i) => self.jump_to(desk, handle, i, None),
            OverviewStep::Nothing | OverviewStep::Open(_, _) => TaskList::new(),
        }
    }

    // ------------------------------------------------------------ appearance

    /// One workspace more or less, within the limits.
    pub fn tweaks_adjust_workspaces(&mut self, desk: &mut Desktop, delta: i32) -> (r: TaskList)
        requires
            old(self).wm.wf(),
            old(self).wm.config.workspaces <= 0x7FFF_FFFF,
        ensures
            final(self).wm.wf(),
            final(self).same_around(*old(self)),
            final(self).wm.config == (Config {
                workspaces: final(self).wm.config.workspaces,
                ..old(self).wm.config
            }),
            ({
                let cur = old(self).wm.config.workspaces;
                let n = moved_count(cur, delta);
                &&& world(final(self).wm, *final(desk)) == world(
                    old(self).wm,
                    *old(desk),
                ).set_workspace_count(n)
                &&& r@ == if !old(self).wm.paused && n != cur {
                    seq![TaskView::Save(ChangeView::Workspaces(n)), TaskView::Hotkeys] + refresh()
                        + seq![TaskView::Redraw(Panel::Tweaks)]
                } else {
                    idle()
                }
            }),
    {
        let n: usize = adjust_workspaces(self.wm.config.workspaces, delta);
        let mut r = TaskList::new();
        if self.wm.set_workspace_count(desk, n) {
            r.add_task(Task::Save(Change::Workspaces(n)));
            r.add_task(Task::Hotkeys);
            assert(r@ =~= seq![TaskView::Save(ChangeView::Workspaces(n)), TaskView::Hotkeys]);
            r.add_tasks(refreshed());
            r.add_task(Task::Redraw(Panel::Tweaks));
            assert(r@ =~= seq![TaskView::Save(ChangeView::Workspaces(n)), TaskView::Hotkeys]
                + refresh() + seq![TaskView::Redraw(Panel::Tweaks)]);
        }
        r
    }

    /// A frame one pixel thicker or thinner, within the limits.
    pub fn tweaks_adjust_thickness(&mut self, delta: i32) -> (r: TaskList)
        requires
            old(self).wm.wf(),
        ensures
            final(self).wm.wf(),
            final(self).wm@ == old(self).wm@,
            final(self).style == old(self).style,
            final(self).keybinds == old(self).keybinds,
            final(self).overview == old(self).overview,
            final(self).mouse == old(self).mouse,
            final(self).frame.radius == old(self).frame.radius,
            ({
                let c = old(self).wm.config;
                let t = moved_thickness(c.border_thickness, delta);
                &&& final(self).wm.config == (Config { border_thickness: t, ..c })
                &&& final(self).frame.thickness == if t != c.border_thickness {
                    t
                } else {
                    old(self).frame.thickness
                }
                &&& r@ == if t != c.border_thickness {
                    seq![
                        TaskView::FrameColor(colorref(c.active_border_color@) as u32),
                        TaskView::Save(ChangeView::Thickness(t)),
                        TaskView::Redraw(Panel::Tweaks),
                    ]
                } else {
                    idle()
                }
            }),
    {
        match adjust_thickness(self.wm.config.border_thickness, delta) {
            Some(t) => {
                self.wm.config.border_thickness = t;
                self.frame.set_thickness(t);
                let color: u32 = parse_colorref(self.wm.config.active_border_color.as_str());
                let mut r = TaskList::of(Task::FrameColor(color));
                r.add_task(Task::Save(Change::Thickness(t)));
                r.add_task(Task::Redraw(Panel::Tweaks));
                assert(r@ =~= seq![
                    TaskView::FrameColor(color),
                    TaskView::Save(ChangeView::Thickness(t)),
                    TaskView::Redraw(Panel::Tweaks),
                ]);
                assert(self.wm@ =~= old(self).wm@);
                r
            },
            None => TaskList::new(),
        }
    }

    /// The tasks after the accent color changed.
    pub open spec fn color_tasks(hex: Seq<char>) -> Seq<TaskView> {
        seq![
            TaskView::FrameColor(colorref(hex) as u32),
            TaskView::RedrawBars,
            TaskView::Save(ChangeView::Color(hex)),
            TaskView::Redraw(Panel::Tweaks),
        ]
    }

    /// The world with another accent color.
    pub open spec fn accented(s: World, hex: Seq<char>) -> World {
        (World {
            wm: WmView {
                cfg: Settings { accent: hex, ..s.wm.cfg },
                border_color: colorref(hex) as u32,
                ..s.wm
            },
            desk: s.desk,
        }).act(Action::PaintBorders)
    }

    /// All but the world and the style of the bar is as it was, once another
    /// accent color is taken; the thickness of the frame is set anew.
    pub open spec fn recolored(self, was: Shell) -> bool {
        &&& self.wm.config == (Config {
            active_border_color: self.wm.config.active_border_color,
            ..was.wm.config
        })
        &&& self.keybinds == was.keybinds
        &&& self.overview == was.overview
        &&& self.mouse == was.mouse
        &&& self.frame.radius == was.frame.radius
        &&& self.frame.thickness == most(was.wm.config.border_thickness, 0)
    }

    /// Takes another accent color, everywhere.
    pub fn tweaks_set_color(&mut self, desk: &mut Desktop, hex: &str) -> (r: TaskList)
        requires
            old(self).wm.wf(),
        ensures
            final(self).wm.wf(),
            world(final(self).wm, *final(desk)) == Self::accented(
                world(old(self).wm, *old(desk)),
                hex@,
            ),
            final(self).style == match old(self).style {
                Some(s) => Some(BarStyle { accent: colorref(hex@) as u32, ..s }),
                None => None,
            },
            final(self).recolored(*old(self)),
            r@ == Self::color_tasks(hex@),
    {
        self.wm.set_accent_color(desk, hex);
        let color: u32 = parse_colorref(hex);
        self.frame.set_thickness(self.wm.config.border_thickness);
        set_accent(&mut self.style, color);
        let mut r = TaskList::of(Task::FrameColor(color));
        r.add_task(Task::RedrawBars);
        r.add_task(Task::Save(Change::Color(owned(hex))));
        r.add_task(Task::Redraw(Panel::Tweaks));
        assert(r@ =~= Self::color_tasks(hex@));
        r
    }

    /// The color dialog is over; the panel gets the focus back.
    pub fn color_picked(&mut self, desk: &mut Desktop, color: Option<u32>) -> (r: TaskList)
        requires
            old(self).wm.wf(),
        ensures
            final(self).wm.wf(),
            match color {
                Some(c) => {
                    &&& world(final(self).wm, *final(desk)) == Self::accented(
                        world(old(self).wm, *old(desk)),
                        hex_of(c),
                    )
                    &&& final(self).style == match old(self).style {
                        Some(s) => Some(BarStyle { accent: colorref(hex_of(c)) as u32, ..s }),
                        None => None,
                    }
                    &&& final(self).recolored(*old(self))
                    &&& r@ == seq![TaskView::FocusPanel(Panel::Tweaks)] + Self::color_tasks(
                        hex_of(c),
                    )
                },
                None => *final(self) == *old(self) && *final(desk) == *old(desk) && r@ == seq![
                    TaskView::FocusPanel(Panel::Tweaks),
                ],
            },
    {
        let mut r = TaskList::of(Task::FocusPanel(Panel::Tweaks));
        if let Some(c) = color {
            let hex = color_text(c);
            r.add_tasks(self.tweaks_set_color(desk, hex.as_str()));
        }
        r
    }

    // ----------------------------------------------------------------- clicks

    /// A click on the bar of a monitor: the panel to toggle, or what to do.
    pub fn bar_click(&mut self, desk: &mut Desktop, handle: isize, click: BarClick) -> (r: Result<
        Panel,
        TaskList,
    >)
        requires
            old(self).wm.wf(),
        ensures
            final(self).wm.wf(),
            final(self).wm.config == old(self).wm.config,
            final(self).same_around(*old(self)),
            world(final(self).wm, *final(desk)) == match click {
                BarClick::Workspace(i) => world(old(self).wm, *old(desk)).switch_on(
                    old(self).wm@.index_of(handle),
                    i as int,
                ),
                _ => world(old(self).wm, *old(desk)),
            },
            match r {
                Ok(p) => match click {
                    BarClick::Help => p == Panel::Help,
                    BarClick::Settings => p == Panel::Settings,
                    BarClick::Tweaks => p == Panel::Tweaks,
                    BarClick::Manage => p == Panel::Manager,
                    BarClick::Launcher => p == Panel::Launcher,
                    BarClick::Agenda => p == Panel::Agenda,
                    BarClick::Nothing | BarClick::Workspace(_) => false,
                },
                Err(t) => match click {
                    BarClick::Nothing => t@ == idle(),
                    BarClick::Workspace(_) => t@ == refresh(),
                    _ => false,
                },
            },
    {
        match click {
            BarClick::Nothing => Err(TaskList::new()),
            BarClick::Help => Ok(Panel::Help),
            BarClick::Settings => Ok(Panel::Settings),
            BarClick::Tweaks => Ok(Panel::Tweaks),
            BarClick::Manage => Ok(Panel::Manager),
            BarClick::Launcher => Ok(Panel::Launcher),
            BarClick::Agenda => Ok(Panel::Agenda),
            BarClick::Workspace(i) => {
                let mi: usize = self.wm.monitor_index_of_handle(handle);
                self.wm.switch_workspace_on(desk, mi, i);
                Err(refreshed())
            },
        }
    }

    /// A click into the appearance panel.
    pub fn tweak(&mut self, desk: &mut Desktop, click: TweakClick) -> (r: TaskList)
        requires
            old(self).wm.wf(),
            click is Workspaces ==> old(self).wm.config.workspaces <= 0x7FFF_FFFF,
            click matches TweakClick::Color(i) ==> i < 10,
        ensures
            final(self).wm.wf(),
            final(self).keybinds == old(self).keybinds,
            final(self).overview == old(self).overview,
            final(self).mouse == old(self).mouse,
            ({
                let s = world(old(self).wm, *old(desk));
                let c = old(self).wm.config;
                match click {
                    TweakClick::Nothing => {
                        &&& *final(self) == *old(self)
                        &&& *final(desk) == *old(desk)
                        &&& r@ == idle()
                    },
                    TweakClick::Workspaces(delta) => {
                        let n = moved_count(c.workspaces, delta);
                        &&& final(self).same_around(*old(self))
                        &&& final(self).wm.config == (Config {
                            workspaces: final(self).wm.config.workspaces,
                            ..c
                        })
                        &&& world(final(self).wm, *final(desk)) == s.set_workspace_count(n)
                        &&& r@ == if !old(self).wm.paused && n != c.workspaces {
                            seq![TaskView::Save(ChangeView::Workspaces(n)), TaskView::Hotkeys]
                                + refresh() + seq![TaskView::Redraw(Panel::Tweaks)]
                        } else {
                            idle()
                        }
                    },
                    TweakClick::Thickness(delta) => {
                        let t = moved_thickness(c.border_thickness, delta);
                        &&& final(self).style == old(self).style
                        &&& final(self).frame.radius == old(self).frame.radius
                        &&& final(self).frame.thickness == if t != c.border_thickness {
                            t
                        } else {
                            old(self).frame.thickness
                        }
                        &&& world(final(self).wm, *final(desk)) == s
                        &&& final(self).wm.config == (Config { border_thickness: t, ..c })
                        &&& r@ == if t != c.border_thickness {
                            seq![
                                TaskView::FrameColor(colorref(c.active_border_color@) as u32),
                                TaskView::Save(ChangeView::Thickness(t)),
                                TaskView::Redraw(Panel::Tweaks),
                            ]
                        } else {
                            idle()
                        }
                    },
                    TweakClick::Custom => {
                        &&& *final(self) == *old(self)
                        &&& *final(desk) == *old(desk)
                        &&& r@ == seq![
                            TaskView::PickColor(colorref(c.active_border_color@) as u32),
                        ]
                    },
                    TweakClick::Color(i) => {
                        &&& world(final(self).wm, *final(desk)) == Self::accented(
                            s,
                            palette()[i as int],
                        )
                        &&& final(self).style == match old(self).style {
                            Some(b) => Some(
                                BarStyle { accent: colorref(palette()[i as int]) as u32, ..b },
                            ),
                            None => None,
                        }
                        &&& final(self).recolored(*old(self))
                        &&& r@ == Self::color_tasks(palette()[i as int])
                    },
                }
            }),
    {
        match click {
            TweakClick::Nothing => TaskList::new(),
            TweakClick::Workspaces(delta) => self.tweaks_adjust_workspaces(desk, delta),
            TweakClick::Thickness(delta) => self.tweaks_adjust_thickness(delta),
            TweakClick::Custom => {
                let color: u32 = parse_colorref(self.wm.config.active_border_color.as_str());
                TaskList::of(Task::PickColor(color))
            },
            TweakClick::Color(i) => {
                let hex = palette_color(i);
                self.tweaks_set_color(desk, hex.as_str())
            },
        }
    }

    // ------------------------------------------------------------------- tray

    /// What follows from a step of the tray.
    pub fn tray_step(&mut self, desk: &mut Desktop, fresh: &Vec<MonitorInfo>, step: TrayStep) -> (r:
        TaskList)
        requires
            old(self).wm.wf(),
        ensures
            final(self).wm.wf(),
            match step {
                TrayStep::TogglePause => {
                    &&& final(self).same_around(*old(self))
                    &&& world(final(self).wm, *final(desk)) == if world(
                        old(self).wm,
                        *old(desk),
                    ).can_obey(Command::TogglePause) {
                        world(old(self).wm, *old(desk)).commanded(Command::TogglePause, fresh@)
                    } else {
                        world(old(self).wm, *old(desk))
                    }
                    &&& final(self).wm.config == old(self).wm.config
                    &&& r@ == refresh()
                },
                TrayStep::ToggleOverview => {
                    let s = world(old(self).wm, *old(desk));
                    let mi = s.focused_monitor();
                    let opens = !old(self).overview.shown && mi < s.wm.monitors.len();
                    &&& final(self).wm == old(self).wm
                    &&& final(self).style == old(self).style
                    &&& final(self).keybinds == old(self).keybinds
                    &&& final(self).frame == old(self).frame
                    &&& final(self).mouse == old(self).mouse
                    &&& *final(desk) == *old(desk)
                    &&& !final(self).overview.shown
                    &&& final(self).overview.selected == if opens {
                        s.wm.monitors[mi].active
                    } else {
                        old(self).overview.selected
                    }
                    &&& r@ == if old(self).overview.shown {
                        seq![TaskView::Close(Panel::Overview)]
                    } else if opens {
                        seq![
                            TaskView::Open(
                                Panel::Overview,
                                s.wm.monitors[mi].work_area,
                                s.wm.monitors[mi].handle,
                            ),
                        ]
                    } else {
                        idle()
                    }
                },
                _ => {
                    &&& *final(self) == *old(self)
                    &&& *final(desk) == *old(desk)
                    &&& r@ == match step {
                        TrayStep::ShowMenu => seq![TaskView::TrayMenu],
                        TrayStep::Reload => seq![TaskView::Reload],
                        TrayStep::Autostart(on) => seq![TaskView::Autostart(on)],
                        TrayStep::Exit => seq![TaskView::Quit],
                        _ => idle(),
                    }
                },
            },
    {
        match step {
            TrayStep::Nothing => TaskList::new(),
            TrayStep::ShowMenu => TaskList::of(Task::TrayMenu),
            TrayStep::ToggleOverview => self.toggle_overview(&*desk),
            TrayStep::TogglePause => {
                let r = self.command(desk, Command::TogglePause, fresh);
                assert(r@ =~= refresh());
                r
            },
            TrayStep::Reload => TaskList::of(Task::Reload),
            TrayStep::Autostart(on) => TaskList::of(Task::Autostart(on)),
            TrayStep::Exit => TaskList::of(Task::Quit),
        }
    }
}

} // verus!
