//! The reactions to commands of the user and to events of the system.

use super::desktop::{Action, Desktop};
use super::hiding::lemma_hiding_keeps;
use super::state::{world, MonView, Settings, WindowManager, WmView, World};
use super::tiling::{keep_living, living};
use super::{Command, WmEvent};
use crate::config::Config;
use crate::lists::{contains_window, copied, without};
use crate::monitor::MonitorInfo;
use crate::window::Window;
use vstd::prelude::*;

verus! {

/// A change of the app rules that has to be saved: the key, and the workspace
/// or none to remove the rule.
pub struct RuleChange {
    pub key: String,
    pub workspace: Option<usize>,
}

/// What is left to do for the program after a command.
pub struct Outcome {
    /// False when the user asked to exit.
    pub running: bool,
    pub rule: Option<RuleChange>,
}

/// The borders of all windows of `spaces` before `n` set back.
pub open spec fn plain_spaces(mon: MonView, n: int) -> Seq<Action>
    decreases n,
{
    if n <= 0 {
        Seq::empty()
    } else {
        plain_spaces(mon, n - 1) + plain_list(mon.workspaces[n - 1].all())
    }
}

pub open spec fn plain_list(list: Seq<Window>) -> Seq<Action> {
    list.map_values(|w: Window| Action::Border(w, None))
}

/// The borders on all monitors before `n` set back.
pub open spec fn plain_monitors(mons: Seq<MonView>, n: int) -> Seq<Action>
    decreases n,
{
    if n <= 0 {
        Seq::empty()
    } else {
        plain_monitors(mons, n - 1) + plain_spaces(
            mons[n - 1],
            mons[n - 1].workspaces.len() as int,
        )
    }
}

impl World {
    /// The change that pinning the focused app makes: its key, and the
    /// workspace it is on, or none where it was pinned there already.
    pub open spec fn pin_change(self) -> Option<(Seq<char>, Option<usize>)> {
        match self.focused_window() {
            None => None,
            Some((w, mi, wi)) => match self.desk.rule_key_of(w) {
                None => None,
                Some(key) => {
                    let n = (wi + 1) as usize;
                    let rules = self.wm.cfg.app_rules;
                    if rules.contains_key(key) && rules[key] == n {
                        Some((key, None))
                    } else {
                        Some((key, Some(n)))
                    }
                },
            },
        }
    }

    /// The focused app pinned to its workspace, or unpinned.
    pub open spec fn pinned(self) -> World {
        match self.pin_change() {
            None => self,
            Some((key, n)) => World {
                wm: WmView {
                    cfg: Settings {
                        app_rules: match n {
                            Some(n) => self.wm.cfg.app_rules.insert(key, n),
                            None => self.wm.cfg.app_rules.remove(key),
                        },
                        ..self.wm.cfg
                    },
                    ..self.wm
                },
                ..self
            },
        }
    }

    /// Tiling paused, with all borders set back, or resumed.
    pub open spec fn toggle_pause(self) -> World {
        if self.wm.paused {
            World { wm: WmView { paused: false, ..self.wm }, ..self }.adopted_all(
                self.desk.order,
            ).retiled_all().act(Action::PaintBorders)
        } else {
            World { wm: WmView { paused: true, ..self.wm }, ..self }.act_all(
                plain_monitors(self.wm.monitors, self.wm.monitors.len() as int),
            )
        }
    }

    /// Fullscreen for the focused window, parked or not.
    pub open spec fn fullscreen_command(self) -> World {
        match self.focused_scratch() {
            Some(w) => self.scratch_fullscreen(w),
            None => self.toggle_fullscreen(),
        }
    }

    /// `w` is not managed, and would be now.
    pub open spec fn takes(self, w: Window) -> bool {
        !self.wm.paused && !self.wm.is_managed(w) && self.desk.manages(w, self.wm.cfg.rules)
    }

    /// There is a monitor where the event needs one: for a window that it
    /// brings under management.
    pub open spec fn can_handle(self, ev: WmEvent) -> bool {
        self.wm.monitors.len() > 0 || match ev {
            WmEvent::Shown(w) => !self.takes(w),
            WmEvent::Restored(w) => !self.takes(w),
            WmEvent::Foreground(w) => !self.takes(w),
            WmEvent::Retitled(w) => !self.takes(w),
            _ => true,
        }
    }

    /// There is a monitor where the command needs one.
    pub open spec fn can_obey(self, cmd: Command) -> bool {
        let parked = living(self.wm.scratch, self.desk);
        self.wm.monitors.len() > 0 || match cmd {
            Command::TogglePause => !self.wm.paused || !self.misses(self.desk.order),
            _ => self.wm.paused || match cmd {
                Command::FocusNext | Command::FocusPrev => false,
                Command::FocusDir(_) => self.focus_is_managed(),
                Command::ToggleMonocle => false,
                Command::NextWorkspace | Command::PrevWorkspace => false,
                Command::ToggleFullscreen => self.focused_scratch() is None,
                Command::ScratchToggle => parked.len() == 0,
                Command::ScratchSend => self.focused_scratch() is None,
                Command::ScratchCycle => parked.len() == 0 || self.wm.scratch_shown,
                Command::Retile => !self.misses(self.desk.order),
                _ => true,
            },
        }
    }

    /// The answer to a command. While paused only pausing itself is obeyed;
    /// panels, the launcher and exit are not the manager's.
    pub open spec fn commanded(self, cmd: Command, fresh: Seq<MonitorInfo>) -> World {
        match cmd {
            Command::Exit => self,
            Command::ShowHelp => self,
            Command::Launcher => self,
            Command::Launch(_) => self,
            Command::Overview => self,
            Command::WindowSwitcher => self,
            Command::TogglePause => self.toggle_pause(),
            _ => if self.wm.paused {
                self
            } else {
                match cmd {
                    Command::FocusNext => self.focus_neighbor(true),
                    Command::FocusPrev => self.focus_neighbor(false),
                    Command::FocusDir(dir) => self.focus_dir(dir),
                    Command::SwapNext => self.swap_neighbor(true),
                    Command::SwapPrev => self.swap_neighbor(false),
                    Command::SwapDir(dir) => self.swap_dir(dir),
                    Command::Promote => self.promote(),
                    Command::GrowWindow => self.resize_focused(true),
                    Command::ShrinkWindow => self.resize_focused(false),
                    Command::ToggleFloat => self.toggle_float(),
                    Command::ToggleMonocle => self.toggle_monocle(),
                    Command::ToggleFullscreen => self.fullscreen_command(),
                    Command::CloseWindow => match self.focused_window() {
                        Some((w, _, _)) => self.act(Action::Close(w)),
                        None => self,
                    },
                    Command::SwitchWorkspace(n) => self.switch_workspace(n as int),
                    Command::MoveToWorkspace(n) => self.move_to_workspace(n as int),
                    Command::NextWorkspace => self.cycle_workspace(true),
                    Command::PrevWorkspace => self.cycle_workspace(false),
                    Command::MoveNextWorkspace => self.move_cycle(true),
                    Command::MovePrevWorkspace => self.move_cycle(false),
                    Command::PinApp => self.pinned(),
                    Command::ScratchToggle => self.scratch_toggle(),
                    Command::ScratchSend => self.scratch_send(),
                    Command::ScratchCycle => self.scratch_cycle(),
                    Command::Retile => self.refreshed(fresh).rescanned().retiled_all().act(
                        Action::PaintBorders,
                    ),
                    _ => self,
                }
            },
        }
    }

    /// `w` taken under management if it should be.
    pub open spec fn noticed(self, w: Window, apply_rules: bool) -> World {
        if !self.wm.is_managed(w) && self.desk.manages(w, self.wm.cfg.rules) {
            self.manage(w, apply_rules)
        } else {
            self
        }
    }

    pub open spec fn not_hidden(self, w: Window) -> World {
        World { wm: WmView { hidden: without(self.wm.hidden, w), ..self.wm }, ..self }
    }

    /// After `w` got the foreground: floating windows put back above it when
    /// it is tiled on a shown workspace.
    pub open spec fn refloated(self, w: Window) -> World {
        match self.wm.find(w) {
            Some((mi, wi)) => if wi == self.wm.monitors[mi].active && self.wm.ws(
                mi,
                wi,
            ).tiled.contains(w) {
                self.raise_floats(mi)
            } else {
                self
            },
            None => self,
        }
    }

    /// The answer to an event of the system.
    pub open spec fn handled(self, ev: WmEvent) -> World {
        match ev {
            WmEvent::Shown(w) => self.not_hidden(w).noticed(w, true),
            WmEvent::Restored(w) => self.not_hidden(w).noticed(w, false),
            WmEvent::Hidden(w) => if !self.wm.hidden.contains(w) && self.wm.is_managed(w) {
                self.unmanage(w)
            } else {
                self
            },
            WmEvent::Destroyed(w) => if self.wm.is_managed(w) {
                self.unmanage(w)
            } else {
                self.not_hidden(w)
            },
            WmEvent::MinimizeStart(w) => if self.wm.is_managed(w) {
                self.unmanage(w)
            } else {
                self
            },
            WmEvent::Foreground(w) => self.noticed(w, true).refloated(w).act(Action::PaintBorders),
            WmEvent::Retitled(w) => self.noticed(w, true),
            WmEvent::MoveSizeEnd(w, drop) => self.drag_end(w, drop),
        }
    }

    /// `w` brought to the user wherever it lives.
    pub open spec fn activate(self, w: Window) -> World {
        match self.wm.find(w) {
            Some((mi, wi)) => {
                let s = if wi != self.wm.monitors[mi].active {
                    self.switch_on(mi, wi)
                } else {
                    self
                };
                s.focused_on(w)
            },
            None => if self.wm.in_scratch(w) {
                self.show_managed(w).act(Action::Topmost(w, true)).scratch_is(true).act(
                    Action::Journal,
                ).focused_on(w)
            } else {
                self.act(Action::PaintBorders)
            },
        }
    }
}

fn plain_borders(desk: &mut Desktop, list: &Vec<Window>)
    ensures
        final(desk)@ == old(desk)@.act_all(plain_list(list@)),
{
    let ghost d = desk@;
    let ghost m = plain_list(list@);
    let mut i: usize = 0;
    proof {
        assert(desk@ =~= d.act_all(m.take(0)));
    }
    while i < list.len()
        invariant
            i <= list.len(),
            m == plain_list(list@),
            desk@ == d.act_all(m.take(i as int)),
        decreases list.len() - i,
    {
        desk.act(Action::Border(list[i], None));
        proof {
            assert(m.take(i + 1) =~= m.take(i as int).push(m[i as int]));
            assert(desk@ =~= d.act_all(m.take(i + 1)));
        }
        i = i + 1;
    }
    proof {
        assert(m.take(i as int) =~= m);
    }
}

impl WindowManager {
    /// Sets back the borders of all windows of all workspaces.
    fn clear_borders(&self, desk: &mut Desktop)
        ensures
            final(desk)@ == old(desk)@.act_all(
                plain_monitors(self@.monitors, self@.monitors.len() as int),
            ),
    {
        let ghost d = desk@;
        let ghost mons = self@.monitors;
        let mut mi: usize = 0;
        proof {
            assert(desk@ =~= d.act_all(plain_monitors(mons, 0)));
        }
        while mi < self.monitors.len()
            invariant
                mi <= self.monitors.len(),
                mons == self@.monitors,
                desk@ == d.act_all(plain_monitors(mons, mi as int)),
            decreases self.monitors.len() - mi,
        {
            let mon = &self.monitors[mi];
            let ghost d1 = desk@;
            proof {
                assert(mons[mi as int] == mon@);
                assert(desk@ =~= d1.act_all(plain_spaces(mon@, 0)));
            }
            let mut wi: usize = 0;
            while wi < mon.workspaces.len()
                invariant
                    wi <= mon.workspaces.len(),
                    desk@ == d1.act_all(plain_spaces(mon@, wi as int)),
                decreases mon.workspaces.len() - wi,
            {
                let list = mon.workspaces[wi].all_windows();
                proof {
                    assert(list@ == mon@.workspaces[wi as int].all());
                }
                plain_borders(desk, &list);
                proof {
                    assert(desk@ =~= d1.act_all(plain_spaces(mon@, wi + 1)));
                }
                wi = wi + 1;
            }
            proof {
                assert(desk@ =~= d.act_all(plain_monitors(mons, mi + 1)));
            }
            mi = mi + 1;
        }
    }

    /// Pauses tiling, or resumes it.
    pub fn toggle_pause(&mut self, desk: &mut Desktop)
        requires
            old(self).wf(),
            old(self).monitors.len() > 0 || !old(self).paused || !world(
                *old(self),
                *old(desk),
            ).misses(old(desk)@.order),
        ensures
            world(*final(self), *final(desk)) == world(*old(self), *old(desk)).toggle_pause(),
            final(self).wf(),
            final(self).config == old(self).config,
    {
        if self.paused {
            self.paused = false;
            self.rescan(desk);
            self.retile_all(desk);
            desk.act(Action::PaintBorders);
        } else {
            self.paused = true;
            self.clear_borders(desk);
        }
    }

    /// Pins the focused app to its workspace, or unpins it; gives back what
    /// has to be saved.
    pub fn pin_app(&mut self, desk: &Desktop) -> (r: Option<RuleChange>)
        requires
            old(self).wf(),
        ensures
            world(*final(self), *desk) == world(*old(self), *desk).pinned(),
            match r {
                Some(c) => world(*old(self), *desk).pin_change() == Some((c.key@, c.workspace)),
                None => world(*old(self), *desk).pin_change() is None,
            },
            final(self).wf(),
            final(self).monitors == old(self).monitors,
            final(self).config == (Config {
                app_rules: final(self).config.app_rules,
                ..old(self).config
            }),
            r is None ==> final(self).config == old(self).config,
    {
        let ghost s = world(*self, *desk);
        let (w, _, wi): (Window, usize, usize) = match self.focused_window(desk) {
            Some(x) => x,
            None => {
                return None;
            },
        };
        let key = match desk.rule_key(w) {
            Some(k) => k,
            None => {
                return None;
            },
        };
        let n: usize = wi + 1;
        let there = match self.config.app_rules.get(key.as_str()) {
            Some(m) => *m == n,
            None => false,
        };
        if there {
            let _ = self.config.app_rules.remove(key.as_str());
            proof {
                assert(world(*self, *desk) =~= s.pinned());
            }
            Some(RuleChange { key, workspace: None })
        } else {
            self.config.app_rules.insert(key.clone(), n);
            proof {
                assert(world(*self, *desk) =~= s.pinned());
            }
            Some(RuleChange { key, workspace: Some(n) })
        }
    }

    /// Makes the focused window cover its whole monitor, or sets it back.
    pub fn toggle_fullscreen(&mut self, desk: &mut Desktop)
        requires
            old(self).wf(),
            old(self).monitors.len() > 0 || world(*old(self), *old(desk)).focused_scratch() is None,
        ensures
            world(*final(self), *final(desk)) == world(*old(self), *old(desk)).fullscreen_command(),
            final(self).wf(),
            final(self).config == old(self).config,
    {
        match self.focused_scratch(desk) {
            Some(w) => self.scratch_toggle_fullscreen(desk, w),
            None => self.toggle_workspace_fullscreen(desk),
        }
    }

    /// Should a window of `list` be managed that is not yet?
    fn misses(&self, desk: &Desktop, list: &Vec<Window>) -> (r: bool)
        ensures
            r == world(*self, *desk).misses(list@),
    {
        let ghost s = world(*self, *desk);
        let mut i: usize = 0;
        while i < list.len()
            invariant
                i <= list.len(),
                s == world(*self, *desk),
                forall|k: int|
                    0 <= k < i ==> s.wm.is_managed(#[trigger] list@[k]) || !s.desk.manages(
                        list@[k],
                        s.wm.cfg.rules,
                    ),
            decreases list.len() - i,
        {
            if !self.is_managed(list[i]) && desk.is_manageable(list[i], &self.config) {
                return true;
            }
            i = i + 1;
        }
        false
    }

    fn takes(&self, desk: &Desktop, w: Window) -> (r: bool)
        ensures
            r == world(*self, *desk).takes(w),
    {
        !self.paused && !self.is_managed(w) && desk.is_manageable(w, &self.config)
    }

    /// Is there a monitor where the event needs one?
    pub fn can_handle(&self, desk: &Desktop, ev: WmEvent) -> (r: bool)
        ensures
            r == world(*self, *desk).can_handle(ev),
    {
        if self.monitors.len() > 0 {
            return true;
        }
        match ev {
            WmEvent::Shown(w) => !self.takes(desk, w),
            WmEvent::Restored(w) => !self.takes(desk, w),
            WmEvent::Foreground(w) => !self.takes(desk, w),
            WmEvent::Retitled(w) => !self.takes(desk, w),
            _ => true,
        }
    }

    fn focus_is_managed(&self, desk: &Desktop) -> (r: bool)
        ensures
            r == world(*self, *desk).focus_is_managed(),
    {
        match desk.foreground {
            Some(f) => self.is_managed(f),
            None => false,
        }
    }

    /// Is there a monitor where the command needs one?
    pub fn can_obey(&self, desk: &Desktop, cmd: Command) -> (r: bool)
        ensures
            r == world(*self, *desk).can_obey(cmd),
    {
        if self.monitors.len() > 0 {
            return true;
        }
        if let Command::TogglePause = cmd {
            return !self.paused || !self.misses(desk, &desk.order);
        }
        if self.paused {
            return true;
        }
        let mut parked = copied(&self.scratch);
        keep_living(&mut parked, desk);
        match cmd {
            Command::FocusNext => false,
            Command::FocusPrev => false,
            Command::FocusDir(_) => self.focus_is_managed(desk),
            Command::ToggleMonocle => false,
            Command::NextWorkspace => false,
            Command::PrevWorkspace => false,
            Command::ToggleFullscreen => self.focused_scratch(desk).is_none(),
            Command::ScratchToggle => parked.len() == 0,
            Command::ScratchSend => self.focused_scratch(desk).is_none(),
            Command::ScratchCycle => parked.len() == 0 || self.scratch_shown,
            Command::Retile => !self.misses(desk, &desk.order),
            _ => true,
        }
    }

    /// Obeys a command. `fresh` lists the monitors as they are now.
    #[verifier::spinoff_prover]
    #[verifier::rlimit(60)]
    pub fn handle_command(&mut self, desk: &mut Desktop, cmd: Command, fresh: &Vec<MonitorInfo>) -> (r:
        Outcome)
        requires
            old(self).wf(),
            world(*old(self), *old(desk)).can_obey(cmd),
        ensures
            world(*final(self), *final(desk)) == world(*old(self), *old(desk)).commanded(
                cmd,
                fresh@,
            ),
            final(self).wf(),
            final(self).config == (Config {
                app_rules: final(self).config.app_rules,
                ..old(self).config
            }),
            r.rule is None ==> final(self).config == old(self).config,
            r.running == (cmd != Command::Exit),
            match r.rule {
                Some(c) => cmd == Command::PinApp && !old(self)@.paused && world(
                    *old(self),
                    *old(desk),
                ).pin_change() == Some((c.key@, c.workspace)),
                None => !(cmd == Command::PinApp && !old(self)@.paused && world(
                    *old(self),
                    *old(desk),
                ).pin_change() is Some),
            },
    {
        let mut rule: Option<RuleChange> = None;
        match cmd {
            Command::Exit => {
                return Outcome { running: false, rule: None };
            },
            Command::ShowHelp => {},
            Command::Launcher => {},
            Command::Launch(_) => {},
            Command::Overview => {},
            Command::WindowSwitcher => {},
            Command::TogglePause => self.toggle_pause(desk),
            _ => {
                if !self.paused {
                    match cmd {
                        Command::FocusNext => self.focus_neighbor(desk, true),
                        Command::FocusPrev => self.focus_neighbor(desk, false),
                        Command::FocusDir(dir) => self.focus_dir(desk, dir),
                        Command::SwapNext => self.swap_neighbor(desk, true),
                        Command::SwapPrev => self.swap_neighbor(desk, false),
                        Command::SwapDir(dir) => self.swap_dir(desk, dir),
                        Command::Promote => self.promote(desk),
                        Command::GrowWindow => self.resize_focused(desk, true),
                        Command::ShrinkWindow => self.resize_focused(desk, false),
                        Command::ToggleFloat => self.toggle_float(desk),
                        Command::ToggleMonocle => self.toggle_monocle(desk),
                        Command::ToggleFullscreen => self.toggle_fullscreen(desk),
                        Command::CloseWindow => {
                            if let Some((w, _, _)) = self.focused_window(desk) {
                                desk.act(Action::Close(w));
                            }
                        },
                        Command::SwitchWorkspace(n) => self.switch_workspace(desk, n),
                        Command::MoveToWorkspace(n) => self.move_to_workspace(desk, n),
                        Command::NextWorkspace => self.cycle_workspace(desk, true),
                        Command::PrevWorkspace => self.cycle_workspace(desk, false),
                        Command::MoveNextWorkspace => self.move_cycle(desk, true),
                        Command::MovePrevWorkspace => self.move_cycle(desk, false),
                        Command::PinApp => {
                            rule = self.pin_app(desk);
                        },
                        Command::ScratchToggle => self.scratch_toggle(desk),
                        Command::ScratchSend => self.scratch_send(desk),
                        Command::ScratchCycle => self.scratch_cycle(desk),
                        Command::Retile => {
                            self.refresh_monitors(desk, fresh);
                            proof {
                                let s = world(*old(self), *old(desk));
                                if old(self).monitors.len() == 0 {
                                    assert(s.refreshed(fresh@) == s);
                                }
                            }
                            self.rescan(desk);
                            self.retile_all(desk);
                            desk.act(Action::PaintBorders);
                        },
                        _ => {},
                    }
                }
            },
        }
        Outcome { running: true, rule }
    }

    fn notice(&mut self, desk: &mut Desktop, w: Window, apply_rules: bool)
        requires
            old(self).wf(),
            old(self).monitors.len() > 0 || !world(*old(self), *old(desk)).takes(w),
        ensures
            world(*final(self), *final(desk)) == world(*old(self), *old(desk)).noticed(
                w,
                apply_rules,
            ),
            final(self).wf(),
            final(self).config == old(self).config,
            final(self).monitors.len() == old(self).monitors.len(),
    {
        if !self.is_managed(w) && desk.is_manageable(w, &self.config) {
            self.manage(desk, w, apply_rules);
        }
    }

    /// Reacts to an event of the system.
    pub fn handle_event(&mut self, desk: &mut Desktop, ev: WmEvent)
        requires
            old(self).wf(),
            world(*old(self), *old(desk)).can_handle(ev),
        ensures
            world(*final(self), *final(desk)) == world(*old(self), *old(desk)).handled(ev),
            final(self).wf(),
            final(self).config == old(self).config,
            final(self).monitors.len() == old(self).monitors.len(),
    {
        match ev {
            WmEvent::Shown(w) => {
                self.hidden_by_us.leave_out(w);
                self.notice(desk, w, true);
            },
            WmEvent::Restored(w) => {
                self.hidden_by_us.leave_out(w);
                self.notice(desk, w, false);
            },
            WmEvent::Hidden(w) => {
                if !self.hidden_by_us.has(w) && self.is_managed(w) {
                    self.unmanage(desk, w);
                }
            },
            WmEvent::Destroyed(w) => {
                if self.is_managed(w) {
                    self.unmanage(desk, w);
                } else {
                    self.hidden_by_us.leave_out(w);
                }
            },
            WmEvent::MinimizeStart(w) => {
                if self.is_managed(w) {
                    self.unmanage(desk, w);
                }
            },
            WmEvent::Foreground(w) => {
                self.notice(desk, w, true);
                if let Some((mi, wi)) = self.find(w) {
                    proof {
                        assert(self@.monitors[mi as int] == self.monitors@[mi as int]@);
                    }
                    if wi == self.monitors[mi].active && contains_window(
                        &self.monitors[mi].workspaces[wi].tiled,
                        w,
                    ) {
                        self.raise_floats(desk, mi);
                    }
                }
                desk.act(Action::PaintBorders);
            },
            WmEvent::Retitled(w) => {
                self.notice(desk, w, true);
            },
            WmEvent::MoveSizeEnd(w, drop) => {
                self.on_drag_end(desk, w, drop);
            },
        }
    }

    /// Brings a window to the user wherever it lives: its workspace is shown,
    /// or it is popped out of the scratchpad, and it gets focus.
    pub fn activate_window(&mut self, desk: &mut Desktop, w: Window)
        requires
            old(self).wf(),
        ensures
            world(*final(self), *final(desk)) == world(*old(self), *old(desk)).activate(w),
            final(self).wf(),
            final(self).config == old(self).config,
            final(self).monitors.len() == old(self).monitors.len(),
    {
        if let Some((mi, wi)) = self.find(w) {
            proof {
                assert(self@.monitors[mi as int] == self.monitors@[mi as int]@);
            }
            if wi != self.monitors[mi].active {
                self.switch_workspace_on(desk, mi, wi);
            }
            desk.focus(w);
        } else if self.in_scratch(w) {
            proof {
                lemma_hiding_keeps(world(*self, *desk), w);
            }
            self.show_managed(desk, w);
            desk.set_topmost(w, true);
            self.scratch_shown = true;
            desk.act(Action::Journal);
            desk.focus(w);
            proof {
                assert(self@.monitors.len() == self.monitors.len());
            }
        }
        desk.act(Action::PaintBorders);
    }
}

} // verus!
