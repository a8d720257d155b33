//! The panels: which are open, and what follows from what is done in them.

use crate::agenda::{agenda_panel, agenda_place};
use crate::config::LauncherEntry;
use crate::help::{fresh_help, help_panel, help_place, saved_text, HelpState, HelpStep};
use crate::launcher::launch_index;
use crate::launcher_panel::{
    fresh_launcher, launcher_panel, launcher_place, line_height, LauncherState, LauncherStep,
};
use crate::layout::Rect;
use crate::manager::{fresh_manager, manager_panel, manager_place, MgrState, MgrStep, MgrView};
use crate::mouse::Hook;
use crate::scan::{
    open_scan, opened, scan_panel, scan_place, start_menu, toggle_scan_panel, ScanState, ScanStep,
};
use crate::scene::Sheet;
use crate::search::maybe;
use crate::settings::{settings_panel, settings_place, SettingsState, SettingsStep};
use crate::strmap::StrMap;
use crate::switcher::{switcher_panel, switcher_place, SwitcherState, SwitcherStep};
use crate::text::{owned, texts};
use crate::tweaks::{tweaks_panel, tweaks_place};
use crate::usage::{key_of, one_more};
use crate::vk::VK_ESCAPE;
use crate::webapps::{pair_texts, stem_of, Folders};
use crate::window::Window;
use crate::wm::desktop::Desktop;
use crate::wm::state::{world, WindowManager};
use vstd::prelude::*;

verus! {

// --------------------------------------------------------------------- tasks

#[derive(Clone, Copy, Debug, PartialEq, Eq, Structural)]
pub enum Panel {
    Help,
    Settings,
    Launcher,
    Tweaks,
    Switcher,
    Scan,
    Manager,
    Agenda,
    Overview,
}

/// A change to write into the configuration file.
#[derive(Debug)]
pub enum Change {
    /// The workspace of a program, or none any more.
    Rule(String, Option<usize>),
    /// The entries of the launcher.
    Launcher,
    /// The names of the workspaces.
    Names,
    Color(String),
    Thickness(i32),
    Workspaces(usize),
    /// Where meetings come from.
    Calendar(String),
}

pub enum ChangeView {
    Rule(Seq<char>, Option<usize>),
    Launcher,
    Names,
    Color(Seq<char>),
    Thickness(i32),
    Workspaces(usize),
    Calendar(Seq<char>),
}

impl View for Change {
    type V = ChangeView;

    open spec fn view(&self) -> ChangeView {
        match *self {
            Change::Rule(exe, n) => ChangeView::Rule(exe@, n),
            Change::Launcher => ChangeView::Launcher,
            Change::Names => ChangeView::Names,
            Change::Color(hex) => ChangeView::Color(hex@),
            Change::Thickness(t) => ChangeView::Thickness(t),
            Change::Workspaces(n) => ChangeView::Workspaces(n),
            Change::Calendar(source) => ChangeView::Calendar(source@),
        }
    }
}

/// Something that the system has to be asked for.
#[derive(Debug)]
pub enum Task {
    /// Open a window for the panel; the overview belongs to a monitor.
    Open(Panel, Rect, isize),
    /// Destroy the window of the panel.
    Close(Panel),
    Redraw(Panel),
    RedrawBars,
    /// Bring the focus frame up to date.
    Frame,
    /// Fill the focus frame with this color.
    FrameColor(u32),
    /// Register the hotkeys anew.
    Hotkeys,
    /// Destroy the bars and create them anew; the flag says that the rest of
    /// a configuration is to be applied after that.
    Rebuild(bool),
    Mouse(Hook),
    Focus(Window),
    FocusPanel(Panel),
    /// Start a program: command, arguments and directory.
    Run(String, String, String),
    /// Let the user choose a program, a bookmarks file, a color.
    Browse,
    Import,
    PickColor(u32),
    /// Look for installed apps, and show them.
    FindApps,
    /// Take meetings from there, and how often.
    Meetings(String, u32),
    TrayMenu,
    Autostart(bool),
    /// Read the configuration again.
    Reload,
    Save(Change),
    SaveUsage,
    /// Save the chord of an action, and tell the panel how that went.
    Rebind(String, String),
    Quit,
}

pub enum TaskView {
    Open(Panel, Rect, isize),
    Close(Panel),
    Redraw(Panel),
    RedrawBars,
    Frame,
    FrameColor(u32),
    Hotkeys,
    Rebuild(bool),
    Mouse(Hook),
    Focus(Window),
    FocusPanel(Panel),
    Run(Seq<char>, Seq<char>, Seq<char>),
    Browse,
    Import,
    PickColor(u32),
    FindApps,
    Meetings(Seq<char>, u32),
    TrayMenu,
    Autostart(bool),
    Reload,
    Save(ChangeView),
    SaveUsage,
    Rebind(Seq<char>, Seq<char>),
    Quit,
}

impl View for Task {
    type V = TaskView;

    open spec fn view(&self) -> TaskView {
        match *self {
            Task::Open(p, at, tag) => TaskView::Open(p, at, tag),
            Task::Close(p) => TaskView::Close(p),
            Task::Redraw(p) => TaskView::Redraw(p),
            Task::RedrawBars => TaskView::RedrawBars,
            Task::Frame => TaskView::Frame,
            Task::FrameColor(c) => TaskView::FrameColor(c),
            Task::Hotkeys => TaskView::Hotkeys,
            Task::Rebuild(all) => TaskView::Rebuild(all),
            Task::Mouse(h) => TaskView::Mouse(h),
            Task::Focus(w) => TaskView::Focus(w),
            Task::FocusPanel(p) => TaskView::FocusPanel(p),
            Task::Run(command, args, dir) => TaskView::Run(command@, args@, dir@),
            Task::Browse => TaskView::Browse,
            Task::Import => TaskView::Import,
            Task::PickColor(c) => TaskView::PickColor(c),
            Task::FindApps => TaskView::FindApps,
            Task::Meetings(source, minutes) => TaskView::Meetings(source@, minutes),
            Task::TrayMenu => TaskView::TrayMenu,
            Task::Autostart(on) => TaskView::Autostart(on),
            Task::Reload => TaskView::Reload,
            Task::Save(c) => TaskView::Save(c@),
            Task::SaveUsage => TaskView::SaveUsage,
            Task::Rebind(action, chord) => TaskView::Rebind(action@, chord@),
            Task::Quit => TaskView::Quit,
        }
    }
}

pub open spec fn tasks(v: Seq<Task>) -> Seq<TaskView> {
    v.map_values(|t: Task| t@)
}

/// Nothing to do.
pub open spec fn idle() -> Seq<TaskView> {
    Seq::empty()
}

/// The tasks of a step, one after the other.
pub struct TaskList {
    pub list: Vec<Task>,
}

impl View for TaskList {
    type V = Seq<TaskView>;

    open spec fn view(&self) -> Seq<TaskView> {
        tasks(self.list@)
    }
}

impl TaskList {
    pub fn new() -> (r: TaskList)
        ensures
            r@ == idle(),
    {
        let r = TaskList { list: Vec::new() };
        assert(r@ =~= idle());
        r
    }

    /// Adds one task.
    pub fn add_task(&mut self, t: Task)
        ensures
            final(self)@ == old(self)@.push(t@),
    {
        self.list.push(t);
        assert(self@ =~= old(self)@.push(t@));
    }

    /// Adds all tasks of another list.
    pub fn add_tasks(&mut self, other: TaskList)
        ensures
            final(self)@ == old(self)@ + other@,
    {
        let mut rest = other.list;
        self.list.append(&mut rest);
        assert(self@ =~= old(self)@ + other@);
    }

    /// One task.
    pub fn of(t: Task) -> (r: TaskList)
        ensures
            r@ == seq![t@],
    {
        let mut r = TaskList::new();
        r.add_task(t);
        assert(r@ =~= seq![t@]);
        r
    }
}

// -------------------------------------------------------------------- panels

/// A monitor that a panel can open on.
#[derive(Clone, Copy, Debug)]
pub struct Place {
    pub bounds: Rect,
    pub dpi: u32,
}

/// The panels that are open, with their states. The overview is not among
/// them.
pub struct Panels {
    pub help: Option<HelpState>,
    pub settings: Option<SettingsState>,
    pub launcher: Option<LauncherState>,
    pub tweaks: bool,
    pub switcher: Option<SwitcherState>,
    pub scan: Option<ScanState>,
    pub manager: Option<MgrState>,
    pub agenda: bool,
    /// The color dialog is open; it takes the focus, and the panel stays.
    pub color_dialog: bool,
    /// Where meetings come from; empty for none.
    pub calendar_source: String,
    pub calendar_refresh_min: u32,
}

/// The tasks after the entries of the launcher changed.
pub open spec fn entries_changed() -> Seq<TaskView> {
    seq![
        TaskView::Save(ChangeView::Launcher),
        TaskView::Hotkeys,
        TaskView::Redraw(Panel::Scan),
        TaskView::Redraw(Panel::Launcher),
        TaskView::Redraw(Panel::Manager),
    ]
}

/// The tasks that start an entry; none where there is no such entry.
pub open spec fn starting(entries: Seq<LauncherEntry>, i: int) -> Seq<TaskView> {
    if 0 <= i < entries.len() {
        seq![
            TaskView::SaveUsage,
            TaskView::Run(entries[i]@.command, entries[i]@.args, entries[i]@.dir),
        ]
    } else {
        idle()
    }
}

/// The launch record after an entry was started.
pub open spec fn counted(
    usage: Map<Seq<char>, (u32, u64)>,
    entries: Seq<LauncherEntry>,
    now: u64,
    i: int,
) -> Map<Seq<char>, (u32, u64)> {
    if 0 <= i < entries.len() {
        usage.insert(key_of(entries[i]@), (one_more(usage, key_of(entries[i]@)), now))
    } else {
        usage
    }
}

/// Starts an entry of the launcher, and counts that.
pub fn start_entry(
    entries: &Vec<LauncherEntry>,
    usage: &mut StrMap<(u32, u64)>,
    now: u64,
    i: usize,
) -> (r: TaskList)
    requires
        old(usage).wf(),
    ensures
        final(usage).wf(),
        final(usage)@ == counted(old(usage)@, entries@, now, i as int),
        r@ == starting(entries@, i as int),
{
    let mut r = TaskList::new();
    if let Some(l) = launch_index(entries, usage, now, i) {
        r.add_task(Task::SaveUsage);
        r.add_task(Task::Run(l.command, l.args, l.dir));
    }
    assert(r@ =~= starting(entries@, i as int));
    r
}

/// The tasks after the entries of the launcher changed.
fn launcher_changed() -> (r: TaskList)
    ensures
        r@ == entries_changed(),
{
    let mut r = TaskList::of(Task::Save(Change::Launcher));
    r.add_task(Task::Hotkeys);
    r.add_task(Task::Redraw(Panel::Scan));
    r.add_task(Task::Redraw(Panel::Launcher));
    r.add_task(Task::Redraw(Panel::Manager));
    assert(r@ =~= entries_changed());
    r
}

impl Panels {
    pub open spec fn shows(self, p: Panel) -> bool {
        match p {
            Panel::Help => self.help is Some,
            Panel::Settings => self.settings is Some,
            Panel::Launcher => self.launcher is Some,
            Panel::Tweaks => self.tweaks,
            Panel::Switcher => self.switcher is Some,
            Panel::Scan => self.scan is Some,
            Panel::Manager => self.manager is Some,
            Panel::Agenda => self.agenda,
            Panel::Overview => false,
        }
    }

    /// With that panel closed, and its state forgotten.
    pub open spec fn without(self, p: Panel) -> Panels {
        match p {
            Panel::Help => Panels { help: None, ..self },
            Panel::Settings => Panels { settings: None, ..self },
            Panel::Launcher => Panels { launcher: None, ..self },
            Panel::Tweaks => Panels { tweaks: false, ..self },
            Panel::Switcher => Panels { switcher: None, ..self },
            Panel::Scan => Panels { scan: None, ..self },
            Panel::Manager => Panels { manager: None, ..self },
            Panel::Agenda => Panels { agenda: false, ..self },
            Panel::Overview => self,
        }
    }

    /// With all panels closed.
    pub open spec fn cleared(self) -> Panels {
        Panels {
            help: None,
            settings: None,
            launcher: None,
            tweaks: false,
            switcher: None,
            scan: None,
            manager: None,
            agenda: false,
            ..self
        }
    }

    /// The task that closes a panel, if it is open.
    pub open spec fn closing(self, p: Panel) -> Seq<TaskView> {
        if self.shows(p) {
            seq![TaskView::Close(p)]
        } else {
            idle()
        }
    }

    /// The tasks that close all panels.
    pub open spec fn closing_all(self) -> Seq<TaskView> {
        self.closing(Panel::Help) + self.closing(Panel::Settings) + self.closing(Panel::Launcher)
            + self.closing(Panel::Tweaks) + self.closing(Panel::Switcher) + self.closing(
            Panel::Scan,
        ) + self.closing(Panel::Manager) + self.closing(Panel::Agenda)
    }

    /// A panel that loses the focus stays open while its own dialog has it.
    pub open spec fn stays(self, p: Panel) -> bool {
        match p {
            Panel::Manager => match self.manager {
                Some(m) => m@.dialog_open,
                None => false,
            },
            Panel::Tweaks => self.color_dialog,
            _ => false,
        }
    }

    /// The panel `p` was toggled: it closes if it is open, and otherwise opens
    /// in `at`, where there is a monitor. All others stay as they are.
    pub open spec fn toggled(
        self,
        after: Panels,
        p: Panel,
        at: Option<Rect>,
        r: Seq<TaskView>,
    ) -> bool {
        if self.shows(p) {
            r == seq![TaskView::Close(p)] && after == self.without(p)
        } else {
            match at {
                Some(rect) => {
                    &&& r == seq![TaskView::Open(p, rect, 0)]
                    &&& after.shows(p)
                    &&& after.without(p) == self
                },
                None => r == idle() && after == self,
            }
        }
    }

    /// All closed.
    pub fn new(calendar_source: String, calendar_refresh_min: u32) -> (r: Panels)
        ensures
            r == r.cleared(),
            !r.color_dialog,
            r.calendar_source == calendar_source,
            r.calendar_refresh_min == calendar_refresh_min,
    {
        Panels {
            help: None,
            settings: None,
            launcher: None,
            tweaks: false,
            switcher: None,
            scan: None,
            manager: None,
            agenda: false,
            color_dialog: false,
            calendar_source,
            calendar_refresh_min,
        }
    }

    pub fn is_open(&self, p: Panel) -> (r: bool)
        ensures
            r == self.shows(p),
    {
        match p {
            Panel::Help => self.help.is_some(),
            Panel::Settings => self.settings.is_some(),
            Panel::Launcher => self.launcher.is_some(),
            Panel::Tweaks => self.tweaks,
            Panel::Switcher => self.switcher.is_some(),
            Panel::Scan => self.scan.is_some(),
            Panel::Manager => self.manager.is_some(),
            Panel::Agenda => self.agenda,
            Panel::Overview => false,
        }
    }

    fn forget(&mut self, p: Panel)
        ensures
            *final(self) == old(self).without(p),
    {
        match p {
            Panel::Help => {
                self.help = None;
            },
            Panel::Settings => {
                self.settings = None;
            },
            Panel::Launcher => {
                self.launcher = None;
            },
            Panel::Tweaks => {
                self.tweaks = false;
            },
            Panel::Switcher => {
                self.switcher = None;
            },
            Panel::Scan => {
                self.scan = None;
            },
            Panel::Manager => {
                self.manager = None;
            },
            Panel::Agenda => {
                self.agenda = false;
            },
            Panel::Overview => {},
        }
    }

    /// Closes a panel, if it is open.
    pub fn close(&mut self, p: Panel) -> (r: TaskList)
        ensures
            *final(self) == old(self).without(p),
            r@ == old(self).closing(p),
    {
        let open = self.is_open(p);
        self.forget(p);
        if open {
            TaskList::of(Task::Close(p))
        } else {
            TaskList::new()
        }
    }

    /// Closes all panels.
    pub fn close_all(&mut self) -> (r: TaskList)
        ensures
            *final(self) == old(self).cleared(),
            r@ == old(self).closing_all(),
    {
        let mut r = self.close(Panel::Help);
        r.add_tasks(self.close(Panel::Settings));
        r.add_tasks(self.close(Panel::Launcher));
        r.add_tasks(self.close(Panel::Tweaks));
        r.add_tasks(self.close(Panel::Switcher));
        r.add_tasks(self.close(Panel::Scan));
        r.add_tasks(self.close(Panel::Manager));
        r.add_tasks(self.close(Panel::Agenda));
        r
    }

    /// The window of a panel could be created, or could not: then it is not
    /// open.
    pub fn opened(&mut self, p: Panel, there: bool)
        ensures
            *final(self) == if there {
                *old(self)
            } else {
                old(self).without(p)
            },
    {
        if !there {
            self.forget(p);
        }
    }

    /// A panel lost the focus: it closes, unless a dialog of its own has the
    /// focus now.
    pub fn focus_lost(&mut self, p: Panel) -> (r: TaskList)
        ensures
            *final(self) == if old(self).stays(p) {
                *old(self)
            } else {
                old(self).without(p)
            },
            r@ == if old(self).stays(p) {
                idle()
            } else {
                old(self).closing(p)
            },
    {
        let stays: bool = match p {
            Panel::Manager => match &self.manager {
                Some(m) => !m.on_focus_lost(),
                None => false,
            },
            Panel::Tweaks => self.color_dialog,
            _ => false,
        };
        if stays {
            TaskList::new()
        } else {
            self.close(p)
        }
    }

    // -------------------------------------------------------------- toggling

    /// Opens or closes the list of keybindings, which has `count` rows.
    pub fn toggle_help_panel(&mut self, place: Option<Place>, count: usize) -> (r: TaskList)
        requires
            count <= 0x7FFF_FFFF,
        ensures
            old(self).toggled(
                *final(self),
                Panel::Help,
                match place {
                    Some(m) => Some(help_place(m.bounds, m.dpi, count as int)),
                    None => None,
                },
                r@,
            ),
            old(self).help is None ==> (final(self).help matches Some(h) ==> h@ == fresh_help()),
    {
        if self.help.is_some() {
            return self.close(Panel::Help);
        }
        match place {
            Some(m) => {
                self.help = Some(HelpState::new());
                TaskList::of(Task::Open(Panel::Help, help_panel(&m.bounds, m.dpi, count), 0))
            },
            None => TaskList::new(),
        }
    }

    /// Opens or closes the settings, which have `count` rows.
    pub fn toggle_settings_panel(&mut self, place: Option<Place>, count: usize) -> (r: TaskList)
        requires
            count <= 0x7FFF_FFFF,
        ensures
            old(self).toggled(
                *final(self),
                Panel::Settings,
                match place {
                    Some(m) => Some(settings_place(m.bounds, m.dpi, count as int)),
                    None => None,
                },
                r@,
            ),
            old(self).settings is None ==> (final(self).settings matches Some(s)
                ==> s@.editing is None && !s@.editing_cal && s@.buffer.len() == 0),
    {
        if self.settings.is_some() {
            return self.close(Panel::Settings);
        }
        match place {
            Some(m) => {
                self.settings = Some(SettingsState::new());
                TaskList::of(
                    Task::Open(Panel::Settings, settings_panel(&m.bounds, m.dpi, count), 0),
                )
            },
            None => TaskList::new(),
        }
    }

    /// Opens or closes the launcher, which has `rows` rows.
    pub fn toggle_launcher_panel(&mut self, place: Option<Place>, rows: usize) -> (r: TaskList)
        requires
            rows <= 0x7FFF_FFFF,
            old(self).launcher is None && place is Some ==> line_height(
                (Sheet { w: 0, h: 0, dpi: place->0.dpi }),
            ) > 0,
        ensures
            old(self).toggled(
                *final(self),
                Panel::Launcher,
                match place {
                    Some(m) => Some(launcher_place(m.bounds, m.dpi, rows as int)),
                    None => None,
                },
                r@,
            ),
            old(self).launcher is None ==> (final(self).launcher matches Some(l) ==> l@
                == fresh_launcher()),
    {
        if self.launcher.is_some() {
            return self.close(Panel::Launcher);
        }
        match place {
            Some(m) => {
                self.launcher = Some(LauncherState::new());
                TaskList::of(
                    Task::Open(Panel::Launcher, launcher_panel(&m.bounds, m.dpi, rows), 0),
                )
            },
            None => TaskList::new(),
        }
    }

    /// Opens or closes the appearance panel.
    pub fn toggle_tweaks_panel(&mut self, place: Option<Place>) -> (r: TaskList)
        ensures
            old(self).toggled(
                *final(self),
                Panel::Tweaks,
                match place {
                    Some(m) => Some(tweaks_place(m.bounds, m.dpi)),
                    None => None,
                },
                r@,
            ),
    {
        if self.tweaks {
            return self.close(Panel::Tweaks);
        }
        match place {
            Some(m) => {
                self.tweaks = true;
                TaskList::of(Task::Open(Panel::Tweaks, tweaks_panel(&m.bounds, m.dpi), 0))
            },
            None => TaskList::new(),
        }
    }

    /// Opens or closes the list of windows.
    pub fn toggle_switcher_panel(&mut self, place: Option<Place>) -> (r: TaskList)
        ensures
            old(self).toggled(
                *final(self),
                Panel::Switcher,
                match place {
                    Some(m) => Some(switcher_place(m.bounds, m.dpi)),
                    None => None,
                },
                r@,
            ),
            old(self).switcher is None ==> (final(self).switcher matches Some(s)
                ==> s.query@.len() == 0 && s.selected == 0),
    {
        if self.switcher.is_some() {
            return self.close(Panel::Switcher);
        }
        match place {
            Some(m) => {
                self.switcher = Some(SwitcherState::new());
                TaskList::of(Task::Open(Panel::Switcher, switcher_panel(&m.bounds, m.dpi), 0))
            },
            None => TaskList::new(),
        }
    }

    /// Opens or closes the list of installed apps, found as `raw`.
    pub fn toggle_scan(
        &mut self,
        place: Option<Place>,
        raw: &Vec<(String, String)>,
        f: &Folders,
        present: &Vec<String>,
    ) -> (r: TaskList)
        ensures
            old(self).toggled(
                *final(self),
                Panel::Scan,
                match place {
                    Some(m) => Some(scan_place(m.bounds, m.dpi)),
                    None => None,
                },
                r@,
            ),
            old(self).scan is None ==> (final(self).scan matches Some(s) ==> s@ == opened(
                start_menu(pair_texts(raw@)),
                false,
                f@,
                texts(present@),
            )),
    {
        if self.scan.is_some() {
            return self.close(Panel::Scan);
        }
        match place {
            Some(m) => {
                self.scan = toggle_scan_panel(false, raw, f, present);
                TaskList::of(Task::Open(Panel::Scan, scan_panel(&m.bounds, m.dpi), 0))
            },
            None => TaskList::new(),
        }
    }

    /// Opens or closes the panel that manages apps.
    pub fn toggle_mgr_panel(&mut self, place: Option<Place>) -> (r: TaskList)
        ensures
            old(self).toggled(
                *final(self),
                Panel::Manager,
                match place {
                    Some(m) => Some(manager_place(m.bounds, m.dpi)),
                    None => None,
                },
                r@,
            ),
            old(self).manager is None ==> (final(self).manager matches Some(s) ==> s@
                == fresh_manager()),
    {
        if self.manager.is_some() {
            return self.close(Panel::Manager);
        }
        match place {
            Some(m) => {
                self.manager = Some(MgrState::new());
                TaskList::of(Task::Open(Panel::Manager, manager_panel(&m.bounds, m.dpi), 0))
            },
            None => TaskList::new(),
        }
    }

    /// Opens or closes the agenda, which has `count` meetings.
    pub fn toggle_agenda_panel(&mut self, place: Option<Place>, count: usize) -> (r: TaskList)
        ensures
            old(self).toggled(
                *final(self),
                Panel::Agenda,
                match place {
                    Some(m) => Some(agenda_place(m.bounds, m.dpi, count as int)),
                    None => None,
                },
                r@,
            ),
    {
        if self.agenda {
            return self.close(Panel::Agenda);
        }
        match place {
            Some(m) => {
                self.agenda = true;
                TaskList::of(Task::Open(Panel::Agenda, agenda_panel(&m.bounds, m.dpi, count), 0))
            },
            None => TaskList::new(),
        }
    }
}

// --------------------------------------------------------------------- steps

impl Panels {
    /// What follows from a step of the keybindings panel.
    pub fn help_step(&mut self, step: HelpStep) -> (r: TaskList)
        ensures
            *final(self) == match step {
                HelpStep::Close => old(self).without(Panel::Help),
                _ => *old(self),
            },
            r@ == match step {
                HelpStep::Nothing => idle(),
                HelpStep::Close => old(self).closing(Panel::Help),
                HelpStep::Redraw => seq![TaskView::Redraw(Panel::Help)],
                HelpStep::Rebound(action, chord) => seq![TaskView::Rebind(action@, chord@)],
            },
    {
        match step {
            HelpStep::Nothing => TaskList::new(),
            HelpStep::Close => self.close(Panel::Help),
            HelpStep::Redraw => TaskList::of(Task::Redraw(Panel::Help)),
            HelpStep::Rebound(action, chord) => TaskList::of(Task::Rebind(action, chord)),
        }
    }

    /// The chord of an action was saved, or `error` says why not.
    pub fn rebound(&mut self, action: &str, chord: &str, error: Option<String>) -> (r: TaskList)
        ensures
            *final(self) == (Panels { help: final(self).help, ..*old(self) }),
            match (old(self).help, final(self).help) {
                (Some(a), Some(b)) => {
                    &&& b@.query == a@.query
                    &&& b@.rebinding is None
                    &&& b@.message == saved_text(action@, chord@, maybe(error))
                },
                (None, None) => true,
                _ => false,
            },
            r@ == seq![TaskView::Hotkeys, TaskView::Redraw(Panel::Help)],
    {
        match self.help.take() {
            Some(mut h) => {
                h.rebound(action, chord, error);
                self.help = Some(h);
            },
            None => {},
        }
        let mut r = TaskList::of(Task::Hotkeys);
        r.add_task(Task::Redraw(Panel::Help));
        assert(r@ =~= seq![TaskView::Hotkeys, TaskView::Redraw(Panel::Help)]);
        r
    }

    /// What follows from a step of the launcher.
    pub fn launcher_step(
        &mut self,
        step: LauncherStep,
        entries: &Vec<LauncherEntry>,
        usage: &mut StrMap<(u32, u64)>,
        now: u64,
    ) -> (r: TaskList)
        requires
            old(usage).wf(),
        ensures
            final(usage).wf(),
            final(usage)@ == match step {
                LauncherStep::Launch(i) => counted(old(usage)@, entries@, now, i as int),
                _ => old(usage)@,
            },
            *final(self) == match step {
                LauncherStep::Close | LauncherStep::Launch(_) | LauncherStep::Run(_) => {
                    old(self).without(Panel::Launcher)
                },
                _ => *old(self),
            },
            r@ == match step {
                LauncherStep::Nothing => idle(),
                LauncherStep::Close => old(self).closing(Panel::Launcher),
                LauncherStep::Redraw => seq![TaskView::Redraw(Panel::Launcher)],
                LauncherStep::Launch(i) => starting(entries@, i as int) + old(self).closing(
                    Panel::Launcher,
                ),
                LauncherStep::Run(command) => seq![
                    TaskView::Run(command@, Seq::empty(), Seq::empty()),
                ] + old(self).closing(Panel::Launcher),
                LauncherStep::Save => entries_changed(),
            },
    {
        match step {
            LauncherStep::Nothing => TaskList::new(),
            LauncherStep::Close => self.close(Panel::Launcher),
            LauncherStep::Redraw => TaskList::of(Task::Redraw(Panel::Launcher)),
            LauncherStep::Launch(i) => {
                let mut r = start_entry(entries, usage, now, i);
                r.add_tasks(self.close(Panel::Launcher));
                r
            },
            LauncherStep::Run(command) => {
                let mut r = plain_run(command);
                r.add_tasks(self.close(Panel::Launcher));
                r
            },
            LauncherStep::Save => launcher_changed(),
        }
    }

    /// What follows from a step of the panel that manages apps.
    pub fn manager_step(&mut self, step: MgrStep) -> (r: TaskList)
        ensures
            match step {
                MgrStep::Close | MgrStep::Scan => *final(self) == old(self).without(Panel::Manager),
                MgrStep::Removed => {
                    &&& *final(self) == (Panels { launcher: final(self).launcher, ..*old(self) })
                    &&& match (old(self).launcher, final(self).launcher) {
                        (Some(a), Some(b)) => b == (LauncherState { selected: 0, ..a }),
                        (None, None) => true,
                        _ => false,
                    }
                },
                _ => *final(self) == *old(self),
            },
            r@ == match step {
                MgrStep::Nothing => idle(),
                MgrStep::Close => old(self).closing(Panel::Manager),
                MgrStep::Redraw => seq![TaskView::Redraw(Panel::Manager)],
                MgrStep::Browse => seq![TaskView::Browse],
                MgrStep::Import => seq![TaskView::Import],
                MgrStep::Scan => old(self).closing(Panel::Manager).push(TaskView::FindApps),
                MgrStep::Keep => seq![
                    TaskView::Save(ChangeView::Launcher),
                    TaskView::Redraw(Panel::Manager),
                    TaskView::Redraw(Panel::Launcher),
                ],
                MgrStep::Save | MgrStep::Removed => entries_changed(),
            },
    {
        match step {
            MgrStep::Nothing => TaskList::new(),
            MgrStep::Close => self.close(Panel::Manager),
            MgrStep::Redraw => TaskList::of(Task::Redraw(Panel::Manager)),
            MgrStep::Browse => TaskList::of(Task::Browse),
            MgrStep::Import => TaskList::of(Task::Import),
            MgrStep::Scan => {
                let mut r = self.close(Panel::Manager);
                r.add_task(Task::FindApps);
                r
            },
            MgrStep::Keep => {
                let mut r = TaskList::of(Task::Save(Change::Launcher));
                r.add_task(Task::Redraw(Panel::Manager));
                r.add_task(Task::Redraw(Panel::Launcher));
                assert(r@ =~= seq![
                    TaskView::Save(ChangeView::Launcher),
                    TaskView::Redraw(Panel::Manager),
                    TaskView::Redraw(Panel::Launcher),
                ]);
                r
            },
            MgrStep::Save => launcher_changed(),
            MgrStep::Removed => {
                match self.launcher.take() {
                    Some(mut l) => {
                        l.selected = 0;
                        self.launcher = Some(l);
                    },
                    None => {},
                }
                launcher_changed()
            },
        }
    }

    /// A dialog of the panel that manages apps opened or closed.
    pub fn manager_dialog(&mut self, open: bool)
        ensures
            *final(self) == (Panels { manager: final(self).manager, ..*old(self) }),
            match (old(self).manager, final(self).manager) {
                (Some(a), Some(b)) => b@ == (MgrView { dialog_open: open, ..a@ }),
                (None, None) => true,
                _ => false,
            },
    {
        match self.manager.take() {
            Some(mut m) => {
                m.dialog(open);
                self.manager = Some(m);
            },
            None => {},
        }
    }

    /// A program to add was chosen, or none was. Its name is typed next.
    pub fn program_picked(&mut self, path: Option<String>) -> (r: TaskList)
        ensures
            *final(self) == (Panels { manager: final(self).manager, ..*old(self) }),
            match (old(self).manager, final(self).manager) {
                (Some(a), Some(b)) => b@ == match maybe(path) {
                    Some(p) => MgrView { name_buf: stem_of(p), adding: Some(p), ..a@ },
                    None => a@,
                },
                (None, None) => true,
                _ => false,
            },
            r@ == seq![TaskView::FocusPanel(Panel::Manager), TaskView::Redraw(Panel::Manager)],
    {
        match self.manager.take() {
            Some(mut m) => {
                m.add_app_flow(path);
                self.manager = Some(m);
            },
            None => {},
        }
        let mut r = TaskList::of(Task::FocusPanel(Panel::Manager));
        r.add_task(Task::Redraw(Panel::Manager));
        assert(r@ =~= seq![
            TaskView::FocusPanel(Panel::Manager),
            TaskView::Redraw(Panel::Manager),
        ]);
        r
    }

    /// The links of a bookmarks file were read. They are shown in place of
    /// what the list of apps shows; where there are none, the panel says so.
    pub fn bookmarks_read(
        &mut self,
        marks: Vec<(String, String)>,
        place: Option<Place>,
        f: &Folders,
        present: &Vec<String>,
    ) -> (r: TaskList)
        ensures
            marks.len() == 0 ==> {
                &&& *final(self) == (Panels { manager: final(self).manager, ..*old(self) })
                &&& match (old(self).manager, final(self).manager) {
                    (Some(a), Some(b)) => b@ == (MgrView {
                        message: "no bookmarks found in that file"@,
                        ..a@
                    }),
                    (None, None) => true,
                    _ => false,
                }
                &&& r@ == seq![
                    TaskView::Redraw(Panel::Manager),
                    TaskView::FocusPanel(Panel::Manager),
                ]
            },
            marks.len() > 0 ==> match place {
                Some(m) => {
                    &&& final(self).scan matches Some(s)
                    &&& s@ == opened(pair_texts(marks@), true, f@, texts(present@))
                    &&& final(self).without(Panel::Scan) == old(self).without(
                        Panel::Manager,
                    ).without(Panel::Scan)
                    &&& r@ == (old(self).closing(Panel::Manager) + old(self).closing(
                        Panel::Scan,
                    )).push(TaskView::Open(Panel::Scan, scan_place(m.bounds, m.dpi), 0))
                },
                None => {
                    &&& *final(self) == old(self).without(Panel::Manager)
                    &&& r@ == old(self).closing(Panel::Manager)
                },
            },
    {
        if marks.len() == 0 {
            match self.manager.take() {
                Some(mut m) => {
                    let _ = m.import_bookmarks_flow(0);
                    self.manager = Some(m);
                },
                None => {},
            }
            let mut r = TaskList::of(Task::Redraw(Panel::Manager));
            r.add_task(Task::FocusPanel(Panel::Manager));
            assert(r@ =~= seq![
                TaskView::Redraw(Panel::Manager),
                TaskView::FocusPanel(Panel::Manager),
            ]);
            return r;
        }
        let mut r = self.close(Panel::Manager);
        match place {
            Some(m) => {
                r.add_tasks(self.close(Panel::Scan));
                self.scan = Some(open_scan(marks, true, f, present));
                r.add_task(Task::Open(Panel::Scan, scan_panel(&m.bounds, m.dpi), 0));
                r
            },
            None => r,
        }
    }

    /// What follows from a step of the list of apps.
    pub fn scan_step(&mut self, step: ScanStep) -> (r: TaskList)
        ensures
            *final(self) == match step {
                ScanStep::Close => old(self).without(Panel::Scan),
                _ => *old(self),
            },
            r@ == match step {
                ScanStep::Nothing => idle(),
                ScanStep::Close => old(self).closing(Panel::Scan),
                ScanStep::Redraw => seq![TaskView::Redraw(Panel::Scan)],
                ScanStep::Save => entries_changed(),
            },
    {
        match step {
            ScanStep::Nothing => TaskList::new(),
            ScanStep::Close => self.close(Panel::Scan),
            ScanStep::Redraw => TaskList::of(Task::Redraw(Panel::Scan)),
            ScanStep::Save => launcher_changed(),
        }
    }

    /// Takes meetings from there from now on.
    pub fn set_calendar_source(&mut self, source: String) -> (r: TaskList)
        ensures
            *final(self) == (Panels { calendar_source: source, ..*old(self) }),
            r@ == seq![
                TaskView::Meetings(source@, old(self).calendar_refresh_min),
                TaskView::Save(ChangeView::Calendar(source@)),
                TaskView::Redraw(Panel::Settings),
                TaskView::RedrawBars,
            ],
    {
        let mut r = TaskList::of(
            Task::Meetings(owned(source.as_str()), self.calendar_refresh_min),
        );
        r.add_task(Task::Save(Change::Calendar(owned(source.as_str()))));
        r.add_task(Task::Redraw(Panel::Settings));
        r.add_task(Task::RedrawBars);
        assert(r@ =~= seq![
            TaskView::Meetings(source@, old(self).calendar_refresh_min),
            TaskView::Save(ChangeView::Calendar(source@)),
            TaskView::Redraw(Panel::Settings),
            TaskView::RedrawBars,
        ]);
        self.calendar_source = source;
        r
    }

    /// What follows from a step of the settings.
    pub fn settings_step(&mut self, step: SettingsStep) -> (r: TaskList)
        ensures
            *final(self) == match step {
                SettingsStep::Close => old(self).without(Panel::Settings),
                SettingsStep::Calendar(source) => Panels { calendar_source: source, ..*old(self) },
                _ => *old(self),
            },
            r@ == match step {
                SettingsStep::Nothing => idle(),
                SettingsStep::Close => old(self).closing(Panel::Settings),
                SettingsStep::Redraw => seq![TaskView::Redraw(Panel::Settings)],
                SettingsStep::Named => seq![
                    TaskView::Save(ChangeView::Names),
                    TaskView::Redraw(Panel::Settings),
                    TaskView::RedrawBars,
                ],
                SettingsStep::Unpinned(exe) => seq![
                    TaskView::Save(ChangeView::Rule(exe@, None)),
                    TaskView::Redraw(Panel::Settings),
                ],
                SettingsStep::Calendar(source) => seq![
                    TaskView::Meetings(source@, old(self).calendar_refresh_min),
                    TaskView::Save(ChangeView::Calendar(source@)),
                    TaskView::Redraw(Panel::Settings),
                    TaskView::RedrawBars,
                ],
            },
    {
        match step {
            SettingsStep::Nothing => TaskList::new(),
            SettingsStep::Close => self.close(Panel::Settings),
            SettingsStep::Redraw => TaskList::of(Task::Redraw(Panel::Settings)),
            SettingsStep::Named => {
                let mut r = TaskList::of(Task::Save(Change::Names));
                r.add_task(Task::Redraw(Panel::Settings));
                r.add_task(Task::RedrawBars);
                assert(r@ =~= seq![
                    TaskView::Save(ChangeView::Names),
                    TaskView::Redraw(Panel::Settings),
                    TaskView::RedrawBars,
                ]);
                r
            },
            SettingsStep::Unpinned(exe) => {
                let mut r = TaskList::of(Task::Save(Change::Rule(exe, None)));
                r.add_task(Task::Redraw(Panel::Settings));
                assert(r@ =~= seq![
                    TaskView::Save(ChangeView::Rule(exe@, None)),
                    TaskView::Redraw(Panel::Settings),
                ]);
                r
            },
            SettingsStep::Calendar(source) => self.set_calendar_source(source),
        }
    }

    /// What follows from a step of the list of windows: a chosen window is
    /// brought to the user.
    pub fn switcher_step(
        &mut self,
        wm: &mut WindowManager,
        desk: &mut Desktop,
        step: SwitcherStep,
    ) -> (r: TaskList)
        requires
            old(wm).wf(),
        ensures
            final(wm).wf(),
            final(wm).config == old(wm).config,
            world(*final(wm), *final(desk)) == match step {
                SwitcherStep::Activate(w) => world(*old(wm), *old(desk)).activate(w),
                _ => world(*old(wm), *old(desk)),
            },
            *final(self) == match step {
                SwitcherStep::Close | SwitcherStep::Activate(_) => old(self).without(
                    Panel::Switcher,
                ),
                _ => *old(self),
            },
            r@ == match step {
                SwitcherStep::Nothing => idle(),
                SwitcherStep::Close => old(self).closing(Panel::Switcher),
                SwitcherStep::Redraw => seq![TaskView::Redraw(Panel::Switcher)],
                SwitcherStep::Activate(_) => old(self).closing(Panel::Switcher).push(
                    TaskView::RedrawBars,
                ).push(TaskView::Frame),
            },
    {
        match step {
            SwitcherStep::Nothing => TaskList::new(),
            SwitcherStep::Close => self.close(Panel::Switcher),
            SwitcherStep::Redraw => TaskList::of(Task::Redraw(Panel::Switcher)),
            SwitcherStep::Activate(w) => {
                let mut r = self.close(Panel::Switcher);
                wm.activate_window(desk, w);
                r.add_task(Task::RedrawBars);
                r.add_task(Task::Frame);
                r
            },
        }
    }

    /// A meeting was clicked: its address is opened, if it has one.
    pub fn agenda_step(&mut self, url: Option<String>) -> (r: TaskList)
        ensures
            *final(self) == match url {
                Some(_) => old(self).without(Panel::Agenda),
                None => *old(self),
            },
            r@ == match url {
                Some(u) => seq![TaskView::Run(u@, Seq::empty(), Seq::empty())] + old(self).closing(
                    Panel::Agenda,
                ),
                None => idle(),
            },
    {
        match url {
            Some(u) => {
                let mut r = plain_run(u);
                r.add_tasks(self.close(Panel::Agenda));
                r
            },
            None => TaskList::new(),
        }
    }

    /// A key in a panel without input closes it if it is Escape. With Alt the
    /// agenda does not see it.
    pub fn on_plain_key(&mut self, p: Panel, vk: u32, with_alt: bool) -> (r: TaskList)
        ensures
            ({
                let closes = vk == VK_ESCAPE && !(p == Panel::Agenda && with_alt);
                &&& *final(self) == if closes {
                    old(self).without(p)
                } else {
                    *old(self)
                }
                &&& r@ == if closes {
                    old(self).closing(p)
                } else {
                    idle()
                }
            }),
    {
        if vk == VK_ESCAPE && !(p == Panel::Agenda && with_alt) {
            self.close(p)
        } else {
            TaskList::new()
        }
    }
}

/// Starts a program without arguments.
fn plain_run(command: String) -> (r: TaskList)
    ensures
        r@ == seq![TaskView::Run(command@, Seq::empty(), Seq::empty())],
{
    let args = String::new();
    let dir = String::new();
    assert(args@ =~= Seq::empty());
    assert(dir@ =~= Seq::empty());
    TaskList::of(Task::Run(command, args, dir))
}

// ---------------------------------------------------------------------- laws

/// Toggling a panel that is closed, and toggling it again, leaves all panels
/// as they were.
pub proof fn law_toggling_twice_changes_nothing(
    a: Panels,
    b: Panels,
    c: Panels,
    p: Panel,
    first: Option<Rect>,
    second: Option<Rect>,
    r: Seq<TaskView>,
    q: Seq<TaskView>,
)
    requires
        !a.shows(p),
        first is Some,
        a.toggled(b, p, first, r),
        b.toggled(c, p, second, q),
    ensures
        c == a,
        q == seq![TaskView::Close(p)],
{
}

/// Closing everything closes every panel that is open, and nothing else.
pub proof fn law_every_open_panel_is_closed(a: Panels, p: Panel)
    ensures
        !a.cleared().shows(p),
        a.closing_all().contains(TaskView::Close(p)) == a.shows(p),
{
    let s0 = a.closing(Panel::Help);
    let s1 = s0 + a.closing(Panel::Settings);
    let s2 = s1 + a.closing(Panel::Launcher);
    let s3 = s2 + a.closing(Panel::Tweaks);
    let s4 = s3 + a.closing(Panel::Switcher);
    let s5 = s4 + a.closing(Panel::Scan);
    let s6 = s5 + a.closing(Panel::Manager);
    lemma_closing(a, Panel::Help, p);
    lemma_closing(a, Panel::Settings, p);
    lemma_closing(a, Panel::Launcher, p);
    lemma_closing(a, Panel::Tweaks, p);
    lemma_closing(a, Panel::Switcher, p);
    lemma_closing(a, Panel::Scan, p);
    lemma_closing(a, Panel::Manager, p);
    lemma_closing(a, Panel::Agenda, p);
    let t = TaskView::Close(p);
    lemma_in_sum(s0, a.closing(Panel::Settings), t);
    lemma_in_sum(s1, a.closing(Panel::Launcher), t);
    lemma_in_sum(s2, a.closing(Panel::Tweaks), t);
    lemma_in_sum(s3, a.closing(Panel::Switcher), t);
    lemma_in_sum(s4, a.closing(Panel::Scan), t);
    lemma_in_sum(s5, a.closing(Panel::Manager), t);
    lemma_in_sum(s6, a.closing(Panel::Agenda), t);
}

proof fn lemma_closing(a: Panels, q: Panel, p: Panel)
    ensures
        a.closing(q).contains(TaskView::Close(p)) == (a.shows(q) && p == q),
{
    if a.shows(q) {
        assert(a.closing(q)[0] == TaskView::Close(q));
    }
}

proof fn lemma_in_sum(a: Seq<TaskView>, b: Seq<TaskView>, t: TaskView)
    ensures
        (a + b).contains(t) == (a.contains(t) || b.contains(t)),
{
    if a.contains(t) {
        let i = choose|i: int| 0 <= i < a.len() && a[i] == t;
        assert((a + b)[i] == t);
    }
    if b.contains(t) {
        let i = choose|i: int| 0 <= i < b.len() && b[i] == t;
        assert((a + b)[a.len() + i] == t);
    }
}

} // verus!
