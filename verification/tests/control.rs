use wtm::bar::BarClick;
use wtm::border::Frame;
use wtm::config::{Config, LauncherEntry};
use wtm::configfile::{save_change, save_workspaces};
use wtm::help::HelpStep;
use wtm::launcher_panel::LauncherStep;
use wtm::layout::Rect;
use wtm::manager::MgrStep;
use wtm::monitor::MonitorInfo;
use wtm::mouse::{Hook, Mouse};
use wtm::overview::Overview;
use wtm::panels::{start_entry, Change, Panel, Panels, Place, Task, TaskList};
use wtm::scan::ScanStep;
use wtm::scene::style;
use wtm::settings::SettingsStep;
use wtm::shell::Shell;
use wtm::strmap::StrMap;
use wtm::switcher::SwitcherStep;
use wtm::tray::TrayStep;
use wtm::tweaks::TweakClick;
use wtm::vk::{VK_ESCAPE, VK_RETURN, VK_RIGHT};
use wtm::webapps::Folders;
use wtm::window::{Facts, Window, WS_CAPTION, WS_THICKFRAME};
use wtm::wm::desktop::{Action, Desktop, Sight};
use wtm::wm::state::WindowManager;
use wtm::wm::{Command, WmEvent};

const REFRESH: &str = "[RedrawBars, Frame]";

fn told(t: &TaskList) -> String {
    format!("{:?}", t.list)
}

fn panels() -> Panels {
    Panels::new("outlook".to_string(), 5)
}

fn place() -> Option<Place> {
    Some(Place { bounds: Rect { x: 0, y: 0, w: 1920, h: 1080 }, dpi: 96 })
}

fn folders() -> Folders {
    Folders::from_environment(None, None, None)
}

fn monitor() -> MonitorInfo {
    MonitorInfo {
        handle: 7,
        bounds: Rect { x: 0, y: 0, w: 1920, h: 1080 },
        work_area: Rect { x: 0, y: 40, w: 1920, h: 1040 },
        primary: true,
    }
}

fn desktop() -> Desktop {
    let facts = Facts {
        valid: true,
        visible: true,
        minimized: false,
        cloaked: false,
        top_level: true,
        style: WS_CAPTION | WS_THICKFRAME,
        ex_style: 0,
        title: "Editor".to_string(),
        class: "App".to_string(),
        image: Some("C:\\apps\\editor.exe".to_string()),
        rule_key: Some("editor.exe".to_string()),
        monitor: 7,
        rect: Rect { x: 0, y: 0, w: 100, h: 100 },
        frame: Rect { x: 0, y: 0, w: 100, h: 100 },
        thread: 9,
        root_owner: Window(1),
        transient: false,
    };
    Desktop {
        foreground: Some(Window(1)),
        cursor_x: 0,
        cursor_y: 0,
        cursor_monitor: 7,
        order: vec![Window(1)],
        seen: vec![Sight { window: Window(1), facts }],
        actions: Vec::new(),
    }
}

fn shell_on(monitors: Vec<MonitorInfo>) -> Shell {
    Shell {
        wm: WindowManager::new(Config::default(), monitors),
        style: None,
        keybinds: Vec::new(),
        overview: Overview::new(),
        frame: Frame { thickness: 3, radius: 8 },
        mouse: Mouse::default(),
    }
}

fn shell() -> Shell {
    shell_on(vec![monitor()])
}

fn entry(name: &str) -> LauncherEntry {
    LauncherEntry {
        name: name.to_string(),
        command: format!("{name}.exe"),
        args: "-x".to_string(),
        dir: "C:\\".to_string(),
        key: String::new(),
        group: String::new(),
    }
}

// -------------------------------------------------------------------- panels

#[test]
fn panel_toggles_open_and_closed() {
    let mut p = panels();
    assert!(!p.is_open(Panel::Tweaks));
    let t = p.toggle_tweaks_panel(place());
    assert!(matches!(t.list[0], Task::Open(Panel::Tweaks, _, 0)) && t.list.len() == 1);
    assert!(p.is_open(Panel::Tweaks) && !p.is_open(Panel::Help));
    assert_eq!(told(&p.toggle_tweaks_panel(place())), "[Close(Tweaks)]");
    assert!(!p.is_open(Panel::Tweaks));
    assert_eq!(told(&p.toggle_help_panel(None, 3)), "[]");
    assert!(!p.is_open(Panel::Help));
}

#[test]
fn every_panel_opens_fresh() {
    let mut p = panels();
    p.toggle_help_panel(place(), 3);
    p.toggle_settings_panel(place(), 3);
    p.toggle_launcher_panel(place(), 3);
    p.toggle_tweaks_panel(place());
    p.toggle_switcher_panel(place());
    p.toggle_scan(place(), &vec![("B".to_string(), "b.lnk".to_string())], &folders(), &Vec::new());
    p.toggle_mgr_panel(place());
    p.toggle_agenda_panel(place(), 2);
    assert_eq!(p.scan.as_ref().map(|s| s.apps.len()), Some(1));
    assert_eq!(p.launcher.as_ref().map(|l| l.selected), Some(0));
    assert_eq!(
        told(&p.close_all()),
        "[Close(Help), Close(Settings), Close(Launcher), Close(Tweaks), Close(Switcher), \
         Close(Scan), Close(Manager), Close(Agenda)]"
    );
    assert_eq!(told(&p.close_all()), "[]");
    assert!(p.help.is_none() && p.manager.is_none() && !p.agenda);
}

#[test]
fn panel_without_a_window_is_not_open() {
    let mut p = panels();
    p.toggle_mgr_panel(place());
    p.opened(Panel::Manager, true);
    assert!(p.is_open(Panel::Manager));
    p.opened(Panel::Manager, false);
    assert!(!p.is_open(Panel::Manager));
}

#[test]
fn panel_stays_while_its_dialog_has_the_focus() {
    let mut p = panels();
    p.toggle_mgr_panel(place());
    p.toggle_tweaks_panel(place());
    p.manager_dialog(true);
    p.color_dialog = true;
    assert_eq!(told(&p.focus_lost(Panel::Manager)), "[]");
    assert_eq!(told(&p.focus_lost(Panel::Tweaks)), "[]");
    p.manager_dialog(false);
    p.color_dialog = false;
    assert_eq!(told(&p.focus_lost(Panel::Manager)), "[Close(Manager)]");
    assert_eq!(told(&p.focus_lost(Panel::Tweaks)), "[Close(Tweaks)]");
    assert_eq!(told(&p.focus_lost(Panel::Help)), "[]");
}

#[test]
fn chord_is_saved_and_reported() {
    let mut p = panels();
    p.toggle_help_panel(place(), 1);
    let step = HelpStep::Rebound("exit".to_string(), "alt+q".to_string());
    assert_eq!(told(&p.help_step(step)), "[Rebind(\"exit\", \"alt+q\")]");
    assert_eq!(told(&p.rebound("exit", "alt+q", None)), "[Hotkeys, Redraw(Help)]");
    assert_eq!(p.help.as_ref().map(|h| h.message.clone()), Some("exit = alt+q  ✓ saved".to_string()));
    p.rebound("exit", "alt+q", Some("disk full".to_string()));
    assert_eq!(
        p.help.as_ref().map(|h| h.message.clone()),
        Some("exit = alt+q  (config not saved: disk full)".to_string())
    );
    assert_eq!(told(&p.help_step(HelpStep::Redraw)), "[Redraw(Help)]");
    assert_eq!(told(&p.help_step(HelpStep::Close)), "[Close(Help)]");
    assert_eq!(told(&p.help_step(HelpStep::Nothing)), "[]");
}

#[test]
fn launched_entry_is_counted() {
    let mut p = panels();
    let list = vec![entry("a"), entry("b")];
    let mut usage: StrMap<(u32, u64)> = StrMap::new();
    p.toggle_launcher_panel(place(), 2);
    let t = p.launcher_step(LauncherStep::Launch(1), &list, &mut usage, 50);
    assert_eq!(told(&t), "[SaveUsage, Run(\"b.exe\", \"-x\", \"C:\\\\\"), Close(Launcher)]");
    assert_eq!(usage.get("b.exe -x"), Some(&(1, 50)));
    start_entry(&list, &mut usage, 60, 1);
    assert_eq!(usage.get("b.exe -x"), Some(&(2, 60)));
    assert_eq!(told(&start_entry(&list, &mut usage, 70, 2)), "[]");
    assert_eq!(usage.get("b.exe -x"), Some(&(2, 60)));
    let t = p.launcher_step(LauncherStep::Run("calc".to_string()), &list, &mut usage, 0);
    assert_eq!(told(&t), "[Run(\"calc\", \"\", \"\")]");
    let t = p.launcher_step(LauncherStep::Save, &list, &mut usage, 0);
    assert_eq!(
        told(&t),
        "[Save(Launcher), Hotkeys, Redraw(Scan), Redraw(Launcher), Redraw(Manager)]"
    );
}

#[test]
fn removed_entry_resets_the_launcher() {
    let mut p = panels();
    p.toggle_launcher_panel(place(), 2);
    if let Some(l) = p.launcher.as_mut() {
        l.selected = 4;
    }
    p.manager_step(MgrStep::Removed);
    assert_eq!(p.launcher.as_ref().map(|l| l.selected), Some(0));
    p.toggle_mgr_panel(place());
    assert_eq!(told(&p.manager_step(MgrStep::Scan)), "[Close(Manager), FindApps]");
    assert_eq!(
        told(&p.manager_step(MgrStep::Keep)),
        "[Save(Launcher), Redraw(Manager), Redraw(Launcher)]"
    );
    assert_eq!(told(&p.manager_step(MgrStep::Browse)), "[Browse]");
    assert_eq!(told(&p.manager_step(MgrStep::Import)), "[Import]");
    assert_eq!(told(&p.scan_step(ScanStep::Redraw)), "[Redraw(Scan)]");
}

#[test]
fn chosen_program_is_named_next() {
    let mut p = panels();
    p.toggle_mgr_panel(place());
    let t = p.program_picked(Some("C:\\apps\\My App.exe".to_string()));
    assert_eq!(told(&t), "[FocusPanel(Manager), Redraw(Manager)]");
    let m = p.manager.as_ref();
    assert_eq!(m.map(|m| m.name_buf.clone()), Some("My App".to_string()));
    assert_eq!(m.and_then(|m| m.adding.clone()), Some("C:\\apps\\My App.exe".to_string()));
}

#[test]
fn bookmarks_take_the_place_of_the_apps() {
    let mut p = panels();
    p.toggle_mgr_panel(place());
    let t = p.bookmarks_read(Vec::new(), place(), &folders(), &Vec::new());
    assert_eq!(told(&t), "[Redraw(Manager), FocusPanel(Manager)]");
    assert_eq!(
        p.manager.as_ref().map(|m| m.message.clone()),
        Some("no bookmarks found in that file".to_string())
    );
    let marks = vec![("News".to_string(), "https://news.example".to_string())];
    let t = p.bookmarks_read(marks, place(), &folders(), &Vec::new());
    assert!(matches!(t.list[0], Task::Close(Panel::Manager)));
    assert!(matches!(t.list[1], Task::Open(Panel::Scan, _, 0)));
    assert!(p.scan.as_ref().is_some_and(|s| s.bookmarks && s.apps.len() == 1));
}

#[test]
fn calendar_source_is_taken_over() {
    let mut p = panels();
    let t = p.settings_step(SettingsStep::Calendar("x.ics".to_string()));
    assert_eq!(
        told(&t),
        "[Meetings(\"x.ics\", 5), Save(Calendar(\"x.ics\")), Redraw(Settings), RedrawBars]"
    );
    assert_eq!(p.calendar_source, "x.ics");
    assert_eq!(
        told(&p.settings_step(SettingsStep::Named)),
        "[Save(Names), Redraw(Settings), RedrawBars]"
    );
    assert_eq!(
        told(&p.settings_step(SettingsStep::Unpinned("a.exe".to_string()))),
        "[Save(Rule(\"a.exe\", None)), Redraw(Settings)]"
    );
}

#[test]
fn escape_closes_plain_panels() {
    let mut p = panels();
    p.toggle_agenda_panel(place(), 0);
    p.toggle_tweaks_panel(place());
    assert_eq!(told(&p.on_plain_key(Panel::Agenda, VK_RETURN, false)), "[]");
    assert_eq!(told(&p.on_plain_key(Panel::Agenda, VK_ESCAPE, true)), "[]");
    assert_eq!(told(&p.on_plain_key(Panel::Agenda, VK_ESCAPE, false)), "[Close(Agenda)]");
    assert_eq!(told(&p.on_plain_key(Panel::Tweaks, VK_ESCAPE, true)), "[Close(Tweaks)]");
    p.toggle_agenda_panel(place(), 1);
    assert_eq!(told(&p.agenda_step(None)), "[]");
    let t = p.agenda_step(Some("https://meet.example".to_string()));
    assert_eq!(told(&t), "[Run(\"https://meet.example\", \"\", \"\"), Close(Agenda)]");
}

#[test]
fn chosen_window_is_activated() {
    let mut p = panels();
    let mut s = shell();
    let mut d = desktop();
    s.wm.handle_event(&mut d, WmEvent::Shown(Window(1)));
    s.wm.handle_command(&mut d, Command::SwitchWorkspace(2), &vec![monitor()]);
    assert_eq!(s.wm.monitors[0].active, 2);
    p.toggle_switcher_panel(place());
    let t = p.switcher_step(&mut s.wm, &mut d, SwitcherStep::Activate(Window(1)));
    assert_eq!(told(&t), "[Close(Switcher), RedrawBars, Frame]");
    assert_eq!(s.wm.monitors[0].active, 0);
}

// ------------------------------------------------------------------- control

#[test]
fn pinning_saves_a_rule() {
    let mut s = shell();
    let mut d = desktop();
    s.event(&mut d, WmEvent::Shown(Window(1)));
    let t = s.command(&mut d, Command::PinApp, &vec![monitor()]);
    assert_eq!(told(&t), "[Save(Rule(\"editor.exe\", Some(1))), RedrawBars, Frame]");
    let t = s.command(&mut d, Command::PinApp, &vec![monitor()]);
    assert_eq!(told(&t), "[Save(Rule(\"editor.exe\", None)), RedrawBars, Frame]");
    assert_eq!(told(&s.command(&mut d, Command::Retile, &vec![monitor()])), REFRESH);
    assert_eq!(told(&s.command(&mut d, Command::Exit, &vec![monitor()])), "[Quit, RedrawBars, Frame]");
}

#[test]
fn nothing_happens_without_a_monitor() {
    let mut s = shell_on(Vec::new());
    let mut d = desktop();
    assert_eq!(told(&s.event(&mut d, WmEvent::Shown(Window(1)))), REFRESH);
    assert_eq!(told(&s.command(&mut d, Command::PinApp, &Vec::new())), REFRESH);
    assert_eq!(told(&s.command(&mut d, Command::Exit, &Vec::new())), "[Quit, RedrawBars, Frame]");
    assert!(d.actions.is_empty());
}

#[test]
fn bars_are_rebuilt_when_monitors_change() {
    let mut s = shell();
    let mut d = desktop();
    let mut second = monitor();
    second.handle = 8;
    assert_eq!(told(&s.on_display_settled(&mut d, &vec![monitor()])), REFRESH);
    let both = vec![monitor(), second];
    assert_eq!(told(&s.on_display_settled(&mut d, &both)), "[Rebuild(false)]");
    assert_eq!(s.wm.monitors.len(), 2);
    assert_eq!(told(&s.rebuilt(&mut d, &both, false)), REFRESH);
    s.wm.config.active_border_color = "#010203".to_string();
    s.wm.config.focus_follows_mouse = true;
    let t = s.rebuilt(&mut d, &both, true);
    assert_eq!(told(&t), "[FrameColor(197121), Mouse(Install), Hotkeys, RedrawBars, Frame]");
    s.mouse = Mouse { hooked: true, timer: 0 };
    assert!(matches!(s.rebuilt(&mut d, &both, true).list[1], Task::Mouse(Hook::Keep)));
}

#[test]
fn known_configuration_is_not_applied_again() {
    let mut s = shell();
    let mut d = desktop();
    let mut p = panels();
    s.overview.shown = true;
    let t = s.poll_config_reload(&mut d, &mut p, Config::default(), "outlook".to_string(), 5);
    assert_eq!(told(&t), "[]");
    assert!(s.overview.shown);
    let t = s.poll_config_reload(&mut d, &mut p, Config::default(), "x.ics".to_string(), 9);
    assert_eq!(told(&t), "[Close(Overview), Meetings(\"x.ics\", 9), Rebuild(true)]");
    assert_eq!((p.calendar_source.as_str(), p.calendar_refresh_min), ("x.ics", 9));
    let mut cfg = Config::default();
    cfg.workspaces = 3;
    let t = s.poll_config_reload(&mut d, &mut p, cfg, "x.ics".to_string(), 9);
    assert_eq!(told(&t), "[Meetings(\"x.ics\", 9), Rebuild(true)]");
    assert_eq!(s.wm.config.workspaces, 3);
}

#[test]
fn overview_jumps_and_closes() {
    let mut s = shell();
    let mut d = desktop();
    let t = s.toggle_overview(&d);
    assert!(matches!(t.list[0], Task::Open(Panel::Overview, Rect { x: 0, y: 40, w: 1920, h: 1040 }, 7)));
    s.overview.opened();
    assert_eq!(told(&s.overview_key(&mut d, 7, VK_RIGHT, Some(9))), "[Redraw(Overview)]");
    assert_eq!(
        told(&s.overview_key(&mut d, 7, VK_RETURN, Some(9))),
        "[Close(Overview), RedrawBars, Frame]"
    );
    assert_eq!(s.wm.monitors[0].active, 1);
    s.overview.opened();
    assert_eq!(told(&s.toggle_overview(&d)), "[Close(Overview)]");
    s.overview.opened();
    let t = s.jump_to(&mut d, 7, 0, Some(Window(1)));
    assert_eq!(told(&t), "[Close(Overview), Focus(Window(1)), RedrawBars, Frame]");
    assert_eq!(s.wm.monitors[0].active, 0);
    assert_eq!(told(&s.overview_key(&mut d, 7, VK_ESCAPE, None)), "[]");
}

#[test]
fn appearance_is_adjusted_within_limits() {
    let mut s = shell();
    let mut d = desktop();
    let t = s.tweak(&mut d, TweakClick::Workspaces(1));
    assert_eq!(told(&t), "[Save(Workspaces(10)), Hotkeys, RedrawBars, Frame, Redraw(Tweaks)]");
    assert_eq!(s.wm.config.workspaces, 10);
    s.wm.config.border_thickness = 12;
    assert_eq!(told(&s.tweak(&mut d, TweakClick::Thickness(1))), "[]");
    let t = s.tweak(&mut d, TweakClick::Thickness(-1));
    assert!(matches!(t.list[1], Task::Save(Change::Thickness(11))));
    assert_eq!((s.frame.thickness, s.wm.config.border_thickness), (11, 11));
    assert_eq!(told(&s.tweak(&mut d, TweakClick::Nothing)), "[]");
    s.wm.config.active_border_color = "#010203".to_string();
    assert_eq!(told(&s.tweak(&mut d, TweakClick::Custom)), "[PickColor(197121)]");
}

#[test]
fn color_reaches_every_part() {
    let mut s = shell();
    let mut d = desktop();
    s.style = Some(style(&None));
    let t = s.color_picked(&mut d, Some(0x0030201));
    assert_eq!(
        told(&t),
        "[FocusPanel(Tweaks), FrameColor(197121), RedrawBars, Save(Color(\"#010203\")), Redraw(Tweaks)]"
    );
    assert_eq!(s.wm.config.active_border_color, "#010203");
    assert_eq!(style(&s.style).accent, 0x030201);
    assert!(matches!(d.actions[0], Action::PaintBorders));
    assert_eq!(told(&s.color_picked(&mut d, None)), "[FocusPanel(Tweaks)]");
    let t = s.tweak(&mut d, TweakClick::Color(0));
    assert_eq!(t.list.len(), 4);
    assert!(s.wm.config.active_border_color != "#010203");
}

#[test]
fn bar_click_toggles_or_switches() {
    let mut s = shell();
    let mut d = desktop();
    assert!(matches!(s.bar_click(&mut d, 7, BarClick::Help), Ok(Panel::Help)));
    assert!(matches!(s.bar_click(&mut d, 7, BarClick::Manage), Ok(Panel::Manager)));
    match s.bar_click(&mut d, 7, BarClick::Workspace(3)) {
        Err(t) => assert_eq!(told(&t), REFRESH),
        Ok(_) => panic!(),
    }
    assert_eq!(s.wm.monitors[0].active, 3);
    match s.bar_click(&mut d, 7, BarClick::Nothing) {
        Err(t) => assert!(t.list.is_empty()),
        Ok(_) => panic!(),
    }
}

#[test]
fn tray_asks_for_the_same() {
    let mut s = shell();
    let mut d = desktop();
    let fresh = vec![monitor()];
    assert_eq!(told(&s.tray_step(&mut d, &fresh, TrayStep::TogglePause)), REFRESH);
    assert!(s.wm.is_paused());
    assert_eq!(told(&s.tray_step(&mut d, &fresh, TrayStep::ShowMenu)), "[TrayMenu]");
    assert_eq!(told(&s.tray_step(&mut d, &fresh, TrayStep::Reload)), "[Reload]");
    assert_eq!(told(&s.tray_step(&mut d, &fresh, TrayStep::Autostart(true))), "[Autostart(true)]");
    assert_eq!(told(&s.tray_step(&mut d, &fresh, TrayStep::Exit)), "[Quit]");
    assert_eq!(told(&s.tray_step(&mut d, &fresh, TrayStep::Nothing)), "[]");
}

#[test]
fn changes_are_written_as_they_are_named() {
    let mut c = Config::default();
    c.launcher = vec![entry("a")];
    c.workspace_names = vec!["web".to_string()];
    let old = "outer_gap = 3\n";
    let save = |change: Change| -> toml::Table {
        save_change(old, &change, &c).unwrap().parse::<toml::Table>().unwrap()
    };
    assert_eq!(save_change(old, &Change::Workspaces(4), &c), save_workspaces(old, 4));
    assert_eq!(save(Change::Workspaces(4))["workspaces"].as_integer(), Some(4));
    assert_eq!(save(Change::Thickness(2))["border_thickness"].as_integer(), Some(2));
    assert_eq!(save(Change::Color("#010203".to_string()))["active_border_color"].as_str(), Some("#010203"));
    assert_eq!(save(Change::Calendar("x.ics".to_string()))["calendar_source"].as_str(), Some("x.ics"));
    assert_eq!(save(Change::Names)["workspace_names"][0].as_str(), Some("web"));
    assert_eq!(save(Change::Launcher)["launcher"][0]["command"].as_str(), Some("a.exe"));
    let rules = save(Change::Rule("a.exe".to_string(), Some(2)));
    assert_eq!(rules["app_rules"]["a.exe"].as_integer(), Some(2));
    assert_eq!(rules["outer_gap"].as_integer(), Some(3));
}
