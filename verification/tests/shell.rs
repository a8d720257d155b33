use wtm::border::Frame;
use wtm::config::{default_keybindings, Config, LauncherEntry};
use wtm::hotkeys::{
    meaning_of, requests, unknown_actions, route, Registry, Route, EVENT_CLOAKED, EVENT_DESTROY, EVENT_FOREGROUND,
    EVENT_HIDE, EVENT_MINIMIZE_END, EVENT_MINIMIZE_START, EVENT_MOVE_SIZE_END, EVENT_NAME_CHANGE,
    EVENT_SHOW, EVENT_UNCLOAKED,
};
use wtm::layout::Rect;
use wtm::monitor::MonitorInfo;
use wtm::mouse::{Hook, Mouse};
use wtm::overview::Overview;
use wtm::scene::{style, Draw, Sheet};
use wtm::shell::{same_config, Shell, Watch};
use wtm::single::Ratio;
use wtm::strmap::StrMap;
use wtm::switcher::{paint_switcher, switcher_entries, switcher_panel, SwitcherState, SwitcherStep};
use wtm::vk::{VK_DOWN, VK_ESCAPE, VK_RETURN, VK_UP};
use wtm::window::{Facts, Window};
use wtm::wm::desktop::{Desktop, Sight};
use wtm::wm::state::WindowManager;
use wtm::wm::{Command, SwitchEntry, WmEvent};

fn facts(title: &str, image: &str) -> Facts {
    Facts {
        valid: true,
        visible: true,
        minimized: false,
        cloaked: false,
        top_level: true,
        style: 0,
        ex_style: 0,
        title: title.to_string(),
        class: String::new(),
        image: Some(image.to_string()),
        rule_key: None,
        monitor: 1,
        rect: Rect { x: 0, y: 0, w: 1, h: 1 },
        frame: Rect { x: 0, y: 0, w: 1, h: 1 },
        thread: 1,
        root_owner: Window(0),
        transient: false,
    }
}

fn desktop() -> Desktop {
    Desktop {
        foreground: None,
        cursor_x: 0,
        cursor_y: 0,
        cursor_monitor: 1,
        order: Vec::new(),
        seen: vec![
            Sight { window: Window(1), facts: facts("Inbox", "C:\\x\\Mail.exe") },
            Sight { window: Window(2), facts: facts("Shell", "C:\\x\\wt.exe") },
        ],
        actions: Vec::new(),
    }
}

fn shell() -> Shell {
    let m = MonitorInfo {
        handle: 1,
        bounds: Rect { x: 0, y: 0, w: 1920, h: 1080 },
        work_area: Rect { x: 0, y: 0, w: 1920, h: 1080 },
        primary: true,
    };
    Shell {
        wm: WindowManager::new(Config::default(), vec![m]),
        style: None,
        keybinds: Vec::new(),
        overview: Overview { shown: true, selected: 0 },
        frame: Frame { thickness: 1, radius: 1 },
        mouse: Mouse { hooked: true, timer: 0 },
    }
}

#[test]
fn fresh_configuration_reaches_every_part() {
    let mut s = shell();
    let mut d = desktop();
    let mut cfg = Config::default();
    cfg.workspaces = 4;
    cfg.border_thickness = 6;
    cfg.focus_follows_mouse = false;
    cfg.active_border_color = "#010203".to_string();
    assert!(s.apply_new_config(&mut d, cfg));
    assert_eq!(s.wm.config.workspaces, 4);
    assert_eq!(s.wm.monitors[0].workspaces.len(), 4);
    assert_eq!(style(&s.style).accent, 0x030201);
    assert_eq!(s.keybinds.len(), default_keybindings().entries.len());
    assert!(!s.overview.shown);
    let fresh = vec![MonitorInfo {
        handle: 1,
        bounds: Rect { x: 0, y: 0, w: 1920, h: 1080 },
        work_area: Rect { x: 0, y: 32, w: 1920, h: 1048 },
        primary: true,
    }];
    assert_eq!(s.bars_rebuilt(&mut d, &fresh), Hook::Remove);
    assert_eq!((s.frame.thickness, s.frame.radius), (6, 8));
    assert_eq!(s.wm.monitors[0].work_area.y, 32);
}

#[test]
fn unreadable_configuration_changes_nothing() {
    let mut s = shell();
    let mut d = desktop();
    assert!(!s.force_config_reload(&mut d, None));
    assert!(s.overview.shown && s.style.is_none());
    assert!(s.force_config_reload(&mut d, Some(Config::default())));
    assert!(!s.overview.shown && s.style.is_some());
}

#[test]
fn file_is_watched() {
    let mut w = Watch { seen: None };
    assert!(!w.poll(Some((1, 0))));
    assert!(!w.poll(Some((1, 0))));
    assert!(w.poll(Some((1, 1))));
    assert!(!w.poll(None));
    assert!(!w.poll(Some((2, 0))));
    assert!(w.poll(Some((1, 0))));
}

#[test]
fn configurations_are_compared_by_value() {
    let a = Config::default();
    let mut b = Config::default();
    assert!(same_config(&a, &b));
    b.split_ratio = Ratio { bits: 0.51f32.to_bits() };
    assert!(!same_config(&a, &b));
    let mut c = Config::default();
    c.keybindings.insert("exit".to_string(), "alt+x".to_string());
    assert!(!same_config(&a, &c));
    let mut z = Config::default();
    let mut y = Config::default();
    z.split_ratio = Ratio { bits: 0.0f32.to_bits() };
    y.split_ratio = Ratio { bits: (-0.0f32).to_bits() };
    assert!(same_config(&z, &y));
    y.split_ratio = Ratio { bits: f32::NAN.to_bits() };
    assert!(!same_config(&y, &y));
    let mut l = Config::default();
    l.workspace_names = vec!["a".to_string()];
    assert!(!same_config(&a, &l));
}

fn entry(key: &str) -> LauncherEntry {
    LauncherEntry {
        name: "n".to_string(),
        command: "c".to_string(),
        args: String::new(),
        dir: String::new(),
        key: key.to_string(),
        group: String::new(),
    }
}

#[test]
fn zero_key_needs_ten_workspaces() {
    let mut b: StrMap<String> = StrMap::new();
    b.insert("switch_workspace".to_string(), "alt+{n}".to_string());
    b.insert("exit".to_string(), "alt+x".to_string());
    b.insert("nonsense".to_string(), "alt+y".to_string());
    let r = requests(&b, 9, &vec![entry(""), entry("win+t")]);
    assert_eq!(r.len(), 11);
    assert_eq!((r[0].chord.as_str(), r[0].command), ("alt+x", Command::Exit));
    assert_eq!((r[1].chord.as_str(), r[1].command), ("alt+1", Command::SwitchWorkspace(0)));
    assert_eq!((r[9].chord.as_str(), r[9].command), ("alt+9", Command::SwitchWorkspace(8)));
    assert_eq!((r[10].chord.as_str(), r[10].command), ("win+t", Command::Launch(1)));
    let r = requests(&b, 10, &Vec::new());
    assert_eq!(r.len(), 11);
    assert_eq!((r[10].chord.as_str(), r[10].command), ("alt+0", Command::SwitchWorkspace(9)));
}

#[test]
fn unknown_actions_are_named() {
    let mut b: StrMap<String> = StrMap::new();
    for (action, chord) in [
        ("zoom", "alt+z"),
        ("exit", "alt+x"),
        ("dance", "alt+{n}"),
        ("switch_workspace", "alt+s"),
    ] {
        b.insert(action.to_string(), chord.to_string());
    }
    assert_eq!(unknown_actions(&b), vec!["switch_workspace".to_string(), "zoom".to_string()]);
}

#[test]
fn refused_hotkeys_take_no_number() {
    let mut b: StrMap<String> = StrMap::new();
    b.insert("exit".to_string(), "alt+x".to_string());
    b.insert("promote".to_string(), "what".to_string());
    b.insert("retile".to_string(), "alt+r".to_string());
    b.insert("toggle_pause".to_string(), "alt+p".to_string());
    let mut g = Registry::new(requests(&b, 9, &Vec::new()));
    let (id, m, vk) = g.next().unwrap();
    assert_eq!((id, m.alt, vk), (1, true, 0x58));
    g.answered(false);
    let (id, _, vk) = g.next().unwrap();
    assert_eq!((id, vk), (1, 0x52));
    g.answered(true);
    let (id, _, vk) = g.next().unwrap();
    assert_eq!((id, vk), (2, 0x50));
    g.answered(true);
    assert!(g.next().is_none());
    assert_eq!(g.failures, 2);
    assert_eq!(g.command(1), Some(Command::Retile));
    assert_eq!(g.command(2), Some(Command::TogglePause));
    assert_eq!((g.command(0), g.command(3), g.command(-1)), (None, None, None));
}

#[test]
fn commands_are_routed() {
    assert_eq!(route(Command::ShowHelp), Route::Help);
    assert_eq!(route(Command::Launcher), Route::Launcher);
    assert_eq!(route(Command::Launch(3)), Route::Launch(3));
    assert_eq!(route(Command::Overview), Route::Overview);
    assert_eq!(route(Command::WindowSwitcher), Route::Switcher);
    assert_eq!(route(Command::Exit), Route::Manager(Command::Exit));
}

#[test]
fn system_events_have_a_meaning() {
    let w = Window(3);
    let drop = Some((1, 2));
    for e in [EVENT_SHOW, EVENT_UNCLOAKED] {
        assert!(matches!(meaning_of(e, w, drop), Some(WmEvent::Shown(Window(3)))));
    }
    for e in [EVENT_HIDE, EVENT_CLOAKED] {
        assert!(matches!(meaning_of(e, w, drop), Some(WmEvent::Hidden(Window(3)))));
    }
    assert!(matches!(meaning_of(EVENT_NAME_CHANGE, w, drop), Some(WmEvent::Retitled(Window(3)))));
    assert!(matches!(meaning_of(EVENT_MINIMIZE_END, w, drop), Some(WmEvent::Restored(Window(3)))));
    assert!(matches!(meaning_of(EVENT_DESTROY, w, drop), Some(WmEvent::Destroyed(Window(3)))));
    assert!(matches!(meaning_of(EVENT_FOREGROUND, w, drop), Some(WmEvent::Foreground(Window(3)))));
    assert!(matches!(meaning_of(EVENT_MINIMIZE_START, w, drop), Some(WmEvent::MinimizeStart(Window(3)))));
    assert!(matches!(
        meaning_of(EVENT_MOVE_SIZE_END, w, drop),
        Some(WmEvent::MoveSizeEnd(Window(3), Some((1, 2))))
    ));
    assert!(meaning_of(0x8000, w, drop).is_none());
}

fn all() -> Vec<SwitchEntry> {
    vec![
        SwitchEntry { window: Window(1), place: "ws 1".to_string() },
        SwitchEntry { window: Window(2), place: "web".to_string() },
    ]
}

fn words(marks: &Vec<Draw>) -> Vec<String> {
    let mut out: Vec<String> = Vec::new();
    for m in marks {
        if let Draw::Text { text, .. } = m {
            out.push(text.to_string());
        }
    }
    out
}

#[test]
fn switcher_finds_windows() {
    let d = desktop();
    assert_eq!(switcher_entries(&all(), &d, "").len(), 2);
    let f = switcher_entries(&all(), &d, "mail");
    assert_eq!((f.len(), f[0].window), (1, Window(1)));
    assert_eq!(switcher_entries(&all(), &d, "webshell")[0].window, Window(2));
    assert!(switcher_entries(&all(), &d, "zzz").is_empty());
    let b = Rect { x: 0, y: 0, w: 1920, h: 1080 };
    assert_eq!(switcher_panel(&b, 96), Rect { x: 660, y: 192, w: 600, h: 504 });
    assert_eq!(switcher_panel(&Rect { h: 600, ..b }, 96).h, 480);
}

#[test]
fn switcher_answers() {
    let sh = Sheet { w: 600, h: 504, dpi: 96 };
    let mut s = SwitcherState::new();
    assert_eq!(s.on_click(&all(), &sh, 71), SwitcherStep::Nothing);
    assert_eq!(s.on_click(&all(), &sh, 72), SwitcherStep::Activate(Window(1)));
    assert_eq!(s.on_click(&all(), &sh, 100), SwitcherStep::Activate(Window(2)));
    assert_eq!(s.on_click(&all(), &sh, 128), SwitcherStep::Nothing);
    assert_eq!(s.on_switcher_key(&all(), VK_UP), SwitcherStep::Redraw);
    assert_eq!(s.selected, 1);
    assert_eq!(s.on_switcher_key(&all(), VK_RETURN), SwitcherStep::Activate(Window(2)));
    s.on_switcher_key(&all(), VK_DOWN);
    assert_eq!(s.selected, 0);
    assert_eq!(s.on_switcher_key(&Vec::new(), VK_DOWN), SwitcherStep::Nothing);
    assert_eq!(s.on_switcher_key(&Vec::new(), VK_RETURN), SwitcherStep::Nothing);
    assert_eq!(s.on_switcher_key(&all(), VK_ESCAPE), SwitcherStep::Close);
    s.selected = 1;
    s.on_switcher_char(0x0D, &None);
    assert_eq!(s.selected, 1);
    s.on_switcher_char(0x61, &None);
    assert_eq!((s.selected, s.query.as_str()), (0, "a"));
}

#[test]
fn switcher_is_painted() {
    let sh = Sheet { w: 600, h: 504, dpi: 96 };
    let mut s = SwitcherState::new();
    let k = paint_switcher(&sh, &style(&None), &desktop(), &s, &all());
    assert_eq!(
        words(&k.marks),
        vec![
            "windows", "Enter or click to jump", "type to filter…", "ws 1", "Inbox", "web", "Shell",
            "↑↓ select · Enter jumps · Esc closes",
        ]
    );
    s.query = "zz".to_string();
    let k = paint_switcher(&sh, &style(&None), &desktop(), &s, &Vec::new());
    assert_eq!(
        words(&k.marks)[2..],
        ["filter: zz_", "no match", "↑↓ select · Enter jumps · Esc closes"]
    );
}
