use wtm::config::Config;
use wtm::layout::{dwindle, Rect};
use wtm::monitor::MonitorInfo;
use wtm::single::Ratio;
use wtm::window::{
    is_transient_popup, rule_key, Facts, Window, WS_CAPTION, WS_CHILD, WS_EX_NOACTIVATE,
    WS_EX_TOOLWINDOW, WS_THICKFRAME,
};
use wtm::wm::commands::dir_score_rects;
use wtm::wm::desktop::{Action, Desktop, Sight};
use wtm::wm::records::{RectBook, WindowSet};
use wtm::wm::safety::{journal_handles, restore_orphans};
use wtm::wm::shaping::rescale;
use wtm::wm::spaces::step;
use wtm::wm::state::WindowManager;
use wtm::wm::{Command, Dir, WmEvent};

const AREA: Rect = Rect { x: 0, y: 40, w: 1920, h: 1040 };
const INNER: Rect = Rect { x: 10, y: 50, w: 1900, h: 1020 };

fn monitor(handle: isize, x: i32) -> MonitorInfo {
    MonitorInfo {
        handle,
        bounds: Rect { x, y: 0, w: 1920, h: 1080 },
        work_area: Rect { x, y: 40, w: 1920, h: 1040 },
        primary: handle == 1,
    }
}

fn facts(title: &str) -> Facts {
    Facts {
        valid: true,
        visible: true,
        minimized: false,
        cloaked: false,
        top_level: true,
        style: WS_CAPTION | WS_THICKFRAME,
        ex_style: 0,
        title: title.to_string(),
        class: "App".to_string(),
        image: Some("C:\\apps\\app.exe".to_string()),
        rule_key: Some("app.exe".to_string()),
        monitor: 1,
        rect: Rect { x: 0, y: 0, w: 100, h: 100 },
        frame: Rect { x: 0, y: 0, w: 100, h: 100 },
        thread: 7,
        root_owner: Window(0),
        transient: false,
    }
}

fn desktop(windows: &[isize], foreground: isize) -> Desktop {
    let mut seen: Vec<Sight> = Vec::new();
    for w in windows {
        let mut f = facts(&format!("w{}", w));
        f.root_owner = Window(*w);
        f.thread = 100 + *w as u32;
        seen.push(Sight { window: Window(*w), facts: f });
    }
    Desktop {
        foreground: if foreground == 0 { None } else { Some(Window(foreground)) },
        cursor_x: 0,
        cursor_y: 0,
        cursor_monitor: 1,
        order: windows.iter().map(|w| Window(*w)).collect(),
        seen,
        actions: Vec::new(),
    }
}

fn list(windows: &[isize]) -> Vec<Window> {
    windows.iter().map(|w| Window(*w)).collect()
}

fn config() -> Config {
    let mut c = Config::default();
    c.animation_ms = 0;
    c.workspaces = 3;
    c
}

fn managing(windows: &[isize]) -> WindowManager {
    let mut wm = WindowManager::new(config(), vec![monitor(1, 0)]);
    let mut d = desktop(windows, 0);
    wm.adopt_existing_windows(&mut d, &list(windows));
    wm
}

fn set(d: &mut Desktop, w: isize, change: impl Fn(&mut Facts)) {
    for s in d.seen.iter_mut() {
        if s.window == Window(w) {
            change(&mut s.facts);
        }
    }
}

fn run(wm: &mut WindowManager, d: &mut Desktop, c: Command) -> bool {
    wm.handle_command(d, c, &vec![monitor(1, 0)]).running
}

fn targets(d: &Desktop) -> Vec<(isize, Rect)> {
    d.actions
        .iter()
        .filter_map(|a| match a {
            Action::Glide(w, r, _) => Some((w.0, *r)),
            _ => None,
        })
        .collect()
}

fn half(n: usize) -> Vec<Ratio> {
    (0..n).map(|_| Ratio { bits: 0.5f32.to_bits() }).collect()
}

#[test]
fn existing_windows_are_tiled_in_order() {
    let mut wm = WindowManager::new(config(), vec![monitor(1, 0)]);
    let mut d = desktop(&[1, 2, 3, 4], 0);
    set(&mut d, 3, |f| f.style = WS_CAPTION);
    set(&mut d, 4, |f| f.ex_style = WS_EX_TOOLWINDOW);
    wm.adopt_existing_windows(&mut d, &list(&[1, 2, 3, 4]));
    assert_eq!(wm.monitors[0].workspaces[0].tiled, list(&[1, 2]));
    assert_eq!(wm.monitors[0].workspaces[0].floating, list(&[3]));
    assert!(!wm.is_managed(Window(4)));
    let rects = dwindle(INNER, 2, &half(1), 10);
    assert_eq!(targets(&d), vec![(1, rects[0]), (2, rects[1])]);
    assert!(d.actions.contains(&Action::Raise(Window(3))));
}

#[test]
fn lone_window_has_no_gaps() {
    let mut wm = managing(&[1]);
    let mut d = desktop(&[1], 1);
    wm.retile_all(&mut d);
    assert_eq!(targets(&d), vec![(1, AREA)]);
    assert_eq!(wm.border_target(&d), None);
    wm.config.smart_gaps = false;
    let mut d = desktop(&[1], 1);
    wm.retile_all(&mut d);
    assert_eq!(targets(&d), vec![(1, INNER)]);
    assert_eq!(wm.border_target(&d), Some(Rect { x: 0, y: 0, w: 100, h: 100 }));
}

#[test]
fn new_window_splits_the_focused_slot() {
    let mut wm = managing(&[1, 2, 3]);
    let mut d = desktop(&[1, 2, 3, 4], 1);
    wm.handle_event(&mut d, WmEvent::Shown(Window(4)));
    assert_eq!(wm.monitors[0].workspaces[0].tiled, list(&[1, 4, 2, 3]));
    assert_eq!(targets(&d).len(), 4);
    let before = d.actions.len();
    wm.handle_event(&mut d, WmEvent::Retitled(Window(4)));
    assert_eq!(d.actions.len(), before);
}

#[test]
fn unfit_windows_are_left_alone() {
    let cfg = config();
    let f = facts("x");
    assert!(f.is_manageable(&cfg));
    assert_eq!(f.exe(), Some("app.exe".to_string()));
    let bad = |change: &dyn Fn(&mut Facts)| {
        let mut g = facts("x");
        change(&mut g);
        !g.is_manageable(&cfg)
    };
    assert!(bad(&|g| g.valid = false));
    assert!(bad(&|g| g.visible = false));
    assert!(bad(&|g| g.minimized = true));
    assert!(bad(&|g| g.cloaked = true));
    assert!(bad(&|g| g.top_level = false));
    assert!(bad(&|g| g.style |= WS_CHILD));
    assert!(bad(&|g| g.style = WS_THICKFRAME));
    assert!(bad(&|g| g.title = String::new()));
    assert!(bad(&|g| g.class = "Progman".to_string()));
    assert!(bad(&|g| g.image = Some("C:/x/LOCKAPP.exe".to_string())));
    let mut g = facts("x");
    g.image = None;
    assert!(g.is_manageable(&cfg));
    g.class = "#32770".to_string();
    assert!(g.should_float(&cfg) && !f.should_float(&cfg));
    let mut named = config();
    named.float_titles = vec!["Find".to_string()];
    named.ignore_titles = vec!["Secret".to_string()];
    assert!(facts("Find it").should_float(&named));
    assert!(!facts("Top Secret").is_manageable(&named));
}

#[test]
fn rule_sends_new_windows_home() {
    let mut wm = managing(&[1]);
    wm.config.app_rules.insert("app.exe".to_string(), 3);
    let mut d = desktop(&[1, 2], 1);
    set(&mut d, 2, |f| f.rule_key = None);
    wm.handle_event(&mut d, WmEvent::Shown(Window(2)));
    assert_eq!(wm.find(Window(2)), Some((0, 2)));
    assert!(d.actions.contains(&Action::Hide(Window(2))));
    assert!(wm.hidden_by_us.list().contains(&Window(2)));
    let mut e = desktop(&[1, 2, 3], 1);
    wm.handle_event(&mut e, WmEvent::Restored(Window(3)));
    assert_eq!(wm.find(Window(3)), Some((0, 0)));
    wm.config.app_rules.insert("app.exe".to_string(), 9);
    let mut e = desktop(&[1, 2, 3, 4], 1);
    wm.handle_event(&mut e, WmEvent::Shown(Window(4)));
    assert_eq!(wm.find(Window(4)), Some((0, 0)));
}

#[test]
fn switching_hides_and_shows() {
    let mut wm = managing(&[1, 2]);
    let mut d = desktop(&[1, 2], 1);
    assert!(run(&mut wm, &mut d, Command::SwitchWorkspace(1)));
    assert_eq!(wm.monitors[0].active, 1);
    assert!(d.actions.contains(&Action::Hide(Window(1))) && d.actions.contains(&Action::Hide(Window(2))));
    assert!(d.actions.contains(&Action::FocusShell));
    assert_eq!(wm.journal(), Some("1\n2\n".to_string()));
    let mut d = desktop(&[1, 2], 0);
    set(&mut d, 1, |f| f.visible = false);
    set(&mut d, 2, |f| f.visible = false);
    wm.handle_event(&mut d, WmEvent::Hidden(Window(1)));
    assert!(wm.is_managed(Window(1)));
    run(&mut wm, &mut d, Command::PrevWorkspace);
    assert_eq!(wm.monitors[0].active, 0);
    assert!(d.actions.contains(&Action::Show(Window(1))) && d.actions.contains(&Action::Focus(Window(1))));
    assert_eq!(wm.journal(), None);
    assert_eq!(targets(&d).len(), 2);
}

#[test]
fn companions_leave_and_return_with_their_owner() {
    let mut wm = managing(&[1]);
    let mut d = desktop(&[1, 8, 9], 1);
    set(&mut d, 8, |f| {
        f.root_owner = Window(1);
        f.ex_style = WS_EX_TOOLWINDOW;
    });
    set(&mut d, 9, |f| {
        f.transient = true;
        f.thread = 101;
    });
    run(&mut wm, &mut d, Command::NextWorkspace);
    for w in [1, 8, 9] {
        assert!(d.actions.contains(&Action::Hide(Window(w))), "{}", w);
    }
    assert!(wm.hidden_by_us.list().contains(&Window(8)) && !wm.hidden_by_us.list().contains(&Window(9)));
    let mut d = desktop(&[1, 8, 9], 0);
    run(&mut wm, &mut d, Command::SwitchWorkspace(0));
    assert!(d.actions.contains(&Action::Show(Window(8))) && !d.actions.contains(&Action::Show(Window(9))));
    assert!(wm.hidden_by_us.list().is_empty());
}

#[test]
fn moving_follows_the_window() {
    let mut wm = managing(&[1, 2]);
    let mut d = desktop(&[1, 2], 2);
    run(&mut wm, &mut d, Command::MoveToWorkspace(2));
    assert_eq!((wm.monitors[0].active, wm.find(Window(2))), (2, Some((0, 2))));
    assert!(wm.hidden_by_us.list().contains(&Window(1)) && !wm.hidden_by_us.list().contains(&Window(2)));
    let mut wm = managing(&[1, 2]);
    wm.config.follow_moved_window = false;
    let mut d = desktop(&[1, 2], 2);
    run(&mut wm, &mut d, Command::MovePrevWorkspace);
    assert_eq!((wm.monitors[0].active, wm.find(Window(2))), (0, Some((0, 2))));
    assert_eq!(*wm.hidden_by_us.list(), list(&[2]));
}

#[test]
fn swaps_and_promotion() {
    let mut wm = managing(&[1, 2, 3]);
    run(&mut wm, &mut desktop(&[1, 2, 3], 1), Command::SwapPrev);
    assert_eq!(wm.monitors[0].workspaces[0].tiled, list(&[3, 2, 1]));
    run(&mut wm, &mut desktop(&[1, 2, 3], 1), Command::SwapNext);
    assert_eq!(wm.monitors[0].workspaces[0].tiled, list(&[1, 2, 3]));
    run(&mut wm, &mut desktop(&[1, 2, 3], 3), Command::Promote);
    assert_eq!(wm.monitors[0].workspaces[0].tiled, list(&[3, 1, 2]));
}

#[test]
fn straight_ahead_wins() {
    let from = Rect { x: 0, y: 0, w: 100, h: 100 };
    assert_eq!(dir_score_rects(from, Rect { x: 200, y: 10, w: 100, h: 100 }, Dir::Right), Some(230));
    assert_eq!(dir_score_rects(from, Rect { x: 200, y: 10, w: 100, h: 100 }, Dir::Left), None);
    assert_eq!(dir_score_rects(from, Rect { x: -30, y: 300, w: 100, h: 100 }, Dir::Down), Some(390));
    let mut wm = managing(&[1, 2, 3]);
    let mut d = desktop(&[1, 2, 3], 1);
    set(&mut d, 2, |f| f.rect = Rect { x: 200, y: 90, w: 100, h: 100 });
    set(&mut d, 3, |f| f.rect = Rect { x: 400, y: 0, w: 100, h: 100 });
    run(&mut wm, &mut d, Command::FocusDir(Dir::Right));
    assert!(d.actions.contains(&Action::Focus(Window(3))));
    run(&mut wm, &mut d, Command::SwapDir(Dir::Right));
}

#[test]
fn window_goes_to_the_next_monitor() {
    let mut wm = WindowManager::new(config(), vec![monitor(1, 0), monitor(2, 1920)]);
    let mut d = desktop(&[1, 2], 0);
    wm.adopt_existing_windows(&mut d, &list(&[1, 2]));
    let mut d = desktop(&[1, 2], 1);
    wm.swap_dir(&mut d, Dir::Right);
    assert_eq!((wm.find(Window(1)), wm.find(Window(2))), (Some((1, 0)), Some((0, 0))));
    assert!(d.actions.contains(&Action::Focus(Window(1))));
    let mut d = desktop(&[1, 2], 2);
    wm.swap_dir(&mut d, Dir::Left);
    assert_eq!(wm.find(Window(2)), Some((0, 0)));
    assert_eq!(wm.window_list(&d)[0].place, "M1 · ws 1");
}

#[test]
fn ratios_follow_the_keys() {
    let mut wm = managing(&[1, 2, 3]);
    run(&mut wm, &mut desktop(&[1, 2, 3], 1), Command::GrowWindow);
    run(&mut wm, &mut desktop(&[1, 2, 3], 3), Command::GrowWindow);
    let r: Vec<f32> = wm.monitors[0].workspaces[0].ratios.iter().map(|r| f32::from_bits(r.bits)).collect();
    assert_eq!(r, vec![0.5f32 + 0.05, 0.5f32 - 0.05]);
}

#[test]
fn floating_windows_scale_about_their_center() {
    for &(x, y, w, h) in [(100, 100, 800, 600), (-50, 7, 201, 151), (0, 0, 10, 10), (3, 4, 1921, 1079)].iter() {
        for grow in [true, false] {
            let f: f32 = if grow { 1.08 } else { 1.0 / 1.08 };
            let (nw, nh) = (((w as f32 * f) as i32).max(200), ((h as f32 * f) as i32).max(150));
            let expected = Rect { x: x - (nw - w) / 2, y: y - (nh - h) / 2, w: nw, h: nh };
            assert_eq!(rescale(Rect { x, y, w, h }, grow), expected);
        }
    }
}

#[test]
fn floating_and_fullscreen_toggle() {
    let mut wm = managing(&[1, 2]);
    let mut d = desktop(&[1, 2], 1);
    run(&mut wm, &mut d, Command::ToggleFloat);
    assert_eq!(wm.monitors[0].workspaces[0].floating, list(&[1]));
    assert!(targets(&d).contains(&(1, Rect { x: 384, y: 248, w: 1152, h: 624 })));
    run(&mut wm, &mut desktop(&[1, 2], 1), Command::ToggleFloat);
    assert_eq!(wm.monitors[0].workspaces[0].tiled, list(&[2, 1]));
    let mut d = desktop(&[1, 2], 1);
    run(&mut wm, &mut d, Command::ToggleFullscreen);
    assert_eq!(wm.monitors[0].workspaces[0].fullscreen, Some(Window(1)));
    assert!(d.actions.contains(&Action::Topmost(Window(1), true)));
    assert_eq!(targets(&d).last(), Some(&(1, Rect { x: 0, y: 0, w: 1920, h: 1080 })));
    let mut d = desktop(&[1, 2], 1);
    run(&mut wm, &mut d, Command::ToggleFullscreen);
    assert_eq!(wm.monitors[0].workspaces[0].fullscreen, None);
    assert!(d.actions.contains(&Action::Topmost(Window(1), false)));
}

#[test]
fn monocle_stacks_and_returns() {
    let mut wm = managing(&[1, 2]);
    let mut d = desktop(&[1, 2], 1);
    run(&mut wm, &mut d, Command::ToggleMonocle);
    assert_eq!(targets(&d), vec![(1, INNER), (2, INNER)]);
    let mut d = desktop(&[1, 2], 1);
    run(&mut wm, &mut d, Command::ToggleMonocle);
    assert_eq!(targets(&d)[0].1, dwindle(INNER, 2, &half(1), 10)[0]);
}

#[test]
fn dragged_edges_move_the_split() {
    let mut wm = managing(&[1, 2]);
    let slot = dwindle(INNER, 2, &half(1), 10)[0];
    let mut d = desktop(&[1, 2], 1);
    set(&mut d, 1, |f| f.frame = Rect { w: slot.w + 190, ..slot });
    wm.handle_event(&mut d, WmEvent::MoveSizeEnd(Window(1), None));
    let r = f32::from_bits(wm.monitors[0].workspaces[0].ratios[0].bits);
    assert!((r - 0.6).abs() < 0.01, "{}", r);
}

#[test]
fn dropped_window_swaps_or_leaves() {
    let mut wm = managing(&[1, 2]);
    let slot = dwindle(INNER, 2, &half(1), 10)[0];
    let mut d = desktop(&[1, 2], 1);
    d.cursor_x = 1500;
    d.cursor_y = 500;
    set(&mut d, 1, |f| f.frame = Rect { x: 900, ..slot });
    set(&mut d, 2, |f| f.rect = Rect { x: 960, y: 50, w: 945, h: 1020 });
    wm.handle_event(&mut d, WmEvent::MoveSizeEnd(Window(1), None));
    assert_eq!(wm.monitors[0].workspaces[0].tiled, list(&[2, 1]));
    wm.config.follow_moved_window = false;
    let mut d = desktop(&[1, 2], 1);
    wm.handle_event(&mut d, WmEvent::MoveSizeEnd(Window(1), Some((1, 2))));
    assert_eq!(wm.find(Window(1)), Some((0, 2)));
    assert_eq!(*wm.hidden_by_us.list(), list(&[1]));
}

#[test]
fn scratchpad_comes_and_goes() {
    let mut wm = managing(&[1, 2]);
    let mut d = desktop(&[1, 2], 2);
    run(&mut wm, &mut d, Command::ScratchSend);
    assert!(wm.in_scratch(Window(2)) && wm.find(Window(2)).is_none());
    assert_eq!(*wm.hidden_by_us.list(), list(&[2]));
    let mut d = desktop(&[1, 2], 1);
    set(&mut d, 2, |f| f.visible = false);
    run(&mut wm, &mut d, Command::ScratchToggle);
    assert!(wm.scratch_shown);
    assert_eq!(targets(&d), vec![(2, Rect { x: 384, y: 248, w: 1152, h: 624 })]);
    assert!(d.actions.contains(&Action::Topmost(Window(2), true)));
    let mut d = desktop(&[1, 2], 2);
    set(&mut d, 2, |f| f.frame = Rect { x: 5, y: 5, w: 700, h: 5000 });
    run(&mut wm, &mut d, Command::ScratchToggle);
    assert!(!wm.scratch_shown);
    let mut d = desktop(&[1, 2], 1);
    run(&mut wm, &mut d, Command::ScratchCycle);
    assert_eq!(targets(&d), vec![(2, Rect { x: 610, y: 40, w: 700, h: 1040 })]);
    let mut d = desktop(&[1, 2], 2);
    run(&mut wm, &mut d, Command::ScratchSend);
    assert_eq!(wm.find(Window(2)), Some((0, 0)));
    assert!(!wm.scratch_shown && wm.hidden_by_us.list().is_empty());
}

#[test]
fn scratch_window_fills_the_monitor_and_back() {
    let mut wm = managing(&[1, 2]);
    run(&mut wm, &mut desktop(&[1, 2], 2), Command::ScratchSend);
    let mut d = desktop(&[1, 2], 2);
    set(&mut d, 2, |f| f.frame = Rect { x: 10, y: 10, w: 500, h: 400 });
    run(&mut wm, &mut d, Command::ToggleFullscreen);
    assert_eq!(targets(&d), vec![(2, Rect { x: 0, y: 0, w: 1920, h: 1080 })]);
    let mut d = desktop(&[1, 2], 2);
    set(&mut d, 2, |f| f.frame = Rect { x: 0, y: 0, w: 1900, h: 1060 });
    run(&mut wm, &mut d, Command::ToggleFullscreen);
    assert_eq!(targets(&d), vec![(2, Rect { x: 710, y: 360, w: 500, h: 400 })]);
}

#[test]
fn pinning_toggles() {
    let mut wm = managing(&[1]);
    let mut d = desktop(&[1], 1);
    let o = wm.handle_command(&mut d, Command::PinApp, &Vec::new());
    let c = o.rule.unwrap();
    assert_eq!((c.key.as_str(), c.workspace), ("app.exe", Some(1)));
    assert_eq!(wm.config.app_rules.get("app.exe"), Some(&1));
    let o = wm.handle_command(&mut d, Command::PinApp, &Vec::new());
    assert_eq!(o.rule.unwrap().workspace, None);
    assert!(wm.config.app_rules.get("app.exe").is_none());
}

#[test]
fn pause_ignores_commands() {
    let mut wm = managing(&[1, 2]);
    let mut d = desktop(&[1, 2], 1);
    run(&mut wm, &mut d, Command::TogglePause);
    assert!(wm.is_paused() && !wm.hover_focus_target(Window(1)));
    assert!(d.actions.contains(&Action::Border(Window(1), None)));
    let mut d = desktop(&[1, 2, 3], 1);
    run(&mut wm, &mut d, Command::SwitchWorkspace(2));
    wm.handle_event(&mut d, WmEvent::Shown(Window(3)));
    assert!(wm.monitors[0].active == 0 && d.actions.is_empty());
    run(&mut wm, &mut d, Command::TogglePause);
    assert_eq!(wm.monitors[0].workspaces[0].tiled, list(&[1, 2, 3]));
    assert!(!run(&mut wm, &mut d, Command::Exit));
}

#[test]
fn closing_asks_the_focused_window() {
    let mut wm = managing(&[1, 2]);
    let mut d = desktop(&[1, 2], 2);
    run(&mut wm, &mut d, Command::CloseWindow);
    assert_eq!(d.actions, vec![Action::Close(Window(2))]);
    let mut d = desktop(&[1], 0);
    wm.handle_event(&mut d, WmEvent::Destroyed(Window(2)));
    assert!(!wm.is_managed(Window(2)));
    assert_eq!(targets(&d), vec![(1, AREA)]);
    let mut d = desktop(&[1], 0);
    wm.handle_event(&mut d, WmEvent::MinimizeStart(Window(1)));
    assert!(!wm.is_managed(Window(1)));
}

#[test]
fn only_the_focused_window_is_accented() {
    let wm = managing(&[1, 2]);
    let mut d = desktop(&[1, 2], 2);
    wm.update_borders(&mut d);
    assert_eq!(
        d.actions,
        vec![Action::Border(Window(1), None), Action::Border(Window(2), Some(0x00F7A27A))]
    );
}

#[test]
fn neighbors_are_focused_in_turn() {
    let mut wm = managing(&[1, 2, 3]);
    let mut d = desktop(&[1, 2, 3], 3);
    run(&mut wm, &mut d, Command::FocusNext);
    assert!(d.actions.contains(&Action::Focus(Window(1))));
    let mut d = desktop(&[1, 2, 3], 1);
    run(&mut wm, &mut d, Command::FocusPrev);
    assert!(d.actions.contains(&Action::Focus(Window(3))));
    assert_eq!((step(0, 3, false), step(2, 3, true), step(1, 3, true)), (2, 0, 2));
}

#[test]
fn fewer_workspaces_lose_no_window() {
    let mut wm = managing(&[1, 2, 3]);
    wm.config.follow_moved_window = false;
    run(&mut wm, &mut desktop(&[1, 2, 3], 3), Command::MoveToWorkspace(2));
    let mut d = desktop(&[1, 2, 3], 1);
    set(&mut d, 3, |f| f.visible = false);
    assert!(wm.set_workspace_count(&mut d, 2));
    assert_eq!(wm.config.workspaces, 2);
    assert_eq!(wm.monitors[0].workspaces.len(), 2);
    assert_eq!(wm.find(Window(3)), Some((0, 1)));
    assert!(!wm.set_workspace_count(&mut d, 2));
    assert!(wm.set_workspace_count(&mut d, 99));
    assert_eq!(wm.monitors[0].workspaces.len(), 24);
    assert!(wm.set_workspace_count(&mut d, 0));
    assert_eq!(wm.find(Window(3)), Some((0, 0)));
    assert!(d.actions.contains(&Action::Show(Window(3))));
}

#[test]
fn lost_monitor_hands_its_windows_over() {
    let mut wm = WindowManager::new(config(), vec![monitor(1, 0), monitor(2, 1920)]);
    let mut d = desktop(&[1, 2], 0);
    set(&mut d, 2, |f| f.monitor = 2);
    wm.adopt_existing_windows(&mut d, &list(&[1, 2]));
    assert_eq!(wm.find(Window(2)), Some((1, 0)));
    assert!(!wm.displays_changed(&vec![monitor(1, 0), monitor(2, 1920)]));
    assert!(!wm.handle_display_change(&mut d, &vec![monitor(1, 0), monitor(2, 1920)]));
    assert!(wm.handle_display_change(&mut d, &vec![monitor(1, 0)]));
    assert_eq!(wm.monitors.len(), 1);
    assert_eq!(wm.monitors[0].workspaces[0].tiled, list(&[1, 2]));
}

#[test]
fn window_is_activated_wherever_it_is() {
    let mut wm = managing(&[1, 2]);
    wm.config.follow_moved_window = false;
    run(&mut wm, &mut desktop(&[1, 2], 2), Command::MoveToWorkspace(1));
    let mut d = desktop(&[1, 2], 1);
    wm.activate_window(&mut d, Window(2));
    assert_eq!(wm.monitors[0].active, 1);
    assert!(d.actions.contains(&Action::Focus(Window(2))));
    run(&mut wm, &mut desktop(&[1, 2], 2), Command::ScratchSend);
    let mut d = desktop(&[1, 2], 0);
    wm.activate_window(&mut d, Window(2));
    assert!(wm.scratch_shown && d.actions.contains(&Action::Topmost(Window(2), true)));
    assert_eq!(wm.window_list(&d).last().unwrap().place, "scratchpad");
}

#[test]
fn snapshots_show_every_workspace() {
    let mut wm = managing(&[1, 2]);
    wm.config.workspace_names = vec!["web".to_string()];
    let d = desktop(&[1, 2], 2);
    let b = wm.bar_snapshot(&d, 1).unwrap();
    assert_eq!((b.active, b.title.as_str(), b.paused), (0, "w2", false));
    assert_eq!(b.names, vec!["web".to_string(), String::new(), String::new()]);
    assert_eq!(b.occupied, vec![true, false, false]);
    assert_eq!(b.cell_windows[0], list(&[1, 2]));
    assert!(wm.bar_snapshot(&d, 5).is_none());
    let o = wm.overview_snapshot(&d, 5).unwrap();
    assert_eq!(o.source, AREA);
    let rects = dwindle(INNER, 2, &half(1), 10);
    assert_eq!(o.workspaces[0], vec![(Window(1), rects[0]), (Window(2), rects[1])]);
    assert_eq!(wm.window_list(&d)[0].place, "web");
    wm.monitors[0].workspaces[0].monocle = true;
    let o = wm.overview_snapshot(&d, 1).unwrap();
    assert_eq!(o.workspaces[0][1].1, Rect { x: 26, y: 66, w: 1868, h: 988 });
}

#[test]
fn hidden_windows_survive_a_crash() {
    assert_eq!(journal_handles("12\n -7 \nx\n\n+5\n"), list(&[12, -7, 5]));
    let mut d = desktop(&[1, 2], 0);
    set(&mut d, 1, |f| f.visible = false);
    restore_orphans(&mut d, "1\n2\n3\n");
    assert_eq!(d.actions, vec![Action::Show(Window(1))]);
    let mut wm = managing(&[1, 2]);
    run(&mut wm, &mut desktop(&[1, 2], 1), Command::SwitchWorkspace(1));
    let text = wm.journal().unwrap();
    assert_eq!(journal_handles(&text), *wm.hidden_by_us.list());
}

#[test]
fn every_hide_is_journaled() {
    for c in [
        Command::SwitchWorkspace(1),
        Command::MoveToWorkspace(2),
        Command::NextWorkspace,
        Command::ScratchSend,
    ] {
        for follow in [true, false] {
            let mut wm = managing(&[1, 2]);
            wm.config.follow_moved_window = follow;
            let mut d = desktop(&[1, 2], 1);
            run(&mut wm, &mut d, c);
            let hidden = d.actions.iter().rposition(|a| matches!(a, Action::Hide(_))).unwrap();
            assert!(d.actions[hidden..].contains(&Action::Journal));
        }
    }
}

#[test]
fn exit_shows_what_was_hidden() {
    let mut wm = managing(&[1, 2, 3]);
    run(&mut wm, &mut desktop(&[1, 2, 3], 3), Command::ScratchSend);
    run(&mut wm, &mut desktop(&[1, 2, 3], 1), Command::SwitchWorkspace(1));
    let mut d = desktop(&[1, 2, 3], 0);
    wm.cleanup(&mut d);
    for w in [1, 2, 3] {
        assert!(d.actions.contains(&Action::Show(Window(w))));
        assert!(d.actions.contains(&Action::Border(Window(w), None)));
    }
    assert!(wm.hidden_by_us.list().is_empty());
    assert_eq!(wm.journal(), None);
}

#[test]
fn accent_changes_at_once() {
    let mut wm = managing(&[1]);
    let mut d = desktop(&[1], 1);
    wm.set_accent_color(&mut d, "#010203");
    assert_eq!(wm.config.active_border_color, "#010203");
    assert_eq!(d.actions, vec![Action::PaintBorders]);
    let mut d = desktop(&[1], 1);
    wm.update_borders(&mut d);
    assert_eq!(d.actions, vec![Action::Border(Window(1), Some(0x030201))]);
}

#[test]
fn vanished_monitor_leaves_its_windows_to_the_first() {
    let mut wm = WindowManager::new(config(), vec![monitor(1, 0), monitor(2, 1920)]);
    let mut d = desktop(&[1, 2, 3], 0);
    set(&mut d, 2, |f| f.monitor = 2);
    set(&mut d, 3, |f| {
        f.monitor = 2;
        f.style = WS_CAPTION;
    });
    wm.adopt_existing_windows(&mut d, &list(&[1, 2, 3]));
    assert_eq!(wm.find(Window(2)), Some((1, 0)));
    let mut moved = monitor(1, 0);
    moved.work_area = Rect { x: 0, y: 0, w: 1280, h: 700 };
    let mut d = desktop(&[1, 2, 3], 0);
    wm.refresh_monitors(&mut d, &vec![moved]);
    assert_eq!(wm.monitors.len(), 1);
    assert_eq!(wm.monitors[0].work_area.w, 1280);
    assert_eq!(wm.monitors[0].workspaces[0].tiled, list(&[1, 2]));
    assert_eq!(wm.monitors[0].workspaces[0].floating, list(&[3]));
    let mut d = desktop(&[1, 2, 3], 0);
    wm.refresh_monitors(&mut d, &vec![monitor(9, 0)]);
    assert_eq!((wm.monitors.len(), wm.monitors[0].work_area.w), (1, 1280));
    for w in [1, 2, 3] {
        assert!(wm.is_managed(Window(w)));
    }
}

#[test]
fn retiling_takes_over_a_vanished_monitor() {
    let mut wm = WindowManager::new(config(), vec![monitor(1, 0), monitor(2, 1920)]);
    let mut d = desktop(&[1, 2], 0);
    set(&mut d, 2, |f| f.monitor = 2);
    wm.adopt_existing_windows(&mut d, &list(&[1, 2]));
    let mut d = desktop(&[1, 2], 1);
    assert!(run(&mut wm, &mut d, Command::Retile));
    assert_eq!(wm.monitors.len(), 1);
    let rects = dwindle(INNER, 2, &half(1), 10);
    assert_eq!(targets(&d), vec![(1, rects[0]), (2, rects[1])]);
}

#[test]
fn window_is_recorded_as_hidden_once() {
    let mut set = WindowSet::new();
    for w in [3, 1, 3, 2, 1] {
        set.include_window(Window(w));
    }
    assert_eq!(*set.list(), list(&[3, 1, 2]));
    set.leave_out(Window(1));
    assert!(set.has(Window(3)) && !set.has(Window(1)));
    assert_eq!(*set.list(), list(&[3, 2]));
}

#[test]
fn window_has_one_rectangle() {
    let mut book = RectBook::new();
    book.keep(Window(1), AREA);
    book.keep(Window(2), AREA);
    book.keep(Window(1), INNER);
    assert_eq!(*book.list(), vec![(Window(2), AREA), (Window(1), INNER)]);
    book.forget(Window(2));
    assert_eq!((book.rect_of(Window(1)), book.rect_of(Window(2))), (Some(INNER), None));
}

#[test]
fn rules_are_filed_under_the_app_or_its_program() {
    let text = |t: &str| Some(t.to_string());
    let path = text("C:\\Apps/Brave.EXE");
    assert_eq!(rule_key(&text("Brave.App_X"), &path), text("brave.app_x"));
    assert_eq!(rule_key(&text(""), &path), text("brave.exe"));
    assert_eq!(rule_key(&None, &path), text("brave.exe"));
    assert_eq!(rule_key(&None, &None), None);
}

#[test]
fn overlays_are_told_apart() {
    assert!(is_transient_popup("tooltips_class32", WS_CAPTION, 0));
    assert!(is_transient_popup("Net UI Tool Window", 0, WS_EX_NOACTIVATE));
    assert!(!is_transient_popup("App", WS_CAPTION, WS_EX_NOACTIVATE));
    assert!(!is_transient_popup("App", 0, WS_EX_TOOLWINDOW));
}
