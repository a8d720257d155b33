use wtm::animate::{Anim, Animations, Beat, motion_for, Motion, Placement};
use wtm::bar::{
    bar_layout, cell_index_at, cell_spans, dropped_on, is_countable, meeting_label, nth_width,
    on_bar_click, paint_bar, workspace_cell_at_point, BarClick, BarFacts, BarPlace,
};
use wtm::border::{Frame, FrameStep};
use wtm::calendar::Meeting;
use wtm::config::Config;
use wtm::icons::{IconCache, MOST_ICONS};
use wtm::layout::Rect;
use wtm::logger::{is_oversized, log_line, Moment};
use wtm::monitor::{active, described, position_of, primary_first, MonitorInfo};
use wtm::mouse::{Hook, Hover, Mouse};
use wtm::overview::{
    body_rect, cards, column_count, map_rect, on_click, paint, Overview, OverviewStep,
};
use wtm::scene::{area, style, Draw, Sheet};
use wtm::tray::{
    autostart_command, menu, on_choice, on_icon, TrayStep, CMD_AUTOSTART, CMD_EXIT, CMD_PAUSE,
    CMD_RELOAD, LEFT_UP, RIGHT_UP,
};
use wtm::vk::{is_modifier, VK_DOWN, VK_ESCAPE, VK_LEFT, VK_LWIN, VK_RETURN, VK_RIGHT, VK_UP};
use wtm::window::{Edges, Window, COLOR_DEFAULT};
use wtm::wm::desktop::Desktop;
use wtm::wm::{BarSnapshot, OverviewSnapshot};

fn desk() -> Desktop {
    Desktop {
        foreground: Some(Window(2)),
        cursor_x: 0,
        cursor_y: 0,
        cursor_monitor: 1,
        order: Vec::new(),
        seen: Vec::new(),
        actions: Vec::new(),
    }
}

fn words(marks: &Vec<Draw>) -> Vec<String> {
    let mut out: Vec<String> = Vec::new();
    for m in marks {
        if let Draw::Text { text, .. } = m {
            out.push(text.to_string());
        }
    }
    out
}

fn snap() -> BarSnapshot {
    BarSnapshot {
        active: 1,
        names: vec!["web".to_string(), String::new()],
        occupied: vec![true, false, true],
        cell_windows: vec![vec![Window(1), Window(2)], Vec::new(), vec![Window(3)]],
        title: "a title".to_string(),
        paused: false,
    }
}

fn meeting(start: u64) -> Meeting {
    Meeting {
        start,
        end: start + 60,
        start_hm: "10:00".to_string(),
        end_hm: "10:01".to_string(),
        subject: "Standup".to_string(),
        location: String::new(),
        join_url: String::new(),
    }
}

const BAR: Sheet = Sheet { w: 1920, h: 32, dpi: 96 };

#[test]
fn cells_widen_with_icons_and_names() {
    let l = bar_layout(&BAR);
    assert_eq!((l.cell_w, l.cell_h, l.gap, l.pad, l.help_w, l.clock_w), (26, 22, 4, 8, 36, 56));
    assert_eq!((l.name_max, l.icon, l.icon_pad), (150, 16, 3));
    assert!(is_countable(&l, &snap(), &Vec::new()));
    assert_eq!(nth_width(&vec![7], 1), 0);
    assert_eq!(cell_spans(&l, &snap(), &vec![40, 0, 0]), vec![(8, 112), (124, 26), (154, 45)]);
    assert_eq!(cell_spans(&l, &snap(), &vec![999])[0], (8, 222));
    let mut full = snap();
    full.cell_windows[1] = (0..5000).map(Window).collect();
    assert!(is_countable(&l, &full, &vec![40]));
    assert_eq!(
        cell_spans(&l, &full, &vec![40]),
        vec![(8, 112), (124, 26 + 5000 * 19), (124 + 26 + 5000 * 19 + 4, 45)]
    );
}

#[test]
fn click_hits_the_drawn_cell() {
    let spans = vec![(8, 112), (124, 26), (154, 45)];
    assert_eq!(cell_index_at(&spans, 7), None);
    assert_eq!(cell_index_at(&spans, 8), Some(0));
    assert_eq!(cell_index_at(&spans, 119), Some(0));
    assert_eq!(cell_index_at(&spans, 120), None);
    assert_eq!(cell_index_at(&spans, 198), Some(2));
    assert_eq!(cell_index_at(&spans, 199), None);
}

#[test]
fn bar_buttons_are_packed_from_the_right() {
    let l = bar_layout(&BAR);
    let spans = vec![(8, 112), (124, 26)];
    let at = |x: i32| on_bar_click(&l, 1920, Some((1400, 1500)), &spans, x);
    assert_eq!(at(1919), BarClick::Help);
    assert_eq!(at(1884), BarClick::Help);
    assert_eq!(at(1883), BarClick::Settings);
    assert_eq!(at(1844), BarClick::Settings);
    assert_eq!(at(1804), BarClick::Tweaks);
    assert_eq!(at(1764), BarClick::Manage);
    assert_eq!(at(1724), BarClick::Launcher);
    assert_eq!(at(1723), BarClick::Nothing);
    assert_eq!(at(1499), BarClick::Agenda);
    assert_eq!(at(1500), BarClick::Nothing);
    assert_eq!(at(130), BarClick::Workspace(1));
}

#[test]
fn windows_are_dropped_on_cells() {
    let bars = vec![
        BarPlace { left: 0, top: 0, right: 1920, bottom: 32, monitor: 1, spans: vec![(8, 112), (124, 26)] },
        BarPlace { left: 1920, top: -100, right: 3840, bottom: -68, monitor: 2, spans: vec![(8, 26)] },
    ];
    assert_eq!(workspace_cell_at_point(&bars, 10, 47), Some((1, 0)));
    assert_eq!(workspace_cell_at_point(&bars, 10, 48), None);
    assert_eq!(workspace_cell_at_point(&bars, 121, 5), None);
    assert_eq!(workspace_cell_at_point(&bars, 1930, -100), Some((2, 0)));
    assert_eq!(dropped_on(&bars, 130, 10, 900), Some((1, 1)));
    assert_eq!(dropped_on(&bars, 130, 300, 30), Some((1, 1)));
    assert_eq!(dropped_on(&bars, 130, 300, 17), Some((1, 1)));
    assert_eq!(dropped_on(&bars, 130, 300, -60), None);
    assert_eq!(dropped_on(&bars, 130, 300, -25), Some((1, 1)));
    assert_eq!(dropped_on(&bars, 130, 300, 40), None);
}

#[test]
fn chip_counts_the_minutes() {
    assert_eq!(meeting_label(&meeting(100), 100), "● Standup");
    assert_eq!(meeting_label(&meeting(101), 100), "10:00 Standup · 1m");
    assert_eq!(meeting_label(&meeting(100 + 5400), 100), "10:00 Standup · 90m");
    assert_eq!(meeting_label(&meeting(100 + 5401), 100), "10:00 Standup");
}

#[test]
fn bar_is_painted() {
    let st = style(&None);
    let mut f = BarFacts {
        snap: Some(snap()),
        widths: vec![40, 0, 0],
        hour: 9,
        minute: 5,
        now: 100,
        meeting: None,
        label_width: 0,
        glyphs: false,
    };
    let (k, chip) = paint_bar(&BAR, &st, &f);
    assert_eq!(chip, None);
    assert_eq!(words(&k.marks), vec!["1", "web", "2", "3", "09:05", "a title", "»", "✎", "◐", "≡", "?"]);
    assert!(matches!(&k.marks[1], Draw::Round { area: a, color, radius: 4 } if *a == area(8, 5, 120, 27) && *color == st.cell_occupied));
    let icons: Vec<(isize, i64, i64, i64)> = k
        .marks
        .iter()
        .filter_map(|m| match m {
            Draw::WindowIcon { window, x, y, size } => Some((window.0, *x, *y, *size)),
            _ => None,
        })
        .collect();
    assert_eq!(icons, vec![(1, 34, 8, 16), (2, 53, 8, 16), (3, 180, 8, 16)]);
    f.meeting = Some(meeting(100));
    f.label_width = 500;
    f.glyphs = true;
    f.snap = None;
    let (k, chip) = paint_bar(&BAR, &st, &f);
    assert_eq!(chip, Some((1372, 1660)));
    assert_eq!(words(&k.marks)[0..2], ["09:05", "● Standup"]);
    assert_eq!(words(&k.marks)[2], "\u{E71D}");
}

#[test]
fn paused_bar_says_so() {
    let mut s = snap();
    s.paused = true;
    let f = BarFacts {
        snap: Some(s),
        widths: Vec::new(),
        hour: 23,
        minute: 59,
        now: 0,
        meeting: None,
        label_width: 0,
        glyphs: false,
    };
    let (k, _) = paint_bar(&BAR, &style(&None), &f);
    assert!(words(&k.marks).contains(&"⏸  paused — resume with the toggle_pause key".to_string()));
}

fn shown(places: Vec<Vec<(Window, Rect)>>) -> OverviewSnapshot {
    OverviewSnapshot {
        source: Rect { x: 0, y: 0, w: 1920, h: 1080 },
        active: 0,
        names: vec!["web".to_string()],
        workspaces: places,
    }
}

const FIELD: Sheet = Sheet { w: 1074, h: 704, dpi: 96 };

#[test]
fn grid_agrees_with_square_roots() {
    for n in 1..3000usize {
        assert_eq!(column_count(n), (n as f32).sqrt().ceil().max(1.0) as usize);
    }
    let c = cards(&FIELD, 4);
    assert_eq!(c.len(), 4);
    assert_eq!(c[0], area(28, 28, 528, 328));
    assert_eq!(c[3], area(546, 346, 1046, 646));
    assert_eq!(cards(&Sheet { w: 10, h: 10, dpi: 96 }, 1)[0], area(28, 28, 78, 78));
}

#[test]
fn miniatures_agree_with_single_precision() {
    for &(w, h) in [(1920, 1080), (1920, 1040), (3440, 1440), (1080, 1920), (1, 1), (0, 5), (2560, 1), (777, 333)].iter() {
        for &(cw, ch) in [(500, 300), (90, 400), (51, 52), (1300, 700), (333, 777)].iter() {
            let src = Rect { x: 5, y: 7, w, h };
            let (iw, ih): (i32, i32) = ((cw - 16).max(1), (ch - 24 - 16).max(1));
            let k = (iw as f32 / w.max(1) as f32).min(ih as f32 / h.max(1) as f32);
            let (bw, bh) = ((w as f32 * k) as i32, (h as f32 * k) as i32);
            let (bx, by) = (10 + 8 + (iw - bw) / 2, 20 + 24 + 8 + (ih - bh) / 2);
            let got = body_rect(&FIELD, &area(10, 20, 10 + cw as i64, 20 + ch as i64), &src);
            assert_eq!(got, area(bx as i64, by as i64, (bx + bw) as i64, (by + bh) as i64), "{} {} {} {}", w, h, cw, ch);
        }
    }
}

#[test]
fn windows_are_mapped_into_the_miniature() {
    let src = Rect { x: 100, y: 0, w: 1000, h: 500 };
    let body = area(10, 10, 110, 60);
    assert_eq!(map_rect(&Rect { x: 100, y: 0, w: 500, h: 500 }, &src, &body), Some(area(10, 10, 60, 60)));
    assert_eq!(map_rect(&Rect { x: 0, y: -50, w: 300, h: 100 }, &src, &body), Some(area(10, 10, 30, 15)));
    assert_eq!(map_rect(&Rect { x: 1100, y: 0, w: 50, h: 50 }, &src, &body), None);
}

#[test]
fn clicks_find_the_topmost_window() {
    let full = Rect { x: 0, y: 0, w: 1920, h: 1080 };
    let mid = Rect { x: 480, y: 270, w: 960, h: 540 };
    let s = shown(vec![vec![(Window(1), full), (Window(2), mid)], Vec::new(), Vec::new(), Vec::new()]);
    assert_eq!(on_click(&FIELD, &s, 278, 190), Some((0, Some(Window(2)))));
    assert_eq!(on_click(&FIELD, &s, 60, 70), Some((0, Some(Window(1)))));
    assert_eq!(on_click(&FIELD, &s, 30, 30), Some((0, None)));
    assert_eq!(on_click(&FIELD, &s, 700, 500), Some((3, None)));
    assert_eq!(on_click(&FIELD, &s, 537, 100), None);
}

#[test]
fn overview_opens_and_closes() {
    let mut o = Overview::new();
    let wa = Rect { x: 0, y: 40, w: 10, h: 10 };
    assert_eq!(o.toggle(None), OverviewStep::Nothing);
    assert_eq!(o.toggle(Some((7, wa, 3))), OverviewStep::Open(7, wa));
    assert_eq!((o.selected, o.shown), (3, false));
    o.opened();
    assert_eq!(o.toggle(Some((7, wa, 3))), OverviewStep::Close);
    assert!(!o.close());
}

#[test]
fn arrows_move_on_the_grid() {
    let mut o = Overview::new();
    let n = Some(7);
    assert_eq!(o.on_key(VK_LEFT, n), OverviewStep::Redraw);
    assert_eq!(o.selected, 2);
    o.on_key(VK_UP, n);
    assert_eq!(o.selected, 6);
    o.on_key(VK_RIGHT, n);
    assert_eq!(o.selected, 6);
    o.on_key(VK_DOWN, n);
    assert_eq!(o.selected, 0);
    assert_eq!(o.on_key(VK_DOWN, None), OverviewStep::Nothing);
    assert_eq!(o.on_key(0x37, n), OverviewStep::Jump(6));
    assert_eq!(o.on_key(0x38, n), OverviewStep::Nothing);
    assert_eq!(o.on_key(0x30, Some(10)), OverviewStep::Jump(9));
    assert_eq!(o.on_key(VK_RETURN, n), OverviewStep::Jump(0));
    assert_eq!(o.on_key(VK_ESCAPE, n), OverviewStep::Close);
}

#[test]
fn overview_is_painted() {
    let full = Rect { x: 0, y: 0, w: 1920, h: 1080 };
    let s = shown(vec![vec![(Window(2), full)], Vec::new()]);
    let k = paint(&FIELD, &style(&None), &Some(s), 1, &desk());
    assert_eq!(
        words(&k.marks),
        vec!["1 · web", "", "2", "←↑↓→ + Enter or digits to jump · click a window · Esc closes"]
    );
    let k = paint(&FIELD, &style(&None), &None, 0, &desk());
    assert_eq!(k.marks.len(), 1);
}

#[test]
fn tray_answers() {
    assert_eq!(on_icon(RIGHT_UP), TrayStep::ShowMenu);
    assert_eq!(on_icon(LEFT_UP), TrayStep::ToggleOverview);
    assert_eq!(on_icon(0x0200), TrayStep::Nothing);
    assert_eq!(on_choice(CMD_PAUSE, true), TrayStep::TogglePause);
    assert_eq!(on_choice(CMD_RELOAD, true), TrayStep::Reload);
    assert_eq!(on_choice(CMD_AUTOSTART, true), TrayStep::Autostart(false));
    assert_eq!(on_choice(CMD_EXIT, true), TrayStep::Exit);
    assert_eq!(on_choice(0, true), TrayStep::Nothing);
    let m = menu(true, false);
    assert_eq!(m.iter().map(|i| i.text.as_str()).collect::<Vec<_>>(), vec!["Pause tiling", "Reload config", "Start with Windows", "Exit wtm"]);
    assert_eq!(m.iter().map(|i| i.checked).collect::<Vec<_>>(), vec![Some(true), None, Some(false), None]);
    assert!(m[3].apart && !m[2].apart);
    assert_eq!(autostart_command("C:\\wtm.exe"), "\"C:\\wtm.exe\"");
}

#[test]
fn log_lines_carry_the_time() {
    let t = Moment { month: 3, day: 14, hour: 1, minute: 59, second: 7 };
    assert_eq!(log_line(&t, "wtm: hello"), "03-14 01:59:07  wtm: hello\n");
    assert!(!is_oversized(524_288) && is_oversized(524_289));
}

#[test]
fn icons_are_kept_until_there_are_too_many() {
    let mut c = IconCache::new();
    assert_eq!(c.get(Window(1)), None);
    c.keep(Window(1), 11, true);
    c.keep(Window(2), 0, true);
    assert_eq!(c.get(Window(1)), Some(11));
    assert_eq!(c.get(Window(2)), Some(0));
    c.keep(Window(2), 12, false);
    assert_eq!((c.get(Window(2)), c.list().len()), (Some(12), 2));
    c.keep(Window(2), 0, true);
    assert!(c.make_room().is_empty());
    for i in 3..=(MOST_ICONS as isize + 1) {
        c.keep(Window(i), 100 + i, i % 2 == 0);
    }
    let gone = c.make_room();
    assert_eq!(gone.len(), 1 + (4..=257).filter(|i| i % 2 == 0).count());
    assert_eq!(gone[0], 11);
    assert_eq!(c.get(Window(1)), None);
}

#[test]
fn monitors_start_with_the_primary() {
    let e = |l, t, r, b| Edges { left: l, top: t, right: r, bottom: b };
    let a = described(1, e(-1920, 0, 0, 1080), e(-1920, 0, 0, 1040), 0);
    let b = described(2, e(0, 0, 2560, 1440), e(0, 40, 2560, 1440), 3);
    assert_eq!(a.bounds, Rect { x: -1920, y: 0, w: 1920, h: 1080 });
    assert!(!a.primary && b.primary);
    assert_eq!(b.work_area, Rect { x: 0, y: 40, w: 2560, h: 1400 });
    let list: Vec<MonitorInfo> = primary_first(&vec![a, b]);
    assert_eq!(list, vec![b, a]);
    assert_eq!(position_of(&list, 1), Some(1));
    assert_eq!(active(&list, 1), Some(a));
    assert_eq!(active(&list, 99), Some(b));
    assert_eq!(active(&Vec::new(), 1), None);
}

#[test]
fn frame_is_hollow() {
    let mut f = Frame::init(&Config::default());
    assert_eq!((f.thickness, f.radius), (3, 8));
    assert_eq!(f.update(None, 96), FrameStep::Hide);
    match f.update(Some(Rect { x: 100, y: 50, w: 400, h: 300 }), 144) {
        FrameStep::Show(at, r) => {
            assert_eq!(at, Rect { x: 97, y: 47, w: 406, h: 306 });
            assert_eq!(r.outer, Rect { x: 0, y: 0, w: 406, h: 306 });
            assert_eq!(r.inner, Rect { x: 3, y: 3, w: 400, h: 300 });
            assert_eq!((r.outer_diameter, r.inner_diameter), (30, 24));
        }
        FrameStep::Hide => panic!("hidden"),
    }
    f.set_radius(-5);
    f.set_thickness(-1);
    assert_eq!((f.thickness, f.radius), (0, 0));
    assert_eq!(f.update(Some(Rect { x: 0, y: 0, w: 1, h: 1 }), 96), FrameStep::Hide);
}

#[test]
fn visible_frame_lands_on_its_target() {
    let w = Edges { left: 93, top: 100, right: 507, bottom: 407 };
    let f = Edges { left: 100, top: 100, right: 500, bottom: 400 };
    let target = Rect { x: 0, y: 0, w: 960, h: 540 };
    assert_eq!(wtm::window::frame_offsets(w, f), (7, 0, 7, 7));
    assert_eq!(Window(1).apply_rect(target, w, f), Rect { x: -7, y: 0, w: 974, h: 547 });
    assert_eq!(wtm::window::border_value(None), COLOR_DEFAULT);
    assert_eq!(wtm::window::border_value(Some(5)), 5);
}

#[test]
fn focus_is_borrowed_when_it_has_to_be() {
    assert!(!Window(1).borrows_focus(Some(Window(1)), 5, 6));
    assert!(Window(1).borrows_focus(Some(Window(2)), 5, 6));
    assert!(!Window(1).borrows_focus(Some(Window(2)), 6, 6));
    assert!(!Window(1).borrows_focus(Some(Window(2)), 0, 6));
}

fn glide(a: &mut Animations, w: isize, to: Rect, offsets: (i32, i32, i32, i32)) -> bool {
    let from = Rect { x: 0, y: 0, w: 100, h: 100 };
    let (motion, start) = a.set_target(Window(w), to, 150, true, from, offsets, 0);
    assert_eq!(motion, Motion::Glide);
    start
}

#[test]
fn animation_ends_at_its_target() {
    let to = Rect { x: 333, y: -77, w: 901, h: 45 };
    let mut a = Animations::default();
    assert!(glide(&mut a, 1, to, (7, 0, 7, 7)));
    assert!(!a.is_anim_timer(0));
    a.timer_started(9);
    assert!(a.is_anim_timer(9) && !a.is_anim_timer(8));
    assert!(!glide(&mut a, 2, to, (7, 0, 7, 7)));
    let half = 0x0080_0000;
    let (p, kill) = a.tick(&vec![
        Beat { alive: true, eased: half, done: false },
        Beat { alive: false, eased: half, done: false },
    ]);
    assert_eq!(kill, None);
    assert_eq!(p, vec![Placement { window: Window(1), rect: Rect { x: 159, y: -38, w: 514, h: 80 } }]);
    let (p, kill) = a.tick(&vec![Beat { alive: true, eased: 0x0100_0000, done: true }]);
    assert_eq!(p, vec![Placement { window: Window(1), rect: Rect { x: 326, y: -77, w: 915, h: 52 } }]);
    assert_eq!(kill, Some(9));
    assert!(a.list().is_empty());
}

#[test]
fn frames_agree_with_single_precision() {
    let to = Rect { x: 1777, y: -333, w: 1913, h: 7 };
    for step in 0..=40 {
        let t = (step as f32 / 40.0).min(1.0);
        let e = 1.0 - (1.0 - t).powi(3);
        let lerp = |a: i32, b: i32| a + ((b - a) as f32 * e) as i32;
        let eased = (e * 16_777_216.0) as u32;
        let mut a = Animations::default();
        glide(&mut a, 1, to, (0, 0, 0, 0));
        let (p, _) = a.tick(&vec![Beat { alive: true, eased, done: false }]);
        if (eased as f32) / 16_777_216.0 == e {
            assert_eq!(
                p[0].rect,
                Rect { x: lerp(0, to.x), y: lerp(0, to.y), w: lerp(100, to.w), h: lerp(100, to.h) },
                "{}",
                step
            );
        }
    }
}

#[test]
fn targets_start_over_or_jump() {
    let to = Rect { x: 1, y: 2, w: 3, h: 4 };
    let here = Rect { x: 0, y: 0, w: 3, h: 4 };
    let mut a = Animations::default();
    let inset = (7, 0, 7, 7);
    let other = Anim {
        window: Window(2),
        from: here,
        to,
        offsets: inset,
        start_ms: 40,
        duration_ms: 150,
    };
    assert_eq!(
        a.set_target(Window(2), to, 150, true, here, inset, 40),
        (Motion::Glide, true)
    );
    for (ms, visible, from, motion) in [
        (150, true, to, Motion::Rest),
        (0, true, here, Motion::Jump),
        (150, false, here, Motion::Jump),
    ] {
        glide(&mut a, 1, to, inset);
        assert_eq!(a.list().len(), 2);
        assert_eq!(motion_for(to, ms, visible, from), motion);
        assert_eq!(
            a.set_target(Window(1), to, ms, visible, from, inset, 50),
            (motion, false)
        );
        assert_eq!(*a.list(), vec![other]);
    }
    glide(&mut a, 1, to, inset);
    a.timer_started(9);
    assert_eq!(
        a.set_target(Window(1), here, 150, true, to, (0, 0, 0, 0), 90),
        (Motion::Glide, false)
    );
    let turned = Anim {
        window: Window(1),
        from: to,
        to: here,
        offsets: (0, 0, 0, 0),
        start_ms: 90,
        duration_ms: 150,
    };
    assert_eq!(*a.list(), vec![other, turned]);
}

fn hover() -> Hover {
    Hover {
        buttons: vec![0, 1, 0x7FFF],
        gui_flags: Some(0x01),
        hit: Some(Window(1)),
        foreground: Some(Window(2)),
        foreground_is_ours: false,
        foreground_owner: Some(Window(2)),
    }
}

#[test]
fn hovering_focuses_unless_busy() {
    let mut m = Mouse::default();
    assert!(m.moved());
    m.timer_armed(5);
    assert!(!m.moved());
    assert!(m.is_focus_timer(5) && !m.is_focus_timer(0));
    assert_eq!(m.tick(&hover()), Some(Window(1)));
    assert!(!m.is_focus_timer(5));
    assert_eq!(m.tick(&Hover { buttons: vec![0x8000], ..hover() }), None);
    assert_eq!(m.tick(&Hover { gui_flags: Some(0x04), ..hover() }), None);
    assert_eq!(m.tick(&Hover { gui_flags: Some(0x02), ..hover() }), None);
    assert_eq!(m.tick(&Hover { gui_flags: None, ..hover() }), Some(Window(1)));
    assert_eq!(m.tick(&Hover { hit: None, ..hover() }), None);
    assert_eq!(m.tick(&Hover { hit: Some(Window(2)), ..hover() }), None);
    assert_eq!(m.tick(&Hover { foreground_is_ours: true, ..hover() }), None);
    assert_eq!(m.tick(&Hover { foreground_owner: Some(Window(1)), ..hover() }), None);
}

#[test]
fn mouse_hook_follows_the_setting() {
    let mut m = Mouse::default();
    assert_eq!(m.set_enabled(true), Hook::Install);
    assert_eq!(m.set_enabled(false), Hook::Keep);
    m.hook_is(true);
    assert_eq!(m.set_enabled(true), Hook::Keep);
    assert_eq!(m.set_enabled(false), Hook::Remove);
    m.timer_armed(4);
    assert_eq!(m.destroy(), Some(4));
    assert_eq!(m.destroy(), None);
    assert!(is_modifier(VK_LWIN) && !is_modifier(VK_LEFT));
}
