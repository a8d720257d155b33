use wtm::config::{default_keybindings, LauncherEntry};
use wtm::keys::Modifiers;
use wtm::launcher::{
    launch_index, launcher_filtered, launcher_nav, launcher_row_of, launcher_rows, LRow,
};
use wtm::launcher_panel::{
    launcher_panel, launcher_visible_rows, paint_launcher, remove_entry, scroll, LauncherState,
    LauncherStep,
};
use wtm::layout::Rect;
use wtm::scene::{style, Draw, Sheet};
use wtm::strmap::StrMap;
use wtm::vk::{VK_BACK, VK_DELETE, VK_DOWN, VK_ESCAPE, VK_MENU, VK_RETURN, VK_UP};

fn entry(name: &str, command: &str, group: &str) -> LauncherEntry {
    LauncherEntry {
        name: name.to_string(),
        command: command.to_string(),
        args: String::new(),
        dir: String::new(),
        key: String::new(),
        group: group.to_string(),
    }
}

fn apps() -> Vec<LauncherEntry> {
    vec![
        entry("Terminal", "wt.exe", ""),
        entry("Mail", "mail.exe", "web"),
        entry("Editor", "code.exe", ""),
        entry("Grafana", "brave.exe", "Web"),
        entry("Web shop", "shop.exe", "tools"),
    ]
}

fn used() -> StrMap<(u32, u64)> {
    let mut m: StrMap<(u32, u64)> = StrMap::new();
    m.insert("brave.exe".to_string(), (5, 1000));
    m.insert("wt.exe".to_string(), (2, 1000));
    m
}

fn shown(rows: &Vec<LRow>) -> Vec<String> {
    rows.iter()
        .map(|r| match r {
            LRow::Header(h) => format!("# {}", h),
            LRow::Entry(o, i, inner) => format!("{} {} {}", o, i, inner),
        })
        .collect()
}

fn alt() -> Modifiers {
    Modifiers { alt: true, ctrl: false, shift: false, win: false }
}

fn none() -> Modifiers {
    Modifiers { alt: false, ctrl: false, shift: false, win: false }
}

const SHEET: Sheet = Sheet { w: 560, h: 300, dpi: 96 };

#[test]
fn browsing_puts_daily_drivers_first() {
    let none: StrMap<(u32, u64)> = StrMap::new();
    assert_eq!(launcher_filtered(&apps(), &none, 1000, " "), vec![2, 3, 1, 0, 4]);
    assert_eq!(launcher_filtered(&apps(), &used(), 1000, ""), vec![3, 0, 2, 1, 4]);
}

#[test]
fn prefix_beats_group_beats_substring_beats_fuzzy() {
    let none: StrMap<(u32, u64)> = StrMap::new();
    assert_eq!(launcher_filtered(&apps(), &none, 0, "WEB"), vec![4, 3, 1]);
    assert_eq!(launcher_filtered(&apps(), &none, 0, "a"), vec![3, 1, 0]);
    assert_eq!(launcher_filtered(&apps(), &none, 0, "cdx"), vec![2]);
    assert!(launcher_filtered(&apps(), &none, 0, "zzz").is_empty());
}

#[test]
fn rows_are_grouped_while_browsing() {
    let none: StrMap<(u32, u64)> = StrMap::new();
    assert_eq!(
        shown(&launcher_rows(&apps(), &none, 0, "")),
        vec![
            "# ungrouped", "0 2 false", "1 0 false", "# tools", "2 4 true", "# web", "3 3 true",
            "4 1 true",
        ]
    );
    assert_eq!(
        shown(&launcher_rows(&apps(), &used(), 1000, "")),
        vec![
            "# frequent", "0 3 false", "1 0 false", "# ungrouped", "2 0 false", "3 2 false",
            "# tools", "4 4 true", "# web", "5 3 true", "6 1 true",
        ]
    );
    assert_eq!(shown(&launcher_rows(&apps(), &none, 0, "web")), vec!["0 4 false", "1 3 false", "2 1 false"]);
    let loose = vec![entry("b", "b", ""), entry("a", "a", "")];
    assert_eq!(shown(&launcher_rows(&loose, &used(), 0, "")), vec!["0 1 false", "1 0 false"]);
}

#[test]
fn navigation_skips_headers() {
    let rows = launcher_rows(&apps(), &StrMap::new(), 0, "");
    assert_eq!(launcher_nav(&rows), vec![2, 0, 4, 3, 1]);
    assert_eq!(launcher_row_of(&rows, 2), 4);
    assert_eq!(launcher_row_of(&rows, 9), 0);
}

#[test]
fn launching_is_counted() {
    let mut m = used();
    let l = launch_index(&apps(), &mut m, 2000, 3).unwrap();
    assert_eq!((l.command.as_str(), l.args.as_str(), l.dir.as_str()), ("brave.exe", "", ""));
    assert_eq!(m.get("brave.exe"), Some(&(6, 2000)));
    assert!(launch_index(&apps(), &mut m, 3000, 5).is_none());
    assert_eq!(m.entries.len(), 2);
}

#[test]
fn launcher_panel_grows_with_its_rows() {
    let b = Rect { x: 100, y: 50, w: 1920, h: 1080 };
    assert_eq!(launcher_panel(&b, 96, 3), Rect { x: 780, y: 266, w: 560, h: 180 });
    assert_eq!(launcher_panel(&b, 96, 0), Rect { x: 780, y: 266, w: 560, h: 124 });
    assert_eq!(launcher_panel(&b, 96, 1000).h, 40 + 28 * 25);
    assert_eq!(launcher_visible_rows(&SHEET), 7);
    assert_eq!(launcher_visible_rows(&Sheet { w: 1, h: 1, dpi: 96 }), 1);
}

#[test]
fn wheel_moves_by_three() {
    assert_eq!(scroll(5, 120, 9), 2);
    assert_eq!(scroll(1, 240, 9), 0);
    assert_eq!(scroll(5, -240, 9), 9);
    assert_eq!(scroll(5, 119, 9), 5);
    assert_eq!(scroll(5, -119, 9), 5);
    let mut p = LauncherState::new();
    p.wheel(-120, 20, 8);
    assert_eq!(p.offset, 3);
    p.wheel(-1200, 20, 8);
    assert_eq!(p.offset, 12);
    p.wheel(-120, 3, 8);
    assert_eq!(p.offset, 0);
}

#[test]
fn clicks_follow_the_columns() {
    let mut list = apps();
    let rows = launcher_rows(&list, &StrMap::new(), 0, "web");
    let mut p = LauncherState::new();
    assert!(matches!(p.on_launcher_click(&mut list, &rows, &SHEET, 10, 53), LauncherStep::Nothing));
    assert!(matches!(p.on_launcher_click(&mut list, &rows, &SHEET, 10, 54), LauncherStep::Launch(4)));
    assert!(matches!(p.on_launcher_click(&mut list, &rows, &SHEET, 399, 82), LauncherStep::Launch(3)));
    assert!(matches!(p.on_launcher_click(&mut list, &rows, &SHEET, 10, 54 + 28 * 3), LauncherStep::Nothing));
    p.message = "old".to_string();
    assert!(matches!(p.on_launcher_click(&mut list, &rows, &SHEET, 400, 82), LauncherStep::Redraw));
    assert_eq!(p.capturing, Some(3));
    assert_eq!(p.message, "");
    p.selected = 2;
    assert!(matches!(p.on_launcher_click(&mut list, &rows, &SHEET, 516, 82), LauncherStep::Save));
    assert_eq!(p.selected, 0);
    assert_eq!(list.len(), 4);
    assert!(list.iter().all(|e| e.name != "Grafana"));
    let rows = launcher_rows(&list, &StrMap::new(), 0, "");
    assert!(matches!(p.on_launcher_click(&mut list, &rows, &SHEET, 10, 54), LauncherStep::Nothing));
}

#[test]
fn removal_takes_one_entry() {
    let mut list = vec![entry("a", "x", ""), entry("b", "x", ""), entry("a", "x", "g"), entry("a", "y", "")];
    remove_entry(&mut list, 0);
    assert_eq!(list.len(), 3);
    assert_eq!(list[0].name, "b");
    assert_eq!((list[1].name.as_str(), list[1].command.as_str()), ("a", "x"));
    assert_eq!(list[1].group, "g");
    remove_entry(&mut list, 2);
    assert_eq!(list.len(), 2);
    assert_eq!(list[1].group, "g");
}

#[test]
fn groups_are_one_whatever_their_case() {
    let none: StrMap<(u32, u64)> = StrMap::new();
    let list = vec![
        entry("a", "a", "ÉCOLE"),
        entry("b", "b", ""),
        entry("c", "c", "école"),
        entry("d", "d", "École"),
    ];
    assert_eq!(
        shown(&launcher_rows(&list, &none, 0, "")),
        vec!["# ungrouped", "0 1 false", "# école", "1 0 true", "2 2 true", "3 3 true"]
    );
}

#[test]
fn typing_starts_the_list_over() {
    let mut p = LauncherState::new();
    p.selected = 3;
    p.offset = 2;
    p.message = "m".to_string();
    p.on_launcher_char(0x1B, &None);
    assert_eq!((p.selected, p.offset, p.message.as_str()), (3, 2, ""));
    p.on_launcher_char(0x61, &None);
    assert_eq!((p.selected, p.offset, p.query.as_str()), (0, 0, "a"));
    p.capturing = Some(0);
    p.on_launcher_char(0x62, &None);
    assert_eq!(p.query, "a");
}

#[test]
fn shortcut_is_captured() {
    let mut list = apps();
    let b = default_keybindings();
    let mut p = LauncherState::new();
    p.capturing = Some(0);
    assert!(matches!(p.handle_key_capture(&mut list, &b, 0, VK_MENU, alt()), LauncherStep::Nothing));
    assert!(matches!(p.handle_key_capture(&mut list, &b, 0, 0x4F, none()), LauncherStep::Redraw));
    assert_eq!(p.message, "use at least one of Alt / Ctrl / Win");
    assert!(matches!(p.handle_key_capture(&mut list, &b, 0, 0xFE, alt()), LauncherStep::Redraw));
    assert_eq!(p.message, "that key is not supported");
    let taken = b.get("toggle_pause").unwrap().to_string();
    assert_eq!(taken, "alt+p");
    assert!(matches!(p.handle_key_capture(&mut list, &b, 0, 0x50, alt()), LauncherStep::Redraw));
    assert_eq!(p.message, "conflicts with toggle_pause");
    assert_eq!(p.capturing, Some(0));
    let win = Modifiers { alt: false, ctrl: false, shift: false, win: true };
    assert!(matches!(p.handle_key_capture(&mut list, &b, 0, 0x54, win), LauncherStep::Save));
    assert_eq!(p.capturing, None);
    assert_eq!(list[0].key, "win+t");
    assert_eq!(p.message, "win+t  →  Terminal  ✓");
    p.capturing = Some(1);
    assert!(matches!(p.handle_key_capture(&mut list, &b, 1, 0x54, win), LauncherStep::Redraw));
    assert_eq!(p.message, "conflicts with Terminal");
    assert_eq!(list[1].key, "");
    assert!(matches!(p.handle_key_capture(&mut list, &b, 0, VK_BACK, none()), LauncherStep::Save));
    assert_eq!((list[0].key.as_str(), p.message.as_str()), ("", "shortcut cleared"));
    assert!(matches!(p.handle_key_capture(&mut list, &b, 7, VK_DELETE, none()), LauncherStep::Save));
    p.capturing = Some(2);
    assert!(matches!(p.handle_key_capture(&mut list, &b, 2, VK_ESCAPE, none()), LauncherStep::Redraw));
    assert_eq!((p.capturing, p.message.as_str()), (None, ""));
}

#[test]
fn arrows_wrap_and_scroll_into_view() {
    let mut list = apps();
    let b = default_keybindings();
    let rows = launcher_rows(&list, &StrMap::new(), 0, "");
    let mut p = LauncherState::new();
    assert!(matches!(p.on_launcher_key(&mut list, &b, &rows, 2, VK_UP, none()), LauncherStep::Redraw));
    assert_eq!((p.selected, p.offset), (4, 6));
    p.on_launcher_key(&mut list, &b, &rows, 2, VK_DOWN, none());
    assert_eq!((p.selected, p.offset), (0, 0));
    p.on_launcher_key(&mut list, &b, &rows, 2, VK_DOWN, none());
    p.on_launcher_key(&mut list, &b, &rows, 2, VK_DOWN, none());
    assert_eq!((p.selected, p.offset), (2, 2));
    assert!(matches!(p.on_launcher_key(&mut list, &b, &rows, 2, VK_RETURN, none()), LauncherStep::Launch(4)));
    assert!(matches!(p.on_launcher_key(&mut list, &b, &rows, 2, VK_ESCAPE, none()), LauncherStep::Close));
    assert!(matches!(p.on_launcher_key(&mut list, &b, &rows, 2, 0x41, none()), LauncherStep::Nothing));
}

#[test]
fn unmatched_text_is_run() {
    let mut list = apps();
    let b = default_keybindings();
    let mut p = LauncherState::new();
    p.query = " notepad ".to_string();
    match p.on_launcher_key(&mut list, &b, &Vec::new(), 5, VK_RETURN, none()) {
        LauncherStep::Run(c) => assert_eq!(c, "notepad"),
        _ => panic!("nothing run"),
    }
    p.query = "  ".to_string();
    assert!(matches!(p.on_launcher_key(&mut list, &b, &Vec::new(), 5, VK_RETURN, none()), LauncherStep::Nothing));
}

fn words(marks: &Vec<Draw>) -> Vec<String> {
    let mut out: Vec<String> = Vec::new();
    for m in marks {
        if let Draw::Text { text, .. } = m {
            out.push(text.to_string());
        }
    }
    out
}

#[test]
fn launcher_is_painted() {
    let st = style(&None);
    let list = apps();
    let rows = launcher_rows(&list, &StrMap::new(), 0, "");
    let p = LauncherState::new();
    let k = paint_launcher(&SHEET, &st, &p, &list, &rows, &vec![60; rows.len()]);
    let w = words(&k.marks);
    assert_eq!(w[0], "»  type to search apps…");
    assert_eq!(w[1], "UNGROUPED");
    assert_eq!(&w[2..6], &["Editor", "code.exe", "+ set key", "✕"]);
    assert_eq!(w[w.len() - 1], "1 more — scroll or type to filter");
    let mut q = LauncherState::new();
    q.query = "zzz".to_string();
    let k = paint_launcher(&SHEET, &st, &q, &list, &Vec::new(), &Vec::new());
    assert_eq!(
        words(&k.marks),
        vec!["»  zzz_", "↵  run \"zzz\"", "add & organize apps from the bar's ✎ button"]
    );
}
