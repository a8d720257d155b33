use wtm::agenda::{agenda_panel, on_agenda_click, paint_agenda};
use wtm::calendar::Meeting;
use wtm::config::{parse_colorref, LauncherEntry};
use wtm::layout::Rect;
use wtm::scan::{
    open_scan, paint_scan, scan_filtered, scan_panel, scan_rows_top, scan_start_menu,
    scan_toggle_bookmark, scan_toggle_entry, toggle_scan_panel, visit, within_depth, ScanStep, Visit,
};
use wtm::scene::{area, style, Draw, Sheet, Weight};
use wtm::settings::{
    paint_settings, settings_items, settings_panel, SettingsItem, SettingsState, SettingsStep,
};
use wtm::strmap::StrMap;
use wtm::tweaks::{
    adjust_thickness, adjust_workspaces, color_text, custom_chip_rect, on_tweaks_click,
    paint_tweaks, palette_color, stepper_rects, swatch_rect, tweaks_panel, tweaks_row_top,
    TweakClick,
};
use wtm::vk::{VK_ESCAPE, VK_RETURN};
use wtm::webapps::{BrowserChoice, Folders};

const BOUNDS: Rect = Rect { x: 0, y: 0, w: 1920, h: 1080 };

fn meeting(start: u64, subject: &str, location: &str, url: &str) -> Meeting {
    Meeting {
        start,
        end: start + 1800,
        start_hm: "10:00".to_string(),
        end_hm: "10:30".to_string(),
        subject: subject.to_string(),
        location: location.to_string(),
        join_url: url.to_string(),
    }
}

fn entry(name: &str, command: &str, args: &str) -> LauncherEntry {
    LauncherEntry {
        name: name.to_string(),
        command: command.to_string(),
        args: args.to_string(),
        dir: String::new(),
        key: String::new(),
        group: String::new(),
    }
}

fn pair(a: &str, b: &str) -> (String, String) {
    (a.to_string(), b.to_string())
}

fn words(marks: &Vec<Draw>) -> Vec<String> {
    let mut out: Vec<String> = Vec::new();
    for m in marks {
        if let Draw::Text { text, .. } = m {
            out.push(text.to_string());
        }
    }
    out
}

#[test]
fn agenda_is_sized_by_its_meetings() {
    assert_eq!(agenda_panel(&BOUNDS, 96, 0), Rect { x: 720, y: 216, w: 480, h: 108 });
    assert_eq!(agenda_panel(&BOUNDS, 96, 3).h, 176);
    assert_eq!(agenda_panel(&BOUNDS, 96, 99).h, 550);
}

#[test]
fn meetings_with_a_link_are_joined() {
    let list = vec![meeting(100, "a", "", ""), meeting(200, "b", "", "https://t")];
    let sh = Sheet { w: 480, h: 200, dpi: 96 };
    assert_eq!(on_agenda_click(&list, &sh, 19), None);
    assert_eq!(on_agenda_click(&list, &sh, 20), None);
    assert_eq!(on_agenda_click(&list, &sh, 54), Some("https://t".to_string()));
    assert_eq!(on_agenda_click(&list, &sh, 88), None);
}

#[test]
fn agenda_is_painted() {
    let sh = Sheet { w: 480, h: 200, dpi: 96 };
    let st = style(&None);
    let list = vec![meeting(100, "now", "Room", ""), meeting(900, "later", "Room", "https://t")];
    let k = paint_agenda(&sh, &st, &list, 100);
    assert_eq!(
        words(&k.marks),
        vec![
            "10:00–10:30", "now", "Room", "10:00–10:30", "later", "join ⇗",
            "click a meeting to join · Esc closes",
        ]
    );
    assert!(matches!(&k.marks[5], Draw::Round { area: a, .. } if *a == area(6, 20, 474, 54)));
    let k = paint_agenda(&sh, &st, &Vec::new(), 0);
    assert_eq!(words(&k.marks), vec!["no upcoming meetings", "click a meeting to join · Esc closes"]);
}

#[test]
fn tweaks_answer_clicks() {
    let sh = Sheet { w: 348, h: 234, dpi: 96 };
    assert_eq!(tweaks_panel(&BOUNDS, 96), Rect { x: 786, y: 423, w: 348, h: 234 });
    assert_eq!(tweaks_row_top(&sh, 3), 156);
    assert_eq!(
        stepper_rects(&sh, 54),
        (area(216, 59, 244, 83), area(244, 59, 300, 83), area(300, 59, 328, 83))
    );
    assert_eq!(custom_chip_rect(&sh, 122), area(244, 127, 328, 151));
    assert_eq!(swatch_rect(&sh, 156, 9), area(290, 161, 314, 185));
    assert_eq!(on_tweaks_click(&sh, 216, 59), TweakClick::Workspaces(-1));
    assert_eq!(on_tweaks_click(&sh, 327, 82), TweakClick::Workspaces(1));
    assert_eq!(on_tweaks_click(&sh, 250, 60), TweakClick::Nothing);
    assert_eq!(on_tweaks_click(&sh, 220, 93), TweakClick::Thickness(-1));
    assert_eq!(on_tweaks_click(&sh, 300, 93), TweakClick::Thickness(1));
    assert_eq!(on_tweaks_click(&sh, 244, 127), TweakClick::Custom);
    assert_eq!(on_tweaks_click(&sh, 20, 161), TweakClick::Color(0));
    assert_eq!(on_tweaks_click(&sh, 44, 161), TweakClick::Nothing);
    assert_eq!(on_tweaks_click(&sh, 313, 184), TweakClick::Color(9));
}

#[test]
fn steps_stay_within_limits() {
    assert_eq!(adjust_workspaces(9, 1), 10);
    assert_eq!(adjust_workspaces(24, 1), 24);
    assert_eq!(adjust_workspaces(1, -1), 1);
    assert_eq!(adjust_thickness(3, 1), Some(4));
    assert_eq!(adjust_thickness(12, 1), None);
    assert_eq!(adjust_thickness(0, -1), None);
    assert_eq!(adjust_thickness(40, 1), Some(12));
}

#[test]
fn chosen_color_reads_back() {
    assert_eq!(color_text(0x00BBAA0F), "#0faabb");
    for i in 0..10 {
        let hex = palette_color(i);
        assert_eq!(color_text(parse_colorref(&hex)), hex);
    }
    assert_eq!(palette_color(0), "#7aa2f7");
    assert_eq!(palette_color(9), "#cdd6f4");
}

#[test]
fn tweaks_are_painted() {
    let sh = Sheet { w: 348, h: 234, dpi: 96 };
    let st = style(&None);
    let k = paint_tweaks(&sh, &st, 9, 0, "#A6E3A1");
    assert_eq!(
        words(&k.marks),
        vec![
            "wtm appearance", "applies instantly", "workspaces", "−", "9", "+", "focus frame", "−",
            "off", "+", "accent color", "custom…", "#A6E3A1", "saved to config.toml · Esc closes",
        ]
    );
    let rings: Vec<&Draw> = k
        .marks
        .iter()
        .filter(|m| matches!(m, Draw::Fill { area: a, .. } if *a == area(107, 158, 137, 188)))
        .collect();
    assert_eq!(rings.len(), 1);
    assert_eq!(words(&paint_tweaks(&sh, &st, 9, 3, "").marks)[8], "3 px");
}

#[test]
fn settings_list_workspaces_rules_and_calendar() {
    let mut rules: StrMap<usize> = StrMap::new();
    let items = settings_items(2, &rules);
    assert_eq!(items.len(), 8);
    assert!(matches!(items[1], SettingsItem::Ws(1)));
    assert!(matches!(items[2], SettingsItem::RulesHeader));
    assert!(matches!(items[3], SettingsItem::NoRules));
    rules.insert("b.exe".to_string(), 2);
    rules.insert("a.exe".to_string(), 1);
    let items = settings_items(0, &rules);
    assert!(matches!(&items[1], SettingsItem::Rule(e, 1) if e == "a.exe"));
    assert!(matches!(&items[2], SettingsItem::Rule(e, 2) if e == "b.exe"));
    assert!(matches!(items[3], SettingsItem::CalHeader));
    assert!(matches!(items[6], SettingsItem::CalIcs));
    assert_eq!(settings_panel(&BOUNDS, 96, 8), Rect { x: 700, y: 373, w: 520, h: 334 });
    assert_eq!(settings_panel(&BOUNDS, 96, 99).h, 1000);
}

#[test]
fn workspace_is_named() {
    let sh = Sheet { w: 520, h: 400, dpi: 96 };
    let mut s = SettingsState::new();
    let mut names = vec!["web".to_string()];
    let mut rules: StrMap<usize> = StrMap::new();
    assert!(matches!(s.on_settings_click(3, &names, &mut rules, "", &sh, 53), SettingsStep::Nothing));
    assert!(matches!(s.on_settings_click(3, &names, &mut rules, "", &sh, 54), SettingsStep::Redraw));
    assert_eq!((s.editing, s.buffer.as_str()), (Some(0), "web"));
    s.on_settings_click(3, &names, &mut rules, "", &sh, 80);
    assert_eq!((s.editing, s.buffer.as_str()), (Some(1), ""));
    for c in " mail ".chars() {
        s.on_settings_char(c as u32, &None);
    }
    s.on_settings_char(0x0D, &None);
    assert!(matches!(s.on_settings_key(&mut names, 3, VK_RETURN), SettingsStep::Named));
    assert_eq!(names, vec!["web".to_string(), "mail".to_string(), String::new()]);
    assert_eq!((s.editing, s.buffer.as_str()), (None, ""));
    assert!(matches!(s.on_settings_key(&mut names, 3, VK_RETURN), SettingsStep::Nothing));
    assert!(matches!(s.on_settings_key(&mut names, 3, VK_ESCAPE), SettingsStep::Close));
}

#[test]
fn rule_is_removed_by_click() {
    let sh = Sheet { w: 520, h: 400, dpi: 96 };
    let mut s = SettingsState::new();
    let mut rules: StrMap<usize> = StrMap::new();
    rules.insert("a.exe".to_string(), 1);
    match s.on_settings_click(1, &Vec::new(), &mut rules, "", &sh, 54 + 52) {
        SettingsStep::Unpinned(e) => assert_eq!(e, "a.exe"),
        _ => panic!("still pinned"),
    }
    assert!(rules.entries.is_empty());
}

#[test]
fn calendar_source_is_chosen() {
    let sh = Sheet { w: 520, h: 400, dpi: 96 };
    let mut s = SettingsState::new();
    let mut names: Vec<String> = Vec::new();
    let mut rules: StrMap<usize> = StrMap::new();
    let row = |i: i32| 54 + 26 * i;
    assert!(matches!(s.on_settings_click(0, &names, &mut rules, "x", &sh, row(3)), SettingsStep::Calendar(c) if c.is_empty()));
    assert!(matches!(s.on_settings_click(0, &names, &mut rules, "x", &sh, row(4)), SettingsStep::Calendar(c) if c == "outlook"));
    s.on_settings_click(0, &names, &mut rules, "OUTLOOK", &sh, row(5));
    assert!(s.editing_cal && s.buffer.is_empty());
    s.on_settings_char(0x16, &Some(" C:\\a.ics\r\n".to_string()));
    assert!(matches!(s.on_settings_key(&mut names, 0, VK_RETURN), SettingsStep::Calendar(c) if c == "C:\\a.ics"));
    s.on_settings_click(0, &names, &mut rules, "old.ics", &sh, row(5));
    assert_eq!(s.buffer, "old.ics");
    assert!(matches!(s.on_settings_key(&mut names, 0, VK_ESCAPE), SettingsStep::Redraw));
    assert!(!s.editing_cal && s.buffer.is_empty());
    s.on_settings_char(0x41, &None);
    assert!(s.buffer.is_empty());
}

#[test]
fn settings_are_painted() {
    let sh = Sheet { w: 520, h: 400, dpi: 96 };
    let st = style(&None);
    let mut rules: StrMap<usize> = StrMap::new();
    rules.insert("a.exe".to_string(), 2);
    let names = vec!["web".to_string()];
    let mut s = SettingsState::new();
    s.editing_cal = true;
    s.buffer = "u".to_string();
    let k = paint_settings(&sh, &st, &s, 2, &names, &rules, "outlook");
    assert_eq!(
        words(&k.marks),
        vec![
            "wtm settings",
            "click a workspace to name it",
            "1",
            "web",
            "2",
            "(unnamed)",
            "pinned apps",
            "a.exe  →  workspace 2",
            "click to remove",
            "meetings calendar",
            "shows your next meeting next to the clock",
            "○  off",
            "●  outlook — classic Outlook calendar (Teams meetings)",
            "○  .ics file or URL:",
            "u_",
            "Enter saves · Esc closes",
        ]
    );
}

#[test]
fn footer_is_written_like_the_last_row() {
    let st = style(&None);
    let rules: StrMap<usize> = StrMap::new();
    let s = SettingsState::new();
    for (h, weight) in [(157, Weight::Normal), (160, Weight::Bold), (184, Weight::Normal)] {
        let sh = Sheet { w: 520, h, dpi: 96 };
        let k = paint_settings(&sh, &st, &s, 2, &Vec::new(), &rules, "");
        match k.marks.last() {
            Some(Draw::Text { text, pen, .. }) => {
                assert_eq!((text.as_str(), pen.weight), ("Enter saves · Esc closes", weight), "{}", h);
            }
            other => panic!("{:?}", other),
        }
    }
}

#[test]
fn start_menu_is_filtered_and_sorted() {
    assert_eq!(visit(true, &None, &None), Visit::Descend);
    assert_eq!(visit(false, &Some("Word".to_string()), &Some("LNK".to_string())), Visit::Add);
    assert_eq!(visit(false, &Some("Word".to_string()), &Some("url".to_string())), Visit::Skip);
    assert_eq!(visit(false, &Some("UNINSTALL Word".to_string()), &Some("lnk".to_string())), Visit::Skip);
    assert_eq!(visit(false, &Some("DÉSINSTALLER".to_string()), &Some("lnk".to_string())), Visit::Skip);
    assert_eq!(visit(false, &None, &Some("lnk".to_string())), Visit::Skip);
    assert!(within_depth(4) && !within_depth(5));
    let raw = vec![pair("Zed", "1"), pair("alpha", "2"), pair("ZED", "3"), pair("Beta", "4")];
    assert_eq!(scan_start_menu(&raw), vec![pair("alpha", "2"), pair("Beta", "4"), pair("Zed", "1")]);
}

#[test]
fn scan_panel_opens_and_closes() {
    let f = Folders::from_environment(None, None, None);
    assert!(toggle_scan_panel(true, &Vec::new(), &f, &Vec::new()).is_none());
    let s = toggle_scan_panel(false, &vec![pair("b", "1"), pair("a", "2")], &f, &Vec::new()).unwrap();
    assert_eq!(s.apps, vec![pair("a", "2"), pair("b", "1")]);
    assert!(!s.bookmarks && s.browsers.is_empty());
    assert_eq!(scan_panel(&BOUNDS, 96), Rect { x: 680, y: 180, w: 560, h: 720 });
    let sh = Sheet { w: 560, h: 720, dpi: 96 };
    assert_eq!(scan_rows_top(&sh, false), 72);
    assert_eq!(scan_rows_top(&sh, true), 98);
}

#[test]
fn choosing_an_app_twice_changes_nothing() {
    let mut list = vec![entry("x", "x", "")];
    scan_toggle_entry(&mut list, "Word", "C:\\word.lnk");
    assert_eq!((list.len(), list[1].name.as_str()), (2, "Word"));
    scan_toggle_entry(&mut list, "Word", "c:\\WORD.lnk");
    assert_eq!(list.len(), 1);
    let c = BrowserChoice { label: String::new(), exe: "b.exe".to_string(), args: "--app={url}".to_string() };
    scan_toggle_bookmark(&mut list, "Shop", "https://Shop", &c);
    assert_eq!((list[1].command.as_str(), list[1].args.as_str()), ("b.exe", "--app=https://Shop"));
    scan_toggle_bookmark(&mut list, "Shop", "https://shop", &c);
    assert_eq!(list.len(), 1);
    let d = BrowserChoice { label: String::new(), exe: String::new(), args: String::new() };
    scan_toggle_bookmark(&mut list, "Shop", "https://shop", &d);
    assert_eq!((list[1].command.as_str(), list[1].args.as_str()), ("https://shop", ""));
}

#[test]
fn bookmark_of_a_longer_address_stays() {
    let c = BrowserChoice { label: String::new(), exe: "brave.exe".to_string(), args: "--app={url}".to_string() };
    let mut list: Vec<LauncherEntry> = Vec::new();
    scan_toggle_bookmark(&mut list, "Mail", "https://x.org/mail", &c);
    scan_toggle_bookmark(&mut list, "Home", "https://x.org", &c);
    assert_eq!(list.len(), 2);
    scan_toggle_bookmark(&mut list, "Home", "https://X.org", &c);
    assert_eq!((list.len(), list[0].name.as_str()), (1, "Mail"));
}

#[test]
fn bookmark_is_a_word_of_the_arguments() {
    let c = BrowserChoice { label: String::new(), exe: "brave.exe".to_string(), args: "--app={url}".to_string() };
    for args in [
        "https://a.com",
        "--app=https://a.com --profile-directory=X",
        "--incognito HTTPS://A.com -n",
        "--app=\"https://a.com\"",
        "-new-window https://a.com --x",
        "'https://a.com'",
    ] {
        let mut e = entry("A", "b.exe", "");
        e.args = args.to_string();
        let mut list = vec![e];
        scan_toggle_bookmark(&mut list, "A", "https://a.com", &c);
        assert!(list.is_empty(), "{}", args);
    }
    for args in [
        "https://a.com/mail",
        "--app=https://a.company",
        "--app=https://b.com/?to=https://a.com",
        "xhttps://a.com",
        "",
    ] {
        let mut e = entry("A", "b.exe", "");
        e.args = args.to_string();
        let mut list = vec![e];
        scan_toggle_bookmark(&mut list, "A", "https://a.com", &c);
        assert_eq!(list.len(), 2, "{}", args);
    }
}

#[test]
fn click_takes_the_row_that_is_drawn() {
    let f = Folders::from_environment(None, None, None);
    let sh = Sheet { w: 560, h: 720, dpi: 96 };
    let apps = vec![pair("Alpha", "a.lnk"), pair("Beta", "b.lnk"), pair("Gamma", "c.lnk")];
    let mut s = open_scan(apps, false, &f, &Vec::new());
    s.offset = 7;
    let mut list: Vec<LauncherEntry> = Vec::new();
    assert!(matches!(s.on_click(&mut list, &sh, 72), ScanStep::Save));
    assert_eq!((list.len(), list[0].name.as_str()), (1, "Gamma"));
    assert!(matches!(s.on_click(&mut list, &sh, 72 + 26), ScanStep::Nothing));
}

#[test]
fn scan_answers_clicks_and_keys() {
    let f = Folders::from_environment(None, None, None);
    let present = vec!["C:\\Program Files\\Mozilla Firefox\\firefox.exe".to_string()];
    let sh = Sheet { w: 560, h: 720, dpi: 96 };
    let mut list: Vec<LauncherEntry> = Vec::new();
    let marks = vec![pair("One", "https://1"), pair("Two", "https://2")];
    let mut s = open_scan(marks, true, &f, &present);
    assert_eq!(s.browsers.len(), 2);
    assert!(matches!(s.on_click(&mut list, &sh, 71), ScanStep::Nothing));
    assert!(matches!(s.on_click(&mut list, &sh, 72), ScanStep::Redraw));
    assert_eq!(s.browser_idx, 1);
    s.on_click(&mut list, &sh, 97);
    assert_eq!(s.browser_idx, 0);
    assert!(matches!(s.on_click(&mut list, &sh, 98 + 26), ScanStep::Save));
    assert_eq!(list[0].args, "-new-window https://2");
    assert!(matches!(s.on_click(&mut list, &sh, 98 + 52), ScanStep::Nothing));
    s.offset = 1;
    s.on_char('o' as u32, &None);
    assert_eq!((s.offset, s.query.as_str()), (0, "o"));
    assert_eq!(scan_filtered(&s.apps, "w o").len(), 1);
    assert!(matches!(s.on_key(VK_ESCAPE), ScanStep::Close));
    assert!(matches!(s.on_key(VK_RETURN), ScanStep::Nothing));
    s.wheel(-120);
    assert_eq!(s.offset, 0);
    let many: Vec<(String, String)> = (0..12).map(|i| pair(&format!("{}", i), "p")).collect();
    let mut m = open_scan(many, false, &f, &present);
    m.wheel(-240);
    assert_eq!(m.offset, 6);
    m.wheel(-240);
    assert_eq!(m.offset, 7);
}

#[test]
fn scan_is_painted() {
    let f = Folders::from_environment(None, None, None);
    let st = style(&None);
    let sh = Sheet { w: 560, h: 200, dpi: 96 };
    let list = vec![entry("x", "B.exe", "--app=https://1/Y")];
    let s = open_scan(vec![pair("One", "https://1/y"), pair("Two", "https://2")], true, &f, &Vec::new());
    assert_eq!(
        words(&paint_scan(&sh, &st, &s, &list).marks),
        vec![
            "bookmarks (2)",
            "click to add / remove",
            "type to filter…",
            "open with:  Default browser — normal tab",
            "click to change",
            "One",
            "✓ in launcher",
            "Two",
            "+ add",
            "wheel scrolls · type to filter · Esc closes",
        ]
    );
    let mut t = open_scan(vec![pair("One", "C:\\b.EXE")], false, &f, &Vec::new());
    assert_eq!(words(&paint_scan(&sh, &st, &t, &list).marks)[3], "One");
    t.query = "zz".to_string();
    assert_eq!(
        words(&paint_scan(&sh, &st, &t, &list).marks),
        vec![
            "installed apps (1)", "click to add / remove", "filter: zz_", "no match",
            "wheel scrolls · type to filter · Esc closes",
        ]
    );
}
