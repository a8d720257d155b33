use wtm::config::LauncherEntry;
use wtm::layout::Rect;
use wtm::manager::{manager_panel, paint_mgr, MgrState, MgrStep};
use wtm::scene::{style, Draw, Sheet, Weight};
use wtm::vk::{VK_ESCAPE, VK_RETURN};
use wtm::webapps::{BrowserChoice, Folders};

const SHEET: Sheet = Sheet { w: 640, h: 400, dpi: 96 };

fn foot_weight(marks: &Vec<Draw>) -> Option<Weight> {
    match marks.last() {
        Some(Draw::Text { pen, .. }) => Some(pen.weight),
        _ => None,
    }
}

fn entry(name: &str, command: &str) -> LauncherEntry {
    LauncherEntry {
        name: name.to_string(),
        command: command.to_string(),
        args: String::new(),
        dir: String::new(),
        key: String::new(),
        group: String::new(),
    }
}

fn folders() -> Folders {
    Folders::from_environment(None, None, None)
}

fn present() -> Vec<String> {
    vec!["C:\\Program Files\\Mozilla Firefox\\firefox.exe".to_string()]
}

fn words(marks: &Vec<Draw>) -> Vec<String> {
    let mut out: Vec<String> = Vec::new();
    for m in marks {
        if let Draw::Text { text, .. } = m {
            out.push(text.to_string());
        }
    }
    out
}

#[test]
fn manager_panel_keeps_within_bounds() {
    let b = Rect { x: 0, y: 0, w: 1920, h: 1080 };
    assert_eq!(manager_panel(&b, 96), Rect { x: 640, y: 160, w: 640, h: 760 });
    let low = Rect { x: 0, y: 0, w: 1280, h: 720 };
    assert_eq!(manager_panel(&low, 96), Rect { x: 320, y: 90, w: 640, h: 540 });
}

#[test]
fn action_rows_answer_clicks() {
    let mut s = MgrState::new();
    let mut list: Vec<LauncherEntry> = Vec::new();
    let mut at = |s: &mut MgrState, y: i32| s.on_mgr_click(&mut list, &folders(), &present(), &SHEET, 50, y);
    assert_eq!(at(&mut s, 53), MgrStep::Nothing);
    assert_eq!(at(&mut s, 54), MgrStep::Browse);
    assert_eq!(at(&mut s, 82), MgrStep::Scan);
    assert_eq!(at(&mut s, 138), MgrStep::Import);
    s.message = "m".to_string();
    assert_eq!(at(&mut s, 110), MgrStep::Redraw);
    assert_eq!(s.web_url, Some(String::new()));
    assert_eq!(s.message, "");
    assert_eq!(at(&mut s, 54), MgrStep::Nothing);
}

#[test]
fn web_app_is_added_in_steps() {
    let mut s = MgrState::new();
    let mut list: Vec<LauncherEntry> = Vec::new();
    s.web_url = Some(String::new());
    assert_eq!(s.on_mgr_key(&mut list, &folders(), &present(), VK_RETURN), MgrStep::Nothing);
    for c in "www.a.b/c".chars() {
        s.on_mgr_char(c as u32, &None);
    }
    assert_eq!(s.on_mgr_key(&mut list, &folders(), &present(), VK_RETURN), MgrStep::Redraw);
    let (url, choices) = s.web_pick.as_ref().unwrap();
    assert_eq!(url, "https://www.a.b/c");
    assert_eq!(choices.len(), 2);
    assert_eq!(s.on_mgr_key(&mut list, &folders(), &present(), 0x39), MgrStep::Nothing);
    assert_eq!(s.on_mgr_key(&mut list, &folders(), &present(), 0x31), MgrStep::Redraw);
    assert_eq!(s.adding.as_deref(), Some("C:\\Program Files\\Mozilla Firefox\\firefox.exe"));
    assert_eq!(s.adding_args, "-new-window https://www.a.b/c");
    assert_eq!(s.name_buf, "a.b");
    s.on_mgr_char(0x08, &None);
    s.on_mgr_char(0x16, &Some("log ".to_string()));
    assert_eq!(s.on_mgr_key(&mut list, &folders(), &present(), VK_RETURN), MgrStep::Save);
    assert_eq!(list.len(), 1);
    assert_eq!(list[0].name, "a.log");
    assert_eq!(list[0].args, "-new-window https://www.a.b/c");
    assert_eq!(s.message, "added — assign a shortcut from the launcher's key chip");
    assert!(s.adding.is_none() && s.adding_args.is_empty() && s.name_buf.is_empty());
}

#[test]
fn browser_is_picked_by_click() {
    let mut s = MgrState::new();
    let mut list: Vec<LauncherEntry> = Vec::new();
    s.web_url = Some("x".to_string());
    s.on_mgr_key(&mut list, &folders(), &Vec::new(), VK_RETURN);
    assert_eq!(s.on_mgr_click(&mut list, &folders(), &present(), &SHEET, 9, 53), MgrStep::Nothing);
    assert_eq!(s.on_mgr_click(&mut list, &folders(), &present(), &SHEET, 9, 82), MgrStep::Nothing);
    assert_eq!(s.on_mgr_click(&mut list, &folders(), &present(), &SHEET, 9, 54), MgrStep::Redraw);
    assert_eq!(s.adding.as_deref(), Some("https://x"));
    assert_eq!(s.adding_args, "");
}

#[test]
fn escape_leaves_one_step_at_a_time() {
    let mut s = MgrState::new();
    let mut list: Vec<LauncherEntry> = vec![entry("a", "a")];
    s.web_url = Some("x".to_string());
    assert_eq!(s.on_mgr_key(&mut list, &folders(), &present(), VK_ESCAPE), MgrStep::Redraw);
    assert!(s.web_url.is_none());
    s.web_pick = Some(("u".to_string(), Vec::new()));
    assert_eq!(s.on_mgr_key(&mut list, &folders(), &present(), VK_ESCAPE), MgrStep::Redraw);
    assert!(s.web_pick.is_none());
    s.add_app_flow(Some("C:\\tools\\evars.bat".to_string()));
    assert_eq!((s.adding.as_deref(), s.name_buf.as_str()), (Some("C:\\tools\\evars.bat"), "evars"));
    s.add_app_flow(None);
    assert!(s.adding.is_some());
    assert_eq!(s.on_mgr_key(&mut list, &folders(), &present(), VK_ESCAPE), MgrStep::Redraw);
    assert!(s.adding.is_none());
    s.group_edit = Some(0);
    s.group_buf = "g".to_string();
    assert_eq!(s.on_mgr_key(&mut list, &folders(), &present(), VK_ESCAPE), MgrStep::Redraw);
    assert_eq!((s.group_edit, s.group_buf.as_str(), list[0].group.as_str()), (None, "", ""));
    assert_eq!(s.on_mgr_key(&mut list, &folders(), &present(), VK_ESCAPE), MgrStep::Close);
    assert_eq!(s.on_mgr_key(&mut list, &folders(), &present(), VK_RETURN), MgrStep::Nothing);
}

#[test]
fn unnamed_app_takes_its_file_name() {
    let mut s = MgrState::new();
    let mut list: Vec<LauncherEntry> = Vec::new();
    assert!(!s.commit_new_app(&mut list));
    s.add_app_flow(Some("C:\\tools\\evars.bat".to_string()));
    s.name_buf = "  ".to_string();
    assert!(s.commit_new_app(&mut list));
    assert_eq!((list[0].name.as_str(), list[0].command.as_str()), ("evars", "C:\\tools\\evars.bat"));
}

#[test]
fn entry_fields_answer_clicks() {
    let mut s = MgrState::new();
    let mut list = vec![entry("shop", "https://shop"), entry("tool", "tool.exe")];
    let top = 20 + 28 + 6 + 112 + 6;
    assert_eq!(s.on_mgr_click(&mut list, &folders(), &present(), &SHEET, 320, top - 1), MgrStep::Nothing);
    assert_eq!(s.on_mgr_click(&mut list, &folders(), &present(), &SHEET, 100, top), MgrStep::Nothing);
    assert_eq!(s.on_mgr_click(&mut list, &folders(), &present(), &SHEET, 450, top), MgrStep::Keep);
    assert_eq!(list[0].args, "-new-window https://shop");
    assert_eq!(s.on_mgr_click(&mut list, &folders(), &present(), &SHEET, 450, top + 28), MgrStep::Nothing);
    assert_eq!(s.on_mgr_click(&mut list, &folders(), &present(), &SHEET, 310, top + 28), MgrStep::Redraw);
    assert_eq!(s.group_edit, Some(1));
    s.on_mgr_char('W' as u32, &None);
    assert_eq!(s.on_mgr_key(&mut list, &folders(), &present(), VK_RETURN), MgrStep::Keep);
    assert_eq!(list[1].group, "w");
    assert_eq!(s.on_mgr_click(&mut list, &folders(), &present(), &SHEET, 596, top), MgrStep::Removed);
    assert_eq!(list.len(), 1);
    assert_eq!(list[0].name, "tool");
}

#[test]
fn dialogs_hold_the_panel_open() {
    let mut s = MgrState::new();
    assert!(s.on_focus_lost());
    s.dialog(true);
    assert!(!s.on_focus_lost());
    s.dialog(false);
    assert!(s.on_focus_lost());
    assert!(!s.import_bookmarks_flow(0));
    assert_eq!(s.message, "no bookmarks found in that file");
    assert!(s.import_bookmarks_flow(3));
    s.wheel(-120, 10);
    assert_eq!(s.offset, 3);
    s.wheel(-1200, 10);
    assert_eq!(s.offset, 7);
}

#[test]
fn manager_is_painted() {
    let st = style(&None);
    let mut s = MgrState::new();
    let k = paint_mgr(&SHEET, &st, &s, &Vec::new());
    assert_eq!(
        words(&k.marks),
        vec![
            "manage apps",
            "click a field to edit it",
            "+  add app (browse…)",
            "⊞  scan installed apps…",
            "🌐  add web app (URL)…",
            "★  import bookmarks (.html)…",
            "no apps yet — use the actions above",
            "group chip types a category · 🌐 chip cycles the browser · Esc closes",
        ]
    );
    s.group_edit = Some(1);
    s.group_buf = "to".to_string();
    let list = vec![entry("shop", "https://shop"), entry("tool", "tool.exe")];
    let w = words(&paint_mgr(&SHEET, &st, &s, &list).marks);
    assert_eq!(&w[6..13], &["shop", "+ group", "🌐 Default", "✕", "tool", "to_", "✕"]);
    s.web_url = Some("a.b".to_string());
    assert_eq!(words(&paint_mgr(&SHEET, &st, &s, &list).marks)[0], "web app URL:  a.b_");
    s.web_url = None;
    s.web_pick = Some(("https://a".to_string(), Vec::new()));
    assert_eq!(words(&paint_mgr(&SHEET, &st, &s, &list).marks)[0], "open https://a with:");
    assert_eq!(foot_weight(&paint_mgr(&SHEET, &st, &s, &list).marks), Some(Weight::Bold));
    let choice = BrowserChoice { label: "B".to_string(), exe: String::new(), args: String::new() };
    s.web_pick = Some(("https://a".to_string(), vec![choice]));
    assert_eq!(foot_weight(&paint_mgr(&SHEET, &st, &s, &list).marks), Some(Weight::Normal));
    s.web_pick = None;
    s.adding = Some("C:\\b.exe".to_string());
    s.adding_args = "-x".to_string();
    assert_eq!(
        words(&paint_mgr(&SHEET, &st, &s, &list).marks),
        vec!["name:  _", "C:\\b.exe -x", "Enter saves · Esc cancels"]
    );
}
