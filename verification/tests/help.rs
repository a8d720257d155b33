use wtm::config::default_keybindings;
use wtm::help::{
    filtered_entries, help_panel, paint_help, panel_metrics, set_keybinds, HelpState, HelpStep,
};
use wtm::keys::Modifiers;
use wtm::layout::Rect;
use wtm::scene::{style, Draw, Sheet};
use wtm::vk::{VK_ESCAPE, VK_SHIFT};

const SHEET: Sheet = Sheet { w: 600, h: 400, dpi: 96 };

fn mods(alt: bool, ctrl: bool) -> Modifiers {
    Modifiers { alt, ctrl, shift: false, win: false }
}

fn words(marks: &Vec<Draw>) -> Vec<String> {
    let mut out: Vec<String> = Vec::new();
    for m in marks {
        if let Draw::Text { text, .. } = m {
            out.push(text.to_string());
        }
    }
    out
}

#[test]
fn rows_show_what_is_bound() {
    let mut b = default_keybindings();
    let rows = set_keybinds(&b);
    assert_eq!(rows.len(), b.entries.len());
    b.insert("toggle_pause".to_string(), "ctrl+alt+p".to_string());
    b.remove("exit");
    let rows = set_keybinds(&b);
    let pause = rows.iter().find(|e| e.action == "toggle_pause").unwrap();
    assert_eq!(pause.chord, "ctrl+alt+p");
    let exit = rows.iter().find(|e| e.action == "exit").unwrap();
    assert_eq!(exit.chord, "alt+shift+e");
}

#[test]
fn search_filters_rows() {
    let rows = set_keybinds(&default_keybindings());
    assert_eq!(filtered_entries(&rows, "").len(), rows.len());
    let some = filtered_entries(&rows, "swap_l");
    assert!(some.iter().any(|e| e.action == "swap_left"));
    assert!(some.len() < rows.len());
    assert!(filtered_entries(&rows, "qqqqqqqq").is_empty());
}

#[test]
fn help_panel_is_sized_by_its_rows() {
    let b = Rect { x: 0, y: 0, w: 1920, h: 1080 };
    assert_eq!(help_panel(&b, 96, 10), Rect { x: 660, y: 334, w: 600, h: 412 });
    assert_eq!(help_panel(&b, 96, 99).h, 1000);
    let m = panel_metrics(&SHEET);
    assert_eq!((m.pad, m.line_h, m.rows_top), (20, 26, 80));
}

#[test]
fn row_is_rebound() {
    let mut b = default_keybindings();
    let mut rows = set_keybinds(&b);
    let mut s = HelpState::new();
    assert!(!s.on_panel_click(&SHEET, 79, &rows));
    assert!(s.on_panel_click(&SHEET, 80, &rows));
    let action = rows[0].action.to_string();
    assert_eq!(s.rebinding, Some(action.to_string()));
    assert!(!s.on_panel_char(0x41));
    assert!(matches!(s.on_panel_key(&mut rows, &mut b, VK_SHIFT, mods(true, false)), HelpStep::Nothing));
    assert!(matches!(s.on_panel_key(&mut rows, &mut b, 0x4F, mods(false, false)), HelpStep::Redraw));
    assert_eq!(s.message, "use at least one of Alt / Ctrl / Win");
    s.on_panel_key(&mut rows, &mut b, 0xFE, mods(true, false));
    assert_eq!(s.message, "that key is not supported");
    assert!(matches!(s.on_panel_key(&mut rows, &mut b, 0x50, mods(true, false)), HelpStep::Redraw));
    assert_eq!(s.message, "conflicts with toggle_pause");
    match s.on_panel_key(&mut rows, &mut b, 0x4F, mods(true, true)) {
        HelpStep::Rebound(a, c) => assert_eq!((a.as_str(), c.as_str()), (action.as_str(), "ctrl+alt+o")),
        _ => panic!("not bound"),
    }
    assert_eq!(rows[0].chord, "ctrl+alt+o");
    assert_eq!(b.get(&action).unwrap(), "ctrl+alt+o");
    s.rebound(&action, "ctrl+alt+o", None);
    assert_eq!(s.message, format!("{} = ctrl+alt+o  ✓ saved", action));
    assert_eq!(s.rebinding, None);
    s.rebound("exit", "alt+x", Some("disk full".to_string()));
    assert_eq!(s.message, "exit = alt+x  (config not saved: disk full)");
}

#[test]
fn escape_cancels_then_closes() {
    let mut b = default_keybindings();
    let mut rows = set_keybinds(&b);
    let mut s = HelpState::new();
    s.rebinding = Some("exit".to_string());
    s.message = "m".to_string();
    assert!(matches!(s.on_panel_key(&mut rows, &mut b, VK_ESCAPE, mods(false, false)), HelpStep::Redraw));
    assert_eq!((s.rebinding.as_deref(), s.message.as_str()), (None, ""));
    assert!(matches!(s.on_panel_key(&mut rows, &mut b, VK_ESCAPE, mods(false, false)), HelpStep::Close));
    assert!(matches!(s.on_panel_key(&mut rows, &mut b, 0x41, mods(true, false)), HelpStep::Nothing));
}

#[test]
fn search_takes_plain_letters() {
    let mut s = HelpState::new();
    s.message = "m".to_string();
    assert!(!s.on_panel_char(0x7F));
    assert_eq!(s.message, "m");
    assert!(s.on_panel_char(0x7E));
    assert!(!s.on_panel_char(0xE9));
    assert_eq!((s.query.as_str(), s.message.as_str()), ("~", ""));
    assert!(s.on_panel_char(0x08));
    assert_eq!(s.query, "");
}

#[test]
fn help_is_painted() {
    let rows = set_keybinds(&default_keybindings());
    let mut s = HelpState::new();
    let w = words(&paint_help(&SHEET, &style(&None), &s, &rows).marks);
    assert_eq!(&w[0..3], &["wtm keybindings", "click a row, then press the new shortcut", "type to search…"]);
    assert_eq!(w[3], rows[0].chord);
    assert_eq!(w[w.len() - 1], "Esc closes · drag a window onto another to swap");
    assert_eq!(w.len(), 4 + 2 * 11);
    s.query = "qqqqqqqq".to_string();
    s.message = "hello".to_string();
    assert_eq!(
        words(&paint_help(&SHEET, &style(&None), &s, &rows).marks)[2..],
        ["search: qqqqqqqq_", "no match", "hello"]
    );
    s.query = String::new();
    s.rebinding = Some(rows[0].action.to_string());
    assert_eq!(words(&paint_help(&SHEET, &style(&None), &s, &rows).marks)[3], "press keys…");
}
