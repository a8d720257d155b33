use wtm::config::{default_keybindings, load, parse_colorref, settle, Config};
use wtm::strmap::StrMap;

#[test]
fn colorref_swaps_channels() {
    assert_eq!(parse_colorref("#FF0000"), 0x0000FF);
    assert_eq!(parse_colorref("#0000FF"), 0xFF0000);
}

#[test]
fn malformed_colors_fall_back() {
    assert_eq!(parse_colorref("#12345"), 0x00F7A27A);
    assert_eq!(parse_colorref("red"), 0x00F7A27A);
    assert_eq!(parse_colorref("#+12345"), 0x00F7A27A);
    assert_eq!(parse_colorref("#-12345"), 0x00F7A27A);
    assert_eq!(parse_colorref("#1234567"), 0x00F7A27A);
    assert_eq!(parse_colorref("##00ff10"), 0x10FF00);
    assert_eq!(parse_colorref("123456"), 0x563412);
}

#[test]
fn settling_fills_in_and_migrates() {
    let mut cfg = Config::default();
    let mut user: StrMap<String> = StrMap::new();
    user.insert("shrink_ratio".to_string(), "alt+y".to_string());
    user.insert("focus_left".to_string(), "ctrl+alt+left".to_string());
    cfg.keybindings = user;
    cfg.workspaces = 99;
    cfg.app_rules.insert("Brave.EXE".to_string(), 3);
    let cfg = settle(cfg);
    assert_eq!(cfg.workspaces, 24);
    assert_eq!(cfg.keybindings.get("shrink_window").unwrap(), "alt+y");
    assert_eq!(cfg.keybindings.get("focus_left").unwrap(), "ctrl+alt+left");
    assert_eq!(cfg.keybindings.get("focus_right").unwrap(), "alt+right");
    assert!(cfg.keybindings.get("shrink_ratio").is_none());
    assert_eq!(cfg.app_rules.get("brave.exe"), Some(&3));
    assert!(cfg.app_rules.get("Brave.EXE").is_none());
}

#[test]
fn present_name_wins_over_old_one() {
    let mut cfg = Config::default();
    let mut user: StrMap<String> = StrMap::new();
    user.insert("grow_ratio".to_string(), "alt+y".to_string());
    user.insert("grow_window".to_string(), "alt+u".to_string());
    cfg.keybindings = user;
    cfg.workspaces = 0;
    let cfg = settle(cfg);
    assert_eq!(cfg.keybindings.get("grow_window").unwrap(), "alt+u");
    assert_eq!(cfg.workspaces, 1);
}

#[test]
fn nothing_read_gives_defaults() {
    let cfg = load(None);
    assert_eq!(cfg.workspaces, 9);
    assert_eq!(cfg.outer_gap, 10);
    assert_eq!(f32::from_bits(cfg.split_ratio.bits), 0.5);
    assert_eq!(cfg.float_classes, vec!["#32770", "OperationStatusWindow"]);
    assert_eq!(default_keybindings().get("exit").unwrap(), "alt+shift+e");
}
