use wtm::keys::{
    action_to_command, actions, chords_overlap, expand, format_captured, is_numbered, parse_chord,
    vk_to_name,
};
use wtm::wm::{Command, Dir};

#[test]
fn parses_basic_chords() {
    let (m, vk) = parse_chord("alt+shift+left").unwrap();
    assert_eq!(vk, 0x25);
    assert!(m.alt && m.shift);
    assert_eq!(parse_chord("alt+j").unwrap().1, 'J' as u32);
    assert!(parse_chord("alt+j+k").is_none());
    assert!(parse_chord("alt").is_none());
}

#[test]
fn numbered_expansion() {
    assert_eq!(expand("alt+{n}", 3), "alt+3");
    assert!(parse_chord(&expand("alt+shift+{n}", 9)).is_some());
}

#[test]
fn overlap_detection() {
    assert!(chords_overlap("alt+j", "alt+j"));
    assert!(!chords_overlap("alt+j", "alt+shift+j"));
    assert!(chords_overlap("alt+5", "alt+{n}"));
    assert!(!chords_overlap("ctrl+5", "alt+{n}"));
}

#[test]
fn every_default_parses_and_maps() {
    for (action, chord, _) in actions() {
        let concrete = expand(chord, 1);
        assert!(parse_chord(&concrete).is_some(), "bad default: {}", chord);
        assert!(action_to_command(action, Some(0)).is_some(), "unmapped action: {}", action);
    }
}

#[test]
fn no_default_conflicts() {
    let all = actions();
    for (i, (_, a, _)) in all.iter().enumerate() {
        for (_, b, _) in all.iter().skip(i + 1) {
            assert!(!chords_overlap(a, b), "{} conflicts with {}", a, b);
        }
    }
}

#[test]
fn captured_chord_round_trips() {
    let c = format_captured(true, false, true, false, 0x25, false).unwrap();
    assert_eq!(c, "alt+shift+left");
    assert!(parse_chord(&c).is_some());
    let n = format_captured(true, true, false, false, 0x35, true).unwrap();
    assert_eq!(n, "ctrl+alt+{n}");
}

#[test]
fn chords_ignore_case_and_spaces() {
    let (m, vk) = parse_chord(" Ctrl + Super + Return ").unwrap();
    assert!(m.ctrl && m.win && !m.alt && !m.shift);
    assert_eq!(vk, 0x0D);
    assert_eq!(m.bits(), 0x4000 | 2 | 8);
    assert!(parse_chord("alt++j").is_none());
    assert!(parse_chord("").is_none());
}

#[test]
fn every_named_key_reads_back() {
    for vk in 0..256u32 {
        if let Some(name) = vk_to_name(vk) {
            assert_eq!(parse_chord(&name).unwrap().1, vk);
        }
    }
    assert_eq!(vk_to_name(0x0D).unwrap(), "enter");
    assert_eq!(vk_to_name(0x5A).unwrap(), "z");
    assert_eq!(vk_to_name(0x07), None);
}

#[test]
fn numbered_actions_need_a_digit() {
    assert!(is_numbered("switch_workspace"));
    assert!(!is_numbered("focus_left"));
    assert!(!is_numbered("no_such_action"));
    assert!(action_to_command("switch_workspace", None).is_none());
    assert_eq!(
        action_to_command("move_to_workspace", Some(4)),
        Some(Command::MoveToWorkspace(4))
    );
    assert_eq!(action_to_command("swap_up", None), Some(Command::SwapDir(Dir::Up)));
    assert_eq!(action_to_command("dance", None), None);
}
