//! Keybinding actions and chords: the table of actions with their default
//! chords, the names of keys, and reading and writing chords.
//!
//! A chord looks like "alt+shift+left" or "ctrl+alt+{n}"; `{n}` stands for a
//! digit, in the actions that take a workspace number.

use crate::numerals::{decimal, show};
use crate::text::{
    ascii_lowered, contains, glue, glued, has_text, owned, pieces, replace, replaced, same, split, texts,
    to_ascii_lowercase, trim, trimmed,
};
use crate::wm::{Command, Dir};
use vstd::prelude::*;

verus! {

/// All actions: name, default chord, description.
pub open spec fn action_table() -> Seq<(Seq<char>, Seq<char>, Seq<char>)> {
    seq![
        ("focus_left"@, "alt+left"@, "Focus window to the left"@),
        ("focus_right"@, "alt+right"@, "Focus window to the right"@),
        ("focus_up"@, "alt+up"@, "Focus window above"@),
        ("focus_down"@, "alt+down"@, "Focus window below"@),
        ("swap_left"@, "alt+shift+left"@, "Move window left (or to next monitor)"@),
        ("swap_right"@, "alt+shift+right"@, "Move window right (or to next monitor)"@),
        ("swap_up"@, "alt+shift+up"@, "Move window up (or to next monitor)"@),
        ("swap_down"@, "alt+shift+down"@, "Move window down (or to next monitor)"@),
        ("focus_next"@, "alt+j"@, "Focus next window (cycle)"@),
        ("focus_prev"@, "alt+k"@, "Focus previous window (cycle)"@),
        ("swap_next"@, "alt+shift+j"@, "Swap with next window"@),
        ("swap_prev"@, "alt+shift+k"@, "Swap with previous window"@),
        ("promote"@, "alt+enter"@, "Promote window to master slot"@),
        ("shrink_window"@, "alt+h"@, "Shrink focused window"@),
        ("grow_window"@, "alt+l"@, "Grow focused window"@),
        ("toggle_float"@, "alt+t"@, "Toggle floating"@),
        ("toggle_monocle"@, "alt+f"@, "Toggle monocle layout"@),
        ("toggle_fullscreen"@, "alt+shift+f"@, "Toggle fullscreen (covers the bar)"@),
        ("close_window"@, "alt+q"@, "Close focused window"@),
        ("switch_workspace"@, "alt+{n}"@, "Switch to workspace n (0 = 10)"@),
        ("move_to_workspace"@, "alt+shift+{n}"@, "Move window to workspace n"@),
        ("next_workspace"@, "alt+period"@, "Switch to next workspace"@),
        ("prev_workspace"@, "alt+comma"@, "Switch to previous workspace"@),
        ("move_next_workspace"@, "alt+shift+period"@, "Carry window to next workspace"@),
        ("move_prev_workspace"@, "alt+shift+comma"@, "Carry window to previous workspace"@),
        ("retile"@, "alt+shift+r"@, "Rescan and retile"@),
        ("toggle_pause"@, "alt+p"@, "Pause / resume tiling"@),
        ("pin_app"@, "alt+shift+p"@, "Pin/unpin app: its new windows open here"@),
        ("show_help"@, "alt+slash"@, "Show keybindings panel"@),
        ("launcher"@, "alt+space"@, "Open the application launcher"@),
        ("exit"@, "alt+shift+e"@, "Exit wtm"@),
    ]
}

/// The texts of table rows.
pub open spec fn rows(
    v: Seq<(&'static str, &'static str, &'static str)>,
) -> Seq<(Seq<char>, Seq<char>, Seq<char>)> {
    v.map_values(|e: (&'static str, &'static str, &'static str)| (e.0@, e.1@, e.2@))
}

/// All actions: name, default chord, description.
pub fn actions() -> (r: Vec<(&'static str, &'static str, &'static str)>)
    ensures
        rows(r@) == action_table(),
{
    let r: Vec<(&'static str, &'static str, &'static str)> = vec![
        ("focus_left", "alt+left", "Focus window to the left"),
        ("focus_right", "alt+right", "Focus window to the right"),
        ("focus_up", "alt+up", "Focus window above"),
        ("focus_down", "alt+down", "Focus window below"),
        ("swap_left", "alt+shift+left", "Move window left (or to next monitor)"),
        ("swap_right", "alt+shift+right", "Move window right (or to next monitor)"),
        ("swap_up", "alt+shift+up", "Move window up (or to next monitor)"),
        ("swap_down", "alt+shift+down", "Move window down (or to next monitor)"),
        ("focus_next", "alt+j", "Focus next window (cycle)"),
        ("focus_prev", "alt+k", "Focus previous window (cycle)"),
        ("swap_next", "alt+shift+j", "Swap with next window"),
        ("swap_prev", "alt+shift+k", "Swap with previous window"),
        ("promote", "alt+enter", "Promote window to master slot"),
        ("shrink_window", "alt+h", "Shrink focused window"),
        ("grow_window", "alt+l", "Grow focused window"),
        ("toggle_float", "alt+t", "Toggle floating"),
        ("toggle_monocle", "alt+f", "Toggle monocle layout"),
        ("toggle_fullscreen", "alt+shift+f", "Toggle fullscreen (covers the bar)"),
        ("close_window", "alt+q", "Close focused window"),
        ("switch_workspace", "alt+{n}", "Switch to workspace n (0 = 10)"),
        ("move_to_workspace", "alt+shift+{n}", "Move window to workspace n"),
        ("next_workspace", "alt+period", "Switch to next workspace"),
        ("prev_workspace", "alt+comma", "Switch to previous workspace"),
        ("move_next_workspace", "alt+shift+period", "Carry window to next workspace"),
        ("move_prev_workspace", "alt+shift+comma", "Carry window to previous workspace"),
        ("retile", "alt+shift+r", "Rescan and retile"),
        ("toggle_pause", "alt+p", "Pause / resume tiling"),
        ("pin_app", "alt+shift+p", "Pin/unpin app: its new windows open here"),
        ("show_help", "alt+slash", "Show keybindings panel"),
        ("launcher", "alt+space", "Open the application launcher"),
        ("exit", "alt+shift+e", "Exit wtm"),
    ];
    proof {
        assert(rows(r@) =~= action_table());
    }
    r
}

/// The first row for `action` from row `i` on.
pub open spec fn row_from(action: Seq<char>, i: int) -> Option<int>
    decreases action_table().len() - i,
{
    if i >= action_table().len() {
        None
    } else if action_table()[i].0 == action {
        Some(i)
    } else {
        row_from(action, i + 1)
    }
}

/// The default chord of `action`, if there is such an action.
pub open spec fn default_chord(action: Seq<char>) -> Option<Seq<char>> {
    match row_from(action, 0) {
        Some(i) => Some(action_table()[i].1),
        None => None,
    }
}

/// Does the default chord of `action` hold the digit placeholder?
pub open spec fn takes_number(action: Seq<char>) -> bool {
    match default_chord(action) {
        Some(c) => has_text(c, "{n}"@),
        None => false,
    }
}

/// Does this action use the `{n}` digit placeholder?
pub fn is_numbered(action: &str) -> (r: bool)
    ensures
        r == takes_number(action@),
{
    let table = actions();
    let mut i: usize = 0;
    while i < table.len()
        invariant
            i <= table.len(),
            rows(table@) == action_table(),
            row_from(action@, 0) == row_from(action@, i as int),
        decreases table.len() - i,
    {
        proof {
            assert(rows(table@)[i as int] == action_table()[i as int]);
        }
        if same(table[i].0, action) {
            return contains(table[i].1, "{n}");
        }
        i = i + 1;
    }
    false
}

/// The command behind an action; the numbered ones need a digit.
pub open spec fn command_of(action: Seq<char>, digit: Option<usize>) -> Option<Command> {
    if action == "focus_left"@ {
        Some(Command::FocusDir(Dir::Left))
    } else if action == "focus_right"@ {
        Some(Command::FocusDir(Dir::Right))
    } else if action == "focus_up"@ {
        Some(Command::FocusDir(Dir::Up))
    } else if action == "focus_down"@ {
        Some(Command::FocusDir(Dir::Down))
    } else if action == "swap_left"@ {
        Some(Command::SwapDir(Dir::Left))
    } else if action == "swap_right"@ {
        Some(Command::SwapDir(Dir::Right))
    } else if action == "swap_up"@ {
        Some(Command::SwapDir(Dir::Up))
    } else if action == "swap_down"@ {
        Some(Command::SwapDir(Dir::Down))
    } else if action == "focus_next"@ {
        Some(Command::FocusNext)
    } else if action == "focus_prev"@ {
        Some(Command::FocusPrev)
    } else if action == "swap_next"@ {
        Some(Command::SwapNext)
    } else if action == "swap_prev"@ {
        Some(Command::SwapPrev)
    } else if action == "promote"@ {
        Some(Command::Promote)
    } else if action == "shrink_window"@ {
        Some(Command::ShrinkWindow)
    } else if action == "grow_window"@ {
        Some(Command::GrowWindow)
    } else if action == "toggle_float"@ {
        Some(Command::ToggleFloat)
    } else if action == "toggle_monocle"@ {
        Some(Command::ToggleMonocle)
    } else if action == "toggle_fullscreen"@ {
        Some(Command::ToggleFullscreen)
    } else if action == "close_window"@ {
        Some(Command::CloseWindow)
    } else if action == "switch_workspace"@ {
        match digit {
            Some(n) => Some(Command::SwitchWorkspace(n)),
            None => None,
        }
    } else if action == "move_to_workspace"@ {
        match digit {
            Some(n) => Some(Command::MoveToWorkspace(n)),
            None => None,
        }
    } else if action == "next_workspace"@ {
        Some(Command::NextWorkspace)
    } else if action == "prev_workspace"@ {
        Some(Command::PrevWorkspace)
    } else if action == "move_next_workspace"@ {
        Some(Command::MoveNextWorkspace)
    } else if action == "move_prev_workspace"@ {
        Some(Command::MovePrevWorkspace)
    } else if action == "retile"@ {
        Some(Command::Retile)
    } else if action == "toggle_pause"@ {
        Some(Command::TogglePause)
    } else if action == "pin_app"@ {
        Some(Command::PinApp)
    } else if action == "show_help"@ {
        Some(Command::ShowHelp)
    } else if action == "launcher"@ {
        Some(Command::Launcher)
    } else if action == "exit"@ {
        Some(Command::Exit)
    } else {
        None
    }
}

/// The command behind an action; the numbered ones need a digit.
pub fn action_to_command(action: &str, digit: Option<usize>) -> (r: Option<Command>)
    ensures
        r == command_of(action@, digit),
{
    if same(action, "focus_left") {
        Some(Command::FocusDir(Dir::Left))
    } else if same(action, "focus_right") {
        Some(Command::FocusDir(Dir::Right))
    } else if same(action, "focus_up") {
        Some(Command::FocusDir(Dir::Up))
    } else if same(action, "focus_down") {
        Some(Command::FocusDir(Dir::Down))
    } else if same(action, "swap_left") {
        Some(Command::SwapDir(Dir::Left))
    } else if same(action, "swap_right") {
        Some(Command::SwapDir(Dir::Right))
    } else if same(action, "swap_up") {
        Some(Command::SwapDir(Dir::Up))
    } else if same(action, "swap_down") {
        Some(Command::SwapDir(Dir::Down))
    } else if same(action, "focus_next") {
        Some(Command::FocusNext)
    } else if same(action, "focus_prev") {
        Some(Command::FocusPrev)
    } else if same(action, "swap_next") {
        Some(Command::SwapNext)
    } else if same(action, "swap_prev") {
        Some(Command::SwapPrev)
    } else if same(action, "promote") {
        Some(Command::Promote)
    } else if same(action, "shrink_window") {
        Some(Command::ShrinkWindow)
    } else if same(action, "grow_window") {
        Some(Command::GrowWindow)
    } else if same(action, "toggle_float") {
        Some(Command::ToggleFloat)
    } else if same(action, "toggle_monocle") {
        Some(Command::ToggleMonocle)
    } else if same(action, "toggle_fullscreen") {
        Some(Command::ToggleFullscreen)
    } else if same(action, "close_window") {
        Some(Command::CloseWindow)
    } else if same(action, "switch_workspace") {
        match digit {
            Some(n) => Some(Command::SwitchWorkspace(n)),
            None => None,
        }
    } else if same(action, "move_to_workspace") {
        match digit {
            Some(n) => Some(Command::MoveToWorkspace(n)),
            None => None,
        }
    } else if same(action, "next_workspace") {
        Some(Command::NextWorkspace)
    } else if same(action, "prev_workspace") {
        Some(Command::PrevWorkspace)
    } else if same(action, "move_next_workspace") {
        Some(Command::MoveNextWorkspace)
    } else if same(action, "move_prev_workspace") {
        Some(Command::MovePrevWorkspace)
    } else if same(action, "retile") {
        Some(Command::Retile)
    } else if same(action, "toggle_pause") {
        Some(Command::TogglePause)
    } else if same(action, "pin_app") {
        Some(Command::PinApp)
    } else if same(action, "show_help") {
        Some(Command::ShowHelp)
    } else if same(action, "launcher") {
        Some(Command::Launcher)
    } else if same(action, "exit") {
        Some(Command::Exit)
    } else {
        None
    }
}

// --------------------------------------------------------------- key names

/// The code of the key that `name` names: a small letter, a digit, or one of
/// the named keys.
pub open spec fn key_code(name: Seq<char>) -> Option<u32> {
    if name.len() == 1 && 'a' <= name[0] && name[0] <= 'z' {
        Some((name[0] as u32 - 32) as u32)
    } else if name.len() == 1 && '0' <= name[0] && name[0] <= '9' {
        Some(name[0] as u32)
    } else if name == "left"@ {
        Some(0x25)
    } else if name == "up"@ {
        Some(0x26)
    } else if name == "right"@ {
        Some(0x27)
    } else if name == "down"@ {
        Some(0x28)
    } else if name == "enter"@ {
        Some(0x0D)
    } else if name == "return"@ {
        Some(0x0D)
    } else if name == "space"@ {
        Some(0x20)
    } else if name == "tab"@ {
        Some(0x09)
    } else if name == "backspace"@ {
        Some(0x08)
    } else if name == "insert"@ {
        Some(0x2D)
    } else if name == "delete"@ {
        Some(0x2E)
    } else if name == "home"@ {
        Some(0x24)
    } else if name == "end"@ {
        Some(0x23)
    } else if name == "pageup"@ {
        Some(0x21)
    } else if name == "pagedown"@ {
        Some(0x22)
    } else if name == "comma"@ {
        Some(0xBC)
    } else if name == "period"@ {
        Some(0xBE)
    } else if name == "slash"@ {
        Some(0xBF)
    } else if name == "semicolon"@ {
        Some(0xBA)
    } else if name == "quote"@ {
        Some(0xDE)
    } else if name == "minus"@ {
        Some(0xBD)
    } else if name == "equals"@ {
        Some(0xBB)
    } else if name == "backtick"@ {
        Some(0xC0)
    } else if name == "lbracket"@ {
        Some(0xDB)
    } else if name == "rbracket"@ {
        Some(0xDD)
    } else if name == "backslash"@ {
        Some(0xDC)
    } else if name == "f1"@ {
        Some(0x70)
    } else if name == "f2"@ {
        Some(0x71)
    } else if name == "f3"@ {
        Some(0x72)
    } else if name == "f4"@ {
        Some(0x73)
    } else if name == "f5"@ {
        Some(0x74)
    } else if name == "f6"@ {
        Some(0x75)
    } else if name == "f7"@ {
        Some(0x76)
    } else if name == "f8"@ {
        Some(0x77)
    } else if name == "f9"@ {
        Some(0x78)
    } else if name == "f10"@ {
        Some(0x79)
    } else if name == "f11"@ {
        Some(0x7A)
    } else if name == "f12"@ {
        Some(0x7B)
    } else {
        None
    }
}

/// The canonical name of the key with that code.
pub open spec fn key_name(vk: u32) -> Option<Seq<char>> {
    if 0x41 <= vk <= 0x5A {
        Some(seq![(vk + 32) as u8 as char])
    } else if 0x30 <= vk <= 0x39 {
        Some(seq![vk as u8 as char])
    } else if vk == 0x25 {
        Some("left"@)
    } else if vk == 0x26 {
        Some("up"@)
    } else if vk == 0x27 {
        Some("right"@)
    } else if vk == 0x28 {
        Some("down"@)
    } else if vk == 0x0D {
        Some("enter"@)
    } else if vk == 0x20 {
        Some("space"@)
    } else if vk == 0x09 {
        Some("tab"@)
    } else if vk == 0x08 {
        Some("backspace"@)
    } else if vk == 0x2D {
        Some("insert"@)
    } else if vk == 0x2E {
        Some("delete"@)
    } else if vk == 0x24 {
        Some("home"@)
    } else if vk == 0x23 {
        Some("end"@)
    } else if vk == 0x21 {
        Some("pageup"@)
    } else if vk == 0x22 {
        Some("pagedown"@)
    } else if vk == 0xBC {
        Some("comma"@)
    } else if vk == 0xBE {
        Some("period"@)
    } else if vk == 0xBF {
        Some("slash"@)
    } else if vk == 0xBA {
        Some("semicolon"@)
    } else if vk == 0xDE {
        Some("quote"@)
    } else if vk == 0xBD {
        Some("minus"@)
    } else if vk == 0xBB {
        Some("equals"@)
    } else if vk == 0xC0 {
        Some("backtick"@)
    } else if vk == 0xDB {
        Some("lbracket"@)
    } else if vk == 0xDD {
        Some("rbracket"@)
    } else if vk == 0xDC {
        Some("backslash"@)
    } else if vk == 0x70 {
        Some("f1"@)
    } else if vk == 0x71 {
        Some("f2"@)
    } else if vk == 0x72 {
        Some("f3"@)
    } else if vk == 0x73 {
        Some("f4"@)
    } else if vk == 0x74 {
        Some("f5"@)
    } else if vk == 0x75 {
        Some("f6"@)
    } else if vk == 0x76 {
        Some("f7"@)
    } else if vk == 0x77 {
        Some("f8"@)
    } else if vk == 0x78 {
        Some("f9"@)
    } else if vk == 0x79 {
        Some("f10"@)
    } else if vk == 0x7A {
        Some("f11"@)
    } else if vk == 0x7B {
        Some("f12"@)
    } else {
        None
    }
}

fn name_to_vk(name: &str) -> (r: Option<u32>)
    ensures
        r == key_code(name@),
{
    let v = crate::text::chars_of(name);
    if v.len() == 1 {
        let c = v[0];
        if 'a' <= c && c <= 'z' {
            return Some(c as u32 - 32);
        }
        if '0' <= c && c <= '9' {
            return Some(c as u32);
        }
    }
    if same(name, "left") {
        Some(0x25)
    } else if same(name, "up") {
        Some(0x26)
    } else if same(name, "right") {
        Some(0x27)
    } else if same(name, "down") {
        Some(0x28)
    } else if same(name, "enter") {
        Some(0x0D)
    } else if same(name, "return") {
        Some(0x0D)
    } else if same(name, "space") {
        Some(0x20)
    } else if same(name, "tab") {
        Some(0x09)
    } else if same(name, "backspace") {
        Some(0x08)
    } else if same(name, "insert") {
        Some(0x2D)
    } else if same(name, "delete") {
        Some(0x2E)
    } else if same(name, "home") {
        Some(0x24)
    } else if same(name, "end") {
        Some(0x23)
    } else if same(name, "pageup") {
        Some(0x21)
    } else if same(name, "pagedown") {
        Some(0x22)
    } else if same(name, "comma") {
        Some(0xBC)
    } else if same(name, "period") {
        Some(0xBE)
    } else if same(name, "slash") {
        Some(0xBF)
    } else if same(name, "semicolon") {
        Some(0xBA)
    } else if same(name, "quote") {
        Some(0xDE)
    } else if same(name, "minus") {
        Some(0xBD)
    } else if same(name, "equals") {
        Some(0xBB)
    } else if same(name, "backtick") {
        Some(0xC0)
    } else if same(name, "lbracket") {
        Some(0xDB)
    } else if same(name, "rbracket") {
        Some(0xDD)
    } else if same(name, "backslash") {
        Some(0xDC)
    } else if same(name, "f1") {
        Some(0x70)
    } else if same(name, "f2") {
        Some(0x71)
    } else if same(name, "f3") {
        Some(0x72)
    } else if same(name, "f4") {
        Some(0x73)
    } else if same(name, "f5") {
        Some(0x74)
    } else if same(name, "f6") {
        Some(0x75)
    } else if same(name, "f7") {
        Some(0x76)
    } else if same(name, "f8") {
        Some(0x77)
    } else if same(name, "f9") {
        Some(0x78)
    } else if same(name, "f10") {
        Some(0x79)
    } else if same(name, "f11") {
        Some(0x7A)
    } else if same(name, "f12") {
        Some(0x7B)
    } else {
        None
    }
}

/// The canonical name of the key with that code.
pub fn vk_to_name(vk: u32) -> (r: Option<String>)
    ensures
        match r {
            Some(n) => key_name(vk) == Some(n@),
            None => key_name(vk) is None,
        },
{
    if 0x41 <= vk && vk <= 0x5A {
        let mut s = String::new();
        s.push((vk + 32) as u8 as char);
        proof {
            assert(s@ =~= seq![(vk + 32) as u8 as char]);
        }
        Some(s)
    } else if 0x30 <= vk && vk <= 0x39 {
        let mut s = String::new();
        s.push(vk as u8 as char);
        proof {
            assert(s@ =~= seq![vk as u8 as char]);
        }
        Some(s)
    } else if vk == 0x25 {
        Some(owned("left"))
    } else if vk == 0x26 {
        Some(owned("up"))
    } else if vk == 0x27 {
        Some(owned("right"))
    } else if vk == 0x28 {
        Some(owned("down"))
    } else if vk == 0x0D {
        Some(owned("enter"))
    } else if vk == 0x20 {
        Some(owned("space"))
    } else if vk == 0x09 {
        Some(owned("tab"))
    } else if vk == 0x08 {
        Some(owned("backspace"))
    } else if vk == 0x2D {
        Some(owned("insert"))
    } else if vk == 0x2E {
        Some(owned("delete"))
    } else if vk == 0x24 {
        Some(owned("home"))
    } else if vk == 0x23 {
        Some(owned("end"))
    } else if vk == 0x21 {
        Some(owned("pageup"))
    } else if vk == 0x22 {
        Some(owned("pagedown"))
    } else if vk == 0xBC {
        Some(owned("comma"))
    } else if vk == 0xBE {
        Some(owned("period"))
    } else if vk == 0xBF {
        Some(owned("slash"))
    } else if vk == 0xBA {
        Some(owned("semicolon"))
    } else if vk == 0xDE {
        Some(owned("quote"))
    } else if vk == 0xBD {
        Some(owned("minus"))
    } else if vk == 0xBB {
        Some(owned("equals"))
    } else if vk == 0xC0 {
        Some(owned("backtick"))
    } else if vk == 0xDB {
        Some(owned("lbracket"))
    } else if vk == 0xDD {
        Some(owned("rbracket"))
    } else if vk == 0xDC {
        Some(owned("backslash"))
    } else if vk == 0x70 {
        Some(owned("f1"))
    } else if vk == 0x71 {
        Some(owned("f2"))
    } else if vk == 0x72 {
        Some(owned("f3"))
    } else if vk == 0x73 {
        Some(owned("f4"))
    } else if vk == 0x74 {
        Some(owned("f5"))
    } else if vk == 0x75 {
        Some(owned("f6"))
    } else if vk == 0x76 {
        Some(owned("f7"))
    } else if vk == 0x77 {
        Some(owned("f8"))
    } else if vk == 0x78 {
        Some(owned("f9"))
    } else if vk == 0x79 {
        Some(owned("f10"))
    } else if vk == 0x7A {
        Some(owned("f11"))
    } else if vk == 0x7B {
        Some(owned("f12"))
    } else {
        None
    }
}

// ----------------------------------------------------------------- parsing

/// The modifier keys of a chord.
#[derive(Clone, Copy, Debug, PartialEq, Eq, Structural)]
pub struct Modifiers {
    pub alt: bool,
    pub ctrl: bool,
    pub shift: bool,
    pub win: bool,
}

impl Modifiers {
    /// The mask that a hotkey is registered with: 1 for Alt, 2 for Ctrl, 4
    /// for Shift, 8 for Win, and 0x4000 for "no repeat", which is always set.
    pub open spec fn mask(self) -> int {
        0x4000 + (if self.alt {
            1int
        } else {
            0
        }) + (if self.ctrl {
            2int
        } else {
            0
        }) + (if self.shift {
            4int
        } else {
            0
        }) + (if self.win {
            8int
        } else {
            0
        })
    }

    /// The mask that a hotkey is registered with.
    pub fn bits(self) -> (r: u32)
        ensures
            r == self.mask(),
    {
        let mut r: u32 = 0x4000;
        if self.alt {
            r = r + 1;
        }
        if self.ctrl {
            r = r + 2;
        }
        if self.shift {
            r = r + 4;
        }
        if self.win {
            r = r + 8;
        }
        r
    }
}

/// Reads on from the tokens `toks`, with what earlier ones gave. Exactly one
/// token must be a key; the others are modifiers.
pub open spec fn read_tokens(
    toks: Seq<Seq<char>>,
    m: Modifiers,
    key: Option<u32>,
) -> Option<(Modifiers, u32)>
    decreases toks.len(),
{
    if toks.len() == 0 {
        match key {
            Some(k) => Some((m, k)),
            None => None,
        }
    } else {
        let t = trimmed(toks[0]);
        let rest = toks.drop_first();
        if t == "alt"@ {
            read_tokens(rest, Modifiers { alt: true, ..m }, key)
        } else if t == "ctrl"@ || t == "control"@ {
            read_tokens(rest, Modifiers { ctrl: true, ..m }, key)
        } else if t == "shift"@ {
            read_tokens(rest, Modifiers { shift: true, ..m }, key)
        } else if t == "win"@ || t == "super"@ {
            read_tokens(rest, Modifiers { win: true, ..m }, key)
        } else {
            match key_code(t) {
                Some(k) => if key is Some {
                    None
                } else {
                    read_tokens(rest, m, Some(k))
                },
                None => None,
            }
        }
    }
}

pub open spec fn no_modifiers() -> Modifiers {
    Modifiers { alt: false, ctrl: false, shift: false, win: false }
}

/// What a concrete chord stands for: its modifiers and its key. Case and
/// white space around the tokens do not matter.
pub open spec fn chord_value(chord: Seq<char>) -> Option<(Modifiers, u32)> {
    read_tokens(pieces(ascii_lowered(chord), "+"@), no_modifiers(), None)
}

/// Reads a concrete chord (`{n}` must be expanded already).
pub fn parse_chord(chord: &str) -> (r: Option<(Modifiers, u32)>)
    ensures
        r == chord_value(chord@),
{
    let low = to_ascii_lowercase(chord);
    proof {
        reveal_strlit("+");
    }
    let toks = split(low.as_str(), "+");
    let mut m = Modifiers { alt: false, ctrl: false, shift: false, win: false };
    let mut key: Option<u32> = None;
    let mut i: usize = 0;
    proof {
        assert(texts(toks@).skip(0) =~= texts(toks@));
    }
    while i < toks.len()
        invariant
            i <= toks.len(),
            chord_value(chord@) == read_tokens(texts(toks@).skip(i as int), m, key),
        decreases toks.len() - i,
    {
        proof {
            assert(texts(toks@).skip(i as int)[0] == toks@[i as int]@);
            assert(texts(toks@).skip(i as int).drop_first() =~= texts(toks@).skip(i + 1));
        }
        let t = trim(toks[i].as_str());
        let t = t.as_str();
        if same(t, "alt") {
            m.alt = true;
        } else if same(t, "ctrl") || same(t, "control") {
            m.ctrl = true;
        } else if same(t, "shift") {
            m.shift = true;
        } else if same(t, "win") || same(t, "super") {
            m.win = true;
        } else {
            match name_to_vk(t) {
                Some(k) => {
                    if key.is_some() {
                        return None;
                    }
                    key = Some(k);
                },
                None => {
                    return None;
                },
            }
        }
        i = i + 1;
    }
    match key {
        Some(k) => Some((m, k)),
        None => None,
    }
}

/// A chord with its placeholder filled in.
pub open spec fn expanded(chord: Seq<char>, digit: nat) -> Seq<char> {
    replaced(chord, "{n}"@, decimal(digit))
}

/// Fills in the digit placeholder.
pub fn expand(chord: &str, digit: usize) -> (r: String)
    ensures
        r@ == expanded(chord@, digit as nat),
{
    proof {
        reveal_strlit("{n}");
    }
    let d = show(digit as u64);
    replace(chord, "{n}", d.as_str())
}

/// The parts of the chord that a key press makes; the key is left out.
pub open spec fn pressed(m: Modifiers) -> Seq<Seq<char>> {
    let a = if m.ctrl {
        seq!["ctrl"@]
    } else {
        Seq::<Seq<char>>::empty()
    };
    let b = if m.win {
        a.push("win"@)
    } else {
        a
    };
    let c = if m.alt {
        b.push("alt"@)
    } else {
        b
    };
    if m.shift {
        c.push("shift"@)
    } else {
        c
    }
}

/// The chord that a key press makes; a numbered one has the placeholder for
/// its key.
pub open spec fn captured(m: Modifiers, vk: u32, numbered: bool) -> Option<Seq<char>> {
    if numbered {
        Some(glued(pressed(m).push("{n}"@), "+"@))
    } else {
        match key_name(vk) {
            Some(k) => Some(glued(pressed(m).push(k), "+"@)),
            None => None,
        }
    }
}

/// Builds a normalized chord from a captured key press. With `numbered` it is
/// a `{n}` template, and the pressed key does not matter.
pub fn format_captured(
    alt: bool,
    ctrl: bool,
    shift: bool,
    win: bool,
    vk: u32,
    numbered: bool,
) -> (r: Option<String>)
    ensures
        match r {
            Some(c) => captured(Modifiers { alt, ctrl, shift, win }, vk, numbered) == Some(c@),
            None => captured(Modifiers { alt, ctrl, shift, win }, vk, numbered) is None,
        },
{
    let ghost m = Modifiers { alt, ctrl, shift, win };
    let mut parts: Vec<String> = Vec::new();
    if ctrl {
        parts.push(owned("ctrl"));
    }
    if win {
        parts.push(owned("win"));
    }
    if alt {
        parts.push(owned("alt"));
    }
    if shift {
        parts.push(owned("shift"));
    }
    proof {
        assert(texts(parts@) =~= pressed(m));
    }
    if numbered {
        parts.push(owned("{n}"));
        proof {
            assert(texts(parts@) =~= pressed(m).push("{n}"@));
        }
    } else {
        match vk_to_name(vk) {
            Some(k) => {
                let ghost name = k@;
                parts.push(k);
                proof {
                    assert(texts(parts@) =~= pressed(m).push(name));
                }
            },
            None => {
                return None;
            },
        }
    }
    Some(glue(&parts, "+"))
}

/// The concrete chords that a chord stands for.
pub open spec fn variants(chord: Seq<char>) -> Seq<Seq<char>> {
    if has_text(chord, "{n}"@) {
        Seq::new(9, |i: int| expanded(chord, (i + 1) as nat))
    } else {
        seq![chord]
    }
}

/// Two chords collide: some concrete chord of each stands for the same keys.
pub open spec fn collide(a: Seq<char>, b: Seq<char>) -> bool {
    exists|i: int, j: int|
        0 <= i < variants(a).len() && 0 <= j < variants(b).len() && chord_value(
            #[trigger] variants(a)[i],
        ) is Some && chord_value(variants(a)[i]) == chord_value(#[trigger] variants(b)[j])
}

fn concrete(chord: &str) -> (r: Vec<Option<(Modifiers, u32)>>)
    ensures
        r@ == variants(chord@).map_values(|c: Seq<char>| chord_value(c)),
{
    let mut r: Vec<Option<(Modifiers, u32)>> = Vec::new();
    if contains(chord, "{n}") {
        let mut d: usize = 1;
        while d <= 9
            invariant
                1 <= d <= 10,
                r.len() == d - 1,
                forall|i: int|
                    0 <= i < r.len() ==> r@[i] == chord_value(expanded(chord@, (i + 1) as nat)),
            decreases 10 - d,
        {
            let c = expand(chord, d);
            r.push(parse_chord(c.as_str()));
            d = d + 1;
        }
    } else {
        r.push(parse_chord(chord));
    }
    proof {
        assert(r@ =~= variants(chord@).map_values(|c: Seq<char>| chord_value(c)));
    }
    r
}

/// Would two chords collide once the placeholders are expanded?
pub fn chords_overlap(a: &str, b: &str) -> (r: bool)
    ensures
        r == collide(a@, b@),
{
    let xs = concrete(a);
    let ys = concrete(b);
    let mut i: usize = 0;
    while i < xs.len()
        invariant
            i <= xs.len(),
            xs@ == variants(a@).map_values(|c: Seq<char>| chord_value(c)),
            ys@ == variants(b@).map_values(|c: Seq<char>| chord_value(c)),
            forall|k: int, l: int|
                0 <= k < i && 0 <= l < ys.len() ==> !(xs@[k] is Some && xs@[k] == ys@[l]),
        decreases xs.len() - i,
    {
        if let Some(x) = xs[i] {
            let mut j: usize = 0;
            while j < ys.len()
                invariant
                    i < xs.len(),
                    j <= ys.len(),
                    xs@[i as int] == Some(x),
                    xs@ == variants(a@).map_values(|c: Seq<char>| chord_value(c)),
                    ys@ == variants(b@).map_values(|c: Seq<char>| chord_value(c)),
                    forall|l: int| 0 <= l < j ==> Some(x) != ys@[l],
                decreases ys.len() - j,
            {
                if let Some(y) = ys[j] {
                    if x.0 == y.0 && x.1 == y.1 {
                        proof {
                            assert(chord_value(variants(a@)[i as int]) == xs@[i as int]);
                            assert(chord_value(variants(b@)[j as int]) == ys@[j as int]);
                        }
                        return true;
                    }
                }
                j = j + 1;
            }
        }
        i = i + 1;
    }
    proof {
        if collide(a@, b@) {
            let (k, l) = choose|k: int, l: int|
                0 <= k < variants(a@).len() && 0 <= l < variants(b@).len() && chord_value(
                    #[trigger] variants(a@)[k],
                ) is Some && chord_value(variants(a@)[k]) == chord_value(#[trigger] variants(b@)[l]);
            assert(xs@[k] is Some && xs@[k] == ys@[l]);
        }
    }
    false
}



// -------------------------------------------------------------------- laws

/// Made of small letters and digits only.
pub open spec fn plain(s: Seq<char>) -> bool {
    &&& s.len() > 0
    &&& forall|i: int|
        0 <= i < s.len() ==> ('a' <= #[trigger] s[i] && s[i] <= 'z') || ('0' <= s[i] && s[i] <= '9')
}

pub open spec fn modifier_word(s: Seq<char>) -> bool {
    s == "alt"@ || s == "ctrl"@ || s == "control"@ || s == "shift"@ || s == "win"@ || s == "super"@
}

proof fn lemma_modifier_words()
    ensures
        plain("alt"@),
        plain("ctrl"@),
        plain("shift"@),
        plain("win"@),
        "alt"@.len() == 3,
        "ctrl"@.len() == 4,
        "control"@.len() == 7,
        "shift"@.len() == 5,
        "win"@.len() == 3,
        "super"@.len() == 5,
        "alt"@ != "win"@,
        "shift"@ != "super"@,
        "alt"@[0] == 'a',
        "ctrl"@[0] == 'c',
        "control"@[0] == 'c',
        "shift"@[0] == 's',
        "win"@[0] == 'w',
        "super"@[0] == 's',
        "alt"@[1] == 'l',
        "ctrl"@[1] == 't',
        "control"@[1] == 'o',
        "shift"@[1] == 'h',
        "win"@[1] == 'i',
        "super"@[1] == 'u',
{
    reveal_strlit("alt");
    reveal_strlit("ctrl");
    reveal_strlit("control");
    reveal_strlit("shift");
    reveal_strlit("win");
    reveal_strlit("super");
    assert("alt"@[0] != "win"@[0]);
    assert("shift"@[1] != "super"@[1]);
}

/// Every key that has a canonical name is found by it, and the name is no
/// modifier.
#[verifier::rlimit(100)]
pub proof fn law_key_name_reads_back(vk: u32)
    requires
        key_name(vk) is Some,
    ensures
        key_code(key_name(vk)->0) == Some(vk),
        plain(key_name(vk)->0),
        !modifier_word(key_name(vk)->0),
{
    lemma_modifier_words();
    let n = key_name(vk)->0;
    if 0x41 <= vk <= 0x5A {
        assert(n[0] as u32 == vk + 32);
    } else if 0x30 <= vk <= 0x39 {
        assert(n[0] as u32 == vk);
    } else {
        reveal_strlit("left");
        assert("left"@[0] == 'l' && "left"@[1] == 'e' && "left"@[2] == 'f');
        reveal_strlit("up");
        assert("up"@[0] == 'u' && "up"@[1] == 'p');
        reveal_strlit("right");
        assert("right"@[0] == 'r' && "right"@[1] == 'i' && "right"@[2] == 'g');
        reveal_strlit("down");
        assert("down"@[0] == 'd' && "down"@[1] == 'o' && "down"@[2] == 'w');
        reveal_strlit("enter");
        assert("enter"@[0] == 'e' && "enter"@[1] == 'n' && "enter"@[2] == 't');
        reveal_strlit("return");
        assert("return"@[0] == 'r' && "return"@[1] == 'e' && "return"@[2] == 't' && "return"@[5] == 'n');
        reveal_strlit("space");
        assert("space"@[0] == 's' && "space"@[1] == 'p' && "space"@[2] == 'a');
        reveal_strlit("tab");
        assert("tab"@[0] == 't' && "tab"@[1] == 'a' && "tab"@[2] == 'b');
        reveal_strlit("backspace");
        assert("backspace"@[0] == 'b' && "backspace"@[1] == 'a' && "backspace"@[2] == 'c' && "backspace"@[5] == 'p');
        reveal_strlit("insert");
        assert("insert"@[0] == 'i' && "insert"@[1] == 'n' && "insert"@[2] == 's' && "insert"@[5] == 't');
        reveal_strlit("delete");
        assert("delete"@[0] == 'd' && "delete"@[1] == 'e' && "delete"@[2] == 'l' && "delete"@[5] == 'e');
        reveal_strlit("home");
        assert("home"@[0] == 'h' && "home"@[1] == 'o' && "home"@[2] == 'm');
        reveal_strlit("end");
        assert("end"@[0] == 'e' && "end"@[1] == 'n' && "end"@[2] == 'd');
        reveal_strlit("pageup");
        assert("pageup"@[0] == 'p' && "pageup"@[1] == 'a' && "pageup"@[2] == 'g' && "pageup"@[5] == 'p');
        reveal_strlit("pagedown");
        assert("pagedown"@[0] == 'p' && "pagedown"@[1] == 'a' && "pagedown"@[2] == 'g' && "pagedown"@[5] == 'o');
        reveal_strlit("comma");
        assert("comma"@[0] == 'c' && "comma"@[1] == 'o' && "comma"@[2] == 'm');
        reveal_strlit("period");
        assert("period"@[0] == 'p' && "period"@[1] == 'e' && "period"@[2] == 'r' && "period"@[5] == 'd');
        reveal_strlit("slash");
        assert("slash"@[0] == 's' && "slash"@[1] == 'l' && "slash"@[2] == 'a');
        reveal_strlit("semicolon");
        assert("semicolon"@[0] == 's' && "semicolon"@[1] == 'e' && "semicolon"@[2] == 'm' && "semicolon"@[5] == 'o');
        reveal_strlit("quote");
        assert("quote"@[0] == 'q' && "quote"@[1] == 'u' && "quote"@[2] == 'o');
        reveal_strlit("minus");
        assert("minus"@[0] == 'm' && "minus"@[1] == 'i' && "minus"@[2] == 'n');
        reveal_strlit("equals");
        assert("equals"@[0] == 'e' && "equals"@[1] == 'q' && "equals"@[2] == 'u' && "equals"@[5] == 's');
        reveal_strlit("backtick");
        assert("backtick"@[0] == 'b' && "backtick"@[1] == 'a' && "backtick"@[2] == 'c' && "backtick"@[5] == 'i');
        reveal_strlit("lbracket");
        assert("lbracket"@[0] == 'l' && "lbracket"@[1] == 'b' && "lbracket"@[2] == 'r' && "lbracket"@[5] == 'k');
        reveal_strlit("rbracket");
        assert("rbracket"@[0] == 'r' && "rbracket"@[1] == 'b' && "rbracket"@[2] == 'r' && "rbracket"@[5] == 'k');
        reveal_strlit("backslash");
        assert("backslash"@[0] == 'b' && "backslash"@[1] == 'a' && "backslash"@[2] == 'c' && "backslash"@[5] == 'l');
        reveal_strlit("f1");
        assert("f1"@[0] == 'f' && "f1"@[1] == '1');
        reveal_strlit("f2");
        assert("f2"@[0] == 'f' && "f2"@[1] == '2');
        reveal_strlit("f3");
        assert("f3"@[0] == 'f' && "f3"@[1] == '3');
        reveal_strlit("f4");
        assert("f4"@[0] == 'f' && "f4"@[1] == '4');
        reveal_strlit("f5");
        assert("f5"@[0] == 'f' && "f5"@[1] == '5');
        reveal_strlit("f6");
        assert("f6"@[0] == 'f' && "f6"@[1] == '6');
        reveal_strlit("f7");
        assert("f7"@[0] == 'f' && "f7"@[1] == '7');
        reveal_strlit("f8");
        assert("f8"@[0] == 'f' && "f8"@[1] == '8');
        reveal_strlit("f9");
        assert("f9"@[0] == 'f' && "f9"@[1] == '9');
        reveal_strlit("f10");
        assert("f10"@[0] == 'f' && "f10"@[1] == '1' && "f10"@[2] == '0');
        reveal_strlit("f11");
        assert("f11"@[0] == 'f' && "f11"@[1] == '1' && "f11"@[2] == '1');
        reveal_strlit("f12");
        assert("f12"@[0] == 'f' && "f12"@[1] == '1' && "f12"@[2] == '2');
        if vk == 0x25 {
            assert(key_code("left"@) == Some(0x25u32));
        }
        if vk == 0x26 {
            assert(key_code("up"@) == Some(0x26u32));
        }
        if vk == 0x27 {
            assert(key_code("right"@) == Some(0x27u32));
        }
        if vk == 0x28 {
            assert(key_code("down"@) == Some(0x28u32));
        }
        if vk == 0x0D {
            assert(key_code("enter"@) == Some(0x0Du32));
        }
        if vk == 0x20 {
            assert(key_code("space"@) == Some(0x20u32));
        }
        if vk == 0x09 {
            assert(key_code("tab"@) == Some(0x09u32));
        }
        if vk == 0x08 {
            assert(key_code("backspace"@) == Some(0x08u32));
        }
        if vk == 0x2D {
            assert(key_code("insert"@) == Some(0x2Du32));
        }
        if vk == 0x2E {
            assert(key_code("delete"@) == Some(0x2Eu32));
        }
        if vk == 0x24 {
            assert(key_code("home"@) == Some(0x24u32));
        }
        if vk == 0x23 {
            assert(key_code("end"@) == Some(0x23u32));
        }
        if vk == 0x21 {
            assert(key_code("pageup"@) == Some(0x21u32));
        }
        if vk == 0x22 {
            assert(key_code("pagedown"@) == Some(0x22u32));
        }
        if vk == 0xBC {
            assert(key_code("comma"@) == Some(0xBCu32));
        }
        if vk == 0xBE {
            assert(key_code("period"@) == Some(0xBEu32));
        }
        if vk == 0xBF {
            assert(key_code("slash"@) == Some(0xBFu32));
        }
        if vk == 0xBA {
            assert(key_code("semicolon"@) == Some(0xBAu32));
        }
        if vk == 0xDE {
            assert(key_code("quote"@) == Some(0xDEu32));
        }
        if vk == 0xBD {
            assert(key_code("minus"@) == Some(0xBDu32));
        }
        if vk == 0xBB {
            assert(key_code("equals"@) == Some(0xBBu32));
        }
        if vk == 0xC0 {
            assert(key_code("backtick"@) == Some(0xC0u32));
        }
        if vk == 0xDB {
            assert(key_code("lbracket"@) == Some(0xDBu32));
        }
        if vk == 0xDD {
            assert(key_code("rbracket"@) == Some(0xDDu32));
        }
        if vk == 0xDC {
            assert(key_code("backslash"@) == Some(0xDCu32));
        }
        if vk == 0x70 {
            assert(key_code("f1"@) == Some(0x70u32));
        }
        if vk == 0x71 {
            assert(key_code("f2"@) == Some(0x71u32));
        }
        if vk == 0x72 {
            assert(key_code("f3"@) == Some(0x72u32));
        }
        if vk == 0x73 {
            assert(key_code("f4"@) == Some(0x73u32));
        }
        if vk == 0x74 {
            assert(key_code("f5"@) == Some(0x74u32));
        }
        if vk == 0x75 {
            assert(key_code("f6"@) == Some(0x75u32));
        }
        if vk == 0x76 {
            assert(key_code("f7"@) == Some(0x76u32));
        }
        if vk == 0x77 {
            assert(key_code("f8"@) == Some(0x77u32));
        }
        if vk == 0x78 {
            assert(key_code("f9"@) == Some(0x78u32));
        }
        if vk == 0x79 {
            assert(key_code("f10"@) == Some(0x79u32));
        }
        if vk == 0x7A {
            assert(key_code("f11"@) == Some(0x7Au32));
        }
        if vk == 0x7B {
            assert(key_code("f12"@) == Some(0x7Bu32));
        }
    }
}

proof fn lemma_plain_trimmed(s: Seq<char>)
    requires
        plain(s),
    ensures
        trimmed(s) == s,
{
    assert(!crate::text::is_white(s[0]));
    assert(!crate::text::is_white(s[s.len() - 1]));
}

proof fn lemma_glued_chars(parts: Seq<Seq<char>>)
    requires
        forall|i: int| 0 <= i < parts.len() ==> plain(#[trigger] parts[i]),
    ensures
        forall|i: int|
            0 <= i < glued(parts, seq!['+']).len() ==> {
                let c = #[trigger] glued(parts, seq!['+'])[i];
                ('a' <= c && c <= 'z') || ('0' <= c && c <= '9') || c == '+'
            },
    decreases parts.len(),
{
    if parts.len() > 1 {
        assert forall|i: int| 0 <= i < parts.drop_last().len() implies plain(
            #[trigger] parts.drop_last()[i],
        ) by {
            assert(parts.drop_last()[i] == parts[i]);
        }
        lemma_glued_chars(parts.drop_last());
        assert(plain(parts[parts.len() - 1]));
        let g = glued(parts.drop_last(), seq!['+']);
        assert forall|i: int| 0 <= i < glued(parts, seq!['+']).len() implies ({
            let c = #[trigger] glued(parts, seq!['+'])[i];
            ('a' <= c && c <= 'z') || ('0' <= c && c <= '9') || c == '+'
        }) by {
            if i < g.len() {
                assert(glued(parts, seq!['+'])[i] == g[i]);
            } else if i > g.len() {
                assert(glued(parts, seq!['+'])[i] == parts.last()[i - g.len() - 1]);
            }
        }
    } else if parts.len() == 1 {
        assert(plain(parts[0]));
    }
}

proof fn lemma_read_modifier(word: Seq<char>, rest: Seq<Seq<char>>, m: Modifiers, key: Option<u32>)
    ensures
        word == "alt"@ ==> read_tokens(seq![word] + rest, m, key) == read_tokens(
            rest,
            Modifiers { alt: true, ..m },
            key,
        ),
        word == "ctrl"@ ==> read_tokens(seq![word] + rest, m, key) == read_tokens(
            rest,
            Modifiers { ctrl: true, ..m },
            key,
        ),
        word == "shift"@ ==> read_tokens(seq![word] + rest, m, key) == read_tokens(
            rest,
            Modifiers { shift: true, ..m },
            key,
        ),
        word == "win"@ ==> read_tokens(seq![word] + rest, m, key) == read_tokens(
            rest,
            Modifiers { win: true, ..m },
            key,
        ),
{
    lemma_modifier_words();
    assert((seq![word] + rest).drop_first() =~= rest);
    if modifier_word(word) && plain(word) {
        lemma_plain_trimmed(word);
    }
}

/// A captured chord reads back as the keys that were pressed.
pub proof fn law_captured_chord_round_trips(m: Modifiers, vk: u32)
    requires
        captured(m, vk, false) is Some,
    ensures
        chord_value(captured(m, vk, false)->0) == Some((m, vk)),
{
    let name = key_name(vk)->0;
    law_key_name_reads_back(vk);
    lemma_modifier_words();
    reveal_strlit("+");
    assert("+"@ =~= seq!['+']);
    let parts = pressed(m).push(name);
    assert forall|i: int| 0 <= i < parts.len() implies plain(#[trigger] parts[i]) && !parts[i].contains('+') by {
        assert(plain(parts[i]));
    }
    let chord = glued(parts, "+"@);
    lemma_glued_chars(parts);
    assert(ascii_lowered(chord) =~= chord);
    crate::text::law_split_undoes_glue(parts, '+');
    lemma_plain_trimmed(name);
    let n0 = no_modifiers();
    let t0 = seq![name];
    assert(t0.drop_first() =~= Seq::<Seq<char>>::empty());
    assert(read_tokens(t0, m, None) == Some((m, vk))) by {
        reveal_with_fuel(read_tokens, 2);
    }
    let t1 = if m.shift {
        seq!["shift"@] + t0
    } else {
        t0
    };
    let t2 = if m.alt {
        seq!["alt"@] + t1
    } else {
        t1
    };
    let t3 = if m.win {
        seq!["win"@] + t2
    } else {
        t2
    };
    let t4 = if m.ctrl {
        seq!["ctrl"@] + t3
    } else {
        t3
    };
    lemma_read_modifier("shift"@, t0, Modifiers { shift: false, ..m }, None);
    lemma_read_modifier("alt"@, t1, Modifiers { shift: false, alt: false, ..m }, None);
    lemma_read_modifier("win"@, t2, Modifiers { shift: false, alt: false, win: false, ..m }, None);
    lemma_read_modifier("ctrl"@, t3, n0, None);
    assert(t4 =~= parts);
}

/// Overlap does not depend on the order of the two chords.
pub proof fn law_overlap_is_symmetric(a: Seq<char>, b: Seq<char>)
    ensures
        collide(a, b) == collide(b, a),
{
    if collide(a, b) {
        let (i, j) = choose|i: int, j: int|
            0 <= i < variants(a).len() && 0 <= j < variants(b).len() && chord_value(
                #[trigger] variants(a)[i],
            ) is Some && chord_value(variants(a)[i]) == chord_value(#[trigger] variants(b)[j]);
        assert(chord_value(variants(b)[j]) is Some);
    }
    if collide(b, a) {
        let (i, j) = choose|i: int, j: int|
            0 <= i < variants(b).len() && 0 <= j < variants(a).len() && chord_value(
                #[trigger] variants(b)[i],
            ) is Some && chord_value(variants(b)[i]) == chord_value(#[trigger] variants(a)[j]);
        assert(chord_value(variants(a)[j]) is Some);
    }
}

/// A concrete chord that can be read collides with itself.
pub proof fn law_chord_overlaps_itself(a: Seq<char>)
    requires
        !has_text(a, "{n}"@),
        chord_value(a) is Some,
    ensures
        collide(a, a),
{
    assert(chord_value(variants(a)[0]) is Some);
}

} // verus!
