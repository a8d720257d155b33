//! The menu of the tray icon.

use crate::text::{joined3, owned};
use vstd::prelude::*;

verus! {

pub const CMD_PAUSE: usize = 1;

pub const CMD_RELOAD: usize = 2;

pub const CMD_AUTOSTART: usize = 3;

pub const CMD_EXIT: usize = 4;

/// The left and the right mouse button come up.
pub const LEFT_UP: u32 = 0x0202;

pub const RIGHT_UP: u32 = 0x0205;

/// An item of the menu.
#[derive(Debug)]
pub struct MenuItem {
    pub command: usize,
    pub text: String,
    /// The mark of a setting; none for an item without one.
    pub checked: Option<bool>,
    /// A line is drawn above it.
    pub apart: bool,
}

/// An item of the menu.
pub struct MenuView {
    pub command: usize,
    pub text: Seq<char>,
    pub checked: Option<bool>,
    pub apart: bool,
}

impl View for MenuItem {
    type V = MenuView;

    open spec fn view(&self) -> MenuView {
        MenuView {
            command: self.command,
            text: self.text@,
            checked: self.checked,
            apart: self.apart,
        }
    }
}

/// The menu.
pub open spec fn menu_of(paused: bool, autostart: bool) -> Seq<MenuView> {
    seq![
        MenuView {
            command: CMD_PAUSE,
            text: "Pause tiling"@,
            checked: Some(paused),
            apart: false,
        },
        MenuView { command: CMD_RELOAD, text: "Reload config"@, checked: None, apart: false },
        MenuView {
            command: CMD_AUTOSTART,
            text: "Start with Windows"@,
            checked: Some(autostart),
            apart: false,
        },
        MenuView { command: CMD_EXIT, text: "Exit wtm"@, checked: None, apart: true },
    ]
}

/// The menu.
pub fn menu(paused: bool, autostart: bool) -> (r: Vec<MenuItem>)
    ensures
        r@.map_values(|m: MenuItem| m@) == menu_of(paused, autostart),
{
    let mut r: Vec<MenuItem> = Vec::new();
    r.push(
        MenuItem {
            command: CMD_PAUSE,
            text: owned("Pause tiling"),
            checked: Some(paused),
            apart: false,
        },
    );
    r.push(
        MenuItem { command: CMD_RELOAD, text: owned("Reload config"), checked: None, apart: false },
    );
    r.push(
        MenuItem {
            command: CMD_AUTOSTART,
            text: owned("Start with Windows"),
            checked: Some(autostart),
            apart: false,
        },
    );
    r.push(MenuItem { command: CMD_EXIT, text: owned("Exit wtm"), checked: None, apart: true });
    proof {
        assert(r@.map_values(|m: MenuItem| m@) =~= menu_of(paused, autostart));
    }
    r
}

/// What the tray asks for.
#[derive(Clone, Copy, Debug, PartialEq, Eq, Structural)]
pub enum TrayStep {
    Nothing,
    ShowMenu,
    ToggleOverview,
    TogglePause,
    Reload,
    /// Start with Windows from now on, or no longer.
    Autostart(bool),
    Exit,
}

/// What a message of the icon asks for: the right button opens the menu, the
/// left one the overview.
pub fn on_icon(message: u32) -> (r: TrayStep)
    ensures
        r == if message == RIGHT_UP {
            TrayStep::ShowMenu
        } else if message == LEFT_UP {
            TrayStep::ToggleOverview
        } else {
            TrayStep::Nothing
        },
{
    if message == RIGHT_UP {
        TrayStep::ShowMenu
    } else if message == LEFT_UP {
        TrayStep::ToggleOverview
    } else {
        TrayStep::Nothing
    }
}

/// What a choice in the menu asks for; `autostart` is the present setting.
pub open spec fn chosen(command: usize, autostart: bool) -> TrayStep {
    if command == CMD_PAUSE {
        TrayStep::TogglePause
    } else if command == CMD_RELOAD {
        TrayStep::Reload
    } else if command == CMD_AUTOSTART {
        TrayStep::Autostart(!autostart)
    } else if command == CMD_EXIT {
        TrayStep::Exit
    } else {
        TrayStep::Nothing
    }
}

/// What a choice in the menu asks for; `autostart` is the present setting.
pub fn on_choice(command: usize, autostart: bool) -> (r: TrayStep)
    ensures
        r == if command == CMD_PAUSE {
            TrayStep::TogglePause
        } else if command == CMD_RELOAD {
            TrayStep::Reload
        } else if command == CMD_AUTOSTART {
            TrayStep::Autostart(!autostart)
        } else if command == CMD_EXIT {
            TrayStep::Exit
        } else {
            TrayStep::Nothing
        },
        r == chosen(command, autostart),
{
    if command == CMD_PAUSE {
        TrayStep::TogglePause
    } else if command == CMD_RELOAD {
        TrayStep::Reload
    } else if command == CMD_AUTOSTART {
        TrayStep::Autostart(!autostart)
    } else if command == CMD_EXIT {
        TrayStep::Exit
    } else {
        TrayStep::Nothing
    }
}

/// The command that starts the program with Windows.
pub fn autostart_command(exe: &str) -> (r: String)
    ensures
        r@ == "\""@ + exe@ + "\""@,
{
    joined3("\"", exe, "\"")
}

} // verus!
