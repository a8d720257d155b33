//! The window manager: monitors hold workspaces, workspaces hold windows.

use crate::layout::Rect;
use crate::window::Window;
use vstd::prelude::*;

pub mod arrival_laws;
pub mod census;
pub mod command_laws;
pub mod commands;
pub mod desktop;
pub mod direction_laws;
pub mod display_laws;
pub mod displays;
pub mod event_laws;
pub mod events;
pub mod hiding;
pub mod hiding_laws;
pub mod journal_laws;
pub mod laws;
pub mod manage;
pub mod records;
pub mod safety;
pub mod scratch;
pub mod scratch_laws;
pub mod shape_laws;
pub mod shaping;
pub mod snapshot_laws;
pub mod snapshots;
pub mod space_laws;
pub mod spaces;
pub mod state;
pub mod tiling;
pub mod tiling_laws;

verus! {

/// One row of the window switcher.
pub struct SwitchEntry {
    pub window: Window,
    /// Where it lives: workspace, with the monitor where there are several,
    /// or the scratchpad.
    pub place: String,
}

/// What the overview shows of one monitor.
pub struct OverviewSnapshot {
    /// The area that the rectangles of the windows lie in.
    pub source: Rect,
    pub active: usize,
    /// One name per workspace, empty where there is none.
    pub names: Vec<String>,
    /// The windows of each workspace with the rectangles they have, or would
    /// have.
    pub workspaces: Vec<Vec<(Window, Rect)>>,
}

/// What the bar shows of one monitor.
pub struct BarSnapshot {
    pub active: usize,
    /// One name per workspace, empty where there is none.
    pub names: Vec<String>,
    pub occupied: Vec<bool>,
    /// Up to five windows of each workspace.
    pub cell_windows: Vec<Vec<Window>>,
    pub title: String,
    pub paused: bool,
}

/// Events of the system.
#[derive(Clone, Copy, Debug)]
pub enum WmEvent {
    /// A window became visible.
    Shown(Window),
    /// A window came back from being minimized. It is managed again, but app
    /// rules do not apply: it must not jump away.
    Restored(Window),
    /// A window went away without being destroyed.
    Hidden(Window),
    Destroyed(Window),
    Foreground(Window),
    /// The title changed; windows that get their title late are noticed so.
    Retitled(Window),
    MinimizeStart(Window),
    /// The user finished dragging or resizing a window. With it comes the
    /// workspace cell of the bar under the cursor: monitor and workspace.
    MoveSizeEnd(Window, Option<(isize, usize)>),
}

/// A direction on the screen.
#[derive(Clone, Copy, Debug, PartialEq, Eq, Structural)]
pub enum Dir {
    Left,
    Right,
    Up,
    Down,
}

/// User commands, bound to hotkeys.
#[derive(Clone, Copy, Debug, PartialEq, Eq, Structural)]
pub enum Command {
    FocusNext,
    FocusPrev,
    FocusDir(Dir),
    SwapNext,
    SwapPrev,
    SwapDir(Dir),
    Promote,
    GrowWindow,
    ShrinkWindow,
    ToggleFloat,
    ToggleMonocle,
    ToggleFullscreen,
    CloseWindow,
    SwitchWorkspace(usize),
    MoveToWorkspace(usize),
    NextWorkspace,
    PrevWorkspace,
    MoveNextWorkspace,
    MovePrevWorkspace,
    Retile,
    TogglePause,
    Overview,
    WindowSwitcher,
    /// Show or hide the scratchpad windows as floating topmost overlays.
    ScratchToggle,
    /// Send the focused window to the scratchpad.
    ScratchSend,
    /// Focus the next scratchpad window; summons a hidden scratchpad.
    ScratchCycle,
    ShowHelp,
    Launcher,
    /// Launch the entry of that index by its own shortcut.
    Launch(usize),
    PinApp,
    Exit,
}

} // verus!
