//! Focus follows the mouse: hovering over a managed window activates it. The
//! hook only arms a timer; what to do is decided when the timer fires.

use crate::window::Window;
use vstd::prelude::*;

verus! {

/// Mouse moves within this time count as one.
pub const SETTLE_MS: u32 = 50;

/// The foreground thread shows a menu, or moves or sizes a window.
pub const GUI_BUSY: u32 = 0x1E;

/// The mouse hook and its timer.
pub struct Mouse {
    pub hooked: bool,
    /// The pending timer, or 0.
    pub timer: usize,
}

/// What to do about the hook.
#[derive(Clone, Copy, Debug, PartialEq, Eq, Structural)]
pub enum Hook {
    Keep,
    Install,
    Remove,
}

/// What was found when the timer fired.
pub struct Hover {
    /// The states of the mouse buttons; the high bit says "down".
    pub buttons: Vec<u16>,
    /// The flags of the foreground thread, if they could be read.
    pub gui_flags: Option<u32>,
    /// The root window under the cursor.
    pub hit: Option<Window>,
    pub foreground: Option<Window>,
    /// The foreground window is one of our own.
    pub foreground_is_ours: bool,
    /// The end of the chain of owners of the foreground window.
    pub foreground_owner: Option<Window>,
}

/// A button is down.
pub open spec fn pressed(buttons: Seq<u16>) -> bool {
    exists|i: int| 0 <= i < buttons.len() && (#[trigger] buttons[i]) & 0x8000 != 0
}

/// The window to activate, if it is managed: the one under the cursor, unless
/// a button is down, the foreground is busy with a menu or a move, is that
/// very window, one of our own, or a dialog of the hovered window.
pub open spec fn hovered(h: Hover) -> Option<Window> {
    match h.hit {
        None => None,
        Some(w) => if pressed(h.buttons@) || (h.gui_flags matches Some(f) && f & GUI_BUSY != 0)
            || h.foreground == Some(w) || h.foreground_is_ours || h.foreground_owner == Some(w) {
            None
        } else {
            Some(w)
        },
    }
}

impl Default for Mouse {
    fn default() -> (r: Mouse)
        ensures
            !r.hooked,
            r.timer == 0,
    {
        Mouse { hooked: false, timer: 0 }
    }
}

impl Mouse {
    /// The mouse moved: must the timer be armed? One at a time is enough.
    pub fn moved(&self) -> (r: bool)
        ensures
            r == (self.timer == 0),
    {
        self.timer == 0
    }

    /// Takes over the timer that was armed.
    pub fn timer_armed(&mut self, id: usize)
        ensures
            final(self).timer == id,
            final(self).hooked == old(self).hooked,
    {
        self.timer = id;
    }

    /// The hook to match the setting.
    pub fn set_enabled(&self, on: bool) -> (r: Hook)
        ensures
            r == if on && !self.hooked {
                Hook::Install
            } else if !on && self.hooked {
                Hook::Remove
            } else {
                Hook::Keep
            },
    {
        if on && !self.hooked {
            Hook::Install
        } else if !on && self.hooked {
            Hook::Remove
        } else {
            Hook::Keep
        }
    }

    /// Takes over whether the hook is installed now.
    pub fn hook_is(&mut self, installed: bool)
        ensures
            final(self).hooked == installed,
            final(self).timer == old(self).timer,
    {
        self.hooked = installed;
    }

    /// Is this the pending timer?
    pub fn is_focus_timer(&self, id: usize) -> (r: bool)
        ensures
            r == (id != 0 && self.timer == id),
    {
        id != 0 && self.timer == id
    }

    /// The hook is removed; gives back a timer to stop.
    pub fn destroy(&mut self) -> (r: Option<usize>)
        ensures
            !final(self).hooked,
            final(self).timer == 0,
            r == if old(self).timer == 0 {
                None
            } else {
                Some(old(self).timer)
            },
    {
        let t: usize = self.timer;
        self.hooked = false;
        self.timer = 0;
        if t == 0 {
            None
        } else {
            Some(t)
        }
    }

    /// The timer fired: the window to activate, if it is managed.
    pub fn tick(&mut self, h: &Hover) -> (r: Option<Window>)
        ensures
            r == hovered(*h),
            final(self).timer == 0,
            final(self).hooked == old(self).hooked,
    {
        self.timer = 0;
        let mut i: usize = 0;
        while i < h.buttons.len()
            invariant
                i <= h.buttons.len(),
                self.timer == 0,
                self.hooked == old(self).hooked,
                forall|k: int| 0 <= k < i ==> (#[trigger] h.buttons@[k]) & 0x8000 == 0,
            decreases h.buttons.len() - i,
        {
            if h.buttons[i] & 0x8000 != 0 {
                return None;
            }
            i = i + 1;
        }
        if let Some(f) = h.gui_flags {
            if f & GUI_BUSY != 0 {
                return None;
            }
        }
        if h.foreground_is_ours {
            return None;
        }
        let w = match h.hit {
            Some(w) => w,
            None => {
                return None;
            },
        };
        if let Some(f) = h.foreground {
            if f == w {
                return None;
            }
        }
        if let Some(o) = h.foreground_owner {
            if o == w {
                return None;
            }
        }
        Some(w)
    }
}

} // verus!
