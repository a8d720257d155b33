//! The desktop as it was found when a step began, and what the step has done
//! to it since. A step reads from here and records its actions here; the
//! program carries them out in order.

use crate::layout::Rect;
use crate::window::{exe_of, floats, manageable, rules_of, Facts, Rules, Window};
use crate::config::Config;
use vstd::prelude::*;

verus! {

/// Something to be done to the desktop.
#[derive(Clone, Copy, Debug, PartialEq, Eq, Structural)]
pub enum Action {
    /// Ask the app to leave its menu and key tip modes.
    CancelModes(Window),
    Hide(Window),
    Show(Window),
    /// Lift the window above all others, or put it back.
    Topmost(Window, bool),
    /// Paint the border; none is the system's own.
    Border(Window, Option<u32>),
    /// Move the window to a rectangle within so many milliseconds.
    Glide(Window, Rect, u32),
    Raise(Window),
    Focus(Window),
    /// Take keyboard focus away from all windows.
    FocusShell,
    Close(Window),
    /// Write down which windows are hidden.
    Journal,
    /// Look who has the foreground now, and paint the borders for that.
    PaintBorders,
}

/// A window and what was observed of it.
pub struct Sight {
    pub window: Window,
    pub facts: Facts,
}

/// The desktop.
pub struct Desktop {
    pub foreground: Option<Window>,
    pub cursor_x: i32,
    pub cursor_y: i32,
    /// The monitor under the cursor.
    pub cursor_monitor: isize,
    /// All top-level windows, topmost first.
    pub order: Vec<Window>,
    pub seen: Vec<Sight>,
    pub actions: Vec<Action>,
}

#[verifier::ext_equal]
pub struct DeskView {
    pub foreground: Option<Window>,
    pub cursor_x: i32,
    pub cursor_y: i32,
    pub cursor_monitor: isize,
    pub order: Seq<Window>,
    pub seen: Seq<Sight>,
    pub actions: Seq<Action>,
}

impl View for Desktop {
    type V = DeskView;

    open spec fn view(&self) -> DeskView {
        DeskView {
            foreground: self.foreground,
            cursor_x: self.cursor_x,
            cursor_y: self.cursor_y,
            cursor_monitor: self.cursor_monitor,
            order: self.order@,
            seen: self.seen@,
            actions: self.actions@,
        }
    }
}

/// Where `w` was seen, at or after `i`.
pub open spec fn sight_from(seen: Seq<Sight>, w: Window, i: int) -> Option<int>
    decreases seen.len() - i,
{
    if i >= seen.len() {
        None
    } else if seen[i].window == w {
        Some(i)
    } else {
        sight_from(seen, w, i + 1)
    }
}

pub proof fn lemma_sight_from(seen: Seq<Sight>, w: Window, i: int)
    requires
        0 <= i,
    ensures
        sight_from(seen, w, i) matches Some(k) ==> i <= k < seen.len() && seen[k].window == w,
    decreases seen.len() - i,
{
    if i < seen.len() && seen[i].window != w {
        lemma_sight_from(seen, w, i + 1);
    }
}

impl DeskView {
    /// What is known of `w`.
    pub open spec fn facts(self, w: Window) -> Option<Facts> {
        match sight_from(self.seen, w, 0) {
            Some(i) => Some(self.seen[i].facts),
            None => None,
        }
    }

    pub open spec fn valid(self, w: Window) -> bool {
        self.facts(w) matches Some(f) && f.valid
    }

    pub open spec fn visible(self, w: Window) -> bool {
        self.facts(w) matches Some(f) && f.visible
    }

    pub open spec fn minimized(self, w: Window) -> bool {
        self.facts(w) matches Some(f) && f.minimized
    }

    pub open spec fn transient(self, w: Window) -> bool {
        self.facts(w) matches Some(f) && f.transient
    }

    pub open spec fn monitor_of(self, w: Window) -> isize {
        match self.facts(w) {
            Some(f) => f.monitor,
            None => 0,
        }
    }

    pub open spec fn thread_of(self, w: Window) -> u32 {
        match self.facts(w) {
            Some(f) => f.thread,
            None => 0,
        }
    }

    /// The window at the end of the chain of owners.
    pub open spec fn root_owner_of(self, w: Window) -> Window {
        match self.facts(w) {
            Some(f) => f.root_owner,
            None => w,
        }
    }

    pub open spec fn rect_of(self, w: Window) -> Rect {
        match self.facts(w) {
            Some(f) => f.rect,
            None => Rect { x: 0, y: 0, w: 0, h: 0 },
        }
    }

    /// The visible frame.
    pub open spec fn frame_of(self, w: Window) -> Rect {
        match self.facts(w) {
            Some(f) => f.frame,
            None => Rect { x: 0, y: 0, w: 0, h: 0 },
        }
    }

    pub open spec fn title_of(self, w: Window) -> Seq<char> {
        match self.facts(w) {
            Some(f) => f.title@,
            None => Seq::empty(),
        }
    }

    pub open spec fn rule_key_of(self, w: Window) -> Option<Seq<char>> {
        match self.facts(w) {
            Some(f) => match f.rule_key {
                Some(k) => Some(k@),
                None => None,
            },
            None => None,
        }
    }

    pub open spec fn exe_name_of(self, w: Window) -> Option<Seq<char>> {
        match self.facts(w) {
            Some(f) => exe_of(f),
            None => None,
        }
    }

    /// Should `w` be managed?
    pub open spec fn manages(self, w: Window, r: Rules) -> bool {
        self.facts(w) matches Some(f) && manageable(f, r)
    }

    /// Should `w` float? A window that is gone has no frame to resize.
    pub open spec fn floating(self, w: Window, r: Rules) -> bool {
        match self.facts(w) {
            Some(f) => floats(f, r),
            None => true,
        }
    }

    /// With one more action.
    pub open spec fn act(self, a: Action) -> DeskView {
        DeskView { actions: self.actions.push(a), ..self }
    }

    /// `w` seen to be shown or hidden.
    pub open spec fn seen_as(self, w: Window, visible: bool) -> DeskView {
        match sight_from(self.seen, w, 0) {
            Some(i) => DeskView {
                seen: self.seen.update(
                    i,
                    Sight { facts: Facts { visible, ..self.seen[i].facts }, ..self.seen[i] },
                ),
                ..self
            },
            None => self,
        }
    }

    pub open spec fn concealed(self, w: Window) -> DeskView {
        self.seen_as(w, false).act(Action::Hide(w))
    }

    pub open spec fn shown(self, w: Window) -> DeskView {
        self.seen_as(w, true).act(Action::Show(w))
    }

    pub open spec fn focused(self, w: Window) -> DeskView {
        DeskView { foreground: Some(w), ..self.act(Action::Focus(w)) }
    }

    pub open spec fn focus_shell(self) -> DeskView {
        DeskView { foreground: None, ..self.act(Action::FocusShell) }
    }
}

impl Desktop {
    fn sight(&self, w: Window) -> (r: Option<usize>)
        ensures
            match r {
                Some(i) => sight_from(self.seen@, w, 0) == Some(i as int) && i < self.seen.len(),
                None => sight_from(self.seen@, w, 0) is None,
            },
    {
        let mut i: usize = 0;
        while i < self.seen.len()
            invariant
                i <= self.seen.len(),
                sight_from(self.seen@, w, 0) == sight_from(self.seen@, w, i as int),
            decreases self.seen.len() - i,
        {
            if self.seen[i].window == w {
                return Some(i);
            }
            i = i + 1;
        }
        None
    }

    pub fn facts(&self, w: Window) -> (r: Option<&Facts>)
        ensures
            match r {
                Some(f) => self@.facts(w) == Some(*f),
                None => self@.facts(w) is None,
            },
    {
        match self.sight(w) {
            Some(i) => Some(&self.seen[i].facts),
            None => None,
        }
    }

    pub fn is_valid(&self, w: Window) -> (r: bool)
        ensures
            r == self@.valid(w),
    {
        match self.facts(w) {
            Some(f) => f.valid,
            None => false,
        }
    }

    pub fn is_visible(&self, w: Window) -> (r: bool)
        ensures
            r == self@.visible(w),
    {
        match self.facts(w) {
            Some(f) => f.visible,
            None => false,
        }
    }

    pub fn is_minimized(&self, w: Window) -> (r: bool)
        ensures
            r == self@.minimized(w),
    {
        match self.facts(w) {
            Some(f) => f.minimized,
            None => false,
        }
    }

    pub fn is_transient_popup(&self, w: Window) -> (r: bool)
        ensures
            r == self@.transient(w),
    {
        match self.facts(w) {
            Some(f) => f.transient,
            None => false,
        }
    }

    pub fn monitor(&self, w: Window) -> (r: isize)
        ensures
            r == self@.monitor_of(w),
    {
        match self.facts(w) {
            Some(f) => f.monitor,
            None => 0,
        }
    }

    pub fn thread_id(&self, w: Window) -> (r: u32)
        ensures
            r == self@.thread_of(w),
    {
        match self.facts(w) {
            Some(f) => f.thread,
            None => 0,
        }
    }

    pub fn root_owner(&self, w: Window) -> (r: Window)
        ensures
            r == self@.root_owner_of(w),
    {
        match self.facts(w) {
            Some(f) => f.root_owner,
            None => w,
        }
    }

    pub fn rect(&self, w: Window) -> (r: Rect)
        ensures
            r == self@.rect_of(w),
    {
        match self.facts(w) {
            Some(f) => f.rect,
            None => Rect { x: 0, y: 0, w: 0, h: 0 },
        }
    }

    pub fn visible_rect(&self, w: Window) -> (r: Rect)
        ensures
            r == self@.frame_of(w),
    {
        match self.facts(w) {
            Some(f) => f.frame,
            None => Rect { x: 0, y: 0, w: 0, h: 0 },
        }
    }

    pub fn title(&self, w: Window) -> (r: String)
        ensures
            r@ == self@.title_of(w),
    {
        match self.facts(w) {
            Some(f) => f.title.clone(),
            None => String::new(),
        }
    }

    pub fn rule_key(&self, w: Window) -> (r: Option<String>)
        ensures
            match r {
                Some(k) => self@.rule_key_of(w) == Some(k@),
                None => self@.rule_key_of(w) is None,
            },
    {
        match self.facts(w) {
            Some(f) => match &f.rule_key {
                Some(k) => Some(k.clone()),
                None => None,
            },
            None => None,
        }
    }

    pub fn exe(&self, w: Window) -> (r: Option<String>)
        ensures
            match r {
                Some(e) => self@.exe_name_of(w) == Some(e@),
                None => self@.exe_name_of(w) is None,
            },
    {
        match self.facts(w) {
            Some(f) => f.exe(),
            None => None,
        }
    }

    /// Should `w` be managed?
    pub fn is_manageable(&self, w: Window, cfg: &Config) -> (r: bool)
        ensures
            r == self@.manages(w, rules_of(*cfg)),
    {
        match self.facts(w) {
            Some(f) => f.is_manageable(cfg),
            None => false,
        }
    }

    /// Should `w` float?
    pub fn should_float(&self, w: Window, cfg: &Config) -> (r: bool)
        ensures
            r == self@.floating(w, rules_of(*cfg)),
    {
        match self.facts(w) {
            Some(f) => f.should_float(cfg),
            None => true,
        }
    }

    /// Records an action.
    pub fn act(&mut self, a: Action)
        ensures
            final(self)@ == old(self)@.act(a),
    {
        self.actions.push(a);
    }

    fn mark(&mut self, w: Window, visible: bool)
        ensures
            final(self)@ == old(self)@.seen_as(w, visible),
    {
        if let Some(i) = self.sight(w) {
            let ghost was = self.seen@;
            self.seen[i].facts.visible = visible;
            proof {
                assert(self.seen@ =~= was.update(
                    i as int,
                    Sight { facts: Facts { visible, ..was[i as int].facts }, ..was[i as int] },
                ));
            }
        }
    }

    pub fn conceal(&mut self, w: Window)
        ensures
            final(self)@ == old(self)@.concealed(w),
    {
        self.mark(w, false);
        self.act(Action::Hide(w));
    }

    pub fn show(&mut self, w: Window)
        ensures
            final(self)@ == old(self)@.shown(w),
    {
        self.mark(w, true);
        self.act(Action::Show(w));
    }

    pub fn focus(&mut self, w: Window)
        ensures
            final(self)@ == old(self)@.focused(w),
    {
        self.act(Action::Focus(w));
        self.foreground = Some(w);
    }

    pub fn focus_shell(&mut self)
        ensures
            final(self)@ == old(self)@.focus_shell(),
    {
        self.act(Action::FocusShell);
        self.foreground = None;
    }

    pub fn set_topmost(&mut self, w: Window, on: bool)
        ensures
            final(self)@ == old(self)@.act(Action::Topmost(w, on)),
    {
        self.act(Action::Topmost(w, on));
    }

    /// Moves a window toward `target`.
    pub fn glide(&mut self, w: Window, target: Rect, ms: u32)
        ensures
            final(self)@ == old(self)@.act(Action::Glide(w, target, ms)),
    {
        self.act(Action::Glide(w, target, ms));
    }
}

} // verus!
