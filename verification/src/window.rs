//! Windows: their handles, what is known of them, which ones are managed,
//! and where a visible frame has to be placed.

use crate::config::Config;
use crate::layout::{clip, sat, Rect};
use crate::search::maybe;
use crate::text::{
    after_last_either, ascii_lowered, contains, has_text, is_blank, lowercase, past_last_either,
    same, same_ignoring_ascii_case, texts, to_lowercase,
};
use vstd::prelude::*;

verus! {

/// A window handle. It may be kept after the window has died.
#[derive(Clone, Copy, Debug, PartialEq, Eq, Hash, Structural)]
pub struct Window(pub isize);

pub const WS_CHILD: u32 = 0x4000_0000;

pub const WS_CAPTION: u32 = 0x00C0_0000;

pub const WS_THICKFRAME: u32 = 0x0004_0000;

pub const WS_EX_TOOLWINDOW: u32 = 0x0000_0080;

pub const WS_EX_NOACTIVATE: u32 = 0x0800_0000;

/// What was observed of a window.
pub struct Facts {
    pub valid: bool,
    pub visible: bool,
    pub minimized: bool,
    /// Invisible although shown, as on another virtual desktop.
    pub cloaked: bool,
    /// The window is its own root.
    pub top_level: bool,
    pub style: u32,
    pub ex_style: u32,
    pub title: String,
    pub class: String,
    /// Path of the program, if it could be read.
    pub image: Option<String>,
    /// What an app rule for this window is filed under.
    pub rule_key: Option<String>,
    /// The monitor that the window is on.
    pub monitor: isize,
    /// The whole window, with its invisible resize border.
    pub rect: Rect,
    /// The visible frame.
    pub frame: Rect,
    pub thread: u32,
    pub root_owner: Window,
    /// A short-lived overlay such as a tooltip or a key tip.
    pub transient: bool,
}

/// Are all bits of `flag` set?
pub open spec fn set_in(style: u32, flag: u32) -> bool {
    style & flag == flag
}

/// The file name in a path.
pub open spec fn file_name(path: Seq<char>) -> Seq<char> {
    past_last_either(path, '\\', '/')
}

/// The program of a window, such as "firefox.exe".
pub open spec fn exe_of(f: Facts) -> Option<Seq<char>> {
    match f.image {
        Some(p) => Some(file_name(p@)),
        None => None,
    }
}

/// What an app rule is filed under: the identifier of the app, by which web
/// apps are told apart, else the program; both in small letters. An empty
/// identifier is none.
pub open spec fn filed_under(app_id: Option<Seq<char>>, image: Option<Seq<char>>) -> Option<
    Seq<char>,
> {
    if app_id is Some && app_id->0.len() > 0 {
        Some(lowercase(app_id->0))
    } else {
        match image {
            Some(p) => Some(lowercase(file_name(p))),
            None => None,
        }
    }
}

/// What an app rule is filed under.
pub fn rule_key(app_id: &Option<String>, image: &Option<String>) -> (r: Option<String>)
    ensures
        maybe(r) == filed_under(maybe(*app_id), maybe(*image)),
{
    if let Some(id) = app_id {
        if !is_blank(id.as_str()) {
            return Some(to_lowercase(id.as_str()));
        }
    }
    match image {
        Some(p) => {
            let exe = after_last_either(p.as_str(), '\\', '/');
            Some(to_lowercase(exe.as_str()))
        },
        None => None,
    }
}

/// A short-lived overlay: a tooltip, or a window without caption that cannot
/// be activated.
pub open spec fn overlay(class: Seq<char>, style: u32, ex_style: u32) -> bool {
    class == "tooltips_class32"@ || (style & WS_CAPTION == 0 && ex_style & WS_EX_NOACTIVATE != 0)
}

/// Is this a short-lived overlay such as a tooltip or a key tip?
pub fn is_transient_popup(class: &str, style: u32, ex_style: u32) -> (r: bool)
    ensures
        r == overlay(class@, style, ex_style),
{
    same(class, "tooltips_class32") || (style & WS_CAPTION == 0 && ex_style & WS_EX_NOACTIVATE != 0)
}

/// Some text of `list` stands in `s`.
pub open spec fn mentions(s: Seq<char>, list: Seq<Seq<char>>) -> bool {
    exists|i: int| 0 <= i < list.len() && has_text(s, #[trigger] list[i])
}

/// `list` names the program `exe`, in any case of its ASCII letters.
pub open spec fn names_exe(exe: Seq<char>, list: Seq<Seq<char>>) -> bool {
    exists|i: int| 0 <= i < list.len() && ascii_lowered(#[trigger] list[i]) == ascii_lowered(exe)
}

/// The rules on which windows are managed and which of them float.
pub struct Rules {
    pub float_classes: Seq<Seq<char>>,
    pub float_titles: Seq<Seq<char>>,
    pub ignore_classes: Seq<Seq<char>>,
    pub ignore_exes: Seq<Seq<char>>,
    pub ignore_titles: Seq<Seq<char>>,
}

/// The rules that a configuration states.
pub open spec fn rules_of(c: Config) -> Rules {
    Rules {
        float_classes: texts(c.float_classes@),
        float_titles: texts(c.float_titles@),
        ignore_classes: texts(c.ignore_classes@),
        ignore_exes: texts(c.ignore_exes@),
        ignore_titles: texts(c.ignore_titles@),
    }
}

/// Should this window be managed at all? It must be on screen, a captioned
/// top-level window that can be activated, have a title, and not be ignored.
pub open spec fn manageable(f: Facts, r: Rules) -> bool {
    &&& f.valid && f.visible && !f.minimized && !f.cloaked
    &&& f.top_level
    &&& !set_in(f.style, WS_CHILD) && set_in(f.style, WS_CAPTION)
    &&& !set_in(f.ex_style, WS_EX_TOOLWINDOW) && !set_in(f.ex_style, WS_EX_NOACTIVATE)
    &&& f.title@.len() > 0
    &&& !mentions(f.title@, r.ignore_titles)
    &&& !r.ignore_classes.contains(f.class@)
    &&& exe_of(f) matches Some(e) ==> !names_exe(e, r.ignore_exes)
}

/// Windows that cannot be resized float, and those that the rules name.
pub open spec fn floats(f: Facts, r: Rules) -> bool {
    ||| !set_in(f.style, WS_THICKFRAME)
    ||| r.float_classes.contains(f.class@)
    ||| mentions(f.title@, r.float_titles)
}

fn any_in(s: &str, list: &Vec<String>) -> (r: bool)
    ensures
        r == mentions(s@, texts(list@)),
{
    let mut i: usize = 0;
    while i < list.len()
        invariant
            i <= list.len(),
            forall|k: int| 0 <= k < i ==> !has_text(s@, #[trigger] texts(list@)[k]),
        decreases list.len() - i,
    {
        if contains(s, list[i].as_str()) {
            proof {
                assert(has_text(s@, texts(list@)[i as int]));
            }
            return true;
        }
        i = i + 1;
    }
    false
}

fn any_same(s: &str, list: &Vec<String>) -> (r: bool)
    ensures
        r == texts(list@).contains(s@),
{
    let mut i: usize = 0;
    while i < list.len()
        invariant
            i <= list.len(),
            forall|k: int| 0 <= k < i ==> #[trigger] texts(list@)[k] != s@,
        decreases list.len() - i,
    {
        if same(list[i].as_str(), s) {
            proof {
                assert(texts(list@)[i as int] == s@);
            }
            return true;
        }
        i = i + 1;
    }
    false
}

fn any_exe(s: &str, list: &Vec<String>) -> (r: bool)
    ensures
        r == names_exe(s@, texts(list@)),
{
    let mut i: usize = 0;
    while i < list.len()
        invariant
            i <= list.len(),
            forall|k: int|
                0 <= k < i ==> ascii_lowered(#[trigger] texts(list@)[k]) != ascii_lowered(s@),
        decreases list.len() - i,
    {
        if same_ignoring_ascii_case(list[i].as_str(), s) {
            proof {
                assert(ascii_lowered(texts(list@)[i as int]) == ascii_lowered(s@));
            }
            return true;
        }
        i = i + 1;
    }
    false
}

impl Facts {
    /// The program of the window, such as "firefox.exe", if it is known.
    pub fn exe(&self) -> (r: Option<String>)
        ensures
            match r {
                Some(e) => exe_of(*self) == Some(e@),
                None => exe_of(*self) is None,
            },
    {
        match &self.image {
            Some(p) => Some(after_last_either(p.as_str(), '\\', '/')),
            None => None,
        }
    }

    /// Should the tiler manage this window at all?
    pub fn is_manageable(&self, cfg: &Config) -> (r: bool)
        ensures
            r == manageable(*self, rules_of(*cfg)),
    {
        if !self.valid || !self.visible || self.minimized || self.cloaked || !self.top_level {
            return false;
        }
        if self.style & WS_CHILD == WS_CHILD || self.style & WS_CAPTION != WS_CAPTION {
            return false;
        }
        if self.ex_style & WS_EX_TOOLWINDOW == WS_EX_TOOLWINDOW || self.ex_style & WS_EX_NOACTIVATE
            == WS_EX_NOACTIVATE {
            return false;
        }
        if is_blank(self.title.as_str()) {
            return false;
        }
        if any_in(self.title.as_str(), &cfg.ignore_titles) {
            return false;
        }
        if any_same(self.class.as_str(), &cfg.ignore_classes) {
            return false;
        }
        match self.exe() {
            Some(e) => !any_exe(e.as_str(), &cfg.ignore_exes),
            None => true,
        }
    }

    /// Does this window float instead of tile?
    pub fn should_float(&self, cfg: &Config) -> (r: bool)
        ensures
            r == floats(*self, rules_of(*cfg)),
    {
        if self.style & WS_THICKFRAME != WS_THICKFRAME {
            return true;
        }
        if any_same(self.class.as_str(), &cfg.float_classes) {
            return true;
        }
        any_in(self.title.as_str(), &cfg.float_titles)
    }
}

// ---------------------------------------------------------------- geometry

/// A rectangle by its four edges.
#[derive(Clone, Copy, Debug, PartialEq, Eq, Structural)]
pub struct Edges {
    pub left: i32,
    pub top: i32,
    pub right: i32,
    pub bottom: i32,
}

impl Edges {
    pub open spec fn as_rect(self) -> Rect {
        Rect {
            x: self.left,
            y: self.top,
            w: sat(self.right - self.left),
            h: sat(self.bottom - self.top),
        }
    }

    /// The rectangle between the edges.
    pub fn rect(self) -> (r: Rect)
        ensures
            r == self.as_rect(),
    {
        Rect {
            x: self.left,
            y: self.top,
            w: clip(self.right as i64 - self.left as i64),
            h: clip(self.bottom as i64 - self.top as i64),
        }
    }
}

/// How far the visible frame lies inside the window, at each edge.
pub open spec fn offsets_of(window: Edges, frame: Edges) -> (i32, i32, i32, i32) {
    (
        sat(frame.left - window.left),
        sat(frame.top - window.top),
        sat(window.right - frame.right),
        sat(window.bottom - frame.bottom),
    )
}

/// The window rectangle whose visible frame is `target`.
pub open spec fn around(target: Rect, offsets: (i32, i32, i32, i32)) -> Rect {
    Rect {
        x: sat(target.x - offsets.0),
        y: sat(target.y - offsets.1),
        w: sat(target.w + offsets.0 + offsets.2),
        h: sat(target.h + offsets.1 + offsets.3),
    }
}

/// How far the visible frame lies inside the window: left, top, right and
/// bottom. It stays the same as long as the window lives.
pub fn frame_offsets(window: Edges, frame: Edges) -> (r: (i32, i32, i32, i32))
    ensures
        r == offsets_of(window, frame),
{
    (
        clip(frame.left as i64 - window.left as i64),
        clip(frame.top as i64 - window.top as i64),
        clip(window.right as i64 - frame.right as i64),
        clip(window.bottom as i64 - frame.bottom as i64),
    )
}

/// Where to place a window so that its visible frame covers `target`.
pub fn place_visible(target: Rect, offsets: (i32, i32, i32, i32)) -> (r: Rect)
    ensures
        r == around(target, offsets),
{
    Rect {
        x: clip(target.x as i64 - offsets.0 as i64),
        y: clip(target.y as i64 - offsets.1 as i64),
        w: clip(target.w as i64 + offsets.0 as i64 + offsets.2 as i64),
        h: clip(target.h as i64 + offsets.1 as i64 + offsets.3 as i64),
    }
}

/// The system's own border color.
pub const COLOR_DEFAULT: u32 = 0xFFFF_FFFF;

impl Window {
    /// Where to place this window, whose edges and visible frame are given,
    /// so that the frame lands on `target`.
    pub fn apply_rect(&self, target: Rect, window: Edges, frame: Edges) -> (r: Rect)
        ensures
            r == around(target, offsets_of(window, frame)),
    {
        place_visible(target, frame_offsets(window, frame))
    }

    /// When asking for the foreground failed: must the input queue of the
    /// foreground thread be borrowed to ask again?
    pub fn borrows_focus(&self, foreground: Option<Window>, fg_thread: u32, own_thread: u32) -> (r:
        bool)
        ensures
            r == (foreground != Some(*self) && fg_thread != 0 && fg_thread != own_thread),
    {
        let there = match foreground {
            Some(f) => f == *self,
            None => false,
        };
        !there && fg_thread != 0 && fg_thread != own_thread
    }
}

/// The value that sets a border color; none stands for the system's own.
pub fn border_value(color: Option<u32>) -> (r: u32)
    ensures
        r == match color {
            Some(c) => c,
            None => COLOR_DEFAULT,
        },
{
    match color {
        Some(c) => c,
        None => COLOR_DEFAULT,
    }
}

// -------------------------------------------------------------------- laws

/// The visible frame lands exactly on the target, within the coordinates.
pub proof fn law_frame_lands_on_target(target: Rect, window: Edges, frame: Edges)
    requires
        ({
            let o = offsets_of(window, frame);
            &&& i32::MIN <= target.x - o.0 <= i32::MAX
            &&& i32::MIN <= target.y - o.1 <= i32::MAX
            &&& i32::MIN <= target.w + o.0 + o.2 <= i32::MAX
            &&& i32::MIN <= target.h + o.1 + o.3 <= i32::MAX
        }),
    ensures
        ({
            let o = offsets_of(window, frame);
            let r = around(target, o);
            &&& r.x + o.0 == target.x
            &&& r.y + o.1 == target.y
            &&& r.w - o.0 - o.2 == target.w
            &&& r.h - o.1 - o.3 == target.h
        }),
{
}

} // verus!
