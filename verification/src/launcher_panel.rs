//! The launcher panel: typing, choosing, starting and removing apps, and
//! giving them shortcuts.

use crate::bar::{nth_width, width_at};
use crate::config::{EntryView, LauncherEntry};
use crate::keys::{captured, chords_overlap, collide, format_captured, Modifiers};
use crate::launcher::{
    entries_of, launcher_nav, launcher_row_of, nav, row_of, row_views, rows_fit, LRow, Row,
};
use crate::layout::{divided, quot, Rect};
use crate::numerals::{decimal, show};
use crate::scene::{
    area, blank, bold, bold_pen, greater, max2, min2, normal, normal_pen, perch, perched, span, Align,
    BarStyle, Perch, Scene, Sheet, Sketch,
};
use crate::search::{maybe, type_char, typed};
use crate::strmap::StrMap;
use crate::text::{is_blank, joined, joined3, owned, same, to_uppercase, trim, trimmed, uppercase};
use crate::vk::{
    is_modifier, modifier_key, VK_BACK, VK_DELETE, VK_DOWN, VK_ESCAPE, VK_RETURN, VK_UP,
};
use vstd::prelude::*;

verus! {

// -------------------------------------------------------------------- state

/// The state of the panel.
pub struct LauncherState {
    pub query: String,
    /// The number of the chosen entry, in the order of navigation.
    pub selected: usize,
    /// The first row that is shown.
    pub offset: usize,
    /// The index of the entry that waits for its shortcut.
    pub capturing: Option<usize>,
    /// What the last line says, or nothing.
    pub message: String,
}

/// The state of the panel.
pub struct LauncherView {
    pub query: Seq<char>,
    pub selected: int,
    pub offset: int,
    pub capturing: Option<usize>,
    pub message: Seq<char>,
}

impl View for LauncherState {
    type V = LauncherView;

    open spec fn view(&self) -> LauncherView {
        LauncherView {
            query: self.query@,
            selected: self.selected as int,
            offset: self.offset as int,
            capturing: self.capturing,
            message: self.message@,
        }
    }
}

/// The state of a panel just opened.
pub open spec fn fresh_launcher() -> LauncherView {
    LauncherView {
        query: Seq::empty(),
        selected: 0,
        offset: 0,
        capturing: None,
        message: Seq::empty(),
    }
}

/// What the panel asks for.
#[derive(Debug)]
pub enum LauncherStep {
    Nothing,
    Close,
    Redraw,
    /// Start the entry of that index and close.
    Launch(usize),
    /// Run what was typed and close.
    Run(String),
    /// The entries changed: save them and register the hotkeys anew.
    Save,
}

/// What the panel asks for.
pub enum LauncherAsk {
    Nothing,
    Close,
    Redraw,
    Launch(int),
    Run(Seq<char>),
    Save,
}

impl View for LauncherStep {
    type V = LauncherAsk;

    open spec fn view(&self) -> LauncherAsk {
        match *self {
            LauncherStep::Nothing => LauncherAsk::Nothing,
            LauncherStep::Close => LauncherAsk::Close,
            LauncherStep::Redraw => LauncherAsk::Redraw,
            LauncherStep::Launch(i) => LauncherAsk::Launch(i as int),
            LauncherStep::Run(s) => LauncherAsk::Run(s@),
            LauncherStep::Save => LauncherAsk::Save,
        }
    }
}

// ----------------------------------------------------------------- geometry

/// The height of a row.
pub open spec fn line_height(sh: Sheet) -> int {
    sh.s(28)
}

/// The top of the first row.
pub open spec fn rows_top(sh: Sheet) -> int {
    sh.s(20) + sh.s(28) + sh.s(6)
}

/// How many rows fit above the last line.
pub open spec fn fitting(sh: Sheet) -> int {
    max2(quot(sh.h - sh.s(8) - sh.s(28) - rows_top(sh), line_height(sh)), 1)
}

/// How many rows fit above the last line.
pub fn launcher_visible_rows(sh: &Sheet) -> (r: usize)
    requires
        line_height(*sh) > 0,
    ensures
        r == fitting(*sh),
        1 <= r <= 0x7FFF_FFFF,
{
    let line: i64 = sh.px(28) as i64;
    let top: i64 = sh.px(20) as i64 + line + sh.px(6) as i64;
    let n: i64 = divided(sh.h as i64 - sh.px(8) as i64 - line - top, line);
    greater(n, 1) as usize
}

/// The place of the panel: it grows with its rows, up to seven tenths of the
/// monitor.
pub open spec fn launcher_place(bounds: Rect, dpi: u32, rows: int) -> Rect {
    let sh = Sheet { w: 0, h: 0, dpi };
    let line = line_height(sh);
    let most = max2(quot(quot(bounds.h * 7, 10) - sh.s(40), line) - 2, 8);
    let shown = if rows < 1 {
        1
    } else {
        min2(rows, most)
    };
    perched(bounds, sh.s(560), sh.s(20) * 2 + line * (shown + 2), Perch::Fifth)
}

/// The place of the panel.
pub fn launcher_panel(bounds: &Rect, dpi: u32, rows: usize) -> (r: Rect)
    requires
        rows <= 0x7FFF_FFFF,
        line_height(Sheet { w: 0, h: 0, dpi }) > 0,
    ensures
        r == launcher_place(*bounds, dpi, rows as int),
{
    let sh = Sheet { w: 0, h: 0, dpi };
    let line: i64 = sh.px(28) as i64;
    let room: i64 = divided(bounds.h as i64 * 7, 10) - sh.px(40) as i64;
    let most: i64 = greater(divided(room, line) - 2, 8);
    let shown: i64 = if rows < 1 {
        1
    } else if (rows as i64) < most {
        rows as i64
    } else {
        most
    };
    let n: i64 = shown + 2;
    proof {
        let (a, b) = (line as int, n as int);
        assert(0 <= a * b <= 0x8000_0000 * 0x8000_0002) by (nonlinear_arith)
            requires
                0 <= a <= 0x8000_0000,
                0 <= b <= 0x8000_0002,
        ;
    }
    perch(bounds, sh.px(560) as i64, sh.px(20) as i64 * 2 + line * n, Perch::Fifth)
}

// ----------------------------------------------------------------- scrolling

/// The first row shown after the wheel turned by `delta`: three rows a notch,
/// within the list.
pub open spec fn scrolled(offset: int, delta: int, most: int) -> int {
    let to = offset - quot(delta, 120) * 3;
    if to < 0 {
        0
    } else if to > most {
        most
    } else {
        to
    }
}

/// The first row shown after the wheel turned by `delta`, of a list that can
/// be scrolled by `most` rows.
pub fn scroll(offset: usize, delta: i32, most: usize) -> (r: usize)
    requires
        offset <= 0x7FFF_FFFF,
        most <= 0x7FFF_FFFF,
    ensures
        r == scrolled(offset as int, delta as int, most as int),
        r <= most,
{
    let to: i64 = offset as i64 - divided(delta as i64, 120) * 3;
    if to < 0 {
        0
    } else if to > most as i64 {
        most
    } else {
        to as usize
    }
}

// ------------------------------------------------------------------ removing

/// Removes that entry, and no other.
pub fn remove_entry(entries: &mut Vec<LauncherEntry>, i: usize)
    requires
        i < old(entries).len(),
    ensures
        entries_of(final(entries)@) == entries_of(old(entries)@).remove(i as int),
{
    let _ = entries.remove(i);
    proof {
        assert(entries_of(entries@) =~= entries_of(old(entries)@).remove(i as int));
    }
}

// ------------------------------------------------------------------ shortcuts

/// The first action, from the `i`th on, whose chord collides.
pub open spec fn action_from(pairs: Seq<(Seq<char>, Seq<char>)>, chord: Seq<char>, i: int) -> Option<
    Seq<char>,
>
    decreases pairs.len() - i,
{
    if i < 0 || i >= pairs.len() {
        None
    } else if collide(pairs[i].1, chord) {
        Some(pairs[i].0)
    } else {
        action_from(pairs, chord, i + 1)
    }
}

/// The first other entry, from the `j`th on, whose shortcut collides.
pub open spec fn entry_from(s: Seq<EntryView>, idx: int, chord: Seq<char>, j: int) -> Option<Seq<char>>
    decreases s.len() - j,
{
    if j < 0 || j >= s.len() {
        None
    } else if j != idx && s[j].key.len() > 0 && collide(s[j].key, chord) {
        Some(s[j].name)
    } else {
        entry_from(s, idx, chord, j + 1)
    }
}

/// What stands against a shortcut for entry `idx`.
pub open spec fn obstacle(
    pairs: Seq<(Seq<char>, Seq<char>)>,
    s: Seq<EntryView>,
    idx: int,
    chord: Seq<char>,
) -> Option<Seq<char>> {
    match action_from(pairs, chord, 0) {
        Some(a) => Some(a),
        None => entry_from(s, idx, chord, 0),
    }
}

/// The shortcut that a key press gives an entry, or why it does not.
pub open spec fn shortcut(
    pairs: Seq<(Seq<char>, Seq<char>)>,
    s: Seq<EntryView>,
    idx: int,
    m: Modifiers,
    vk: u32,
) -> Result<Seq<char>, Seq<char>> {
    if !(m.alt || m.ctrl || m.win) {
        Err("use at least one of Alt / Ctrl / Win"@)
    } else {
        match captured(m, vk, false) {
            None => Err("that key is not supported"@),
            Some(chord) => match obstacle(pairs, s, idx, chord) {
                Some(other) => Err("conflicts with "@ + other),
                None => Ok(chord),
            },
        }
    }
}

/// The entries with another shortcut for one, where it exists.
pub open spec fn with_key(s: Seq<EntryView>, idx: int, key: Seq<char>) -> Seq<EntryView> {
    if 0 <= idx < s.len() {
        s.update(idx, EntryView { key, ..s[idx] })
    } else {
        s
    }
}

/// The name of an entry, empty where it does not exist.
pub open spec fn name_at(s: Seq<EntryView>, idx: int) -> Seq<char> {
    if 0 <= idx < s.len() {
        s[idx].name
    } else {
        Seq::empty()
    }
}

/// What a key does while entry `idx` waits for its shortcut.
pub open spec fn capture(
    p: LauncherView,
    s: Seq<EntryView>,
    pairs: Seq<(Seq<char>, Seq<char>)>,
    idx: int,
    vk: u32,
    m: Modifiers,
) -> (LauncherView, Seq<EntryView>, LauncherAsk) {
    let done = LauncherView { capturing: None, ..p };
    if vk == VK_ESCAPE {
        (LauncherView { message: Seq::empty(), ..done }, s, LauncherAsk::Redraw)
    } else if vk == VK_BACK || vk == VK_DELETE {
        (
            LauncherView { message: "shortcut cleared"@, ..done },
            with_key(s, idx, Seq::empty()),
            LauncherAsk::Save,
        )
    } else if modifier_key(vk) {
        (p, s, LauncherAsk::Nothing)
    } else {
        match shortcut(pairs, s, idx, m, vk) {
            Err(why) => (LauncherView { message: why, ..p }, s, LauncherAsk::Redraw),
            Ok(chord) => (
                LauncherView {
                    message: chord + "  →  "@ + name_at(s, idx) + "  ✓"@,
                    ..done
                },
                with_key(s, idx, chord),
                LauncherAsk::Save,
            ),
        }
    }
}

fn find_obstacle(
    bindings: &StrMap<String>,
    entries: &Vec<LauncherEntry>,
    idx: usize,
    chord: &str,
) -> (r: Option<String>)
    ensures
        match r {
            Some(o) => obstacle(bindings.pairs(), entries_of(entries@), idx as int, chord@)
                == Some(o@),
            None => obstacle(bindings.pairs(), entries_of(entries@), idx as int, chord@) is None,
        },
{
    let ghost pairs = bindings.pairs();
    let ghost views = entries_of(entries@);
    let mut i: usize = 0;
    while i < bindings.entries.len()
        invariant
            i <= bindings.entries.len(),
            pairs == bindings.pairs(),
            views == entries_of(entries@),
            action_from(pairs, chord@, i as int) == action_from(pairs, chord@, 0),
        decreases bindings.entries.len() - i,
    {
        proof {
            assert(pairs[i as int] == (
                bindings.entries@[i as int].0@,
                bindings.entries@[i as int].1@,
            ));
        }
        if chords_overlap(bindings.entries[i].1.as_str(), chord) {
            return Some(bindings.entries[i].0.clone());
        }
        i = i + 1;
    }
    let mut j: usize = 0;
    while j < entries.len()
        invariant
            j <= entries.len(),
            views == entries_of(entries@),
            pairs == bindings.pairs(),
            action_from(pairs, chord@, 0) is None,
            entry_from(views, idx as int, chord@, j as int) == entry_from(
                views,
                idx as int,
                chord@,
                0,
            ),
        decreases entries.len() - j,
    {
        let e = &entries[j];
        proof {
            assert(views[j as int] == e@);
        }
        if j != idx && !is_blank(e.key.as_str()) && chords_overlap(e.key.as_str(), chord) {
            return Some(e.name.clone());
        }
        j = j + 1;
    }
    None
}

fn set_key(entries: &mut Vec<LauncherEntry>, idx: usize, key: String)
    ensures
        entries_of(final(entries)@) == with_key(entries_of(old(entries)@), idx as int, key@),
{
    let ghost views = entries_of(entries@);
    if idx < entries.len() {
        entries[idx].key = key;
        proof {
            assert(entries_of(entries@) =~= with_key(views, idx as int, key@));
        }
    }
}

// --------------------------------------------------------------------- input

/// A row that is shown at place `i`, counting from the top.
pub open spec fn row_at(p: LauncherView, rows: Seq<Row>, i: int) -> Option<Row> {
    let first = min2(p.offset, max2(rows.len() - 1, 0));
    if 0 <= first + i < rows.len() {
        Some(rows[first + i])
    } else {
        None
    }
}

/// What a click does to the panel and the entries.
pub open spec fn clicked(
    p: LauncherView,
    s: Seq<EntryView>,
    rows: Seq<Row>,
    sh: Sheet,
    x: int,
    y: int,
) -> (LauncherView, Seq<EntryView>, LauncherAsk) {
    let i = (y - rows_top(sh)) / line_height(sh);
    if y < rows_top(sh) || i >= fitting(sh) {
        (p, s, LauncherAsk::Nothing)
    } else {
        match row_at(p, rows, i) {
            Some(Row::Entry(o, k, b)) => if x >= sh.w - sh.s(44) {
                (
                    LauncherView { selected: 0, ..p },
                    s.remove(k),
                    LauncherAsk::Save,
                )
            } else if x >= sh.w - sh.s(160) {
                (
                    LauncherView { capturing: Some(k as usize), message: Seq::empty(), ..p },
                    s,
                    LauncherAsk::Redraw,
                )
            } else {
                (p, s, LauncherAsk::Launch(k))
            },
            _ => (p, s, LauncherAsk::Nothing),
        }
    }
}

/// What a character does.
pub open spec fn typed_into(p: LauncherView, ch: u32, clip: Option<Seq<char>>) -> LauncherView {
    if p.capturing is Some {
        p
    } else {
        match typed(p.query, ch, clip) {
            Some(q) => LauncherView {
                query: q,
                selected: 0,
                offset: 0,
                message: Seq::empty(),
                ..p
            },
            None => LauncherView { message: Seq::empty(), ..p },
        }
    }
}

/// The selection moved by one entry, around the ends, and its row scrolled
/// into view, with the header above it.
pub open spec fn moved(p: LauncherView, rows: Seq<Row>, visible: int, down: bool) -> LauncherView {
    let n = max2(nav(rows).len() as int, 1);
    let selected = if down {
        (p.selected + 1) % n
    } else {
        (p.selected - 1) % n
    };
    let at = row_of(rows, selected);
    let row = if at > 0 && rows[at - 1] is Header {
        at - 1
    } else {
        at
    };
    LauncherView {
        selected,
        offset: if row < p.offset {
            row
        } else if row >= p.offset + visible {
            row + 1 - visible
        } else {
            p.offset
        },
        ..p
    }
}

/// What a key does while no shortcut is awaited.
pub open spec fn keyed(p: LauncherView, rows: Seq<Row>, visible: int, vk: u32) -> (
    LauncherView,
    LauncherAsk,
) {
    if vk == VK_ESCAPE {
        (p, LauncherAsk::Close)
    } else if vk == VK_DOWN || vk == VK_UP {
        (moved(p, rows, visible, vk == VK_DOWN), LauncherAsk::Redraw)
    } else if vk == VK_RETURN {
        if 0 <= p.selected < nav(rows).len() {
            (p, LauncherAsk::Launch(nav(rows)[p.selected]))
        } else if trimmed(p.query).len() > 0 {
            (p, LauncherAsk::Run(trimmed(p.query)))
        } else {
            (p, LauncherAsk::Nothing)
        }
    } else {
        (p, LauncherAsk::Nothing)
    }
}

impl LauncherState {
    /// The state of a panel just opened.
    pub fn new() -> (r: LauncherState)
        ensures
            r@ == fresh_launcher(),
    {
        LauncherState {
            query: String::new(),
            selected: 0,
            offset: 0,
            capturing: None,
            message: String::new(),
        }
    }

    /// The wheel turned by `delta`.
    pub fn wheel(&mut self, delta: i32, rows: usize, visible: usize)
        requires
            old(self).offset <= 0x7FFF_FFFF,
            rows <= 0x7FFF_FFFF,
        ensures
            final(self)@ == (LauncherView {
                offset: scrolled(
                    old(self)@.offset,
                    delta as int,
                    max2(rows - visible, 0),
                ),
                ..old(self)@
            }),
    {
        let most: usize = if rows > visible {
            rows - visible
        } else {
            0
        };
        self.offset = scroll(self.offset, delta, most);
    }

    /// A click. The rows are those that were drawn.
    pub fn on_launcher_click(
        &mut self,
        entries: &mut Vec<LauncherEntry>,
        rows: &Vec<LRow>,
        sh: &Sheet,
        x: i32,
        y: i32,
    ) -> (r: LauncherStep)
        requires
            line_height(*sh) > 0,
            rows_fit(row_views(rows@), old(entries).len() as int),
        ensures
            (final(self)@, entries_of(final(entries)@), r@) == clicked(
                old(self)@,
                entries_of(old(entries)@),
                row_views(rows@),
                *sh,
                x as int,
                y as int,
            ),
    {
        let line: i64 = sh.px(28) as i64;
        let top: i64 = sh.px(20) as i64 + line + sh.px(6) as i64;
        if (y as i64) < top {
            return LauncherStep::Nothing;
        }
        let i: i64 = (y as i64 - top) / line;
        let visible = launcher_visible_rows(sh);
        if i >= visible as i64 {
            return LauncherStep::Nothing;
        }
        let last: usize = if rows.len() > 0 {
            rows.len() - 1
        } else {
            0
        };
        let first: usize = if self.offset < last {
            self.offset
        } else {
            last
        };
        let ghost views = row_views(rows@);
        proof {
            assert(views.len() == rows.len());
        }
        if i as u64 >= (rows.len() - first) as u64 {
            return LauncherStep::Nothing;
        }
        let at: usize = first + i as usize;
        proof {
            assert(views[at as int] == rows@[at as int]@);
        }
        match &rows[at] {
            LRow::Header(g) => LauncherStep::Nothing,
            LRow::Entry(o, k, b) => {
                let k: usize = *k;
                let right: i64 = sh.w as i64;
                proof {
                    assert(entries_of(entries@)[k as int] == entries@[k as int]@);
                }
                if x as i64 >= right - sh.px(44) as i64 {
                    remove_entry(entries, k);
                    self.selected = 0;
                    LauncherStep::Save
                } else if x as i64 >= right - sh.px(160) as i64 {
                    self.capturing = Some(k);
                    self.message = String::new();
                    LauncherStep::Redraw
                } else {
                    LauncherStep::Launch(k)
                }
            },
        }
    }

    /// A character, with the text of the clipboard for Ctrl+V.
    pub fn on_launcher_char(&mut self, ch: u32, clip: &Option<String>)
        ensures
            final(self)@ == typed_into(old(self)@, ch, maybe(*clip)),
    {
        match self.capturing {
            Some(_) => {
                return;
            },
            None => {},
        }
        self.message = String::new();
        if type_char(&mut self.query, ch, clip) {
            self.selected = 0;
            self.offset = 0;
        }
    }

    /// A key while entry `idx` waits for its shortcut: Escape cancels,
    /// Backspace and Delete clear it, a chord with Alt, Ctrl or Win is taken.
    pub fn handle_key_capture(
        &mut self,
        entries: &mut Vec<LauncherEntry>,
        bindings: &StrMap<String>,
        idx: usize,
        vk: u32,
        m: Modifiers,
    ) -> (r: LauncherStep)
        ensures
            (final(self)@, entries_of(final(entries)@), r@) == capture(
                old(self)@,
                entries_of(old(entries)@),
                bindings.pairs(),
                idx as int,
                vk,
                m,
            ),
    {
        if vk == VK_ESCAPE {
            self.capturing = None;
            self.message = String::new();
            return LauncherStep::Redraw;
        }
        if vk == VK_BACK || vk == VK_DELETE {
            set_key(entries, idx, String::new());
            proof {
                assert(entries_of(entries@) =~= with_key(
                    entries_of(old(entries)@),
                    idx as int,
                    Seq::empty(),
                ));
            }
            self.capturing = None;
            self.message = owned("shortcut cleared");
            return LauncherStep::Save;
        }
        if is_modifier(vk) {
            return LauncherStep::Nothing;
        }
        if !(m.alt || m.ctrl || m.win) {
            self.message = owned("use at least one of Alt / Ctrl / Win");
            return LauncherStep::Redraw;
        }
        let chord = match format_captured(m.alt, m.ctrl, m.shift, m.win, vk, false) {
            Some(c) => c,
            None => {
                self.message = owned("that key is not supported");
                return LauncherStep::Redraw;
            },
        };
        match find_obstacle(bindings, entries, idx, chord.as_str()) {
            Some(other) => {
                self.message = joined("conflicts with ", other.as_str());
                return LauncherStep::Redraw;
            },
            None => {},
        }
        let name = if idx < entries.len() {
            proof {
                assert(entries_of(entries@)[idx as int] == entries@[idx as int]@);
            }
            entries[idx].name.clone()
        } else {
            String::new()
        };
        set_key(entries, idx, chord.clone());
        let mut text = joined3(chord.as_str(), "  →  ", name.as_str());
        text.append("  ✓");
        self.capturing = None;
        self.message = text;
        LauncherStep::Save
    }

    /// A key with the modifiers held. The rows are those that were drawn, and
    /// `visible` is how many fit.
    pub fn on_launcher_key(
        &mut self,
        entries: &mut Vec<LauncherEntry>,
        bindings: &StrMap<String>,
        rows: &Vec<LRow>,
        visible: usize,
        vk: u32,
        m: Modifiers,
    ) -> (r: LauncherStep)
        requires
            1 <= visible <= 0x7FFF_FFFF,
            old(self).offset <= 0x7FFF_FFFF,
            old(self).selected <= 0x7FFF_FFFF,
        ensures
            old(self).capturing matches Some(idx) ==> (
                final(self)@,
                entries_of(final(entries)@),
                r@,
            ) == capture(
                old(self)@,
                entries_of(old(entries)@),
                bindings.pairs(),
                idx as int,
                vk,
                m,
            ),
            old(self).capturing is None ==> final(entries)@ == old(entries)@ && (
                final(self)@,
                r@,
            ) == keyed(old(self)@, row_views(rows@), visible as int, vk),
    {
        match self.capturing {
            Some(idx) => {
                return self.handle_key_capture(entries, bindings, idx, vk, m);
            },
            None => {},
        }
        if vk == VK_ESCAPE {
            return LauncherStep::Close;
        }
        let ghost views = row_views(rows@);
        let order = launcher_nav(rows);
        proof {
            assert(nav(views).len() == order.len());
        }
        if vk == VK_DOWN || vk == VK_UP {
            let n: usize = if order.len() > 1 {
                order.len()
            } else {
                1
            };
            let selected: usize = if vk == VK_DOWN {
                (self.selected + 1) % n
            } else if self.selected == 0 {
                proof {
                    let ni = n as int;
                    assert((-1int) % ni == ni - 1) by (nonlinear_arith)
                        requires
                            ni > 0,
                    ;
                }
                n - 1
            } else {
                (self.selected - 1) % n
            };
            let at = launcher_row_of(rows, selected);
            let mut row: usize = at;
            if at > 0 {
                proof {
                    assert(views[at - 1] == rows@[at - 1]@);
                }
                match &rows[at - 1] {
                    LRow::Header(g) => {
                        row = at - 1;
                    },
                    LRow::Entry(o, i, b) => {},
                }
            }
            self.selected = selected;
            if row < self.offset {
                self.offset = row;
            } else if row >= self.offset + visible {
                self.offset = row - visible + 1;
            }
            return LauncherStep::Redraw;
        }
        if vk == VK_RETURN {
            if self.selected < order.len() {
                proof {
                    assert(nav(views)[self.selected as int] == order@[self.selected as int]);
                }
                return LauncherStep::Launch(order[self.selected]);
            }
            let text = trim(self.query.as_str());
            if !is_blank(text.as_str()) {
                return LauncherStep::Run(text);
            }
        }
        LauncherStep::Nothing
    }
}

// ----------------------------------------------------------------- painting

/// A header: its name in capitals, and a rule to the edge. `width` is how wide
/// the name is.
pub open spec fn header_drawn(k: Sketch, sh: Sheet, st: BarStyle, g: Seq<char>, width: int, y: int) -> Sketch {
    let (pad, line, w) = (sh.s(20), line_height(sh), sh.w as int);
    let rule = y + quot(line * 6, 10);
    k.text(
        uppercase(g),
        span(pad, y, w - pad, y + line),
        if g == "ungrouped"@ {
            st.cell_occupied
        } else {
            st.accent
        },
        bold(sh.s(12)),
    ).fill(span(pad + width + sh.s(10), rule, w - pad, rule + max2(sh.s(1), 1)), st.cell_occupied)
}

/// An entry: icon, name, command, the chip of its shortcut, and the cross
/// that removes it.
pub open spec fn entry_drawn(
    k: Sketch,
    sh: Sheet,
    st: BarStyle,
    p: LauncherView,
    e: EntryView,
    o: int,
    i: int,
    indented: bool,
    y: int,
) -> Sketch {
    let (pad, line, w) = (sh.s(20), line_height(sh), sh.w as int);
    let ground = if o == p.selected {
        k.round(span(sh.s(6), y, w - sh.s(6), y + line), st.cell_occupied, sh.s(6))
    } else {
        k
    };
    let indent = if indented {
        sh.s(16)
    } else {
        0
    };
    let middle = quot(w * 2, 5);
    let chip = span(w - sh.s(158), y + sh.s(3), w - sh.s(48), y + line - sh.s(3));
    let waiting = p.capturing == Some(i as usize);
    let (label, ink, border) = if waiting {
        ("press keys…"@, st.accent, st.accent)
    } else if e.key.len() > 0 {
        (e.key, st.fg, st.fg)
    } else {
        ("+ set key"@, st.accent, st.cell_occupied)
    };
    ground.file_icon(
        e.command,
        pad + indent,
        y + quot(line - sh.s(16), 2),
        sh.s(16),
    ).text(
        e.name,
        span(pad + indent + sh.s(24), y, middle, y + line),
        st.fg,
        bold(sh.s(16)).cut(),
    ).text(
        e.command,
        span(middle + sh.s(8), y, w - sh.s(164), y + line),
        st.cell_occupied,
        normal(sh.s(15)).cut(),
    ).chip(chip, st.bg, border).text(
        label,
        chip,
        ink,
        normal(sh.s(15)).at(Align::Center).cut(),
    ).text(
        "✕"@,
        span(w - sh.s(44), y, w - pad, y + line),
        st.fg,
        normal(sh.s(15)).at(Align::Center),
    )
}

/// One row.
pub open spec fn row_drawn(
    k: Sketch,
    sh: Sheet,
    st: BarStyle,
    p: LauncherView,
    s: Seq<EntryView>,
    row: Row,
    width: int,
    y: int,
) -> Sketch {
    match row {
        Row::Header(g) => header_drawn(k, sh, st, g, width, y),
        Row::Entry(o, i, b) => entry_drawn(k, sh, st, p, s[i], o, i, b, y),
    }
}

/// The rows from the `i`th up to the `end`th, as far as they fit, and where
/// the next would be.
pub open spec fn rows_drawn(
    k: Sketch,
    sh: Sheet,
    st: BarStyle,
    p: LauncherView,
    s: Seq<EntryView>,
    rows: Seq<Row>,
    widths: Seq<i32>,
    i: int,
    end: int,
    y: int,
) -> (Sketch, int)
    decreases end - i,
{
    let line = line_height(sh);
    if i < 0 || i >= end || end > rows.len() || y + line > sh.h - sh.s(8) {
        (k, y)
    } else {
        rows_drawn(
            row_drawn(k, sh, st, p, s, rows[i], width_at(widths, i), y),
            sh,
            st,
            p,
            s,
            rows,
            widths,
            i + 1,
            end,
            y + line,
        )
    }
}

/// The panel with its search line.
pub open spec fn launcher_head(sh: Sheet, st: BarStyle, p: LauncherView) -> Sketch {
    let (pad, line, w) = (sh.s(20), line_height(sh), sh.w as int);
    let search = span(pad, pad, w - pad, pad + line);
    if p.query.len() == 0 {
        blank().frame(sh, st).text(
            "»  type to search apps…"@,
            search,
            st.cell_occupied,
            bold(sh.s(16)),
        )
    } else {
        blank().frame(sh, st).text("»  "@ + p.query + "_"@, search, st.fg, bold(sh.s(16)))
    }
}

/// What the last line says: a message, or how many rows there are besides, or
/// a hint.
pub open spec fn launcher_foot(p: LauncherView, rows: int, visible: int) -> Seq<char> {
    if p.message.len() > 0 {
        p.message
    } else if rows > visible {
        decimal((rows - visible) as nat) + " more — scroll or type to filter"@
    } else {
        "add & organize apps from the bar's ✎ button"@
    }
}

/// The whole panel. `widths` holds how wide the name of each header is.
pub open spec fn launcher_painted(
    sh: Sheet,
    st: BarStyle,
    p: LauncherView,
    s: Seq<EntryView>,
    rows: Seq<Row>,
    widths: Seq<i32>,
) -> Sketch {
    let (pad, line, w, h) = (sh.s(20), line_height(sh), sh.w as int, sh.h as int);
    let n = rows.len() as int;
    let first = min2(p.offset, max2(n - 1, 0));
    let (listed, y) = rows_drawn(
        launcher_head(sh, st, p),
        sh,
        st,
        p,
        s,
        rows,
        widths,
        first,
        min2(n, first + fitting(sh)),
        rows_top(sh),
    );
    let offered = if n == 0 && trimmed(p.query).len() > 0 {
        listed.text(
            "↵  run \""@ + trimmed(p.query) + "\""@,
            span(pad, y, w - pad, y + line),
            st.fg,
            normal(sh.s(15)).cut(),
        )
    } else {
        listed
    };
    offered.text(
        launcher_foot(p, n, fitting(sh)),
        span(pad, h - line - sh.s(6), w - pad, h - sh.s(6)),
        st.cell_occupied,
        normal(sh.s(15)).cut(),
    )
}

fn draw_header(k: &mut Scene, sh: &Sheet, st: &BarStyle, g: &String, width: i32, y: i64)
    requires
        0 <= y <= 0x4_0000_0000,
    ensures
        final(k)@ == header_drawn(old(k)@, *sh, *st, g@, width as int, y as int),
{
    let pad: i64 = sh.px(20) as i64;
    let line: i64 = sh.px(28) as i64;
    let w: i64 = sh.w as i64;
    let rule: i64 = y + divided(line * 6, 10);
    k.text(
        to_uppercase(g.as_str()),
        area(pad, y, w - pad, y + line),
        if same(g.as_str(), "ungrouped") {
            st.cell_occupied
        } else {
            st.accent
        },
        bold_pen(sh.px(12) as i64),
    );
    k.fill(
        area(
            pad + width as i64 + sh.px(10) as i64,
            rule,
            w - pad,
            rule + greater(sh.px(1) as i64, 1),
        ),
        st.cell_occupied,
    );
}

fn draw_entry(
    k: &mut Scene,
    sh: &Sheet,
    st: &BarStyle,
    p: &LauncherState,
    e: &LauncherEntry,
    o: usize,
    i: usize,
    indented: bool,
    y: i64,
)
    requires
        0 <= y <= 0x4_0000_0000,
    ensures
        final(k)@ == entry_drawn(
            old(k)@,
            *sh,
            *st,
            p@,
            e@,
            o as int,
            i as int,
            indented,
            y as int,
        ),
{
    let pad: i64 = sh.px(20) as i64;
    let line: i64 = sh.px(28) as i64;
    let w: i64 = sh.w as i64;
    let bottom: i64 = y + line;
    if o == p.selected {
        let edge: i64 = sh.px(6) as i64;
        k.round(area(edge, y, w - edge, bottom), st.cell_occupied, edge);
    }
    let indent: i64 = if indented {
        sh.px(16) as i64
    } else {
        0
    };
    let icon: i64 = sh.px(16) as i64;
    k.file_icon(e.command.clone(), pad + indent, y + divided(line - icon, 2), icon);
    let middle: i64 = divided(w * 2, 5);
    let plain = normal_pen(sh.px(15) as i64);
    k.text(
        e.name.clone(),
        area(pad + indent + sh.px(24) as i64, y, middle, bottom),
        st.fg,
        bold_pen(sh.px(16) as i64).cutting(),
    );
    k.text(
        e.command.clone(),
        area(middle + sh.px(8) as i64, y, w - sh.px(164) as i64, bottom),
        st.cell_occupied,
        plain.cutting(),
    );
    let inset: i64 = sh.px(3) as i64;
    let chip = area(w - sh.px(158) as i64, y + inset, w - sh.px(48) as i64, bottom - inset);
    let waiting: bool = match p.capturing {
        Some(c) => c == i,
        None => false,
    };
    let keyed = !is_blank(e.key.as_str());
    let border: u32 = if waiting {
        st.accent
    } else if keyed {
        st.fg
    } else {
        st.cell_occupied
    };
    let ink: u32 = if !waiting && keyed {
        st.fg
    } else {
        st.accent
    };
    let label = if waiting {
        owned("press keys…")
    } else if keyed {
        e.key.clone()
    } else {
        owned("+ set key")
    };
    k.chip(chip, st.bg, border);
    k.text(label, chip, ink, plain.to(Align::Center).cutting());
    k.text(
        owned("✕"),
        area(w - sh.px(44) as i64, y, w - pad, bottom),
        st.fg,
        plain.to(Align::Center),
    );
}

fn draw_head(sh: &Sheet, st: &BarStyle, p: &LauncherState) -> (k: Scene)
    ensures
        k@ == launcher_head(*sh, *st, p@),
{
    let pad: i64 = sh.px(20) as i64;
    let line: i64 = sh.px(28) as i64;
    let w: i64 = sh.w as i64;
    let mut k = Scene::new();
    k.frame(sh, st);
    let search = area(pad, pad, w - pad, pad + line);
    let pen = bold_pen(sh.px(16) as i64);
    if is_blank(p.query.as_str()) {
        k.text(owned("»  type to search apps…"), search, st.cell_occupied, pen);
    } else {
        k.text(joined3("»  ", p.query.as_str(), "_"), search, st.fg, pen);
    }
    k
}

/// The whole panel. `widths` holds how wide the name of each header is.
pub fn paint_launcher(
    sh: &Sheet,
    st: &BarStyle,
    p: &LauncherState,
    entries: &Vec<LauncherEntry>,
    rows: &Vec<LRow>,
    widths: &Vec<i32>,
) -> (k: Scene)
    requires
        line_height(*sh) > 0,
        rows_fit(row_views(rows@), entries.len() as int),
    ensures
        k@ == launcher_painted(
            *sh,
            *st,
            p@,
            entries_of(entries@),
            row_views(rows@),
            widths@,
        ),
{
    let pad: i64 = sh.px(20) as i64;
    let line: i64 = sh.px(28) as i64;
    let w: i64 = sh.w as i64;
    let h: i64 = sh.h as i64;
    let floor: i64 = h - sh.px(8) as i64;
    let mut k = draw_head(sh, st, p);
    let ghost start = k@;
    let ghost views = row_views(rows@);
    let ghost s = entries_of(entries@);
    let visible = launcher_visible_rows(sh);
    let n = rows.len();
    proof {
        assert(views.len() == n);
    }
    let last: usize = if n > 0 {
        n - 1
    } else {
        0
    };
    let first: usize = if p.offset < last {
        p.offset
    } else {
        last
    };
    let end: usize = if n - first < visible {
        n
    } else {
        first + visible
    };
    let mut y: i64 = pad + line + sh.px(6) as i64;
    let mut i: usize = first;
    while i < end && y + line <= floor
        invariant
            first <= i <= end <= n,
            n == rows.len(),
            views == row_views(rows@),
            s == entries_of(entries@),
            rows_fit(views, entries.len() as int),
            line == line_height(*sh),
            0 <= line < 0x8000_0000,
            floor == sh.h - sh.s(8),
            floor <= 0x7FFF_FFFF,
            0 <= y <= 0x3_0000_0000,
            rows_drawn(k@, *sh, *st, p@, s, views, widths@, i as int, end as int, y as int)
                == rows_drawn(
                start,
                *sh,
                *st,
                p@,
                s,
                views,
                widths@,
                first as int,
                end as int,
                rows_top(*sh),
            ),
        decreases end - i,
    {
        proof {
            assert(views[i as int] == rows@[i as int]@);
        }
        match &rows[i] {
            LRow::Header(g) => {
                draw_header(&mut k, sh, st, g, nth_width(widths, i), y);
            },
            LRow::Entry(o, at, indented) => {
                proof {
                    assert(s[*at as int] == entries@[*at as int]@);
                }
                draw_entry(&mut k, sh, st, p, &entries[*at], *o, *at, *indented, y);
            },
        }
        y = y + line;
        i = i + 1;
    }
    let plain = normal_pen(sh.px(15) as i64);
    let words = trim(p.query.as_str());
    if n == 0 && !is_blank(words.as_str()) {
        k.text(
            joined3("↵  run \"", words.as_str(), "\""),
            area(pad, y, w - pad, y + line),
            st.fg,
            plain.cutting(),
        );
    }
    let foot = if !is_blank(p.message.as_str()) {
        p.message.clone()
    } else if n > visible {
        let more = show((n - visible) as u64);
        joined(more.as_str(), " more — scroll or type to filter")
    } else {
        owned("add & organize apps from the bar's ✎ button")
    };
    let edge: i64 = sh.px(6) as i64;
    k.text(foot, area(pad, h - line - edge, w - pad, h - edge), st.cell_occupied, plain.cutting());
    k
}

// --------------------------------------------------------------------- laws

/// A shortcut that is taken collides with no action, and with no other entry.
pub proof fn law_taken_shortcut_is_free(
    pairs: Seq<(Seq<char>, Seq<char>)>,
    s: Seq<EntryView>,
    idx: int,
    m: Modifiers,
    vk: u32,
    chord: Seq<char>,
)
    requires
        shortcut(pairs, s, idx, m, vk) == Ok::<Seq<char>, Seq<char>>(chord),
    ensures
        forall|i: int| 0 <= i < pairs.len() ==> !collide((#[trigger] pairs[i]).1, chord),
        forall|j: int|
            0 <= j < s.len() && j != idx && (#[trigger] s[j]).key.len() > 0 ==> !collide(
                s[j].key,
                chord,
            ),
{
    lemma_no_action(pairs, chord, 0);
    lemma_no_entry(s, idx, chord, 0);
}

proof fn lemma_no_action(pairs: Seq<(Seq<char>, Seq<char>)>, chord: Seq<char>, i: int)
    requires
        0 <= i,
        action_from(pairs, chord, i) is None,
    ensures
        forall|k: int| i <= k < pairs.len() ==> !collide((#[trigger] pairs[k]).1, chord),
    decreases pairs.len() - i,
{
    if i < pairs.len() {
        lemma_no_action(pairs, chord, i + 1);
    }
}

proof fn lemma_no_entry(s: Seq<EntryView>, idx: int, chord: Seq<char>, j: int)
    requires
        0 <= j,
        entry_from(s, idx, chord, j) is None,
    ensures
        forall|k: int|
            j <= k < s.len() && k != idx && (#[trigger] s[k]).key.len() > 0 ==> !collide(
                s[k].key,
                chord,
            ),
    decreases s.len() - j,
{
    if j < s.len() {
        lemma_no_entry(s, idx, chord, j + 1);
    }
}

/// The arrow keys choose an entry that is there, and scroll its row into view.
pub proof fn law_selection_is_in_view(p: LauncherView, rows: Seq<Row>, visible: int, down: bool)
    requires
        p.selected >= 0,
        p.offset >= 0,
        visible >= 1,
        nav(rows).len() > 0,
    ensures
        0 <= moved(p, rows, visible, down).selected < nav(rows).len(),
        ({
            let q = moved(p, rows, visible, down);
            let at = row_of(rows, q.selected);
            let row = if at > 0 && rows[at - 1] is Header {
                at - 1
            } else {
                at
            };
            q.offset <= row < q.offset + visible
        }),
{
}

/// Where nothing is found, Enter runs what was typed.
pub proof fn law_enter_runs_typed_text(p: LauncherView, rows: Seq<Row>, visible: int)
    requires
        nav(rows).len() == 0,
        trimmed(p.query).len() > 0,
    ensures
        keyed(p, rows, visible, VK_RETURN) == (p, LauncherAsk::Run(trimmed(p.query))),
{
}

/// While a shortcut is awaited, Escape cancels and changes no entry. Backspace
/// clears the shortcut of that entry and leaves all others alone.
pub proof fn law_capture_cancels_or_clears(
    p: LauncherView,
    s: Seq<EntryView>,
    pairs: Seq<(Seq<char>, Seq<char>)>,
    idx: int,
    m: Modifiers,
)
    requires
        0 <= idx < s.len(),
    ensures
        capture(p, s, pairs, idx, VK_ESCAPE, m).0.capturing is None,
        capture(p, s, pairs, idx, VK_ESCAPE, m).1 == s,
        capture(p, s, pairs, idx, VK_BACK, m).0.capturing is None,
        capture(p, s, pairs, idx, VK_BACK, m).1 == s.update(
            idx,
            EntryView { key: Seq::empty(), ..s[idx] },
        ),
{
}

/// The cross on a row removes the entry of that row. Every other entry stays,
/// in its order, also one of the same name and command.
pub proof fn law_cross_removes_one_entry(
    p: LauncherView,
    s: Seq<EntryView>,
    rows: Seq<Row>,
    sh: Sheet,
    x: int,
    y: int,
    k: int,
)
    requires
        0 <= k < s.len(),
        rows_top(sh) <= y,
        (y - rows_top(sh)) / line_height(sh) < fitting(sh),
        row_at(p, rows, (y - rows_top(sh)) / line_height(sh)) matches Some(Row::Entry(_, i, _))
            && i == k,
        x >= sh.w - sh.s(44),
    ensures
        ({
            let t = clicked(p, s, rows, sh, x, y).1;
            &&& t.len() == s.len() - 1
            &&& forall|j: int| 0 <= j < k ==> t[j] == s[j]
            &&& forall|j: int| k <= j < t.len() ==> t[j] == s[j + 1]
        }),
{
}

} // verus!
