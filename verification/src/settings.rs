//! The settings panel: names of workspaces, pinned apps and the source of the
//! meetings.

use crate::layout::Rect;
use crate::numerals::{decimal, show};
use crate::scene::{
    area, blank, bold, bold_pen, lesser, min2, normal, normal_pen, perch, perched, span, Align, Area,
    BarStyle, Perch, Scene, Sheet, Sketch, Span,
};
use crate::search::{append_char, appended, maybe, shorten, shortened};
use crate::strmap::StrMap;
use crate::text::{
    ascii_lowered, is_blank, joined, joined3, nth, owned, same_ignoring_ascii_case, text_at, texts,
    trim, trimmed,
};
use crate::vk::{VK_ESCAPE, VK_RETURN};
use vstd::prelude::*;

verus! {

/// A row of the panel.
#[derive(Debug)]
pub enum SettingsItem {
    Ws(usize),
    RulesHeader,
    /// A pinned app and its workspace.
    Rule(String, usize),
    NoRules,
    CalHeader,
    CalOff,
    CalOutlook,
    CalIcs,
}

/// A row of the panel.
pub enum Item {
    Ws(int),
    RulesHeader,
    Rule(Seq<char>, usize),
    NoRules,
    CalHeader,
    CalOff,
    CalOutlook,
    CalIcs,
}

impl View for SettingsItem {
    type V = Item;

    open spec fn view(&self) -> Item {
        match *self {
            SettingsItem::Ws(i) => Item::Ws(i as int),
            SettingsItem::RulesHeader => Item::RulesHeader,
            SettingsItem::Rule(e, n) => Item::Rule(e@, n),
            SettingsItem::NoRules => Item::NoRules,
            SettingsItem::CalHeader => Item::CalHeader,
            SettingsItem::CalOff => Item::CalOff,
            SettingsItem::CalOutlook => Item::CalOutlook,
            SettingsItem::CalIcs => Item::CalIcs,
        }
    }
}

pub open spec fn item_views(v: Seq<SettingsItem>) -> Seq<Item> {
    v.map_values(|x: SettingsItem| x@)
}

/// The rows: each workspace, the pinned apps in the order of their names, and
/// the sources of meetings.
pub open spec fn items(count: int, rules: Seq<(Seq<char>, usize)>) -> Seq<Item> {
    let spaces = Seq::new(count as nat, |i: int| Item::Ws(i)).push(Item::RulesHeader);
    let pinned = if rules.len() == 0 {
        spaces.push(Item::NoRules)
    } else {
        spaces + rules.map_values(|r: (Seq<char>, usize)| Item::Rule(r.0, r.1))
    };
    pinned.push(Item::CalHeader).push(Item::CalOff).push(Item::CalOutlook).push(Item::CalIcs)
}

fn add_item(v: &mut Vec<SettingsItem>, x: SettingsItem)
    ensures
        item_views(final(v)@) == item_views(old(v)@).push(x@),
{
    let ghost was = v@;
    v.push(x);
    proof {
        assert(item_views(v@) =~= item_views(was).push(x@));
    }
}

/// The rows of the panel.
pub fn settings_items(count: usize, rules: &StrMap<usize>) -> (r: Vec<SettingsItem>)
    ensures
        item_views(r@) == items(count as int, rules.pairs()),
{
    let mut r: Vec<SettingsItem> = Vec::new();
    let mut i: usize = 0;
    proof {
        assert(item_views(r@) =~= Seq::new(0, |i: int| Item::Ws(i)));
    }
    while i < count
        invariant
            i <= count,
            item_views(r@) == Seq::new(i as nat, |k: int| Item::Ws(k)),
        decreases count - i,
    {
        add_item(&mut r, SettingsItem::Ws(i));
        proof {
            assert(Seq::new(i as nat, |k: int| Item::Ws(k)).push(Item::Ws(i as int)) =~= Seq::new(
                (i + 1) as nat,
                |k: int| Item::Ws(k),
            ));
        }
        i = i + 1;
    }
    add_item(&mut r, SettingsItem::RulesHeader);
    let ghost ps = rules.pairs();
    let ghost all = ps.map_values(|r: (Seq<char>, usize)| Item::Rule(r.0, r.1));
    let ghost start = item_views(r@);
    if rules.entries.len() == 0 {
        add_item(&mut r, SettingsItem::NoRules);
    } else {
        let mut k: usize = 0;
        proof {
            assert(start + all.take(0) =~= start);
        }
        while k < rules.entries.len()
            invariant
                k <= rules.entries.len(),
                ps == rules.pairs(),
                all == ps.map_values(|r: (Seq<char>, usize)| Item::Rule(r.0, r.1)),
                item_views(r@) == start + all.take(k as int),
            decreases rules.entries.len() - k,
        {
            let e = &rules.entries[k];
            proof {
                assert(ps[k as int] == (e.0@, e.1));
                assert(start + all.take(k + 1) =~= (start + all.take(k as int)).push(
                    Item::Rule(e.0@, e.1),
                ));
            }
            add_item(&mut r, SettingsItem::Rule(e.0.clone(), e.1));
            k = k + 1;
        }
        proof {
            assert(all.take(k as int) =~= all);
        }
    }
    add_item(&mut r, SettingsItem::CalHeader);
    add_item(&mut r, SettingsItem::CalOff);
    add_item(&mut r, SettingsItem::CalOutlook);
    add_item(&mut r, SettingsItem::CalIcs);
    r
}

// ----------------------------------------------------------------- geometry

pub open spec fn line_height(sh: Sheet) -> int {
    sh.s(26)
}

/// The top of the first row.
pub open spec fn rows_top(sh: Sheet) -> int {
    sh.s(20) + sh.s(26) + sh.s(8)
}

/// The place of the panel: as high as its rows need, within the monitor.
pub open spec fn settings_place(bounds: Rect, dpi: u32, count: int) -> Rect {
    let sh = Sheet { w: 0, h: 0, dpi };
    perched(
        bounds,
        sh.s(520),
        min2(rows_top(sh) + line_height(sh) * (count + 2) + sh.s(20), bounds.h - sh.s(80)),
        Perch::Middle,
    )
}

/// The place of the panel; `count` is the number of rows.
pub fn settings_panel(bounds: &Rect, dpi: u32, count: usize) -> (r: Rect)
    requires
        count <= 0x7FFF_FFFF,
    ensures
        r == settings_place(*bounds, dpi, count as int),
{
    let sh = Sheet { w: 0, h: 0, dpi };
    let line: i64 = sh.px(26) as i64;
    let n: i64 = count as i64 + 2;
    proof {
        let (a, b) = (line as int, n as int);
        assert(0 <= a * b <= 0x8000_0000 * 0x8000_0002) by (nonlinear_arith)
            requires
                0 <= a <= 0x8000_0000,
                0 <= b <= 0x8000_0002,
        ;
    }
    let top: i64 = sh.px(20) as i64 + line + sh.px(8) as i64;
    let h: i64 = lesser(
        top + line * n + sh.px(20) as i64,
        bounds.h as i64 - sh.px(80) as i64,
    );
    perch(bounds, sh.px(520) as i64, h, Perch::Middle)
}

// -------------------------------------------------------------------- state

/// The state of the panel.
pub struct SettingsState {
    /// The workspace whose name is typed.
    pub editing: Option<usize>,
    /// The file or address of a calendar is typed.
    pub editing_cal: bool,
    pub buffer: String,
}

/// The state of the panel.
pub struct SettingsView {
    pub editing: Option<usize>,
    pub editing_cal: bool,
    pub buffer: Seq<char>,
}

impl View for SettingsState {
    type V = SettingsView;

    open spec fn view(&self) -> SettingsView {
        SettingsView {
            editing: self.editing,
            editing_cal: self.editing_cal,
            buffer: self.buffer@,
        }
    }
}

/// What the panel asks for.
#[derive(Debug)]
pub enum SettingsStep {
    Nothing,
    Close,
    Redraw,
    /// The names of the workspaces changed: save them.
    Named,
    /// The rule of that app is gone: save that.
    Unpinned(String),
    /// Take meetings from there.
    Calendar(String),
}

/// What the panel asks for.
pub enum SettingsAsk {
    Nothing,
    Close,
    Redraw,
    Named,
    Unpinned(Seq<char>),
    Calendar(Seq<char>),
}

impl View for SettingsStep {
    type V = SettingsAsk;

    open spec fn view(&self) -> SettingsAsk {
        match *self {
            SettingsStep::Nothing => SettingsAsk::Nothing,
            SettingsStep::Close => SettingsAsk::Close,
            SettingsStep::Redraw => SettingsAsk::Redraw,
            SettingsStep::Named => SettingsAsk::Named,
            SettingsStep::Unpinned(e) => SettingsAsk::Unpinned(e@),
            SettingsStep::Calendar(s) => SettingsAsk::Calendar(s@),
        }
    }
}

/// What a click does to the panel and the rules.
pub open spec fn clicked(
    s: SettingsView,
    count: int,
    names: Seq<Seq<char>>,
    rules: Seq<(Seq<char>, usize)>,
    source: Seq<char>,
    sh: Sheet,
    y: int,
) -> (SettingsView, SettingsAsk) {
    let rows = items(count, rules);
    let i = (y - rows_top(sh)) / line_height(sh);
    if y < rows_top(sh) || i >= rows.len() {
        (s, SettingsAsk::Nothing)
    } else {
        match rows[i] {
            Item::Ws(w) => (
                SettingsView {
                    editing: Some(w as usize),
                    editing_cal: false,
                    buffer: text_at(names, w),
                },
                SettingsAsk::Redraw,
            ),
            Item::Rule(exe, n) => (s, SettingsAsk::Unpinned(exe)),
            Item::CalOff => (s, SettingsAsk::Calendar(""@)),
            Item::CalOutlook => (s, SettingsAsk::Calendar("outlook"@)),
            Item::CalIcs => (
                SettingsView {
                    editing: None,
                    editing_cal: true,
                    buffer: if ascii_lowered(source) == ascii_lowered("outlook"@) {
                        Seq::empty()
                    } else {
                        source
                    },
                },
                SettingsAsk::Redraw,
            ),
            _ => (s, SettingsAsk::Nothing),
        }
    }
}

/// What a character does to the line that is typed; the clipboard goes in
/// whole, trimmed.
pub open spec fn typed_into(s: SettingsView, ch: u32, clip: Option<Seq<char>>) -> SettingsView {
    if s.editing is None && !s.editing_cal {
        s
    } else if ch == 0x08 {
        SettingsView { buffer: shortened(s.buffer), ..s }
    } else if ch == 0x16 {
        SettingsView {
            buffer: match clip {
                Some(t) => s.buffer + trimmed(t),
                None => s.buffer,
            },
            ..s
        }
    } else if ch >= 0x20 {
        SettingsView { buffer: appended(s.buffer, ch), ..s }
    } else {
        s
    }
}

/// The names with one of them changed; there is one for each workspace then.
pub open spec fn renamed(names: Seq<Seq<char>>, count: int, i: int, name: Seq<char>) -> Seq<Seq<char>> {
    let full = if names.len() < count {
        names + Seq::new((count - names.len()) as nat, |k: int| Seq::<char>::empty())
    } else {
        names
    };
    if 0 <= i < full.len() {
        full.update(i, name)
    } else {
        full
    }
}

/// What a key does to the panel and the names.
pub open spec fn keyed(s: SettingsView, names: Seq<Seq<char>>, count: int, vk: u32) -> (
    SettingsView,
    Seq<Seq<char>>,
    SettingsAsk,
) {
    if vk == VK_ESCAPE {
        if s.editing is Some || s.editing_cal {
            (
                SettingsView { editing: None, editing_cal: false, buffer: Seq::empty() },
                names,
                SettingsAsk::Redraw,
            )
        } else {
            (s, names, SettingsAsk::Close)
        }
    } else if vk == VK_RETURN && s.editing_cal {
        (
            SettingsView { editing_cal: false, buffer: Seq::empty(), ..s },
            names,
            SettingsAsk::Calendar(trimmed(s.buffer)),
        )
    } else if vk == VK_RETURN && s.editing is Some {
        (
            SettingsView { editing: None, buffer: Seq::empty(), ..s },
            renamed(names, count, s.editing->0 as int, trimmed(s.buffer)),
            SettingsAsk::Named,
        )
    } else {
        (s, names, SettingsAsk::Nothing)
    }
}

fn rename(names: &mut Vec<String>, count: usize, i: usize, name: String)
    ensures
        texts(final(names)@) == renamed(texts(old(names)@), count as int, i as int, name@),
{
    let ghost before = texts(names@);
    let ghost full = renamed(before, count as int, -1, name@);
    while names.len() < count
        invariant
            full == renamed(before, count as int, -1, name@),
            before.len() <= names.len(),
            names.len() <= count || names.len() == before.len(),
            texts(names@) =~= full.take(names.len() as int),
        decreases count - names.len(),
    {
        let ghost was = names@;
        names.push(String::new());
        proof {
            assert(texts(names@) =~= texts(was).push(Seq::empty()));
            assert(full.take(names.len() as int) =~= full.take(was.len() as int).push(
                Seq::<char>::empty(),
            ));
        }
    }
    proof {
        assert(full.take(names.len() as int) =~= full);
        assert(texts(names@) == full);
    }
    if i < names.len() {
        let ghost was = names@;
        names[i] = name;
        proof {
            assert(texts(names@) =~= full.update(i as int, name@));
        }
    }
}

impl SettingsState {
    pub fn new() -> (r: SettingsState)
        ensures
            r@.editing is None,
            !r@.editing_cal,
            r@.buffer.len() == 0,
    {
        SettingsState { editing: None, editing_cal: false, buffer: String::new() }
    }

    /// A click. `source` is where meetings come from now.
    pub fn on_settings_click(
        &mut self,
        count: usize,
        names: &Vec<String>,
        rules: &mut StrMap<usize>,
        source: &str,
        sh: &Sheet,
        y: i32,
    ) -> (r: SettingsStep)
        requires
            line_height(*sh) > 0,
            old(rules).wf(),
        ensures
            (final(self)@, r@) == clicked(
                old(self)@,
                count as int,
                texts(names@),
                old(rules).pairs(),
                source@,
                *sh,
                y as int,
            ),
            final(rules).wf(),
            final(rules)@ == match r@ {
                SettingsAsk::Unpinned(exe) => old(rules)@.remove(exe),
                _ => old(rules)@,
            },
    {
        let line: i64 = sh.px(26) as i64;
        let top: i64 = sh.px(20) as i64 + line + sh.px(8) as i64;
        if (y as i64) < top {
            return SettingsStep::Nothing;
        }
        let i: u64 = ((y as i64 - top) / line) as u64;
        let rows = settings_items(count, rules);
        proof {
            assert(item_views(rows@).len() == rows.len());
        }
        if i >= rows.len() as u64 {
            return SettingsStep::Nothing;
        }
        proof {
            assert(item_views(rows@)[i as int] == rows@[i as int]@);
        }
        match &rows[i as usize] {
            SettingsItem::Ws(w) => {
                self.editing = Some(*w);
                self.editing_cal = false;
                self.buffer = nth(names, *w);
                SettingsStep::Redraw
            },
            SettingsItem::Rule(exe, n) => {
                let _ = rules.remove(exe.as_str());
                SettingsStep::Unpinned(exe.clone())
            },
            SettingsItem::CalOff => SettingsStep::Calendar(owned("")),
            SettingsItem::CalOutlook => SettingsStep::Calendar(owned("outlook")),
            SettingsItem::CalIcs => {
                self.editing = None;
                self.editing_cal = true;
                self.buffer = if same_ignoring_ascii_case(source, "outlook") {
                    String::new()
                } else {
                    owned(source)
                };
                SettingsStep::Redraw
            },
            _ => SettingsStep::Nothing,
        }
    }

    /// A character, with the text of the clipboard for Ctrl+V.
    pub fn on_settings_char(&mut self, ch: u32, clip: &Option<String>)
        ensures
            final(self)@ == typed_into(old(self)@, ch, maybe(*clip)),
    {
        if self.editing.is_none() && !self.editing_cal {
            return;
        }
        if ch == 0x08 {
            shorten(&mut self.buffer);
        } else if ch == 0x16 {
            match clip {
                Some(t) => {
                    let bare = trim(t.as_str());
                    self.buffer.append(bare.as_str());
                },
                None => {},
            }
        } else if ch >= 0x20 {
            append_char(&mut self.buffer, ch);
        }
    }

    /// A key.
    pub fn on_settings_key(&mut self, names: &mut Vec<String>, count: usize, vk: u32) -> (r:
        SettingsStep)
        ensures
            (final(self)@, texts(final(names)@), r@) == keyed(
                old(self)@,
                texts(old(names)@),
                count as int,
                vk,
            ),
    {
        if vk == VK_ESCAPE {
            if self.editing.is_some() || self.editing_cal {
                self.editing = None;
                self.editing_cal = false;
                self.buffer = String::new();
                return SettingsStep::Redraw;
            }
            return SettingsStep::Close;
        }
        if vk == VK_RETURN {
            if self.editing_cal {
                let source = trim(self.buffer.as_str());
                self.editing_cal = false;
                self.buffer = String::new();
                return SettingsStep::Calendar(source);
            }
            match self.editing {
                Some(i) => {
                    let name = trim(self.buffer.as_str());
                    rename(names, count, i, name);
                    self.editing = None;
                    self.buffer = String::new();
                    return SettingsStep::Named;
                },
                None => {},
            }
        }
        SettingsStep::Nothing
    }
}

// ----------------------------------------------------------------- painting

/// The line at height `y`.
pub open spec fn line_span(sh: Sheet, y: int) -> Span {
    span(sh.s(20), y, sh.w - sh.s(20), y + line_height(sh))
}

/// A row that is typed into has a ground of its own.
pub open spec fn lit(k: Sketch, sh: Sheet, st: BarStyle, on: bool, y: int) -> Sketch {
    if on {
        k.fill(span(sh.s(6), y, sh.w - sh.s(6), y + line_height(sh)), st.cell_empty)
    } else {
        k
    }
}

/// A workspace: its number and its name.
pub open spec fn workspace_drawn(
    k: Sketch,
    sh: Sheet,
    st: BarStyle,
    s: SettingsView,
    names: Seq<Seq<char>>,
    i: int,
    y: int,
) -> Sketch {
    let (pad, line) = (sh.s(20), line_height(sh));
    let typing = s.editing == Some(i as usize);
    let at = span(pad + sh.s(44), y, sh.w - pad, y + line);
    let pen = normal(sh.s(15));
    let numbered = lit(k, sh, st, typing, y).text(
        decimal((i + 1) as nat),
        span(pad, y, pad + sh.s(36), y + line),
        st.accent,
        bold(sh.s(15)),
    );
    if typing {
        numbered.text(s.buffer + "_"@, at, st.fg, pen)
    } else if text_at(names, i).len() == 0 {
        numbered.text("(unnamed)"@, at, st.cell_occupied, pen)
    } else {
        numbered.text(text_at(names, i), at, st.fg, pen.cut())
    }
}

/// The mark of a choice.
pub open spec fn mark(on: bool) -> Seq<char> {
    if on {
        "●"@
    } else {
        "○"@
    }
}

/// The color of a choice.
pub open spec fn ink(st: BarStyle, on: bool) -> u32 {
    if on {
        st.fg
    } else {
        st.cell_occupied
    }
}

/// The choice of a calendar file or address.
pub open spec fn ics_drawn(
    k: Sketch,
    sh: Sheet,
    st: BarStyle,
    s: SettingsView,
    source: Seq<char>,
    y: int,
) -> Sketch {
    let (pad, line) = (sh.s(20), line_height(sh));
    let custom = source.len() > 0 && ascii_lowered(source) != ascii_lowered("outlook"@);
    let at = span(pad + sh.s(148), y, sh.w - pad, y + line);
    let pen = normal(sh.s(15));
    let marked = lit(k, sh, st, s.editing_cal, y).text(
        mark(custom) + "  .ics file or URL:"@,
        span(pad, y, pad + sh.s(140), y + line),
        ink(st, custom),
        pen,
    );
    if s.editing_cal {
        marked.text(s.buffer + "_"@, at, st.fg, pen)
    } else if custom {
        marked.text(source, at, st.fg, pen.cut())
    } else {
        marked.text("click to type or paste (Ctrl+V), Enter saves"@, at, st.cell_occupied, pen)
    }
}

/// One row.
pub open spec fn item_drawn(
    k: Sketch,
    sh: Sheet,
    st: BarStyle,
    s: SettingsView,
    names: Seq<Seq<char>>,
    source: Seq<char>,
    item: Item,
    y: int,
) -> Sketch {
    let (pad, line, w) = (sh.s(20), line_height(sh), sh.w as int);
    let row = line_span(sh, y);
    let pen = normal(sh.s(15));
    let strong = bold(sh.s(15));
    let outlook = ascii_lowered(source) == ascii_lowered("outlook"@);
    match item {
        Item::Ws(i) => workspace_drawn(k, sh, st, s, names, i, y),
        Item::RulesHeader => k.text("pinned apps"@, row, st.accent, strong),
        Item::Rule(exe, n) => k.text(
            exe + "  →  workspace "@ + decimal(n as nat),
            span(pad, y, w - pad - sh.s(120), y + line),
            st.fg,
            pen.cut(),
        ).text(
            "click to remove"@,
            span(w - pad - sh.s(120), y, w - pad, y + line),
            st.cell_occupied,
            pen.at(Align::Right),
        ),
        Item::NoRules => k.text(
            "none — focus an app and press the pin_app key to pin it"@,
            row,
            st.cell_occupied,
            pen,
        ),
        Item::CalHeader => k.text("meetings calendar"@, row, st.accent, strong).text(
            "shows your next meeting next to the clock"@,
            row,
            st.cell_occupied,
            pen.at(Align::Right),
        ),
        Item::CalOff => k.text(
            mark(source.len() == 0) + "  off"@,
            row,
            ink(st, source.len() == 0),
            pen,
        ),
        Item::CalOutlook => k.text(
            mark(outlook) + "  outlook — classic Outlook calendar (Teams meetings)"@,
            row,
            ink(st, outlook),
            pen,
        ),
        Item::CalIcs => ics_drawn(k, sh, st, s, source, y),
    }
}

/// The rows from the `i`th on, as many as fit.
pub open spec fn items_drawn(
    k: Sketch,
    sh: Sheet,
    st: BarStyle,
    s: SettingsView,
    names: Seq<Seq<char>>,
    source: Seq<char>,
    rows: Seq<Item>,
    i: int,
    y: int,
) -> Sketch
    decreases rows.len() - i,
{
    let line = line_height(sh);
    if i < 0 || i >= rows.len() || y + line > sh.h - line {
        k
    } else {
        items_drawn(
            item_drawn(k, sh, st, s, names, source, rows[i], y),
            sh,
            st,
            s,
            names,
            source,
            rows,
            i + 1,
            y + line,
        )
    }
}

/// How many rows fit, the `i`th at height `y`.
pub open spec fn items_fit(sh: Sheet, rows: Seq<Item>, i: int, y: int) -> int
    decreases rows.len() - i,
{
    let line = line_height(sh);
    if i < 0 || i >= rows.len() || y + line > sh.h - line {
        i
    } else {
        items_fit(sh, rows, i + 1, y + line)
    }
}

/// The whole panel. The footer is written like the last row, so boldly where
/// that is the header of the pinned apps.
pub open spec fn settings_painted(
    sh: Sheet,
    st: BarStyle,
    s: SettingsView,
    names: Seq<Seq<char>>,
    source: Seq<char>,
    rows: Seq<Item>,
) -> Sketch {
    let (pad, line, w, h) = (sh.s(20), line_height(sh), sh.w as int, sh.h as int);
    let pen = normal(sh.s(15));
    let title = line_span(sh, pad);
    let titled = blank().frame(sh, st).text("wtm settings"@, title, st.accent, bold(sh.s(15))).text(
        "click a workspace to name it"@,
        title,
        st.fg,
        pen.at(Align::Right),
    );
    let n = items_fit(sh, rows, 0, rows_top(sh));
    items_drawn(titled, sh, st, s, names, source, rows, 0, rows_top(sh)).text(
        "Enter saves · Esc closes"@,
        span(pad, h - line - sh.s(6), w - pad, h - sh.s(6)),
        st.cell_occupied,
        if n > 0 && rows[n - 1] is RulesHeader {
            bold(sh.s(15))
        } else {
            pen
        },
    )
}

fn line_area(sh: &Sheet, y: i64) -> (r: Area)
    requires
        0 <= y <= 0x10_0000_0000,
    ensures
        r@ == line_span(*sh, y as int),
{
    let pad: i64 = sh.px(20) as i64;
    area(pad, y, sh.w as i64 - pad, y + sh.px(26) as i64)
}

fn light(k: &mut Scene, sh: &Sheet, st: &BarStyle, on: bool, y: i64)
    requires
        0 <= y <= 0x10_0000_0000,
    ensures
        final(k)@ == lit(old(k)@, *sh, *st, on, y as int),
{
    if on {
        let edge: i64 = sh.px(6) as i64;
        k.fill(area(edge, y, sh.w as i64 - edge, y + sh.px(26) as i64), st.cell_empty);
    }
}

fn draw_workspace(
    k: &mut Scene,
    sh: &Sheet,
    st: &BarStyle,
    s: &SettingsState,
    names: &Vec<String>,
    i: usize,
    y: i64,
)
    requires
        0 <= y <= 0x10_0000_0000,
        i < usize::MAX,
    ensures
        final(k)@ == workspace_drawn(old(k)@, *sh, *st, s@, texts(names@), i as int, y as int),
{
    let pad: i64 = sh.px(20) as i64;
    let bottom: i64 = y + sh.px(26) as i64;
    let typing: bool = match s.editing {
        Some(e) => e == i,
        None => false,
    };
    let pen = normal_pen(sh.px(15) as i64);
    light(k, sh, st, typing, y);
    k.text(
        show(i as u64 + 1),
        area(pad, y, pad + sh.px(36) as i64, bottom),
        st.accent,
        bold_pen(sh.px(15) as i64),
    );
    let at = area(pad + sh.px(44) as i64, y, sh.w as i64 - pad, bottom);
    let name = nth(names, i);
    if typing {
        k.text(joined(s.buffer.as_str(), "_"), at, st.fg, pen);
    } else if is_blank(name.as_str()) {
        k.text(owned("(unnamed)"), at, st.cell_occupied, pen);
    } else {
        k.text(name, at, st.fg, pen.cutting());
    }
}

fn choice_mark(on: bool) -> (r: &'static str)
    ensures
        r@ == mark(on),
{
    if on {
        "●"
    } else {
        "○"
    }
}

fn choice_ink(st: &BarStyle, on: bool) -> (r: u32)
    ensures
        r == ink(*st, on),
{
    if on {
        st.fg
    } else {
        st.cell_occupied
    }
}

fn draw_ics(k: &mut Scene, sh: &Sheet, st: &BarStyle, s: &SettingsState, source: &str, y: i64)
    requires
        0 <= y <= 0x10_0000_0000,
    ensures
        final(k)@ == ics_drawn(old(k)@, *sh, *st, s@, source@, y as int),
{
    let pad: i64 = sh.px(20) as i64;
    let bottom: i64 = y + sh.px(26) as i64;
    let custom = !is_blank(source) && !same_ignoring_ascii_case(source, "outlook");
    let pen = normal_pen(sh.px(15) as i64);
    light(k, sh, st, s.editing_cal, y);
    k.text(
        joined(choice_mark(custom), "  .ics file or URL:"),
        area(pad, y, pad + sh.px(140) as i64, bottom),
        choice_ink(st, custom),
        pen,
    );
    let at = area(pad + sh.px(148) as i64, y, sh.w as i64 - pad, bottom);
    if s.editing_cal {
        k.text(joined(s.buffer.as_str(), "_"), at, st.fg, pen);
    } else if custom {
        k.text(owned(source), at, st.fg, pen.cutting());
    } else {
        k.text(
            owned("click to type or paste (Ctrl+V), Enter saves"),
            at,
            st.cell_occupied,
            pen,
        );
    }
}

fn draw_item(
    k: &mut Scene,
    sh: &Sheet,
    st: &BarStyle,
    s: &SettingsState,
    names: &Vec<String>,
    source: &str,
    item: &SettingsItem,
    y: i64,
)
    requires
        0 <= y <= 0x10_0000_0000,
        item matches SettingsItem::Ws(i) ==> i < usize::MAX,
    ensures
        final(k)@ == item_drawn(
            old(k)@,
            *sh,
            *st,
            s@,
            texts(names@),
            source@,
            item@,
            y as int,
        ),
{
    let pad: i64 = sh.px(20) as i64;
    let w: i64 = sh.w as i64;
    let bottom: i64 = y + sh.px(26) as i64;
    let row = line_area(sh, y);
    let pen = normal_pen(sh.px(15) as i64);
    let strong = bold_pen(sh.px(15) as i64);
    match item {
        SettingsItem::Ws(i) => {
            draw_workspace(k, sh, st, s, names, *i, y);
        },
        SettingsItem::RulesHeader => {
            k.text(owned("pinned apps"), row, st.accent, strong);
        },
        SettingsItem::Rule(exe, n) => {
            let edge: i64 = w - pad - sh.px(120) as i64;
            let number = show(*n as u64);
            k.text(
                joined3(exe.as_str(), "  →  workspace ", number.as_str()),
                area(pad, y, edge, bottom),
                st.fg,
                pen.cutting(),
            );
            k.text(
                owned("click to remove"),
                area(edge, y, w - pad, bottom),
                st.cell_occupied,
                pen.to(Align::Right),
            );
        },
        SettingsItem::NoRules => {
            k.text(
                owned("none — focus an app and press the pin_app key to pin it"),
                row,
                st.cell_occupied,
                pen,
            );
        },
        SettingsItem::CalHeader => {
            k.text(owned("meetings calendar"), row, st.accent, strong);
            k.text(
                owned("shows your next meeting next to the clock"),
                row,
                st.cell_occupied,
                pen.to(Align::Right),
            );
        },
        SettingsItem::CalOff => {
            let on = is_blank(source);
            k.text(joined(choice_mark(on), "  off"), row, choice_ink(st, on), pen);
        },
        SettingsItem::CalOutlook => {
            let on = same_ignoring_ascii_case(source, "outlook");
            k.text(
                joined(
                    choice_mark(on),
                    "  outlook — classic Outlook calendar (Teams meetings)",
                ),
                row,
                choice_ink(st, on),
                pen,
            );
        },
        SettingsItem::CalIcs => {
            draw_ics(k, sh, st, s, source, y);
        },
    }
}

/// The whole panel. `source` is where meetings come from.
pub fn paint_settings(
    sh: &Sheet,
    st: &BarStyle,
    s: &SettingsState,
    count: usize,
    names: &Vec<String>,
    rules: &StrMap<usize>,
    source: &str,
) -> (k: Scene)
    ensures
        k@ == settings_painted(
            *sh,
            *st,
            s@,
            texts(names@),
            source@,
            items(count as int, rules.pairs()),
        ),
{
    let pad: i64 = sh.px(20) as i64;
    let line: i64 = sh.px(26) as i64;
    let w: i64 = sh.w as i64;
    let h: i64 = sh.h as i64;
    let pen = normal_pen(sh.px(15) as i64);
    let mut k = Scene::new();
    k.frame(sh, st);
    let title = line_area(sh, pad);
    k.text(owned("wtm settings"), title, st.accent, bold_pen(sh.px(15) as i64));
    k.text(owned("click a workspace to name it"), title, st.fg, pen.to(Align::Right));
    let rows = settings_items(count, rules);
    let ghost views = items(count as int, rules.pairs());
    let ghost start = k@;
    proof {
        assert(item_views(rows@).len() == rows.len());
    }
    let mut y: i64 = pad + line + sh.px(8) as i64;
    let mut i: usize = 0;
    let mut strong = false;
    while i < rows.len() && y + line <= h - line
        invariant
            i <= rows.len(),
            views == item_views(rows@),
            views == items(count as int, rules.pairs()),
            line == line_height(*sh),
            0 <= line < 0x8000_0000,
            h == sh.h,
            0 <= y <= 0x8_0000_0000,
            items_fit(*sh, views, i as int, y as int) == items_fit(*sh, views, 0, rows_top(*sh)),
            strong == (i > 0 && views[i - 1] is RulesHeader),
            items_drawn(
                k@,
                *sh,
                *st,
                s@,
                texts(names@),
                source@,
                views,
                i as int,
                y as int,
            ) == items_drawn(
                start,
                *sh,
                *st,
                s@,
                texts(names@),
                source@,
                views,
                0,
                rows_top(*sh),
            ),
        decreases rows.len() - i,
    {
        proof {
            assert(views[i as int] == rows@[i as int]@);
            lemma_workspace_items(count as int, rules.pairs(), i as int);
        }
        draw_item(&mut k, sh, st, s, names, source, &rows[i], y);
        strong = match &rows[i] {
            SettingsItem::RulesHeader => true,
            _ => false,
        };
        y = y + line;
        i = i + 1;
    }
    let edge: i64 = sh.px(6) as i64;
    k.text(
        owned("Enter saves · Esc closes"),
        area(pad, h - line - edge, w - pad, h - edge),
        st.cell_occupied,
        if strong {
            bold_pen(sh.px(15) as i64)
        } else {
            pen
        },
    );
    k
}

proof fn lemma_workspace_items(count: int, rules: Seq<(Seq<char>, usize)>, i: int)
    requires
        0 <= count,
        0 <= i < items(count, rules).len(),
    ensures
        items(count, rules)[i] matches Item::Ws(w) ==> w < count,
{
    if rules.len() > 0 && count < i < count + 1 + rules.len() {
        let spaces = Seq::new(count as nat, |i: int| Item::Ws(i)).push(Item::RulesHeader);
        let m = rules.map_values(|r: (Seq<char>, usize)| Item::Rule(r.0, r.1));
        assert((spaces + m)[i] == m[i - count - 1]);
    }
}

// --------------------------------------------------------------------- laws

/// Enter gives the workspace the name that was typed, and leaves the names of
/// all others alone.
pub proof fn law_typed_name_is_given(s: SettingsView, names: Seq<Seq<char>>, count: int, i: usize)
    requires
        s.editing == Some(i),
        !s.editing_cal,
        i < count,
    ensures
        text_at(keyed(s, names, count, VK_RETURN).1, i as int) == trimmed(s.buffer),
        forall|k: int|
            k != i ==> #[trigger] text_at(keyed(s, names, count, VK_RETURN).1, k) == text_at(
                names,
                k,
            ),
        keyed(s, names, count, VK_RETURN).2 == SettingsAsk::Named,
{
}

} // verus!
