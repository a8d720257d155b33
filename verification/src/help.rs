//! The keybindings panel: it lists the chords, filters them as one types, and
//! takes a new chord for the row that was clicked.

use crate::keys::{
    action_table, actions, captured, chord_value, chords_overlap, collide, expand, expanded,
    format_captured, is_numbered, parse_chord, rows, takes_number, Modifiers,
};
use crate::layout::Rect;
use crate::scene::{
    area, blank, bold, bold_pen, lesser, min2, normal, normal_pen, perch, perched, span, Align,
    BarStyle, Perch, Scene, Sheet, Sketch,
};
use crate::search::{append_char, fuzzy, fuzzy_match, shorten, shortened};
use crate::strmap::StrMap;
use crate::text::{is_blank, joined, joined3, owned, same};
use crate::vk::{is_modifier, modifier_key, VK_ESCAPE};
use vstd::prelude::*;

verus! {

/// One row: an action, its chord, and what it does.
#[derive(Debug)]
pub struct HelpEntry {
    pub action: String,
    pub chord: String,
    pub desc: String,
}

#[verifier::ext_equal]
pub struct HelpRow {
    pub action: Seq<char>,
    pub chord: Seq<char>,
    pub desc: Seq<char>,
}

impl View for HelpEntry {
    type V = HelpRow;

    open spec fn view(&self) -> HelpRow {
        HelpRow { action: self.action@, chord: self.chord@, desc: self.desc@ }
    }
}

impl HelpEntry {
    pub fn duplicate(&self) -> (r: HelpEntry)
        ensures
            r@ == self@,
    {
        HelpEntry {
            action: self.action.clone(),
            chord: self.chord.clone(),
            desc: self.desc.clone(),
        }
    }
}

pub open spec fn help_views(v: Seq<HelpEntry>) -> Seq<HelpRow> {
    v.map_values(|e: HelpEntry| e@)
}

/// The row of an action: its chord is the one bound to it, or else the
/// default.
pub open spec fn bound_row(
    row: (Seq<char>, Seq<char>, Seq<char>),
    bindings: Map<Seq<char>, Seq<char>>,
) -> HelpRow {
    HelpRow {
        action: row.0,
        chord: if bindings.contains_key(row.0) {
            bindings[row.0]
        } else {
            row.1
        },
        desc: row.2,
    }
}

/// The rows of all actions, in their canonical order.
pub open spec fn bound_rows(bindings: Map<Seq<char>, Seq<char>>) -> Seq<HelpRow> {
    action_table().map_values(|r: (Seq<char>, Seq<char>, Seq<char>)| bound_row(r, bindings))
}

/// The rows of all actions, in their canonical order.
pub fn set_keybinds(bindings: &StrMap<String>) -> (r: Vec<HelpEntry>)
    requires
        bindings.wf(),
    ensures
        help_views(r@) == bound_rows(bindings@),
{
    let table = actions();
    let mut r: Vec<HelpEntry> = Vec::new();
    let mut i: usize = 0;
    while i < table.len()
        invariant
            i <= table.len(),
            bindings.wf(),
            rows(table@) == action_table(),
            r.len() == i,
            forall|k: int| 0 <= k < i ==> (#[trigger] r@[k])@ == bound_row(
                action_table()[k],
                bindings@,
            ),
        decreases table.len() - i,
    {
        proof {
            assert(rows(table@)[i as int] == action_table()[i as int]);
        }
        let chord = match bindings.get(table[i].0) {
            Some(c) => c.clone(),
            None => owned(table[i].1),
        };
        r.push(HelpEntry { action: owned(table[i].0), chord, desc: owned(table[i].2) });
        i = i + 1;
    }
    proof {
        assert(rows(table@).len() == table.len());
        assert(help_views(r@) =~= bound_rows(bindings@));
    }
    r
}

/// What a query is matched against.
pub open spec fn row_text(r: HelpRow) -> Seq<char> {
    r.action + " "@ + r.chord + " "@ + r.desc
}

/// The rows that match a query; all when it is empty.
pub open spec fn matching(rows: Seq<HelpRow>, query: Seq<char>) -> Seq<HelpRow>
    decreases rows.len(),
{
    if rows.len() == 0 {
        Seq::empty()
    } else if query.len() == 0 || fuzzy(row_text(rows.last()), query) {
        matching(rows.drop_last(), query).push(rows.last())
    } else {
        matching(rows.drop_last(), query)
    }
}

/// The rows that match a query.
pub fn filtered_entries(entries: &Vec<HelpEntry>, query: &str) -> (r: Vec<HelpEntry>)
    ensures
        help_views(r@) == matching(help_views(entries@), query@),
{
    let mut r: Vec<HelpEntry> = Vec::new();
    let all = is_blank(query);
    let ghost views = help_views(entries@);
    let mut i: usize = 0;
    proof {
        assert(views.take(0) =~= Seq::empty());
        assert(help_views(r@) =~= Seq::empty());
    }
    while i < entries.len()
        invariant
            i <= entries.len(),
            views == help_views(entries@),
            all == (query@.len() == 0),
            help_views(r@) == matching(views.take(i as int), query@),
        decreases entries.len() - i,
    {
        proof {
            assert(views.take(i + 1).drop_last() =~= views.take(i as int));
            assert(views[i as int] == entries@[i as int]@);
        }
        let e = &entries[i];
        let mut hay = joined3(e.action.as_str(), " ", e.chord.as_str());
        hay.append(" ");
        hay.append(e.desc.as_str());
        if all || fuzzy_match(hay.as_str(), query) {
            let ghost before = r@;
            r.push(e.duplicate());
            proof {
                assert(help_views(r@) =~= help_views(before).push(e@));
            }
        }
        i = i + 1;
    }
    proof {
        assert(views.take(i as int) =~= views);
    }
    r
}

// -------------------------------------------------------------------- state

/// The state of the panel.
pub struct HelpState {
    pub query: String,
    /// The action that waits for its new chord.
    pub rebinding: Option<String>,
    /// What the last line says, or nothing.
    pub message: String,
}

/// The state of the panel.
pub struct HelpView {
    pub query: Seq<char>,
    pub rebinding: Option<Seq<char>>,
    pub message: Seq<char>,
}

impl View for HelpState {
    type V = HelpView;

    open spec fn view(&self) -> HelpView {
        HelpView {
            query: self.query@,
            rebinding: match self.rebinding {
                Some(a) => Some(a@),
                None => None,
            },
            message: self.message@,
        }
    }
}

/// The state of a panel just opened.
pub open spec fn fresh_help() -> HelpView {
    HelpView { query: Seq::empty(), rebinding: None, message: Seq::empty() }
}

/// The height of a row.
pub open spec fn row_height(sh: Sheet) -> int {
    sh.s(26)
}

/// The top of the first row: below the title, the search line and a space.
pub open spec fn rows_top(sh: Sheet) -> int {
    sh.s(20) + sh.s(26) * 2 + sh.s(8)
}

/// The measures of the panel.
pub struct PanelMetrics {
    pub pad: i64,
    pub line_h: i64,
    pub rows_top: i64,
}

/// The measures of the panel.
pub fn panel_metrics(sh: &Sheet) -> (r: PanelMetrics)
    ensures
        r.pad == sh.s(20),
        r.line_h == row_height(*sh),
        r.rows_top == rows_top(*sh),
        0 <= r.pad < 0x8000_0000,
        0 <= r.line_h < 0x8000_0000,
        0 <= r.rows_top < 0x2_0000_0000,
{
    let pad: i64 = sh.px(20) as i64;
    let line_h: i64 = sh.px(26) as i64;
    PanelMetrics { pad, line_h, rows_top: pad + line_h * 2 + sh.px(8) as i64 }
}

/// The place of the panel on a monitor: as high as its rows need, within the
/// monitor.
pub open spec fn help_place(bounds: Rect, dpi: u32, count: int) -> Rect {
    let sh = Sheet { w: 0, h: 0, dpi };
    perched(
        bounds,
        sh.s(600),
        min2(rows_top(sh) + row_height(sh) * (count + 2) + sh.s(20), bounds.h - sh.s(80)),
        Perch::Middle,
    )
}

/// The place of the panel on a monitor.
pub fn help_panel(bounds: &Rect, dpi: u32, count: usize) -> (r: Rect)
    requires
        count <= 0x7FFF_FFFF,
    ensures
        r == help_place(*bounds, dpi, count as int),
{
    let sh = Sheet { w: 0, h: 0, dpi };
    let pm = panel_metrics(&sh);
    let n: i64 = count as i64 + 2;
    proof {
        let (a, b) = (pm.line_h as int, n as int);
        assert(0 <= a * b <= 0x8000_0000 * 0x8000_0002) by (nonlinear_arith)
            requires
                0 <= a <= 0x8000_0000,
                0 <= b <= 0x8000_0002,
        ;
    }
    let h: i64 = lesser(
        pm.rows_top + pm.line_h * n + pm.pad,
        bounds.h as i64 - sh.px(80) as i64,
    );
    perch(bounds, sh.px(600) as i64, h, Perch::Middle)
}

/// What the panel asks for.
#[derive(Debug)]
pub enum HelpStep {
    Nothing,
    Close,
    Redraw,
    /// The chord is bound: save it, register the hotkeys anew, and tell the
    /// panel how the saving went.
    Rebound(String, String),
}

/// What the panel asks for.
pub enum HelpAsk {
    Nothing,
    Close,
    Redraw,
    Rebound(Seq<char>, Seq<char>),
}

impl View for HelpStep {
    type V = HelpAsk;

    open spec fn view(&self) -> HelpAsk {
        match *self {
            HelpStep::Nothing => HelpAsk::Nothing,
            HelpStep::Close => HelpAsk::Close,
            HelpStep::Redraw => HelpAsk::Redraw,
            HelpStep::Rebound(a, c) => HelpAsk::Rebound(a@, c@),
        }
    }
}

/// The first action, from the `i`th row on, whose chord collides.
pub open spec fn rival_from(rows: Seq<HelpRow>, action: Seq<char>, chord: Seq<char>, i: int) -> Option<
    Seq<char>,
>
    decreases rows.len() - i,
{
    if i < 0 || i >= rows.len() {
        None
    } else if rows[i].action != action && collide(chord, rows[i].chord) {
        Some(rows[i].action)
    } else {
        rival_from(rows, action, chord, i + 1)
    }
}

/// The chord that a key press gives an action, or why it does not.
pub open spec fn rebind(rows: Seq<HelpRow>, action: Seq<char>, m: Modifiers, vk: u32) -> Result<
    Seq<char>,
    Seq<char>,
> {
    if !(m.alt || m.ctrl || m.win) {
        Err("use at least one of Alt / Ctrl / Win"@)
    } else {
        match captured(m, vk, takes_number(action)) {
            None => Err("that key is not supported"@),
            Some(chord) => if chord_value(expanded(chord, 1)) is None {
                Err("that key is not supported"@)
            } else {
                match rival_from(rows, action, chord, 0) {
                    Some(other) => Err("conflicts with "@ + other),
                    None => Ok(chord),
                }
            },
        }
    }
}

/// The rows with a new chord for an action.
pub open spec fn with_chord(rows: Seq<HelpRow>, action: Seq<char>, chord: Seq<char>) -> Seq<HelpRow> {
    rows.map_values(
        |r: HelpRow|
            if r.action == action {
                HelpRow { chord, ..r }
            } else {
                r
            },
    )
}

/// What a key does to the panel, the rows and the bindings.
pub open spec fn key_pressed(
    s: HelpView,
    rows: Seq<HelpRow>,
    bindings: Map<Seq<char>, Seq<char>>,
    vk: u32,
    m: Modifiers,
) -> (HelpView, Seq<HelpRow>, Map<Seq<char>, Seq<char>>, HelpAsk) {
    match s.rebinding {
        None => (
            s,
            rows,
            bindings,
            if vk == VK_ESCAPE {
                HelpAsk::Close
            } else {
                HelpAsk::Nothing
            },
        ),
        Some(action) => if vk == VK_ESCAPE {
            (
                HelpView { rebinding: None, message: Seq::empty(), ..s },
                rows,
                bindings,
                HelpAsk::Redraw,
            )
        } else if modifier_key(vk) {
            (s, rows, bindings, HelpAsk::Nothing)
        } else {
            match rebind(rows, action, m, vk) {
                Err(why) => (HelpView { message: why, ..s }, rows, bindings, HelpAsk::Redraw),
                Ok(chord) => (
                    s,
                    with_chord(rows, action, chord),
                    bindings.insert(action, chord),
                    HelpAsk::Rebound(action, chord),
                ),
            }
        },
    }
}

/// What is reported after a chord was bound.
pub open spec fn saved_text(action: Seq<char>, chord: Seq<char>, saved: Option<Seq<char>>) -> Seq<char> {
    match saved {
        None => action + " = "@ + chord + "  ✓ saved"@,
        Some(e) => action + " = "@ + chord + "  (config not saved: "@ + e + ")"@,
    }
}

fn rival(entries: &Vec<HelpEntry>, action: &str, chord: &str) -> (r: Option<String>)
    ensures
        match r {
            Some(a) => rival_from(help_views(entries@), action@, chord@, 0) == Some(a@),
            None => rival_from(help_views(entries@), action@, chord@, 0) is None,
        },
{
    let ghost views = help_views(entries@);
    let mut i: usize = 0;
    while i < entries.len()
        invariant
            i <= entries.len(),
            views == help_views(entries@),
            rival_from(views, action@, chord@, i as int) == rival_from(views, action@, chord@, 0),
        decreases entries.len() - i,
    {
        let e = &entries[i];
        proof {
            assert(views[i as int] == e@);
        }
        if !same(e.action.as_str(), action) && chords_overlap(chord, e.chord.as_str()) {
            return Some(e.action.clone());
        }
        i = i + 1;
    }
    None
}

fn new_chord(entries: &Vec<HelpEntry>, action: &str, m: Modifiers, vk: u32) -> (r: Result<
    String,
    String,
>)
    ensures
        match r {
            Ok(c) => rebind(help_views(entries@), action@, m, vk) == Ok::<
                Seq<char>,
                Seq<char>,
            >(c@),
            Err(e) => rebind(help_views(entries@), action@, m, vk) == Err::<
                Seq<char>,
                Seq<char>,
            >(e@),
        },
{
    if !(m.alt || m.ctrl || m.win) {
        return Err(owned("use at least one of Alt / Ctrl / Win"));
    }
    let chord = match format_captured(
        m.alt,
        m.ctrl,
        m.shift,
        m.win,
        vk,
        is_numbered(action),
    ) {
        Some(c) => c,
        None => {
            return Err(owned("that key is not supported"));
        },
    };
    let first = expand(chord.as_str(), 1);
    match parse_chord(first.as_str()) {
        Some(v) => {},
        None => {
            return Err(owned("that key is not supported"));
        },
    }
    match rival(entries, action, chord.as_str()) {
        Some(other) => Err(joined("conflicts with ", other.as_str())),
        None => Ok(chord),
    }
}

fn put_chord(entries: &mut Vec<HelpEntry>, action: &str, chord: &str)
    ensures
        help_views(final(entries)@) == with_chord(help_views(old(entries)@), action@, chord@),
{
    let ghost views = help_views(entries@);
    let n = entries.len();
    let mut i: usize = 0;
    while i < n
        invariant
            i <= n,
            n == entries.len(),
            views.len() == n,
            views == help_views(old(entries)@),
            forall|k: int| i <= k < n ==> (#[trigger] entries@[k])@ == views[k],
            forall|k: int|
                0 <= k < i ==> (#[trigger] entries@[k])@ == with_chord(views, action@, chord@)[k],
        decreases n - i,
    {
        if same(entries[i].action.as_str(), action) {
            entries[i].chord = owned(chord);
        }
        i = i + 1;
    }
    proof {
        assert(help_views(entries@) =~= with_chord(views, action@, chord@));
    }
}

impl HelpState {
    /// The state of a panel just opened.
    pub fn new() -> (r: HelpState)
        ensures
            r@ == fresh_help(),
    {
        HelpState { query: String::new(), rebinding: None, message: String::new() }
    }

    /// A click: the row under it waits for its new chord. Says whether there
    /// is one.
    pub fn on_panel_click(&mut self, sh: &Sheet, y: i32, entries: &Vec<HelpEntry>) -> (r: bool)
        requires
            row_height(*sh) > 0,
        ensures
            ({
                let shown = matching(help_views(entries@), old(self)@.query);
                let i = (y - rows_top(*sh)) / row_height(*sh);
                if y >= rows_top(*sh) && i < shown.len() {
                    r && final(self)@ == (HelpView {
                        rebinding: Some(shown[i].action),
                        message: Seq::empty(),
                        ..old(self)@
                    })
                } else {
                    !r && final(self)@ == old(self)@
                }
            }),
    {
        let pm = panel_metrics(sh);
        if (y as i64) < pm.rows_top {
            return false;
        }
        let i: i64 = (y as i64 - pm.rows_top) / pm.line_h;
        let shown = filtered_entries(entries, self.query.as_str());
        proof {
            assert(help_views(shown@).len() == shown.len());
        }
        if (i as u64) < shown.len() as u64 {
            proof {
                assert(help_views(shown@)[i as int] == shown@[i as int]@);
            }
            self.rebinding = Some(shown[i as usize].action.clone());
            self.message = String::new();
            return true;
        }
        false
    }

    /// A character: it goes into the query, unless a chord is awaited. Says
    /// whether the panel changed.
    pub fn on_panel_char(&mut self, ch: u32) -> (r: bool)
        ensures
            ({
                let s = old(self)@;
                if s.rebinding is None && (ch == 0x08 || 0x20 <= ch <= 0x7E) {
                    r && final(self)@ == (HelpView {
                        query: if ch == 0x08 {
                            shortened(s.query)
                        } else {
                            s.query.push(ch as char)
                        },
                        message: Seq::empty(),
                        ..s
                    })
                } else {
                    !r && final(self)@ == s
                }
            }),
    {
        match self.rebinding {
            Some(_) => {
                return false;
            },
            None => {},
        }
        if ch == 0x08 {
            shorten(&mut self.query);
        } else if 0x20 <= ch && ch <= 0x7E {
            append_char(&mut self.query, ch);
        } else {
            return false;
        }
        self.message = String::new();
        true
    }

    /// A key with the modifiers held. A chord that is taken is put into the
    /// rows and the bindings at once.
    pub fn on_panel_key(
        &mut self,
        entries: &mut Vec<HelpEntry>,
        bindings: &mut StrMap<String>,
        vk: u32,
        m: Modifiers,
    ) -> (r: HelpStep)
        requires
            old(bindings).wf(),
        ensures
            final(bindings).wf(),
            (final(self)@, help_views(final(entries)@), final(bindings)@, r@) == key_pressed(
                old(self)@,
                help_views(old(entries)@),
                old(bindings)@,
                vk,
                m,
            ),
    {
        let action = match &self.rebinding {
            Some(a) => a.clone(),
            None => {
                if vk == VK_ESCAPE {
                    return HelpStep::Close;
                }
                return HelpStep::Nothing;
            },
        };
        if vk == VK_ESCAPE {
            self.rebinding = None;
            self.message = String::new();
            return HelpStep::Redraw;
        }
        if is_modifier(vk) {
            return HelpStep::Nothing;
        }
        match new_chord(entries, action.as_str(), m, vk) {
            Err(why) => {
                self.message = why;
                HelpStep::Redraw
            },
            Ok(chord) => {
                put_chord(entries, action.as_str(), chord.as_str());
                bindings.insert(action.clone(), chord.clone());
                HelpStep::Rebound(action, chord)
            },
        }
    }

    /// The new chord was saved, or not for that reason.
    pub fn rebound(&mut self, action: &str, chord: &str, saved: Option<String>)
        ensures
            final(self)@.query == old(self)@.query,
            final(self)@.rebinding is None,
            final(self)@.message == saved_text(
                action@,
                chord@,
                match saved {
                    Some(e) => Some(e@),
                    None => None,
                },
            ),
    {
        let mut text = joined3(action, " = ", chord);
        match saved {
            None => {
                text.append("  ✓ saved");
            },
            Some(e) => {
                text.append("  (config not saved: ");
                text.append(e.as_str());
                text.append(")");
            },
        }
        self.rebinding = None;
        self.message = text;
    }
}

// ----------------------------------------------------------------- painting

/// One row of the panel.
pub open spec fn row_drawn(k: Sketch, sh: Sheet, st: BarStyle, s: HelpView, row: HelpRow, y: int) -> Sketch {
    let (pad, line, w) = (sh.s(20), row_height(sh), sh.w as int);
    let waiting = s.rebinding == Some(row.action);
    let ground = if waiting {
        k.fill(span(sh.s(6), y, w - sh.s(6), y + line), st.cell_empty)
    } else {
        k
    };
    ground.text(
        if waiting {
            "press keys…"@
        } else {
            row.chord
        },
        span(pad, y, pad + sh.s(210), y + line),
        st.accent,
        bold(sh.s(15)),
    ).text(row.desc, span(pad + sh.s(220), y, w - pad, y + line), st.fg, normal(sh.s(15)).cut())
}

/// The rows from the `i`th on, as many as fit, and where the next would be.
pub open spec fn rows_drawn(
    k: Sketch,
    sh: Sheet,
    st: BarStyle,
    s: HelpView,
    rows: Seq<HelpRow>,
    i: int,
    y: int,
) -> (Sketch, int)
    decreases rows.len() - i,
{
    let line = row_height(sh);
    if i < 0 || i >= rows.len() || y + line > sh.h - line {
        (k, y)
    } else {
        rows_drawn(row_drawn(k, sh, st, s, rows[i], y), sh, st, s, rows, i + 1, y + line)
    }
}

/// The panel above its rows.
pub open spec fn help_head(sh: Sheet, st: BarStyle, s: HelpView) -> Sketch {
    let (pad, line, w) = (sh.s(20), row_height(sh), sh.w as int);
    let title = span(pad, pad, w - pad, pad + line);
    let search = span(pad, pad + line, w - pad, pad + line * 2);
    let titled = blank().frame(sh, st).text(
        "wtm keybindings"@,
        title,
        st.accent,
        bold(sh.s(15)),
    ).text(
        "click a row, then press the new shortcut"@,
        title,
        st.fg,
        bold(sh.s(15)).at(Align::Right),
    );
    if s.query.len() == 0 {
        titled.text("type to search…"@, search, st.cell_occupied, normal(sh.s(15)))
    } else {
        titled.text("search: "@ + s.query + "_"@, search, st.fg, normal(sh.s(15)))
    }
}

/// The whole panel.
pub open spec fn help_painted(sh: Sheet, st: BarStyle, s: HelpView, rows: Seq<HelpRow>) -> Sketch {
    let (pad, line, w, h) = (sh.s(20), row_height(sh), sh.w as int, sh.h as int);
    let shown = matching(rows, s.query);
    let (listed, y) = rows_drawn(help_head(sh, st, s), sh, st, s, shown, 0, rows_top(sh));
    let told = if shown.len() == 0 {
        listed.text("no match"@, span(pad, y, w - pad, y + line), st.cell_occupied, normal(sh.s(15)))
    } else {
        listed
    };
    let foot = span(pad, h - line - sh.s(6), w - pad, h - sh.s(6));
    if s.message.len() > 0 {
        told.text(s.message, foot, st.accent, normal(sh.s(15)).cut())
    } else {
        told.text(
            "Esc closes · drag a window onto another to swap"@,
            foot,
            st.cell_occupied,
            normal(sh.s(15)),
        )
    }
}

fn draw_row(k: &mut Scene, sh: &Sheet, st: &BarStyle, s: &HelpState, e: &HelpEntry, y: i64)
    requires
        -0x4_0000_0000 <= y <= 0x4_0000_0000,
    ensures
        final(k)@ == row_drawn(old(k)@, *sh, *st, s@, e@, y as int),
{
    let pm = panel_metrics(sh);
    let w: i64 = sh.w as i64;
    let bottom: i64 = y + pm.line_h;
    let waiting: bool = match &s.rebinding {
        Some(a) => same(a.as_str(), e.action.as_str()),
        None => false,
    };
    if waiting {
        let edge: i64 = sh.px(6) as i64;
        k.fill(area(edge, y, w - edge, bottom), st.cell_empty);
    }
    k.text(
        if waiting {
            owned("press keys…")
        } else {
            e.chord.clone()
        },
        area(pm.pad, y, pm.pad + sh.px(210) as i64, bottom),
        st.accent,
        bold_pen(sh.px(15) as i64),
    );
    k.text(
        e.desc.clone(),
        area(pm.pad + sh.px(220) as i64, y, w - pm.pad, bottom),
        st.fg,
        normal_pen(sh.px(15) as i64).cutting(),
    );
}

fn draw_head(sh: &Sheet, st: &BarStyle, s: &HelpState) -> (k: Scene)
    ensures
        k@ == help_head(*sh, *st, s@),
{
    let pm = panel_metrics(sh);
    let w: i64 = sh.w as i64;
    let strong = bold_pen(sh.px(15) as i64);
    let plain = normal_pen(sh.px(15) as i64);
    let mut k = Scene::new();
    k.frame(sh, st);
    let title = area(pm.pad, pm.pad, w - pm.pad, pm.pad + pm.line_h);
    k.text(owned("wtm keybindings"), title, st.accent, strong);
    k.text(
        owned("click a row, then press the new shortcut"),
        title,
        st.fg,
        strong.to(Align::Right),
    );
    let search = area(pm.pad, pm.pad + pm.line_h, w - pm.pad, pm.pad + pm.line_h * 2);
    if is_blank(s.query.as_str()) {
        k.text(owned("type to search…"), search, st.cell_occupied, plain);
    } else {
        k.text(joined3("search: ", s.query.as_str(), "_"), search, st.fg, plain);
    }
    k
}

/// The whole panel.
pub fn paint_help(sh: &Sheet, st: &BarStyle, s: &HelpState, entries: &Vec<HelpEntry>) -> (k: Scene)
    ensures
        k@ == help_painted(*sh, *st, s@, help_views(entries@)),
{
    let pm = panel_metrics(sh);
    let w: i64 = sh.w as i64;
    let h: i64 = sh.h as i64;
    let plain = normal_pen(sh.px(15) as i64);
    let mut k = draw_head(sh, st, s);
    let shown = filtered_entries(entries, s.query.as_str());
    let ghost views = help_views(shown@);
    let ghost start = k@;
    let mut y: i64 = pm.rows_top;
    let mut i: usize = 0;
    while i < shown.len() && y + pm.line_h <= h - pm.line_h
        invariant
            i <= shown.len(),
            views == help_views(shown@),
            h == sh.h,
            pm.line_h == row_height(*sh),
            0 <= pm.line_h < 0x8000_0000,
            0 <= y <= 0x3_0000_0000,
            rows_drawn(k@, *sh, *st, s@, views, i as int, y as int) == rows_drawn(
                start,
                *sh,
                *st,
                s@,
                views,
                0,
                rows_top(*sh),
            ),
        decreases shown.len() - i,
    {
        proof {
            assert(views[i as int] == shown@[i as int]@);
        }
        draw_row(&mut k, sh, st, s, &shown[i], y);
        y = y + pm.line_h;
        i = i + 1;
    }
    proof {
        assert(views.len() == shown.len());
    }
    if shown.len() == 0 {
        k.text(owned("no match"), area(pm.pad, y, w - pm.pad, y + pm.line_h), st.cell_occupied, plain);
    }
    let edge: i64 = sh.px(6) as i64;
    let foot = area(pm.pad, h - pm.line_h - edge, w - pm.pad, h - edge);
    if !is_blank(s.message.as_str()) {
        k.text(s.message.clone(), foot, st.accent, plain.cutting());
    } else {
        k.text(
            owned("Esc closes · drag a window onto another to swap"),
            foot,
            st.cell_occupied,
            plain,
        );
    }
    k
}

// --------------------------------------------------------------------- laws

/// A chord that is taken collides with no other row.
pub proof fn law_taken_chord_is_free(
    rows: Seq<HelpRow>,
    action: Seq<char>,
    m: Modifiers,
    vk: u32,
    chord: Seq<char>,
    i: int,
)
    requires
        rebind(rows, action, m, vk) == Ok::<Seq<char>, Seq<char>>(chord),
        0 <= i < rows.len(),
        rows[i].action != action,
    ensures
        !collide(chord, rows[i].chord),
{
    lemma_rival(rows, action, chord, 0, i);
}

proof fn lemma_rival(rows: Seq<HelpRow>, action: Seq<char>, chord: Seq<char>, k: int, i: int)
    requires
        0 <= k <= i < rows.len(),
        rival_from(rows, action, chord, k) is None,
    ensures
        rows[i].action != action ==> !collide(chord, rows[i].chord),
    decreases i - k,
{
    if k < i {
        lemma_rival(rows, action, chord, k + 1, i);
    }
}

/// Every row that is listed matches the query, and every row that matches is
/// listed.
pub proof fn law_filter_is_exact(rows: Seq<HelpRow>, query: Seq<char>, row: HelpRow)
    ensures
        matching(rows, query).contains(row) <==> rows.contains(row) && (query.len() == 0 || fuzzy(
            row_text(row),
            query,
        )),
    decreases rows.len(),
{
    if rows.len() > 0 {
        let front = rows.drop_last();
        law_filter_is_exact(front, query, row);
        let rest = matching(front, query);
        if rows.contains(row) {
            let i = choose|i: int| 0 <= i < rows.len() && rows[i] == row;
            if i < front.len() {
                assert(front[i] == row);
            }
        }
        if front.contains(row) {
            let i = choose|i: int| 0 <= i < front.len() && front[i] == row;
            assert(rows[i] == row);
        }
        assert(rows[rows.len() - 1] == rows.last());
        let all = matching(rows, query);
        if all.contains(row) {
            let i = choose|i: int| 0 <= i < all.len() && all[i] == row;
            if i < rest.len() {
                assert(rest[i] == row);
            }
        }
        if rest.contains(row) {
            let i = choose|i: int| 0 <= i < rest.len() && rest[i] == row;
            assert(all[i] == row);
        }
        if query.len() == 0 || fuzzy(row_text(rows.last()), query) {
            assert(all[all.len() - 1] == rows.last());
        }
    }
}

} // verus!
