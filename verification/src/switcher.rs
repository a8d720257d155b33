//! The window switcher: all managed windows, filtered as one types.

use crate::layout::{divided, quot, Rect};
use crate::scene::{
    area, blank, bold, bold_pen, lesser, min2, normal, normal_pen, perch, perched, span, Align, BarStyle,
    Perch, Scene, Sheet, Sketch,
};
use crate::search::{fuzzy, fuzzy_match, maybe, type_char, typed};
use crate::text::{is_blank, joined3, owned};
use crate::vk::{VK_DOWN, VK_ESCAPE, VK_RETURN, VK_UP};
use crate::window::Window;
use crate::wm::desktop::{DeskView, Desktop};
use crate::wm::snapshots::entry_views;
use crate::wm::SwitchEntry;
use vstd::prelude::*;

verus! {

/// What a query is matched against: the place, the title and the program.
pub open spec fn row_text(e: (Window, Seq<char>), d: DeskView) -> Seq<char> {
    let exe = match d.exe_name_of(e.0) {
        Some(x) => x,
        None => Seq::empty(),
    };
    e.1 + " "@ + d.title_of(e.0) + " "@ + exe
}

/// The windows that match a query; all when it is empty.
pub open spec fn matching(s: Seq<(Window, Seq<char>)>, d: DeskView, query: Seq<char>) -> Seq<
    (Window, Seq<char>),
>
    decreases s.len(),
{
    if s.len() == 0 {
        Seq::empty()
    } else if query.len() == 0 || fuzzy(row_text(s.last(), d), query) {
        matching(s.drop_last(), d, query).push(s.last())
    } else {
        matching(s.drop_last(), d, query)
    }
}

/// The windows that match a query, in their order.
pub fn switcher_entries(all: &Vec<SwitchEntry>, desk: &Desktop, query: &str) -> (r: Vec<SwitchEntry>)
    ensures
        entry_views(r@) == matching(entry_views(all@), desk@, query@),
{
    let ghost views = entry_views(all@);
    let every = is_blank(query);
    let mut r: Vec<SwitchEntry> = Vec::new();
    let mut i: usize = 0;
    proof {
        assert(views.take(0) =~= Seq::empty());
        assert(entry_views(r@) =~= Seq::empty());
    }
    while i < all.len()
        invariant
            i <= all.len(),
            every == (query@.len() == 0),
            views == entry_views(all@),
            entry_views(r@) == matching(views.take(i as int), desk@, query@),
        decreases all.len() - i,
    {
        let e = &all[i];
        proof {
            assert(views.take(i + 1).drop_last() =~= views.take(i as int));
            assert(views[i as int] == (e.window, e.place@));
        }
        let title = desk.title(e.window);
        let exe = match desk.exe(e.window) {
            Some(x) => x,
            None => String::new(),
        };
        let mut hay = joined3(e.place.as_str(), " ", title.as_str());
        hay.append(" ");
        hay.append(exe.as_str());
        if every || fuzzy_match(hay.as_str(), query) {
            let ghost was = r@;
            r.push(SwitchEntry { window: e.window, place: e.place.clone() });
            proof {
                assert(entry_views(r@) =~= entry_views(was).push(views[i as int]));
            }
        }
        i = i + 1;
    }
    proof {
        assert(views.take(i as int) =~= views);
    }
    r
}

// -------------------------------------------------------------------- state

/// The state of the panel.
pub struct SwitcherState {
    pub query: String,
    pub selected: usize,
}

/// What the panel asks for.
#[derive(Clone, Copy, Debug, PartialEq, Eq, Structural)]
pub enum SwitcherStep {
    Nothing,
    Close,
    Redraw,
    /// Close, and go to the window.
    Activate(Window),
}

pub open spec fn row_height(sh: Sheet) -> int {
    sh.s(28)
}

/// The top of the first row.
pub open spec fn rows_top(sh: Sheet) -> int {
    sh.s(20) + sh.s(26) * 2
}

/// The place of the panel.
pub open spec fn switcher_place(bounds: Rect, dpi: u32) -> Rect {
    let sh = Sheet { w: 0, h: 0, dpi };
    perched(
        bounds,
        sh.s(600),
        min2(sh.s(20) + sh.s(26) * 2 + sh.s(28) * 14 + sh.s(40), bounds.h - sh.s(120)),
        Perch::Third,
    )
}

/// The place of the panel.
pub fn switcher_panel(bounds: &Rect, dpi: u32) -> (r: Rect)
    ensures
        r == switcher_place(*bounds, dpi),
{
    let sh = Sheet { w: 0, h: 0, dpi };
    let h: i64 = lesser(
        sh.px(20) as i64 + sh.px(26) as i64 * 2 + sh.px(28) as i64 * 14 + sh.px(40) as i64,
        bounds.h as i64 - sh.px(120) as i64,
    );
    perch(bounds, sh.px(600) as i64, h, Perch::Third)
}

/// Going to the `i`th window of those shown.
pub open spec fn activated(shown: Seq<(Window, Seq<char>)>, i: int) -> SwitcherStep {
    if 0 <= i < shown.len() {
        SwitcherStep::Activate(shown[i].0)
    } else {
        SwitcherStep::Nothing
    }
}

/// What a click does.
pub open spec fn clicked(shown: Seq<(Window, Seq<char>)>, sh: Sheet, y: int) -> SwitcherStep {
    if y >= rows_top(sh) {
        activated(shown, (y - rows_top(sh)) / row_height(sh))
    } else {
        SwitcherStep::Nothing
    }
}

/// What a key does: the new selection, and what is asked for.
pub open spec fn keyed(selected: int, shown: Seq<(Window, Seq<char>)>, vk: u32) -> (
    int,
    SwitcherStep,
) {
    if vk == VK_ESCAPE {
        (selected, SwitcherStep::Close)
    } else if vk == VK_RETURN {
        (selected, activated(shown, selected))
    } else if (vk == VK_UP || vk == VK_DOWN) && shown.len() > 0 {
        let step: int = if vk == VK_DOWN {
            1
        } else {
            -1
        };
        ((selected + step) % (shown.len() as int), SwitcherStep::Redraw)
    } else {
        (selected, SwitcherStep::Nothing)
    }
}

fn go_to(shown: &Vec<SwitchEntry>, i: u64) -> (r: SwitcherStep)
    ensures
        r == activated(entry_views(shown@), i as int),
{
    proof {
        assert(entry_views(shown@).len() == shown.len());
    }
    if i < shown.len() as u64 {
        let e = &shown[i as usize];
        proof {
            assert(entry_views(shown@)[i as int] == (e.window, e.place@));
        }
        SwitcherStep::Activate(e.window)
    } else {
        SwitcherStep::Nothing
    }
}

impl SwitcherState {
    pub fn new() -> (r: SwitcherState)
        ensures
            r.query@.len() == 0,
            r.selected == 0,
    {
        SwitcherState { query: String::new(), selected: 0 }
    }

    /// A click; the windows are those that were drawn.
    pub fn on_click(&self, shown: &Vec<SwitchEntry>, sh: &Sheet, y: i32) -> (r: SwitcherStep)
        requires
            row_height(*sh) > 0,
        ensures
            r == clicked(entry_views(shown@), *sh, y as int),
    {
        let top: i64 = sh.px(20) as i64 + sh.px(26) as i64 * 2;
        if (y as i64) < top {
            return SwitcherStep::Nothing;
        }
        go_to(shown, ((y as i64 - top) / sh.px(28) as i64) as u64)
    }

    /// A key; the windows are those that were drawn.
    pub fn on_switcher_key(&mut self, shown: &Vec<SwitchEntry>, vk: u32) -> (r: SwitcherStep)
        requires
            old(self).selected < usize::MAX,
        ensures
            (final(self).selected as int, r) == keyed(
                old(self).selected as int,
                entry_views(shown@),
                vk,
            ),
            final(self).query == old(self).query,
    {
        if vk == VK_ESCAPE {
            return SwitcherStep::Close;
        }
        if vk == VK_RETURN {
            return go_to(shown, self.selected as u64);
        }
        let n = shown.len();
        proof {
            assert(entry_views(shown@).len() == n);
        }
        if (vk == VK_UP || vk == VK_DOWN) && n > 0 {
            if vk == VK_DOWN {
                self.selected = (self.selected + 1) % n;
            } else if self.selected == 0 {
                proof {
                    let ni = n as int;
                    assert((-1int) % ni == ni - 1) by (nonlinear_arith)
                        requires
                            ni > 0,
                    ;
                }
                self.selected = n - 1;
            } else {
                self.selected = (self.selected - 1) % n;
            }
            return SwitcherStep::Redraw;
        }
        SwitcherStep::Nothing
    }

    /// A character, with the text of the clipboard for Ctrl+V.
    pub fn on_switcher_char(&mut self, ch: u32, clip: &Option<String>)
        ensures
            match typed(old(self).query@, ch, maybe(*clip)) {
                Some(q) => final(self).query@ == q && final(self).selected == 0,
                None => final(self).query@ == old(self).query@ && final(self).selected == old(
                    self,
                ).selected,
            },
    {
        if type_char(&mut self.query, ch, clip) {
            self.selected = 0;
        }
    }
}

// ----------------------------------------------------------------- painting

/// One row: the place, the icon and the title of a window.
pub open spec fn row_drawn(
    k: Sketch,
    sh: Sheet,
    st: BarStyle,
    d: DeskView,
    e: (Window, Seq<char>),
    chosen: bool,
    y: int,
) -> Sketch {
    let (pad, line, w, icon) = (sh.s(20), row_height(sh), sh.w as int, sh.s(16));
    let ground = if chosen {
        k.round(span(sh.s(6), y, w - sh.s(6), y + line), st.cell_empty, sh.s(6))
    } else {
        k
    };
    ground.text(
        e.1,
        span(pad, y, pad + sh.s(150), y + line),
        st.accent,
        bold(sh.s(15)).cut(),
    ).window_icon(e.0, pad + sh.s(158), y + quot(line - icon, 2), icon).text(
        d.title_of(e.0),
        span(pad + sh.s(158) + icon + sh.s(8), y, w - pad, y + line),
        st.fg,
        normal(sh.s(15)).cut(),
    )
}

/// The rows from the `i`th on, as many as fit, and where the next would be.
pub open spec fn rows_drawn(
    k: Sketch,
    sh: Sheet,
    st: BarStyle,
    d: DeskView,
    shown: Seq<(Window, Seq<char>)>,
    selected: int,
    i: int,
    y: int,
) -> (Sketch, int)
    decreases shown.len() - i,
{
    let line = row_height(sh);
    if i < 0 || i >= shown.len() || y + line > sh.h - sh.s(26) {
        (k, y)
    } else {
        rows_drawn(
            row_drawn(k, sh, st, d, shown[i], i == selected, y),
            sh,
            st,
            d,
            shown,
            selected,
            i + 1,
            y + line,
        )
    }
}

/// The panel above its rows.
pub open spec fn switcher_head(sh: Sheet, st: BarStyle, query: Seq<char>) -> Sketch {
    let (pad, line, w) = (sh.s(20), sh.s(26), sh.w as int);
    let title = span(pad, pad, w - pad, pad + line);
    let search = span(pad, pad + line, w - pad, pad + line * 2);
    let titled = blank().frame(sh, st).text("windows"@, title, st.accent, bold(sh.s(15))).text(
        "Enter or click to jump"@,
        title,
        st.fg,
        bold(sh.s(15)).at(Align::Right),
    );
    if query.len() == 0 {
        titled.text("type to filter…"@, search, st.cell_occupied, normal(sh.s(15)))
    } else {
        titled.text("filter: "@ + query + "_"@, search, st.fg, normal(sh.s(15)))
    }
}

/// The whole panel.
pub open spec fn switcher_painted(
    sh: Sheet,
    st: BarStyle,
    d: DeskView,
    query: Seq<char>,
    selected: int,
    shown: Seq<(Window, Seq<char>)>,
) -> Sketch {
    let (pad, line, w, h) = (sh.s(20), sh.s(26), sh.w as int, sh.h as int);
    let (listed, y) = rows_drawn(
        switcher_head(sh, st, query),
        sh,
        st,
        d,
        shown,
        selected,
        0,
        rows_top(sh),
    );
    let told = if shown.len() == 0 {
        listed.text(
            "no match"@,
            span(pad, y, w - pad, y + row_height(sh)),
            st.cell_occupied,
            normal(sh.s(15)),
        )
    } else {
        listed
    };
    told.text(
        "↑↓ select · Enter jumps · Esc closes"@,
        span(pad, h - line - sh.s(6), w - pad, h - sh.s(6)),
        st.cell_occupied,
        normal(sh.s(15)),
    )
}

fn draw_head(sh: &Sheet, st: &BarStyle, query: &str) -> (k: Scene)
    ensures
        k@ == switcher_head(*sh, *st, query@),
{
    let pad: i64 = sh.px(20) as i64;
    let line: i64 = sh.px(26) as i64;
    let w: i64 = sh.w as i64;
    let strong = bold_pen(sh.px(15) as i64);
    let pen = normal_pen(sh.px(15) as i64);
    let mut k = Scene::new();
    k.frame(sh, st);
    let title = area(pad, pad, w - pad, pad + line);
    k.text(owned("windows"), title, st.accent, strong);
    k.text(owned("Enter or click to jump"), title, st.fg, strong.to(Align::Right));
    let search = area(pad, pad + line, w - pad, pad + line * 2);
    if is_blank(query) {
        k.text(owned("type to filter…"), search, st.cell_occupied, pen);
    } else {
        k.text(joined3("filter: ", query, "_"), search, st.fg, pen);
    }
    k
}

fn draw_row(
    k: &mut Scene,
    sh: &Sheet,
    st: &BarStyle,
    desk: &Desktop,
    e: &SwitchEntry,
    chosen: bool,
    y: i64,
)
    requires
        0 <= y <= 0x10_0000_0000,
    ensures
        final(k)@ == row_drawn(
            old(k)@,
            *sh,
            *st,
            desk@,
            (e.window, e.place@),
            chosen,
            y as int,
        ),
{
    let pad: i64 = sh.px(20) as i64;
    let line: i64 = sh.px(28) as i64;
    let w: i64 = sh.w as i64;
    let icon: i64 = sh.px(16) as i64;
    let bottom: i64 = y + line;
    if chosen {
        let edge: i64 = sh.px(6) as i64;
        k.round(area(edge, y, w - edge, bottom), st.cell_empty, edge);
    }
    k.text(
        e.place.clone(),
        area(pad, y, pad + sh.px(150) as i64, bottom),
        st.accent,
        bold_pen(sh.px(15) as i64).cutting(),
    );
    let left: i64 = pad + sh.px(158) as i64;
    k.window_icon(e.window, left, y + divided(line - icon, 2), icon);
    k.text(
        desk.title(e.window),
        area(left + icon + sh.px(8) as i64, y, w - pad, bottom),
        st.fg,
        normal_pen(sh.px(15) as i64).cutting(),
    );
}

/// The whole panel, for the windows that match.
pub fn paint_switcher(
    sh: &Sheet,
    st: &BarStyle,
    desk: &Desktop,
    s: &SwitcherState,
    shown: &Vec<SwitchEntry>,
) -> (k: Scene)
    ensures
        k@ == switcher_painted(
            *sh,
            *st,
            desk@,
            s.query@,
            s.selected as int,
            entry_views(shown@),
        ),
{
    let pad: i64 = sh.px(20) as i64;
    let line: i64 = sh.px(26) as i64;
    let row: i64 = sh.px(28) as i64;
    let edge: i64 = sh.px(6) as i64;
    let w: i64 = sh.w as i64;
    let h: i64 = sh.h as i64;
    let floor: i64 = h - line;
    let mut k = draw_head(sh, st, s.query.as_str());
    let ghost views = entry_views(shown@);
    let ghost start = k@;
    proof {
        assert(views.len() == shown.len());
    }
    let mut y: i64 = pad + line * 2;
    let mut i: usize = 0;
    while i < shown.len() && y + row <= floor
        invariant
            i <= shown.len(),
            views == entry_views(shown@),
            row == row_height(*sh),
            0 <= row < 0x8000_0000,
            floor == sh.h - sh.s(26),
            floor <= 0x7FFF_FFFF,
            0 <= y <= 0x8_0000_0000,
            rows_drawn(k@, *sh, *st, desk@, views, s.selected as int, i as int, y as int)
                == rows_drawn(
                start,
                *sh,
                *st,
                desk@,
                views,
                s.selected as int,
                0,
                rows_top(*sh),
            ),
        decreases shown.len() - i,
    {
        proof {
            assert(views[i as int] == (shown@[i as int].window, shown@[i as int].place@));
        }
        draw_row(&mut k, sh, st, desk, &shown[i], i == s.selected, y);
        y = y + row;
        i = i + 1;
    }
    let pen = normal_pen(sh.px(15) as i64);
    if shown.len() == 0 {
        k.text(owned("no match"), area(pad, y, w - pad, y + row), st.cell_occupied, pen);
    }
    k.text(
        owned("↑↓ select · Enter jumps · Esc closes"),
        area(pad, floor - edge, w - pad, h - edge),
        st.cell_occupied,
        pen,
    );
    k
}

// --------------------------------------------------------------------- laws

/// The arrow keys stay on the windows shown.
pub proof fn law_selection_stays_on_windows(
    selected: int,
    shown: Seq<(Window, Seq<char>)>,
    vk: u32,
)
    requires
        vk == VK_UP || vk == VK_DOWN,
        shown.len() > 0,
    ensures
        0 <= keyed(selected, shown, vk).0 < shown.len(),
{
}

} // verus!
