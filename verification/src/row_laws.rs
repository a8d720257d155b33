//! The rows of the panels, as they are painted: each shows what a click on it
//! is about.

use crate::agenda::{agenda_painted, meeting_drawn, meetings_drawn};
use crate::bar::width_at;
use crate::calendar::MeetingView;
use crate::config::{colorref, EntryView};
use crate::help::{HelpRow, HelpView};
use crate::launcher::Row;
use crate::launcher_panel::LauncherView;
use crate::layout::Rect;
use crate::manager::{entry_drawn, manager_painted, MgrView};
use crate::numerals::decimal;
use crate::overview::{
    body_of, card, card_drawn, cards_drawn, mapped, window_drawn, windows_drawn,
};
use crate::panel_laws::law_steppers_count;
use crate::scan::{is_added, row_drawn, row_height, rows_drawn};
use crate::scene::{BarStyle, Mark, Sheet, Sketch, Span};
use crate::settings::{item_drawn, Item, SettingsView};
use crate::text::{ascii_lowered, text_at};
use crate::tweaks::{
    clicked, custom_chip, palette, row_span, row_top, stepper, stepper_drawn, swatch, swatch_from,
    swatches_drawn, thickness_text, tweaks_painted, TweakClick,
};
use crate::webapps::{browser_label, url_of};
use crate::window::Window;
use crate::wm::desktop::DeskView;
use crate::wm::OverviewSnapshot;
use vstd::prelude::*;

verus! {

/// Among the marks is that text, in a row that begins at that height.
pub open spec fn tells_at(marks: Seq<Mark>, words: Seq<char>, top: int) -> bool {
    exists|k: int|
        0 <= k < marks.len() && ((#[trigger] marks[k]) matches Mark::Text { text, area, .. }
            && text == words && area.top == top)
}

/// The one row of marks begins with the other.
pub open spec fn goes_on(a: Seq<Mark>, b: Seq<Mark>) -> bool {
    a.len() <= b.len() && forall|k: int| 0 <= k < a.len() ==> #[trigger] b[k] == a[k]
}

proof fn lemma_still_told(a: Seq<Mark>, b: Seq<Mark>, words: Seq<char>, top: int)
    requires
        tells_at(a, words, top),
        goes_on(a, b),
    ensures
        tells_at(b, words, top),
{
    let k = choose|k: int|
        0 <= k < a.len() && ((#[trigger] a[k]) matches Mark::Text { text, area, .. } && text
            == words && area.top == top);
    assert(b[k] == a[k]);
}

// ------------------------------------------------------------------- agenda

/// The row of a meeting shows when it is and what it is about; one that has
/// begun stands out; the word to join stands there exactly if there is an
/// address.
pub proof fn law_meeting_row_is_painted(
    k: Sketch,
    sh: Sheet,
    st: BarStyle,
    m: MeetingView,
    now: u64,
    y: int,
)
    ensures
        ({
            let d = meeting_drawn(k, sh, st, m, now, y).marks;
            let n = k.marks.len() as int;
            let at = if m.start <= now {
                n + 1
            } else {
                n
            };
            &&& goes_on(k.marks, d)
            &&& m.start <= now ==> d[n] is Round
            &&& d[at] matches Mark::Text { text, color, .. } && text == m.start_hm + "–"@
                + m.end_hm && color == if m.start <= now {
                st.accent
            } else {
                st.fg
            }
            &&& d[at + 1] matches Mark::Text { text, .. } && text == m.subject
            &&& tells_at(d, m.subject, y)
            &&& m.join_url.len() > 0 ==> (d[at + 2] matches Mark::Text { text, .. } && text
                == "join ⇗"@)
            &&& m.join_url.len() == 0 && m.location.len() > 0 ==> (d[at + 2] matches Mark::Text {
                text,
                ..
            } && text == m.location)
            &&& m.join_url.len() == 0 && m.location.len() == 0 ==> d.len() == at + 2
        }),
{
    let d = meeting_drawn(k, sh, st, m, now, y).marks;
    let n = k.marks.len() as int;
    let at = if m.start <= now {
        n + 1
    } else {
        n
    };
    assert(d[at + 1] matches Mark::Text { text, area, .. } && text == m.subject && area.top == y);
}

proof fn lemma_meetings_go_on(
    k: Sketch,
    sh: Sheet,
    st: BarStyle,
    list: Seq<MeetingView>,
    now: u64,
    j: int,
    y: int,
)
    ensures
        goes_on(k.marks, meetings_drawn(k, sh, st, list, now, j, y).marks),
    decreases list.len() - j,
{
    let line = crate::agenda::line_height(sh);
    if !(j < 0 || j >= list.len() || y + line > sh.h - line) {
        let d = meeting_drawn(k, sh, st, list[j], now, y);
        law_meeting_row_is_painted(k, sh, st, list[j], now, y);
        lemma_meetings_go_on(d, sh, st, list, now, j + 1, y + line);
    }
}

proof fn lemma_meeting_told(
    k: Sketch,
    sh: Sheet,
    st: BarStyle,
    list: Seq<MeetingView>,
    now: u64,
    j: int,
    y: int,
    i: int,
)
    requires
        0 <= j <= i < list.len(),
        crate::agenda::line_height(sh) > 0,
        y + (i - j + 1) * crate::agenda::line_height(sh) <= sh.h - crate::agenda::line_height(sh),
    ensures
        tells_at(
            meetings_drawn(k, sh, st, list, now, j, y).marks,
            list[i].subject,
            y + (i - j) * crate::agenda::line_height(sh),
        ),
    decreases i - j,
{
    let line = crate::agenda::line_height(sh);
    assert((i - j + 1) * line == (i - j) * line + line && (i - j) * line >= 0) by (nonlinear_arith)
        requires
            i >= j,
            line > 0,
    ;
    let d = meeting_drawn(k, sh, st, list[j], now, y);
    law_meeting_row_is_painted(k, sh, st, list[j], now, y);
    if i == j {
        lemma_meetings_go_on(d, sh, st, list, now, j + 1, y + line);
        lemma_still_told(
            d.marks,
            meetings_drawn(k, sh, st, list, now, j, y).marks,
            list[i].subject,
            y,
        );
        assert((i - j) * line == 0) by (nonlinear_arith)
            requires
                i == j,
        ;
    } else {
        assert((i - (j + 1) + 1) * line == (i - j) * line && (i - (j + 1)) * line == (i - j) * line
            - line) by (nonlinear_arith);
        lemma_meeting_told(d, sh, st, list, now, j + 1, y + line, i);
    }
}

/// Every meeting whose row fits is in the agenda, at the height where a click
/// joins it; where there is none, that is said.
pub proof fn law_agenda_shows_each_meeting(
    sh: Sheet,
    st: BarStyle,
    list: Seq<MeetingView>,
    now: u64,
    i: int,
)
    requires
        crate::agenda::line_height(sh) > 0,
    ensures
        ({
            let (m, line) = (
                agenda_painted(sh, st, list, now).marks,
                crate::agenda::line_height(sh),
            );
            &&& 0 <= i < list.len() && sh.s(20) + (i + 1) * line <= sh.h - line ==> tells_at(
                m,
                list[i].subject,
                sh.s(20) + i * line,
            )
            &&& list.len() == 0 ==> tells_at(m, "no upcoming meetings"@, sh.s(20))
        }),
{
    let line = crate::agenda::line_height(sh);
    let ground = crate::scene::blank().frame(sh, st);
    if list.len() == 0 {
        let m = agenda_painted(sh, st, list, now).marks;
        let k = ground.marks.len() as int;
        assert(m[k] matches Mark::Text { text, area, .. } && text == "no upcoming meetings"@
            && area.top == sh.s(20));
    } else if 0 <= i < list.len() && sh.s(20) + (i + 1) * line <= sh.h - line {
        lemma_meeting_told(ground, sh, st, list, now, 0, sh.s(20), i);
        let a = meetings_drawn(ground, sh, st, list, now, 0, sh.s(20)).marks;
        assert(goes_on(a, agenda_painted(sh, st, list, now).marks));
        lemma_still_told(
            a,
            agenda_painted(sh, st, list, now).marks,
            list[i].subject,
            sh.s(20) + i * line,
        );
    }
}

// --------------------------------------------------------------------- scan

/// The row of a program that was found shows its name, and whether the launcher
/// has it.
pub proof fn law_scan_row_is_painted(
    k: Sketch,
    sh: Sheet,
    st: BarStyle,
    added: bool,
    name: Seq<char>,
    y: int,
)
    ensures
        ({
            let d = row_drawn(k, sh, st, added, name, y).marks;
            &&& goes_on(k.marks, d)
            &&& tells_at(d, name, y)
            &&& tells_at(
                d,
                if added {
                    "✓ in launcher"@
                } else {
                    "+ add"@
                },
                y,
            )
        }),
{
    let d = row_drawn(k, sh, st, added, name, y).marks;
    let n = k.marks.len() as int;
    assert(d[n] matches Mark::Text { text, area, .. } && text == name && area.top == y);
    assert(d[n + 1] matches Mark::Text { text, area, .. } && area.top == y);
}

proof fn lemma_apps_go_on(
    k: Sketch,
    sh: Sheet,
    st: BarStyle,
    e: Seq<EntryView>,
    bookmarks: bool,
    rows: Seq<(Seq<char>, Seq<char>)>,
    j: int,
    y: int,
)
    ensures
        goes_on(k.marks, rows_drawn(k, sh, st, e, bookmarks, rows, j, y).0.marks),
    decreases rows.len() - j,
{
    let line = row_height(sh);
    if !(j < 0 || j >= rows.len() || y + line > sh.h - line - sh.s(6)) {
        let added = is_added(e, bookmarks, rows[j].1);
        law_scan_row_is_painted(k, sh, st, added, rows[j].0, y);
        let d = row_drawn(k, sh, st, added, rows[j].0, y);
        lemma_apps_go_on(d, sh, st, e, bookmarks, rows, j + 1, y + line);
    }
}

/// Every program whose row fits is listed, from the first that is shown on, a
/// row below the other, and says whether the launcher has it.
pub proof fn law_scan_shows_each_program(
    k: Sketch,
    sh: Sheet,
    st: BarStyle,
    e: Seq<EntryView>,
    bookmarks: bool,
    rows: Seq<(Seq<char>, Seq<char>)>,
    j: int,
    y: int,
    i: int,
)
    requires
        0 <= j <= i < rows.len(),
        row_height(sh) > 0,
        y + (i - j + 1) * row_height(sh) <= sh.h - row_height(sh) - sh.s(6),
    ensures
        ({
            let m = rows_drawn(k, sh, st, e, bookmarks, rows, j, y).0.marks;
            let top = y + (i - j) * row_height(sh);
            &&& tells_at(m, rows[i].0, top)
            &&& is_added(e, bookmarks, rows[i].1) ==> tells_at(m, "✓ in launcher"@, top)
            &&& !is_added(e, bookmarks, rows[i].1) ==> tells_at(m, "+ add"@, top)
        }),
    decreases i - j,
{
    let line = row_height(sh);
    assert((i - j + 1) * line == (i - j) * line + line && (i - j) * line >= 0) by (nonlinear_arith)
        requires
            i >= j,
            line > 0,
    ;
    let added = is_added(e, bookmarks, rows[j].1);
    law_scan_row_is_painted(k, sh, st, added, rows[j].0, y);
    let d = row_drawn(k, sh, st, added, rows[j].0, y);
    let m = rows_drawn(k, sh, st, e, bookmarks, rows, j, y).0.marks;
    if i == j {
        lemma_apps_go_on(d, sh, st, e, bookmarks, rows, j + 1, y + line);
        lemma_still_told(d.marks, m, rows[i].0, y);
        if added {
            lemma_still_told(d.marks, m, "✓ in launcher"@, y);
        } else {
            lemma_still_told(d.marks, m, "+ add"@, y);
        }
        assert((i - j) * line == 0) by (nonlinear_arith)
            requires
                i == j,
        ;
    } else {
        assert((i - (j + 1) + 1) * line == (i - j) * line && (i - (j + 1)) * line == (i - j) * line
            - line) by (nonlinear_arith);
        law_scan_shows_each_program(d, sh, st, e, bookmarks, rows, j + 1, y + line, i);
    }
}

// ------------------------------------------------------------------ manager

/// While something is typed or chosen, the manager asks for it, and shows what
/// was typed so far.
pub proof fn law_manager_asks(sh: Sheet, st: BarStyle, s: MgrView, e: Seq<EntryView>)
    ensures
        ({
            let m = manager_painted(sh, st, s, e).marks;
            let top = sh.s(20);
            &&& s.web_url matches Some(url) ==> tells_at(m, "web app URL:  "@ + url + "_"@, top)
            &&& s.web_url is None ==> (s.web_pick matches Some((url, cs)) ==> tells_at(
                m,
                "open "@ + url + " with:"@,
                top,
            ))
            &&& s.web_url is None && s.web_pick is None && s.adding is Some ==> tells_at(
                m,
                "name:  "@ + s.name_buf + "_"@,
                top,
            )
        }),
{
    let m = manager_painted(sh, st, s, e).marks;
    let ground = crate::scene::blank().frame(sh, st);
    let n = ground.marks.len() as int;
    if s.web_url is Some {
        assert(m[n] matches Mark::Text { text, area, .. } && area.top == sh.s(20));
    } else if s.web_pick is Some {
        let (url, cs) = s.web_pick->0;
        let asked = ground.text(
            "open "@ + url + " with:"@,
            crate::manager::line_span(sh, sh.s(20)),
            st.fg,
            crate::scene::bold(sh.s(15)).cut(),
        );
        lemma_choices_go_on(asked, sh, st, cs, 0, crate::manager::actions_top(sh));
        assert(asked.marks[n] matches Mark::Text { text, area, .. } && area.top == sh.s(20));
        assert(m[n] == asked.marks[n]);
    } else if s.adding is Some {
        assert(m[n] matches Mark::Text { text, area, .. } && area.top == sh.s(20));
    }
}

proof fn lemma_choices_go_on(
    k: Sketch,
    sh: Sheet,
    st: BarStyle,
    cs: Seq<crate::webapps::ChoiceView>,
    i: int,
    y: int,
)
    ensures
        goes_on(k.marks, crate::manager::choices_drawn(k, sh, st, cs, i, y).marks),
    decreases cs.len() - i,
{
    let line = crate::manager::line_height(sh);
    if !(i < 0 || i >= cs.len() || y + line > sh.h - line) {
        let pad = sh.s(20);
        let d = k.text(
            decimal((i + 1) as nat),
            crate::scene::span(pad, y, pad + sh.s(28), y + line),
            st.accent,
            crate::scene::bold(sh.s(15)),
        ).text(
            cs[i].label,
            crate::scene::span(pad + sh.s(32), y, sh.w - pad, y + line),
            st.fg,
            crate::scene::normal(sh.s(15)).cut(),
        );
        lemma_choices_go_on(d, sh, st, cs, i + 1, y + line);
    }
}

/// The row of an entry shows its name, its group or what is typed as such, and
/// its browser exactly if it opens an address.
pub proof fn law_entry_row_is_painted(
    k: Sketch,
    sh: Sheet,
    st: BarStyle,
    s: MgrView,
    e: EntryView,
    i: int,
    y: int,
)
    ensures
        ({
            let d = entry_drawn(k, sh, st, s, e, i, y).marks;
            let n = k.marks.len() as int;
            &&& goes_on(k.marks, d)
            &&& d[n] matches Mark::FileIcon { path, .. } && path == e.command
            &&& d[n + 1] matches Mark::Text { text, .. } && text == e.name
            &&& d[n + 4] matches Mark::Text { text, .. } && text == if s.group_edit == Some(
                i as usize,
            ) {
                s.group_buf + "_"@
            } else if e.group.len() == 0 {
                "+ group"@
            } else {
                e.group
            }
            &&& url_of(e) is Some ==> d.len() == n + 9 && (d[n + 7] matches Mark::Text { text, .. }
                && text == "🌐 "@ + browser_label(e))
            &&& url_of(e) is None ==> d.len() == n + 6
        }),
{
}

// ----------------------------------------------------------------- settings

/// The row of a workspace shows its number, counted from one, and its name or
/// what is typed as such.
pub proof fn law_workspace_row_is_painted(
    k: Sketch,
    sh: Sheet,
    st: BarStyle,
    s: SettingsView,
    names: Seq<Seq<char>>,
    source: Seq<char>,
    i: int,
    y: int,
)
    requires
        0 <= i,
    ensures
        ({
            let d = item_drawn(k, sh, st, s, names, source, Item::Ws(i), y).marks;
            let typing = s.editing == Some(i as usize);
            let at = k.marks.len() + if typing {
                1int
            } else {
                0
            };
            &&& d.len() == at + 2
            &&& d[at] matches Mark::Text { text, .. } && text == decimal(
                (i + 1) as nat,
            )
            &&& d[at + 1] matches Mark::Text { text, .. } && text == if typing {
                s.buffer + "_"@
            } else if text_at(names, i).len() == 0 {
                "(unnamed)"@
            } else {
                text_at(names, i)
            }
        }),
{
}

/// Of the three kinds of calendar exactly the one in use stands out.
pub proof fn law_calendar_in_use_stands_out(
    k: Sketch,
    sh: Sheet,
    st: BarStyle,
    s: SettingsView,
    names: Seq<Seq<char>>,
    source: Seq<char>,
    y: int,
)
    requires
        !s.editing_cal,
    ensures
        ({
            let n = k.marks.len() as int;
            let off = item_drawn(k, sh, st, s, names, source, Item::CalOff, y).marks[n];
            let outlook = item_drawn(k, sh, st, s, names, source, Item::CalOutlook, y).marks[n];
            let file = item_drawn(k, sh, st, s, names, source, Item::CalIcs, y).marks[n];
            let is_outlook = ascii_lowered(source) == "outlook"@;
            &&& off matches Mark::Text { color, .. } && color == if source.len() == 0 {
                st.fg
            } else {
                st.cell_occupied
            }
            &&& outlook matches Mark::Text { color, .. } && color == if is_outlook {
                st.fg
            } else {
                st.cell_occupied
            }
            &&& file matches Mark::Text { color, .. } && color == if source.len() > 0
                && !is_outlook {
                st.fg
            } else {
                st.cell_occupied
            }
        }),
{
    reveal_strlit("outlook");
    assert(ascii_lowered("outlook"@) =~= "outlook"@);
}

// ------------------------------------------------------------------- tweaks

/// A swatch is painted in its color, and a click on it means that one.
pub proof fn law_swatch_means_its_color(sh: Sheet, x: int, y: int, i: int)
    requires
        sh.s(28) >= 0,
        sh.s(56) >= 0,
        sh.s(24) >= 0,
        sh.s(6) >= 0,
        sh.s(34) >= sh.s(24),
        0 <= i < 10,
        swatch(sh, row_top(sh, 3), i).has(x, y),
    ensures
        clicked(sh, x, y) == TweakClick::Color(i as usize),
{
    law_steppers_count(sh, x, y, 0);
    law_steppers_count(sh, x, y, 1);
    let line = sh.s(34);
    assert(row_top(sh, 3) == row_top(sh, 2) + line && row_top(sh, 2) == row_top(sh, 1) + line);
    assert(custom_chip(sh, row_top(sh, 2)).bottom <= row_top(sh, 3));
    lemma_swatch_found(sh, x, y, i, 0);
}

proof fn lemma_swatch_found(sh: Sheet, x: int, y: int, i: int, j: int)
    requires
        sh.s(24) >= 0,
        sh.s(6) >= 0,
        0 <= j <= i < 10,
        swatch(sh, row_top(sh, 3), i).has(x, y),
    ensures
        swatch_from(sh, x, y, j) == TweakClick::Color(i as usize),
    decreases i - j,
{
    if j < i {
        let step = sh.s(24) + sh.s(6);
        assert(i * step >= j * step + step) by (nonlinear_arith)
            requires
                i >= j + 1,
                step >= 0,
        ;
        assert(!swatch(sh, row_top(sh, 3), j).has(x, y));
        lemma_swatch_found(sh, x, y, i, j + 1);
    }
}

/// Every swatch is painted, in its color, where a click means it.
pub proof fn law_swatches_are_painted(
    k: Sketch,
    sh: Sheet,
    st: BarStyle,
    color: Seq<char>,
    j: int,
    i: int,
)
    requires
        0 <= j <= i < 10,
    ensures
        goes_on(k.marks, swatches_drawn(k, sh, st, color, j).marks),
        swatches_drawn(k, sh, st, color, j).marks.contains(
            Mark::Fill {
                area: swatch(sh, row_top(sh, 3), i),
                color: colorref(palette()[i]) as u32,
            },
        ),
    decreases 10 - j,
{
    let r = swatch(sh, row_top(sh, 3), j);
    let t = sh.s(3);
    let ringed = if ascii_lowered(palette()[j]) == ascii_lowered(color) {
        k.fill(
            crate::scene::span(r.left - t, r.top - t, r.right + t, r.bottom + t),
            st.fg,
        )
    } else {
        k
    };
    let d = ringed.fill(r, colorref(palette()[j]) as u32);
    let m = swatches_drawn(k, sh, st, color, j).marks;
    if j < i {
        law_swatches_are_painted(d, sh, st, color, j + 1, i);
    } else {
        if j + 1 < 10 {
            law_swatches_are_painted(d, sh, st, color, j + 1, j + 1);
        } else {
            assert(swatches_drawn(d, sh, st, color, 10) == d);
            assert(m == d.marks);
        }
        assert(m[d.marks.len() - 1] == d.marks[d.marks.len() - 1]);
    }
}

// ----------------------------------------------------------------- switcher

proof fn lemma_switcher_rows_go_on(
    k: Sketch,
    sh: Sheet,
    st: BarStyle,
    d0: DeskView,
    shown: Seq<(Window, Seq<char>)>,
    selected: int,
    j: int,
    y: int,
)
    ensures
        goes_on(k.marks, crate::switcher::rows_drawn(k, sh, st, d0, shown, selected, j, y).0.marks),
    decreases shown.len() - j,
{
    let line = crate::switcher::row_height(sh);
    if 0 <= j < shown.len() && y + line <= sh.h - sh.s(26) {
        let d = crate::switcher::row_drawn(k, sh, st, d0, shown[j], j == selected, y);
        assert(goes_on(k.marks, d.marks));
        lemma_switcher_rows_go_on(d, sh, st, d0, shown, selected, j + 1, y + line);
    }
}

/// Every window whose row fits is in the switcher, a row below the other, as a
/// click there finds it.
pub proof fn law_switcher_rows_are_painted(
    k: Sketch,
    sh: Sheet,
    st: BarStyle,
    d0: DeskView,
    shown: Seq<(Window, Seq<char>)>,
    selected: int,
    j: int,
    y: int,
    i: int,
)
    requires
        0 <= j <= i < shown.len(),
        crate::switcher::row_height(sh) > 0,
        y + (i - j + 1) * crate::switcher::row_height(sh) <= sh.h - sh.s(26),
    ensures
        ({
            let m = crate::switcher::rows_drawn(k, sh, st, d0, shown, selected, j, y).0.marks;
            let top = y + (i - j) * crate::switcher::row_height(sh);
            tells_at(m, d0.title_of(shown[i].0), top) && tells_at(m, shown[i].1, top)
        }),
    decreases i - j,
{
    let line = crate::switcher::row_height(sh);
    assert((i - j + 1) * line == (i - j) * line + line && (i - j) * line >= 0) by (nonlinear_arith)
        requires
            i >= j,
            line > 0,
    ;
    let d = crate::switcher::row_drawn(k, sh, st, d0, shown[j], j == selected, y);
    let m = crate::switcher::rows_drawn(k, sh, st, d0, shown, selected, j, y).0.marks;
    assert(m == crate::switcher::rows_drawn(
        d,
        sh,
        st,
        d0,
        shown,
        selected,
        j + 1,
        y + line,
    ).0.marks);
    if i == j {
        lemma_switcher_rows_go_on(d, sh, st, d0, shown, selected, j + 1, y + line);
        assert((i - j) * line == 0) by (nonlinear_arith)
            requires
                i == j,
        ;
        let n = k.marks.len() as int;
        let at = if j == selected {
            n + 1
        } else {
            n
        };
        assert(d.marks[at] matches Mark::Text { text, area, .. } && text == shown[j].1 && area.top
            == y);
        assert(d.marks[at + 2] matches Mark::Text { text, area, .. } && text == d0.title_of(
            shown[j].0,
        ) && area.top == y);
        assert(tells_at(d.marks, shown[j].1, y));
        assert(tells_at(d.marks, d0.title_of(shown[j].0), y));
        lemma_still_told(d.marks, m, shown[j].1, y);
        lemma_still_told(d.marks, m, d0.title_of(shown[j].0), y);
    } else {
        assert((i - (j + 1) + 1) * line == (i - j) * line && (i - (j + 1)) * line == (i - j) * line
            - line) by (nonlinear_arith);
        law_switcher_rows_are_painted(d, sh, st, d0, shown, selected, j + 1, y + line, i);
    }
}

// --------------------------------------------------------------------- help

proof fn lemma_help_rows_go_on(
    k: Sketch,
    sh: Sheet,
    st: BarStyle,
    s: HelpView,
    rows: Seq<HelpRow>,
    j: int,
    y: int,
)
    ensures
        goes_on(k.marks, crate::help::rows_drawn(k, sh, st, s, rows, j, y).0.marks),
    decreases rows.len() - j,
{
    let line = crate::help::row_height(sh);
    if 0 <= j < rows.len() && y + line <= sh.h - crate::help::row_height(sh) {
        let d = crate::help::row_drawn(k, sh, st, s, rows[j], y);
        assert(goes_on(k.marks, d.marks));
        lemma_help_rows_go_on(d, sh, st, s, rows, j + 1, y + line);
    }
}

/// Every action whose row fits is in the help, a row below the other, with its
/// chord unless keys are awaited for it.
pub proof fn law_help_rows_are_painted(
    k: Sketch,
    sh: Sheet,
    st: BarStyle,
    s: HelpView,
    rows: Seq<HelpRow>,
    j: int,
    y: int,
    i: int,
)
    requires
        0 <= j <= i < rows.len(),
        crate::help::row_height(sh) > 0,
        y + (i - j + 1) * crate::help::row_height(sh) <= sh.h - crate::help::row_height(sh),
    ensures
        ({
            let m = crate::help::rows_drawn(k, sh, st, s, rows, j, y).0.marks;
            let top = y + (i - j) * crate::help::row_height(sh);
            &&& tells_at(m, rows[i].desc, top)
            &&& s.rebinding != Some(rows[i].action) ==> tells_at(m, rows[i].chord, top)
            &&& s.rebinding == Some(rows[i].action) ==> tells_at(m, "press keys…"@, top)
        }),
    decreases i - j,
{
    let line = crate::help::row_height(sh);
    assert((i - j + 1) * line == (i - j) * line + line && (i - j) * line >= 0) by (nonlinear_arith)
        requires
            i >= j,
            line > 0,
    ;
    let d = crate::help::row_drawn(k, sh, st, s, rows[j], y);
    let m = crate::help::rows_drawn(k, sh, st, s, rows, j, y).0.marks;
    assert(m == crate::help::rows_drawn(d, sh, st, s, rows, j + 1, y + line).0.marks);
    if i == j {
        lemma_help_rows_go_on(d, sh, st, s, rows, j + 1, y + line);
        assert((i - j) * line == 0) by (nonlinear_arith)
            requires
                i == j,
        ;
        let n = k.marks.len() as int;
        let waiting = s.rebinding == Some(rows[j].action);
        let at = if waiting {
            n + 1
        } else {
            n
        };
        let first = if waiting {
            "press keys…"@
        } else {
            rows[j].chord
        };
        assert(d.marks[at] matches Mark::Text { text, area, .. } && text == first && area.top == y);
        assert(d.marks[at + 1] matches Mark::Text { text, area, .. } && text == rows[j].desc
            && area.top == y);
        assert(tells_at(d.marks, first, y));
        assert(tells_at(d.marks, rows[j].desc, y));
        lemma_still_told(d.marks, m, first, y);
        lemma_still_told(d.marks, m, rows[j].desc, y);
    } else {
        assert((i - (j + 1) + 1) * line == (i - j) * line && (i - (j + 1)) * line == (i - j) * line
            - line) by (nonlinear_arith);
        law_help_rows_are_painted(d, sh, st, s, rows, j + 1, y + line, i);
    }
}

// ----------------------------------------------------------------- launcher

proof fn lemma_launcher_rows_go_on(
    k: Sketch,
    sh: Sheet,
    st: BarStyle,
    p: LauncherView,
    s: Seq<EntryView>,
    rows: Seq<Row>,
    widths: Seq<i32>,
    end: int,
    j: int,
    y: int,
)
    ensures
        goes_on(
            k.marks,
            crate::launcher_panel::rows_drawn(k, sh, st, p, s, rows, widths, j, end, y).0.marks,
        ),
    decreases end - j,
{
    let line = crate::launcher_panel::line_height(sh);
    if 0 <= j < end && y + line <= sh.h - sh.s(8) && end <= rows.len() {
        let d = crate::launcher_panel::row_drawn(
            k,
            sh,
            st,
            p,
            s,
            rows[j],
            width_at(widths, j),
            y,
        );
        assert(goes_on(k.marks, d.marks));
        lemma_launcher_rows_go_on(d, sh, st, p, s, rows, widths, end, j + 1, y + line);
    }
}

/// Every entry whose row fits is in the launcher, a row below the other, with
/// its name and its command.
pub proof fn law_launcher_rows_are_painted(
    k: Sketch,
    sh: Sheet,
    st: BarStyle,
    p: LauncherView,
    s: Seq<EntryView>,
    rows: Seq<Row>,
    widths: Seq<i32>,
    end: int,
    j: int,
    y: int,
    i: int,
)
    requires
        0 <= j <= i < end,
        crate::launcher_panel::line_height(sh) > 0,
        y + (i - j + 1) * crate::launcher_panel::line_height(sh) <= sh.h - sh.s(8),
        end <= rows.len(),
    ensures
        ({
            let (drawn, _) = crate::launcher_panel::rows_drawn(
                k,
                sh,
                st,
                p,
                s,
                rows,
                widths,
                j,
                end,
                y,
            );
            let m = drawn.marks;
            let top = y + (i - j) * crate::launcher_panel::line_height(sh);
            rows[i] matches Row::Entry(_, e, _) ==> tells_at(m, s[e].name, top) && tells_at(
                m,
                s[e].command,
                top,
            )
        }),
    decreases i - j,
{
    let line = crate::launcher_panel::line_height(sh);
    assert((i - j + 1) * line == (i - j) * line + line && (i - j) * line >= 0) by (nonlinear_arith)
        requires
            i >= j,
            line > 0,
    ;
    let d = crate::launcher_panel::row_drawn(
            k,
            sh,
            st,
            p,
            s,
            rows[j],
            width_at(widths, j),
            y,
        );
    let m = crate::launcher_panel::rows_drawn(k, sh, st, p, s, rows, widths, j, end, y).0.marks;
    assert(m == crate::launcher_panel::rows_drawn(
        d,
        sh,
        st,
        p,
        s,
        rows,
        widths,
        j + 1,
        end,
        y + line,
    ).0.marks);
    if i == j {
        lemma_launcher_rows_go_on(d, sh, st, p, s, rows, widths, end, j + 1, y + line);
        assert((i - j) * line == 0) by (nonlinear_arith)
            requires
                i == j,
        ;
        let n = k.marks.len() as int;
        if let Row::Entry(o, e, b) = rows[j] {
            let at = if o == p.selected {
                n + 1
            } else {
                n
            };
            assert(d.marks[at + 1] matches Mark::Text { text, area, .. } && text == s[e].name
                && area.top == y);
            assert(d.marks[at + 2] matches Mark::Text { text, area, .. } && text == s[e].command
                && area.top == y);
            assert(tells_at(d.marks, s[e].name, y));
            assert(tells_at(d.marks, s[e].command, y));
            lemma_still_told(d.marks, m, s[e].name, y);
            lemma_still_told(d.marks, m, s[e].command, y);
        }
    } else {
        assert((i - (j + 1) + 1) * line == (i - j) * line && (i - (j + 1)) * line == (i - j) * line
            - line) by (nonlinear_arith);
        law_launcher_rows_are_painted(d, sh, st, p, s, rows, widths, end, j + 1, y + line, i);
    }
}

// ------------------------------------------------------- list of the manager

proof fn lemma_manager_rows_go_on(
    k: Sketch,
    sh: Sheet,
    st: BarStyle,
    s: MgrView,
    e: Seq<EntryView>,
    j: int,
    y: int,
)
    ensures
        goes_on(k.marks, crate::manager::entries_drawn(k, sh, st, s, e, j, y).0.marks),
    decreases e.len() - j,
{
    let line = crate::manager::line_height(sh);
    if 0 <= j < e.len() && y + line <= sh.h - crate::manager::line_height(sh) - sh.s(6) {
        let d = entry_drawn(k, sh, st, s, e[j], j, y);
        assert(goes_on(k.marks, d.marks));
        lemma_manager_rows_go_on(d, sh, st, s, e, j + 1, y + line);
    }
}

/// Every entry whose row fits is in the manager, a row below the other.
pub proof fn law_manager_rows_are_painted(
    k: Sketch,
    sh: Sheet,
    st: BarStyle,
    s: MgrView,
    e: Seq<EntryView>,
    j: int,
    y: int,
    i: int,
)
    requires
        0 <= j <= i < e.len(),
        crate::manager::line_height(sh) > 0,
        y + (i - j + 1) * crate::manager::line_height(sh) <= sh.h - crate::manager::line_height(sh)
            - sh.s(6),
    ensures
        ({
            let m = crate::manager::entries_drawn(k, sh, st, s, e, j, y).0.marks;
            let top = y + (i - j) * crate::manager::line_height(sh);
            tells_at(m, e[i].name, top)
        }),
    decreases i - j,
{
    let line = crate::manager::line_height(sh);
    assert((i - j + 1) * line == (i - j) * line + line && (i - j) * line >= 0) by (nonlinear_arith)
        requires
            i >= j,
            line > 0,
    ;
    let d = entry_drawn(k, sh, st, s, e[j], j, y);
    let m = crate::manager::entries_drawn(k, sh, st, s, e, j, y).0.marks;
    assert(m == crate::manager::entries_drawn(d, sh, st, s, e, j + 1, y + line).0.marks);
    if i == j {
        lemma_manager_rows_go_on(d, sh, st, s, e, j + 1, y + line);
        assert((i - j) * line == 0) by (nonlinear_arith)
            requires
                i == j,
        ;
        let n = k.marks.len() as int;
        law_entry_row_is_painted(k, sh, st, s, e[j], j, y);
        assert(d.marks[n + 1] matches Mark::Text { text, area, .. } && text == e[j].name && area.top
            == y);
        assert(tells_at(d.marks, e[j].name, y));
        lemma_still_told(d.marks, m, e[j].name, y);
    } else {
        assert((i - (j + 1) + 1) * line == (i - j) * line && (i - (j + 1)) * line == (i - j) * line
            - line) by (nonlinear_arith);
        law_manager_rows_are_painted(d, sh, st, s, e, j + 1, y + line, i);
    }
}

// ------------------------------------------------------------------- panels

/// The switcher shows each window where a click switches to it.
pub proof fn law_switcher_shows_each_window(
    sh: Sheet,
    st: BarStyle,
    d0: DeskView,
    query: Seq<char>,
    selected: int,
    shown: Seq<(Window, Seq<char>)>,
    i: int,
)
    requires
        0 <= i < shown.len(),
        crate::switcher::row_height(sh) > 0,
        crate::switcher::rows_top(sh) + (i + 1) * crate::switcher::row_height(sh) <= sh.h - sh.s(
            26,
        ),
    ensures
        tells_at(
            crate::switcher::switcher_painted(sh, st, d0, query, selected, shown).marks,
            d0.title_of(shown[i].0),
            crate::switcher::rows_top(sh) + i * crate::switcher::row_height(sh),
        ),
{
    let top = crate::switcher::rows_top(sh);
    let head = crate::switcher::switcher_head(sh, st, query);
    law_switcher_rows_are_painted(head, sh, st, d0, shown, selected, 0, top, i);
    let a = crate::switcher::rows_drawn(head, sh, st, d0, shown, selected, 0, top).0.marks;
    let b = crate::switcher::switcher_painted(sh, st, d0, query, selected, shown).marks;
    assert(goes_on(a, b));
    lemma_still_told(
        a,
        b,
        d0.title_of(shown[i].0),
        top + i * crate::switcher::row_height(sh),
    );
}

/// The help shows each action that matches, from the top.
pub proof fn law_help_shows_each_action(
    sh: Sheet,
    st: BarStyle,
    s: HelpView,
    rows: Seq<HelpRow>,
    i: int,
)
    requires
        0 <= i < crate::help::matching(rows, s.query).len(),
        crate::help::row_height(sh) > 0,
        crate::help::rows_top(sh) + (i + 1) * crate::help::row_height(sh) <= sh.h
            - crate::help::row_height(sh),
    ensures
        tells_at(
            crate::help::help_painted(sh, st, s, rows).marks,
            crate::help::matching(rows, s.query)[i].desc,
            crate::help::rows_top(sh) + i * crate::help::row_height(sh),
        ),
{
    let top = crate::help::rows_top(sh);
    let shown = crate::help::matching(rows, s.query);
    let head = crate::help::help_head(sh, st, s);
    law_help_rows_are_painted(head, sh, st, s, shown, 0, top, i);
    let a = crate::help::rows_drawn(head, sh, st, s, shown, 0, top).0.marks;
    let b = crate::help::help_painted(sh, st, s, rows).marks;
    assert(goes_on(a, b));
    lemma_still_told(a, b, shown[i].desc, top + i * crate::help::row_height(sh));
}

/// The launcher shows each entry where a click launches it: the first row that
/// is scrolled to at the top.
pub proof fn law_launcher_shows_each_entry(
    sh: Sheet,
    st: BarStyle,
    p: LauncherView,
    s: Seq<EntryView>,
    rows: Seq<Row>,
    widths: Seq<i32>,
    i: int,
)
    requires
        0 <= i < crate::launcher_panel::fitting(sh),
        0 <= p.offset,
        crate::launcher_panel::line_height(sh) > 0,
        crate::launcher_panel::rows_top(sh) + (i + 1) * crate::launcher_panel::line_height(sh)
            <= sh.h - sh.s(8),
    ensures
        crate::launcher_panel::row_at(p, rows, i) matches Some(Row::Entry(_, e, _)) ==> tells_at(
            crate::launcher_panel::launcher_painted(sh, st, p, s, rows, widths).marks,
            s[e].name,
            crate::launcher_panel::rows_top(sh) + i * crate::launcher_panel::line_height(sh),
        ),
{
    let top = crate::launcher_panel::rows_top(sh);
    let line = crate::launcher_panel::line_height(sh);
    let n = rows.len() as int;
    let first = crate::scene::min2(p.offset, crate::scene::max2(n - 1, 0));
    let end = crate::scene::min2(n, first + crate::launcher_panel::fitting(sh));
    let head = crate::launcher_panel::launcher_head(sh, st, p);
    if let Some(Row::Entry(o, e, b)) = crate::launcher_panel::row_at(p, rows, i) {
        law_launcher_rows_are_painted(head, sh, st, p, s, rows, widths, end, first, top, first + i);
        let x = crate::launcher_panel::rows_drawn(
            head,
            sh,
            st,
            p,
            s,
            rows,
            widths,
            first,
            end,
            top,
        ).0.marks;
        let z = crate::launcher_panel::launcher_painted(sh, st, p, s, rows, widths).marks;
        assert(goes_on(x, z));
        lemma_still_told(x, z, s[e].name, top + i * line);
    }
}

/// The list of installed programs shows each where a click chooses it.
pub proof fn law_scan_panel_shows_each_program(
    sh: Sheet,
    st: BarStyle,
    s: crate::scan::ScanView,
    e: Seq<EntryView>,
    i: int,
)
    requires
        0 <= s.offset,
        0 <= i,
        crate::scan::first_row(s) + i < crate::scan::matching(s.apps, s.query).len(),
        row_height(sh) > 0,
        crate::scan::rows_top(sh, s.bookmarks) + (i + 1) * row_height(sh) <= sh.h - row_height(sh)
            - sh.s(6),
    ensures
        tells_at(
            crate::scan::scan_painted(sh, st, s, e).marks,
            crate::scan::matching(s.apps, s.query)[crate::scan::first_row(s) + i].0,
            crate::scan::rows_top(sh, s.bookmarks) + i * row_height(sh),
        ),
{
    let top = crate::scan::rows_top(sh, s.bookmarks);
    let shown = crate::scan::matching(s.apps, s.query);
    let first = crate::scan::first_row(s);
    let head = crate::scan::scan_head(sh, st, s);
    law_scan_shows_each_program(head, sh, st, e, s.bookmarks, shown, first, top, first + i);
    let a = rows_drawn(head, sh, st, e, s.bookmarks, shown, first, top).0.marks;
    let b = crate::scan::scan_painted(sh, st, s, e).marks;
    assert(goes_on(a, b));
    lemma_still_told(a, b, shown[first + i].0, top + i * row_height(sh));
}

/// The manager shows each entry, while nothing is typed or chosen, where a
/// click changes it.
pub proof fn law_manager_shows_each_entry(
    sh: Sheet,
    st: BarStyle,
    s: MgrView,
    e: Seq<EntryView>,
    i: int,
)
    requires
        s.web_url is None,
        s.web_pick is None,
        s.adding is None,
        0 <= s.offset < e.len(),
        0 <= i,
        s.offset + i < e.len(),
        crate::manager::line_height(sh) > 0,
        crate::manager::rows_top(sh) + (i + 1) * crate::manager::line_height(sh) <= sh.h
            - crate::manager::line_height(sh) - sh.s(6),
    ensures
        tells_at(
            manager_painted(sh, st, s, e).marks,
            e[s.offset + i].name,
            crate::manager::rows_top(sh) + i * crate::manager::line_height(sh),
        ),
{
    let top = crate::manager::rows_top(sh);
    let ground = crate::manager::actions_drawn(crate::scene::blank().frame(sh, st), sh, st);
    law_manager_rows_are_painted(ground, sh, st, s, e, s.offset, top, s.offset + i);
    let a = crate::manager::entries_drawn(ground, sh, st, s, e, s.offset, top).0.marks;
    let b = manager_painted(sh, st, s, e).marks;
    assert(goes_on(a, b));
    lemma_still_told(
        a,
        b,
        e[s.offset + i].name,
        top + i * crate::manager::line_height(sh),
    );
}

proof fn lemma_settings_rows_go_on(
    k: Sketch,
    sh: Sheet,
    st: BarStyle,
    s: SettingsView,
    names: Seq<Seq<char>>,
    source: Seq<char>,
    rows: Seq<Item>,
    j: int,
    y: int,
)
    ensures
        goes_on(
            k.marks,
            crate::settings::items_drawn(k, sh, st, s, names, source, rows, j, y).marks,
        ),
    decreases rows.len() - j,
{
    let line = crate::settings::line_height(sh);
    if 0 <= j < rows.len() && y + line <= sh.h - crate::settings::line_height(sh) {
        let d = item_drawn(k, sh, st, s, names, source, rows[j], y);
        assert(goes_on(k.marks, d.marks));
        lemma_settings_rows_go_on(d, sh, st, s, names, source, rows, j + 1, y + line);
    }
}

/// Every row of the settings that fits is painted, one below the other, where a
/// click is about it: the workspaces with their numbers, the pinned apps with
/// their workspace.
pub proof fn law_settings_rows_are_painted(
    k: Sketch,
    sh: Sheet,
    st: BarStyle,
    s: SettingsView,
    names: Seq<Seq<char>>,
    source: Seq<char>,
    rows: Seq<Item>,
    j: int,
    y: int,
    i: int,
)
    requires
        0 <= j <= i < rows.len(),
        crate::settings::line_height(sh) > 0,
        y + (i - j + 1) * crate::settings::line_height(sh) <= sh.h - crate::settings::line_height(
            sh,
        ),
    ensures
        ({
            let m = crate::settings::items_drawn(k, sh, st, s, names, source, rows, j, y).marks;
            let top = y + (i - j) * crate::settings::line_height(sh);
            &&& rows[i] matches Item::Ws(w) ==> tells_at(m, decimal((w + 1) as nat), top)
            &&& rows[i] matches Item::Rule(exe, n) ==> tells_at(
                m,
                exe + "  →  workspace "@ + decimal(n as nat),
                top,
            )
        }),
    decreases i - j,
{
    let line = crate::settings::line_height(sh);
    assert((i - j + 1) * line == (i - j) * line + line && (i - j) * line >= 0) by (nonlinear_arith)
        requires
            i >= j,
            line > 0,
    ;
    let d = item_drawn(k, sh, st, s, names, source, rows[j], y);
    let m = crate::settings::items_drawn(k, sh, st, s, names, source, rows, j, y).marks;
    assert(m == crate::settings::items_drawn(
        d,
        sh,
        st,
        s,
        names,
        source,
        rows,
        j + 1,
        y + line,
    ).marks);
    if i == j {
        lemma_settings_rows_go_on(d, sh, st, s, names, source, rows, j + 1, y + line);
        assert((i - j) * line == 0) by (nonlinear_arith)
            requires
                i == j,
        ;
        let n = k.marks.len() as int;
        if let Item::Ws(w) = rows[j] {
            let at = if s.editing == Some(w as usize) {
                n + 1
            } else {
                n
            };
            assert(d.marks[at] matches Mark::Text { text, area, .. } && text == decimal(
                (w + 1) as nat,
            ) && area.top == y);
            assert(tells_at(d.marks, decimal((w + 1) as nat), y));
            lemma_still_told(d.marks, m, decimal((w + 1) as nat), y);
        }
        if let Item::Rule(exe, w) = rows[j] {
            let words = exe + "  →  workspace "@ + decimal(w as nat);
            assert(d.marks[n] matches Mark::Text { text, area, .. } && text == words && area.top
                == y);
            assert(tells_at(d.marks, words, y));
            lemma_still_told(d.marks, m, words, y);
        }
    } else {
        assert((i - (j + 1) + 1) * line == (i - j) * line && (i - (j + 1)) * line == (i - j) * line
            - line) by (nonlinear_arith);
        law_settings_rows_are_painted(d, sh, st, s, names, source, rows, j + 1, y + line, i);
    }
}

/// The settings show each of their rows where a click is about it.
pub proof fn law_settings_show_each_workspace(
    sh: Sheet,
    st: BarStyle,
    s: SettingsView,
    names: Seq<Seq<char>>,
    source: Seq<char>,
    rows: Seq<Item>,
    i: int,
)
    requires
        0 <= i < rows.len(),
        crate::settings::line_height(sh) > 0,
        crate::settings::rows_top(sh) + (i + 1) * crate::settings::line_height(sh) <= sh.h
            - crate::settings::line_height(sh),
    ensures
        ({
            let m = crate::settings::settings_painted(sh, st, s, names, source, rows).marks;
            let top = crate::settings::rows_top(sh) + i * crate::settings::line_height(sh);
            &&& rows[i] matches Item::Ws(w) ==> tells_at(m, decimal((w + 1) as nat), top)
            &&& rows[i] matches Item::Rule(exe, n) ==> tells_at(
                m,
                exe + "  →  workspace "@ + decimal(n as nat),
                top,
            )
        }),
{
    let top = crate::settings::rows_top(sh);
    let b = crate::settings::settings_painted(sh, st, s, names, source, rows).marks;
    let row = crate::settings::line_span(sh, sh.s(20));
    let pen = crate::scene::normal(sh.s(15));
    let head = crate::scene::blank().frame(sh, st).text(
        "wtm settings"@,
        row,
        st.accent,
        crate::scene::bold(sh.s(15)),
    ).text("click a workspace to name it"@, row, st.fg, pen.at(crate::scene::Align::Right));
    law_settings_rows_are_painted(head, sh, st, s, names, source, rows, 0, top, i);
    let a = crate::settings::items_drawn(head, sh, st, s, names, source, rows, 0, top).marks;
    assert(goes_on(a, b));
    let at = top + i * crate::settings::line_height(sh);
    if let Item::Ws(w) = rows[i] {
        lemma_still_told(a, b, decimal((w + 1) as nat), at);
    }
    if let Item::Rule(exe, n) = rows[i] {
        lemma_still_told(a, b, exe + "  →  workspace "@ + decimal(n as nat), at);
    }
}

// ----------------------------------------------------------------- overview

proof fn lemma_windows_go_on(
    k: Sketch,
    sh: Sheet,
    st: BarStyle,
    d: DeskView,
    list: Seq<(Window, Rect)>,
    src: Rect,
    body: Span,
    j: int,
)
    ensures
        goes_on(k.marks, windows_drawn(k, sh, st, d, list, src, body, j).marks),
    decreases list.len() - j,
{
    if 0 <= j < list.len() {
        match mapped(list[j].1, src, body) {
            Some(m) => {
                let next = window_drawn(k, sh, st, d, list[j].0, m);
                assert(goes_on(k.marks, next.marks));
                lemma_windows_go_on(next, sh, st, d, list, src, body, j + 1);
            },
            None => {
                lemma_windows_go_on(k, sh, st, d, list, src, body, j + 1);
            },
        }
    }
}

proof fn lemma_window_shown(
    k: Sketch,
    sh: Sheet,
    st: BarStyle,
    d: DeskView,
    list: Seq<(Window, Rect)>,
    src: Rect,
    body: Span,
    j: int,
    i: int,
)
    requires
        0 <= j <= i < list.len(),
    ensures
        mapped(list[i].1, src, body) matches Some(m) ==> fills(
            windows_drawn(k, sh, st, d, list, src, body, j).marks,
            m,
        ),
    decreases i - j,
{
    let next = match mapped(list[j].1, src, body) {
        Some(m) => window_drawn(k, sh, st, d, list[j].0, m),
        None => k,
    };
    if i == j {
        if let Some(m) = mapped(list[i].1, src, body) {
            lemma_windows_go_on(next, sh, st, d, list, src, body, j + 1);
            let n = k.marks.len() as int;
            let all = windows_drawn(k, sh, st, d, list, src, body, j).marks;
            assert(next.marks[n] matches Mark::Fill { area, .. } && area == m);
            assert(all[n] == next.marks[n]);
        }
    } else {
        lemma_window_shown(next, sh, st, d, list, src, body, j + 1, i);
    }
}

/// Among the marks is one that fills that area.
pub open spec fn fills(marks: Seq<Mark>, place: Span) -> bool {
    exists|k: int|
        0 <= k < marks.len() && ((#[trigger] marks[k]) matches Mark::Fill { area, .. } && area
            == place)
}

proof fn lemma_still_filled(a: Seq<Mark>, b: Seq<Mark>, place: Span)
    requires
        fills(a, place),
        goes_on(a, b),
    ensures
        fills(b, place),
{
    let k = choose|k: int|
        0 <= k < a.len() && ((#[trigger] a[k]) matches Mark::Fill { area, .. } && area == place);
    assert(b[k] == a[k]);
}

proof fn lemma_cards_go_on(
    k: Sketch,
    sh: Sheet,
    st: BarStyle,
    snap: OverviewSnapshot,
    selected: int,
    d: DeskView,
    j: int,
)
    ensures
        goes_on(k.marks, cards_drawn(k, sh, st, snap, selected, d, j).marks),
    decreases snap.workspaces.len() - j,
{
    let n = snap.workspaces.len() as int;
    if 0 <= j < n {
        let body = body_of(sh, card(sh, n, j), snap.source);
        let c = card_drawn(k, sh, st, snap, selected, j);
        assert(goes_on(k.marks, c.marks));
        let list = snap.workspaces@[j]@;
        lemma_windows_go_on(c, sh, st, d, list, snap.source, body, 0);
        let w = windows_drawn(c, sh, st, d, list, snap.source, body, 0);
        lemma_cards_go_on(w, sh, st, snap, selected, d, j + 1);
    }
}

proof fn lemma_card_shown(
    k: Sketch,
    sh: Sheet,
    st: BarStyle,
    snap: OverviewSnapshot,
    selected: int,
    d: DeskView,
    j: int,
    i: int,
    x: int,
)
    requires
        0 <= j <= i < snap.workspaces.len(),
    ensures
        ({
            let n = snap.workspaces.len() as int;
            let m = cards_drawn(k, sh, st, snap, selected, d, j).marks;
            let list = snap.workspaces@[i]@;
            &&& fills(m, card(sh, n, i))
            &&& 0 <= x < list.len() ==> (mapped(
                list[x].1,
                snap.source,
                body_of(sh, card(sh, n, i), snap.source),
            ) matches Some(a) ==> fills(m, a))
        }),
    decreases i - j,
{
    let n = snap.workspaces.len() as int;
    let body = body_of(sh, card(sh, n, j), snap.source);
    let c = card_drawn(k, sh, st, snap, selected, j);
    let list = snap.workspaces@[j]@;
    let w = windows_drawn(c, sh, st, d, list, snap.source, body, 0);
    if i == j {
        let m = cards_drawn(k, sh, st, snap, selected, d, j).marks;
        lemma_windows_go_on(c, sh, st, d, list, snap.source, body, 0);
        lemma_cards_go_on(w, sh, st, snap, selected, d, j + 1);
        let at = if j == selected {
            k.marks.len() as int + 1
        } else {
            k.marks.len() as int
        };
        assert(c.marks[at] matches Mark::Fill { area, .. } && area == card(sh, n, i));
        assert(fills(c.marks, card(sh, n, i)));
        lemma_still_filled(c.marks, w.marks, card(sh, n, i));
        lemma_still_filled(w.marks, m, card(sh, n, i));
        if 0 <= x < list.len() {
            lemma_window_shown(c, sh, st, d, list, snap.source, body, 0, x);
            if let Some(a) = mapped(list[x].1, snap.source, body) {
                lemma_still_filled(w.marks, m, a);
            }
        }
    } else {
        lemma_card_shown(w, sh, st, snap, selected, d, j + 1, i, x);
    }
}

/// The overview shows a card for every workspace, and on it every window in its
/// place, where a click means it.
pub proof fn law_overview_shows_everything(
    sh: Sheet,
    st: BarStyle,
    snap: OverviewSnapshot,
    selected: int,
    d: DeskView,
    i: int,
    x: int,
)
    requires
        0 <= i < snap.workspaces.len(),
    ensures
        ({
            let n = snap.workspaces.len() as int;
            let m = crate::overview::painted(sh, st, Some(snap), selected, d).marks;
            let list = snap.workspaces@[i]@;
            &&& fills(m, card(sh, n, i))
            &&& 0 <= x < list.len() ==> (mapped(
                list[x].1,
                snap.source,
                body_of(sh, card(sh, n, i), snap.source),
            ) matches Some(a) ==> fills(m, a))
        }),
{
    let n = snap.workspaces.len() as int;
    let ground = crate::scene::blank().fill(
        crate::scene::span(0, 0, sh.w as int, sh.h as int),
        st.bg,
    );
    let a = cards_drawn(ground, sh, st, snap, selected, d, 0).marks;
    let m = crate::overview::painted(sh, st, Some(snap), selected, d).marks;
    lemma_card_shown(ground, sh, st, snap, selected, d, 0, i, x);
    assert(goes_on(a, m));
    lemma_still_filled(a, m, card(sh, n, i));
    let list = snap.workspaces@[i]@;
    if 0 <= x < list.len() {
        if let Some(p) = mapped(
            list[x].1,
            snap.source,
            body_of(sh, card(sh, n, i), snap.source),
        ) {
            lemma_still_filled(a, m, p);
        }
    }
}

// -------------------------------------------------------------- appearance

/// The panel for the appearance shows the number of workspaces and the
/// thickness of the frame between their signs, and the color in use.
pub proof fn law_appearance_is_shown(
    sh: Sheet,
    st: BarStyle,
    workspaces: usize,
    thickness: i32,
    color: Seq<char>,
)
    ensures
        ({
            let m = tweaks_painted(sh, st, workspaces, thickness, color).marks;
            let (_, count, _) = stepper(sh, row_top(sh, 0));
            let (_, frame, _) = stepper(sh, row_top(sh, 1));
            &&& m[11] matches Mark::Text { text, area, .. } && text == decimal(workspaces as nat)
                && area == count
            &&& m[19] matches Mark::Text { text, area, .. } && text == thickness_text(thickness)
                && area == frame
            &&& m[27] matches Mark::Text { text, .. } && text == color
        }),
{
    let (pad, w) = (sh.s(20), sh.w as int);
    let title = crate::scene::span(pad, pad, w - pad, pad + sh.s(26));
    let pen = crate::scene::normal(sh.s(15));
    let chip = custom_chip(sh, row_top(sh, 2));
    let titled = crate::scene::blank().frame(sh, st).text(
        "wtm appearance"@,
        title,
        st.accent,
        crate::scene::bold(sh.s(15)),
    ).text(
        "applies instantly"@,
        title,
        st.cell_occupied,
        pen.at(crate::scene::Align::Right),
    );
    let counted = stepper_drawn(
        titled.text("workspaces"@, row_span(sh, 0), st.fg, pen),
        sh,
        st,
        row_top(sh, 0),
        decimal(workspaces as nat),
    );
    let framed = stepper_drawn(
        counted.text("focus frame"@, row_span(sh, 1), st.fg, pen),
        sh,
        st,
        row_top(sh, 1),
        thickness_text(thickness),
    );
    let colored = framed.text("accent color"@, row_span(sh, 2), st.fg, pen).chip(
        chip,
        st.cell_empty,
        st.cell_occupied,
    ).text("custom…"@, chip, st.accent, pen.at(crate::scene::Align::Center)).text(
        color,
        crate::scene::span(pad, row_top(sh, 2), chip.left - sh.s(10), row_top(sh, 3)),
        st.cell_occupied,
        pen.at(crate::scene::Align::Right),
    );
    law_swatches_are_painted(colored, sh, st, color, 0, 0);
    let m = tweaks_painted(sh, st, workspaces, thickness, color).marks;
    assert(titled.marks.len() == 7);
    assert(counted.marks.len() == 15);
    assert(framed.marks.len() == 23);
    assert(colored.marks.len() == 28);
    assert(m[11] == colored.marks[11]);
    assert(m[19] == colored.marks[19]);
    assert(m[27] == colored.marks[27]);
}

} // verus!
