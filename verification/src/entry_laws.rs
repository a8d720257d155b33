//! Typing, and what keys and clicks do in the launcher, the settings, the
//! manager and the list of installed apps.

use crate::config::EntryView;
use crate::keys::{captured, collide, Modifiers};
use crate::launch_laws::{in_words, lemma_in_words};
use crate::launcher::{found, nav, row_of, rows_of, Row, RowList};
use crate::launcher_panel::{
    capture, fitting, keyed, line_height, moved, row_at, rows_top, scrolled, shortcut,
    LauncherAsk, LauncherView,
};
use crate::manager::{actions_top, entry_clicked, new_entry, MgrStep, MgrView};
use crate::scan::{has_word, matching, parts_words, visited, word_at, ScanView, Visit};
use crate::scene::Sheet;
use crate::search::{printable, typed};
use crate::settings::{items, Item, SettingsAsk, SettingsView};
use crate::text::{
    ascii_lowered, has_text, is_control_char, is_scalar, lines_of, lowercase, text_at, trimmed,
};
use crate::vk::modifier_key;
use crate::webapps::{stem_of, url_of, FoldersView};
use crate::wm::command_laws::lemma_around;
use vstd::prelude::*;

verus! {

// ------------------------------------------------------------------- typing

/// A character that is typed comes at the end, and backspace takes it off
/// again; other control characters type nothing.
pub proof fn law_typing_adds_at_the_end(s: Seq<char>, ch: u32, clip: Option<Seq<char>>)
    ensures
        0x20 <= ch && is_scalar(ch) ==> typed(s, ch, clip) == Some(s.push(ch as char)),
        0x20 <= ch && is_scalar(ch) ==> typed(s.push(ch as char), 0x08, clip) == Some(s),
        typed(Seq::<char>::empty(), 0x08, clip) == Some(Seq::<char>::empty()),
        ch < 0x20 && ch != 0x08 && ch != 0x16 ==> typed(s, ch, clip) is None,
{
    assert(s.push(ch as char).drop_last() =~= s);
}

proof fn lemma_printable(s: Seq<char>)
    ensures
        printable(s) == s.filter(|c: char| !is_control_char(c)),
    decreases s.len(),
{
    reveal(Seq::filter);
    if s.len() > 0 {
        lemma_printable(s.drop_last());
    }
}

/// What is pasted comes at the end: the first line of it, trimmed, without
/// control characters. With nothing to paste the text stays.
pub proof fn law_first_line_is_pasted(s: Seq<char>, clip: Seq<char>)
    ensures
        lines_of(clip).len() > 0 ==> typed(s, 0x16, Some(clip)) == Some(
            s + trimmed(lines_of(clip)[0]).filter(|c: char| !is_control_char(c)),
        ),
        lines_of(clip).len() == 0 ==> typed(s, 0x16, Some(clip)) == Some(s),
        typed(s, 0x16, None) == Some(s),
{
    if lines_of(clip).len() > 0 {
        lemma_printable(trimmed(lines_of(clip)[0]));
    }
    assert(s + Seq::<char>::empty() =~= s);
}

// ----------------------------------------------------------------- launcher

proof fn lemma_entries_at(r: RowList, list: Seq<usize>)
    ensures
        ({
            let e = r.entries(list, false);
            &&& e.rows.len() == r.rows.len() + list.len()
            &&& e.ord == r.ord + list.len()
            &&& forall|k: int| 0 <= k < r.rows.len() ==> e.rows[k] == r.rows[k]
            &&& forall|k: int|
                0 <= k < list.len() ==> e.rows[r.rows.len() + k] == Row::Entry(
                    r.ord + k,
                    (#[trigger] list[k]) as int,
                    false,
                )
        }),
    decreases list.len(),
{
    if list.len() > 0 {
        let front = list.drop_last();
        lemma_entries_at(r, front);
        assert forall|k: int| 0 <= k < list.len() implies r.entries(list, false).rows[r.rows.len()
            + k] == Row::Entry(r.ord + k, (#[trigger] list[k]) as int, false) by {
            if k < front.len() {
                assert(front[k] == list[k]);
            }
        }
    }
}

/// A query lists what it finds, best first, without headers.
pub proof fn law_query_lists_what_it_finds(
    all: Seq<EntryView>,
    usage: Map<Seq<char>, (u32, u64)>,
    now: u64,
    typed_text: Seq<char>,
    k: int,
)
    requires
        trimmed(typed_text).len() > 0,
    ensures
        rows_of(all, usage, now, typed_text).len() == found(all, usage, now, typed_text).len(),
        0 <= k < found(all, usage, now, typed_text).len() ==> rows_of(
            all,
            usage,
            now,
            typed_text,
        )[k] == Row::Entry(k, found(all, usage, now, typed_text)[k] as int, false),
{
    let list = found(all, usage, now, typed_text);
    let none = RowList { rows: Seq::empty(), ord: 0 };
    lemma_entries_at(none, list);
    if 0 <= k < list.len() {
        assert(list[k] as int == list[k]);
    }
}

/// The down arrow selects the next entry and the up arrow the one before,
/// around the ends; Enter launches the selected one, Escape closes.
pub proof fn law_launcher_keys(p: LauncherView, rows: Seq<Row>, visible: int)
    requires
        0 <= p.selected < nav(rows).len(),
    ensures
        ({
            let n = nav(rows).len();
            &&& p.selected + 1 < n ==> keyed(p, rows, visible, 0x28).0.selected == p.selected + 1
            &&& p.selected + 1 == n ==> keyed(p, rows, visible, 0x28).0.selected == 0
            &&& p.selected > 0 ==> keyed(p, rows, visible, 0x26).0.selected == p.selected - 1
            &&& p.selected == 0 ==> keyed(p, rows, visible, 0x26).0.selected == n - 1
        }),
        keyed(p, rows, visible, 0x0D) == (p, LauncherAsk::Launch(nav(rows)[p.selected])),
        keyed(p, rows, visible, 0x1B) == (p, LauncherAsk::Close),
{
    lemma_around(p.selected, nav(rows).len() as int);
}

/// Typing a new query starts again from the top; while a shortcut is awaited
/// nothing is typed.
pub proof fn law_typing_starts_from_the_top(p: LauncherView, ch: u32, clip: Option<Seq<char>>)
    requires
        0x20 <= ch,
        is_scalar(ch),
    ensures
        ({
            let q = crate::launcher_panel::typed_into(p, ch, clip);
            &&& p.capturing is None ==> q.query == p.query.push(ch as char) && q.selected == 0
                && q.offset == 0
            &&& p.capturing is Some ==> q == p
        }),
{
}

/// A click on the name of an entry launches it, one on its chip asks for a
/// shortcut.
pub proof fn law_click_launches_or_binds(
    p: LauncherView,
    s: Seq<EntryView>,
    rows: Seq<Row>,
    sh: Sheet,
    x: int,
    y: int,
    i: int,
    k: int,
)
    requires
        line_height(sh) > 0,
        0 <= i < fitting(sh),
        rows_top(sh) + i * line_height(sh) <= y < rows_top(sh) + (i + 1) * line_height(sh),
        row_at(p, rows, i) matches Some(Row::Entry(_, e, _)) && e == k,
        0 <= k <= usize::MAX,
        0 <= sh.s(44) <= sh.s(160),
    ensures
        ({
            let (q, t, ask) = crate::launcher_panel::clicked(p, s, rows, sh, x, y);
            &&& x < sh.w - sh.s(160) ==> q == p && t == s && ask == LauncherAsk::Launch(k)
            &&& sh.w - sh.s(160) <= x < sh.w - sh.s(44) ==> q.capturing == Some(k as usize) && t
                == s && ask == LauncherAsk::Redraw
            &&& sh.w - sh.s(44) <= x ==> t == s.remove(k) && ask == LauncherAsk::Save
        }),
{
    let (h, d) = (line_height(sh), y - rows_top(sh));
    assert(i * h >= 0) by (nonlinear_arith)
        requires
            i >= 0,
            h > 0,
    ;
    assert(d / h == i) by (nonlinear_arith)
        requires
            i * h <= d < (i + 1) * h,
            h > 0,
    ;
}

/// The wheel scrolls three rows a notch, up as it is turned forward, and stops
/// at both ends.
pub proof fn law_wheel_scrolls_three_rows(offset: int, notches: int, most: int)
    requires
        0 <= offset <= most,
    ensures
        0 <= scrolled(offset, 120 * notches, most) <= most,
        0 <= offset - 3 * notches <= most ==> scrolled(offset, 120 * notches, most) == offset - 3
            * notches,
        offset - 3 * notches < 0 ==> scrolled(offset, 120 * notches, most) == 0,
        offset - 3 * notches > most ==> scrolled(offset, 120 * notches, most) == most,
{
}

/// A shortcut is taken exactly if it has a modifier other than Shift, its key
/// has a name, and it collides with no action and no other entry.
pub proof fn law_what_shortcut_is_taken(
    pairs: Seq<(Seq<char>, Seq<char>)>,
    s: Seq<EntryView>,
    idx: int,
    m: Modifiers,
    vk: u32,
)
    ensures
        shortcut(pairs, s, idx, m, vk) is Ok <==> {
            &&& m.alt || m.ctrl || m.win
            &&& captured(m, vk, false) is Some
            &&& forall|i: int|
                0 <= i < pairs.len() ==> !collide(
                    (#[trigger] pairs[i]).1,
                    captured(m, vk, false)->0,
                )
            &&& forall|j: int|
                0 <= j < s.len() && j != idx && (#[trigger] s[j]).key.len() > 0 ==> !collide(
                    s[j].key,
                    captured(m, vk, false)->0,
                )
        },
        shortcut(pairs, s, idx, m, vk) matches Ok(c) ==> captured(m, vk, false) == Some(c),
{
    if let Some(chord) = captured(m, vk, false) {
        lemma_action_from(pairs, chord, 0);
        lemma_entry_from(s, idx, chord, 0);
    }
}

proof fn lemma_action_from(pairs: Seq<(Seq<char>, Seq<char>)>, chord: Seq<char>, i: int)
    requires
        0 <= i,
    ensures
        crate::launcher_panel::action_from(pairs, chord, i) is None <==> forall|k: int|
            i <= k < pairs.len() ==> !collide((#[trigger] pairs[k]).1, chord),
    decreases pairs.len() - i,
{
    if i < pairs.len() {
        lemma_action_from(pairs, chord, i + 1);
        assert(pairs[i].1 == pairs[i].1);
    }
}

proof fn lemma_entry_from(s: Seq<EntryView>, idx: int, chord: Seq<char>, i: int)
    requires
        0 <= i,
    ensures
        crate::launcher_panel::entry_from(s, idx, chord, i) is None <==> forall|k: int|
            i <= k < s.len() && k != idx && (#[trigger] s[k]).key.len() > 0 ==> !collide(
                s[k].key,
                chord,
            ),
    decreases s.len() - i,
{
    if i < s.len() {
        lemma_entry_from(s, idx, chord, i + 1);
        assert(s[i].key == s[i].key);
    }
}

// ----------------------------------------------------------------- settings

/// The settings list the workspaces, then the pinned apps in their order, and
/// at the end the three ways to have a calendar.
pub proof fn law_settings_are_listed(count: int, rules: Seq<(Seq<char>, usize)>, i: int)
    requires
        count >= 0,
    ensures
        ({
            let v = items(count, rules);
            let n = v.len() as int;
            &&& 0 <= i < count ==> v[i] == Item::Ws(i)
            &&& v[count] == Item::RulesHeader
            &&& 0 <= i < rules.len() ==> v[count + 1 + i] == Item::Rule(rules[i].0, rules[i].1)
            &&& rules.len() == 0 ==> v[count + 1] == Item::NoRules
            &&& v[n - 4] == Item::CalHeader
            &&& v[n - 3] == Item::CalOff
            &&& v[n - 2] == Item::CalOutlook
            &&& v[n - 1] == Item::CalIcs
            &&& n == count + 5 + if rules.len() == 0 {
                1int
            } else {
                rules.len() as int
            }
        }),
{
}

/// A click on a row of the settings edits the name of that workspace, unpins
/// that app, or chooses that calendar.
pub proof fn law_settings_click(
    s: SettingsView,
    count: int,
    names: Seq<Seq<char>>,
    rules: Seq<(Seq<char>, usize)>,
    source: Seq<char>,
    sh: Sheet,
    y: int,
    i: int,
)
    requires
        0 <= count <= usize::MAX,
        sh.s(26) > 0,
        0 <= i < items(count, rules).len(),
        crate::settings::rows_top(sh) + i * sh.s(26) <= y < crate::settings::rows_top(sh) + (i + 1)
            * sh.s(26),
    ensures
        ({
            let n = items(count, rules).len() as int;
            let (t, ask) = crate::settings::clicked(s, count, names, rules, source, sh, y);
            &&& i < count ==> t.editing == Some(i as usize) && !t.editing_cal && t.buffer
                == text_at(names, i) && ask == SettingsAsk::Redraw
            &&& count < i <= count + rules.len() ==> t == s && ask == SettingsAsk::Unpinned(
                rules[i - count - 1].0,
            )
            &&& i == n - 3 ==> t == s && ask == SettingsAsk::Calendar(""@)
            &&& i == n - 2 ==> t == s && ask == SettingsAsk::Calendar("outlook"@)
            &&& i == n - 1 ==> t.editing is None && t.editing_cal && ask == SettingsAsk::Redraw
        }),
{
    law_settings_are_listed(count, rules, i);
    law_settings_are_listed(count, rules, i - count - 1);
    let (h, d) = (sh.s(26), y - crate::settings::rows_top(sh));
    assert(i * h >= 0) by (nonlinear_arith)
        requires
            i >= 0,
            h > 0,
    ;
    assert(d / h == i) by (nonlinear_arith)
        requires
            i * h <= d < (i + 1) * h,
            h > 0,
    ;
}

/// Escape gives up what is edited, and else closes; Enter in the calendar takes
/// the address that was typed.
pub proof fn law_settings_keys(s: SettingsView, names: Seq<Seq<char>>, count: int)
    ensures
        ({
            let (t, n, ask) = crate::settings::keyed(s, names, count, 0x1B);
            let editing = s.editing is Some || s.editing_cal;
            &&& n == names
            &&& editing ==> t.editing is None && !t.editing_cal && ask == SettingsAsk::Redraw
            &&& !editing ==> t == s && ask == SettingsAsk::Close
        }),
        s.editing_cal ==> {
            let (t, n, ask) = crate::settings::keyed(s, names, count, 0x0D);
            &&& n == names
            &&& !t.editing_cal
            &&& ask == SettingsAsk::Calendar(trimmed(s.buffer))
        },
{
}

// ------------------------------------------------------------------ manager

/// A new entry has the name that was typed, or else that of its file, and no
/// shortcut, folder or group.
pub proof fn law_new_entry_is_named(name: Seq<char>, path: Seq<char>, args: Seq<char>)
    ensures
        ({
            let e = new_entry(name, path, args);
            &&& trimmed(name).len() > 0 ==> e.name == trimmed(name)
            &&& trimmed(name).len() == 0 ==> e.name == stem_of(path)
            &&& e.command == path
            &&& e.args == args
            &&& e.key.len() == 0 && e.dir.len() == 0 && e.group.len() == 0
        }),
{
}

/// Enter takes the entry that was named in, at the end; Escape drops it.
pub proof fn law_named_entry_is_taken_in(
    s: MgrView,
    e: Seq<EntryView>,
    f: FoldersView,
    present: Seq<Seq<char>>,
    path: Seq<char>,
)
    requires
        s.web_url is None,
        s.web_pick is None,
        s.adding == Some(path),
    ensures
        ({
            let (t, v, step) = crate::manager::keyed(s, e, f, present, 0x0D);
            &&& v.len() == e.len() + 1
            &&& v.last() == new_entry(s.name_buf, path, s.adding_args)
            &&& forall|i: int| 0 <= i < e.len() ==> #[trigger] v[i] == e[i]
            &&& t.adding is None
            &&& step == MgrStep::Save
        }),
        ({
            let (t, v, step) = crate::manager::keyed(s, e, f, present, 0x1B);
            v == e && t.adding is None && step == MgrStep::Redraw
        }),
{
}

/// Enter gives the entry the group that was typed, trimmed and in lower case,
/// and leaves all else; Escape drops it.
pub proof fn law_typed_group_is_given(
    s: MgrView,
    e: Seq<EntryView>,
    f: FoldersView,
    present: Seq<Seq<char>>,
    i: usize,
)
    requires
        s.web_url is None,
        s.web_pick is None,
        s.adding is None,
        s.group_edit == Some(i),
        i < e.len(),
    ensures
        ({
            let (t, v, step) = crate::manager::keyed(s, e, f, present, 0x0D);
            &&& v.len() == e.len()
            &&& v[i as int].group == lowercase(trimmed(s.group_buf))
            &&& v[i as int] == (EntryView { group: v[i as int].group, ..e[i as int] })
            &&& forall|k: int| 0 <= k < e.len() && k != i ==> #[trigger] v[k] == e[k]
            &&& t.group_edit is None
        }),
        ({
            let (t, v, step) = crate::manager::keyed(s, e, f, present, 0x1B);
            v == e && t.group_edit is None
        }),
{
}

/// The four actions of the manager stand below each other: browse for a
/// program, scan for installed ones, add an address, and import bookmarks.
pub proof fn law_manager_actions(
    s: MgrView,
    e: Seq<EntryView>,
    f: FoldersView,
    present: Seq<Seq<char>>,
    sh: Sheet,
    x: int,
    y: int,
)
    requires
        s.adding is None,
        s.web_url is None,
        s.web_pick is None,
        sh.s(28) > 0,
    ensures
        ({
            let top = crate::manager::actions_top(sh);
            let line = sh.s(28);
            let (t, v, step) = crate::manager::clicked(s, e, f, present, sh, x, y);
            &&& top <= y < top + line ==> t == s && v == e && step == MgrStep::Browse
            &&& top + line <= y < top + 2 * line ==> t == s && v == e && step == MgrStep::Scan
            &&& top + 2 * line <= y < top + 3 * line ==> t.web_url == Some(Seq::<char>::empty())
                && v == e && step == MgrStep::Redraw
            &&& top + 3 * line <= y < top + 4 * line ==> t == s && v == e && step
                == MgrStep::Import
            &&& y < top ==> t == s && v == e && step == MgrStep::Nothing
        }),
{
    let top = crate::manager::actions_top(sh);
    let (line, d) = (sh.s(28), y - top);
    assert(0 <= d < line ==> d / line == 0) by (nonlinear_arith)
        requires
            line > 0,
    ;
    assert(line <= d < 2 * line ==> d / line == 1) by (nonlinear_arith)
        requires
            line > 0,
    ;
    assert(2 * line <= d < 3 * line ==> d / line == 2) by (nonlinear_arith)
        requires
            line > 0,
    ;
    assert(3 * line <= d < 4 * line ==> d / line == 3) by (nonlinear_arith)
        requires
            line > 0,
    ;
    lemma_scale_grows(sh);
}

proof fn lemma_scale_grows(sh: Sheet)
    ensures
        sh.s(6) >= 0,
{
    reveal(Sheet::s);
    let q = crate::single::quotient(
        crate::single::sig24(sh.dpi as nat) as nat,
        crate::single::sig24(96) as nat,
    );
    crate::single::lemma_sig24(6);
    crate::single::lemma_sig24((crate::single::sig24(6) * q) as nat);
}

// --------------------------------------------------------------------- scan

/// Of the Start Menu every folder is gone through, and every shortcut to a
/// program is listed, unless it uninstalls one.
pub proof fn law_what_is_scanned(folder: bool, stem: Seq<char>, ext: Seq<char>)
    ensures
        folder ==> visited(folder, Some(stem), Some(ext)) == Visit::Descend,
        !folder && ascii_lowered(ext) == ascii_lowered("lnk"@) && !has_text(
            lowercase(stem),
            "uninstall"@,
        ) && !has_text(lowercase(stem), "désinstall"@) ==> visited(folder, Some(stem), Some(ext))
            == Visit::Add,
        !folder && (ascii_lowered(ext) != ascii_lowered("lnk"@) || has_text(
            lowercase(stem),
            "uninstall"@,
        ) || has_text(lowercase(stem), "désinstall"@)) ==> visited(folder, Some(stem), Some(ext))
            == Visit::Skip,
        !folder ==> visited(folder, Some(stem), None) == Visit::Skip,
{
}

/// The list shows exactly the apps whose name has the characters of the query
/// in order, or all without a query.
pub proof fn law_scan_shows_matches(
    apps: Seq<(Seq<char>, Seq<char>)>,
    query: Seq<char>,
    a: (Seq<char>, Seq<char>),
)
    ensures
        matching(apps, query).contains(a) <==> apps.contains(a) && (query.len() == 0 || in_words(
            a.0,
            query,
        )),
    decreases apps.len(),
{
    if apps.len() > 0 {
        let front = apps.drop_last();
        let last = apps.last();
        law_scan_shows_matches(front, query, a);
        lemma_in_words(a.0, query);
        let m = matching(front, query);
        assert(apps.contains(a) <==> front.contains(a) || a == last) by {
            if apps.contains(a) {
                let k = choose|k: int| 0 <= k < apps.len() && apps[k] == a;
                if k < front.len() {
                    assert(front[k] == a);
                }
            }
            if front.contains(a) {
                let k = choose|k: int| 0 <= k < front.len() && front[k] == a;
                assert(apps[k] == a);
            }
            if a == last {
                assert(apps[apps.len() - 1] == a);
            }
        }
        assert(m.push(last).contains(a) <==> m.contains(a) || a == last) by {
            if m.contains(a) {
                let k = choose|k: int| 0 <= k < m.len() && m[k] == a;
                assert(m.push(last)[k] == a);
            }
            if a == last {
                assert(m.push(last)[m.len() as int] == a);
            }
            if m.push(last).contains(a) && a != last {
                let k = choose|k: int| 0 <= k < m.push(last).len() && m.push(last)[k] == a;
                assert(m[k] == a);
            }
        }
    }
}

// --------------------------------------------------------- rows and choices

/// Moving the selection scrolls only as far as needed: the row of the entry, or
/// the header right above it, comes into view, and what is in view stays.
pub proof fn law_selection_stays_in_view(
    p: LauncherView,
    rows: Seq<Row>,
    visible: int,
    down: bool,
)
    requires
        visible > 0,
        0 <= p.offset,
        0 <= row_of(rows, moved(p, rows, visible, down).selected) < rows.len(),
    ensures
        ({
            let q = moved(p, rows, visible, down);
            let at = row_of(rows, q.selected);
            let headed = at > 0 && rows[at - 1] is Header;
            &&& q.offset <= at <= q.offset + visible
            &&& !headed ==> at < q.offset + visible
            &&& headed ==> q.offset < at
            &&& p.offset < at < p.offset + visible ==> q.offset == p.offset
            &&& q.query == p.query && q.capturing == p.capturing
        }),
{
}

/// Enter runs the line itself where it finds no entry.
pub proof fn law_line_is_run(p: LauncherView, rows: Seq<Row>, visible: int)
    requires
        nav(rows).len() == 0,
    ensures
        trimmed(p.query).len() > 0 ==> keyed(p, rows, visible, 0x0D) == (
            p,
            LauncherAsk::Run(trimmed(p.query)),
        ),
        trimmed(p.query).len() == 0 ==> keyed(p, rows, visible, 0x0D).1 == LauncherAsk::Nothing,
{
}

/// While a shortcut is awaited, Escape gives up, Backspace takes the old one
/// away, and a chord that can be taken becomes that of the entry; no other
/// entry changes.
pub proof fn law_shortcut_is_captured(
    p: LauncherView,
    s: Seq<EntryView>,
    pairs: Seq<(Seq<char>, Seq<char>)>,
    idx: int,
    vk: u32,
    m: Modifiers,
    j: int,
)
    requires
        0 <= idx < s.len(),
        0 <= j < s.len(),
    ensures
        ({
            let (q, t, ask) = capture(p, s, pairs, idx, vk, m);
            &&& t.len() == s.len()
            &&& j != idx ==> t[j] == s[j]
            &&& t[idx] == (EntryView { key: t[idx].key, ..s[idx] })
            &&& vk == 0x1B ==> t == s && q.capturing is None && ask == LauncherAsk::Redraw
            &&& vk == 0x08 || vk == 0x2E ==> t[idx].key.len() == 0 && q.capturing is None && ask
                == LauncherAsk::Save
            &&& vk != 0x1B && vk != 0x08 && vk != 0x2E && !modifier_key(vk) ==> match shortcut(
                pairs,
                s,
                idx,
                m,
                vk,
            ) {
                Ok(chord) => t[idx].key == chord && q.capturing is None && ask
                    == LauncherAsk::Save,
                Err(_) => t == s && q.capturing == p.capturing,
            }
        }),
{
}

/// A click on the row of an entry takes it out at the right, asks for another
/// browser left of that where it opens an address, and for its group left of
/// that.
pub proof fn law_entry_click(
    s: MgrView,
    e: Seq<EntryView>,
    f: FoldersView,
    present: Seq<Seq<char>>,
    sh: Sheet,
    x: int,
    i: int,
    j: int,
)
    requires
        0 <= i < e.len() <= usize::MAX,
        0 <= j < e.len(),
        0 <= sh.s(44) <= sh.s(48) <= sh.s(190) <= sh.s(195) <= sh.s(330),
    ensures
        ({
            let (t, after, step) = entry_clicked(s, e, f, present, sh, x, i);
            let left = sh.w - x;
            &&& left <= sh.s(44) ==> step == MgrStep::Removed && t == s && after.len() == e.len()
                - 1 && (j < i ==> after[j] == e[j]) && (j > i ==> after[j - 1] == e[j])
            &&& sh.s(48) < left <= sh.s(190) && url_of(e[i]) is Some ==> step == MgrStep::Keep
                && after.len() == e.len() && (j != i ==> after[j] == e[j]) && after[i].name
                == e[i].name && after[i].group == e[i].group
            &&& sh.s(195) < left <= sh.s(330) ==> step == MgrStep::Redraw && after == e
                && t.group_edit == Some(i as usize) && t.group_buf == e[i].group
            &&& left > sh.s(330) ==> step == MgrStep::Nothing && after == e && t == s
        }),
{
}

/// A browser is chosen by its number as by a click on its row.
pub proof fn law_browser_is_chosen_either_way(
    s: MgrView,
    e: Seq<EntryView>,
    f: FoldersView,
    present: Seq<Seq<char>>,
    sh: Sheet,
    x: int,
    y: int,
    k: int,
)
    requires
        s.web_url is None,
        s.adding is None,
        s.web_pick matches Some((_, cs)) && k < cs.len(),
        0 <= k < 9,
        sh.s(28) > 0,
        actions_top(sh) + k * sh.s(28) <= y < actions_top(sh) + (k + 1) * sh.s(28),
    ensures
        crate::manager::clicked(s, e, f, present, sh, x, y) == crate::manager::keyed(
            s,
            e,
            f,
            present,
            (0x31 + k) as u32,
        ),
        crate::manager::clicked(s, e, f, present, sh, x, y).0.adding is Some,
        crate::manager::clicked(s, e, f, present, sh, x, y).0.web_pick is None,
{
    let (h, d) = (sh.s(28), y - actions_top(sh));
    assert(k * h >= 0) by (nonlinear_arith)
        requires
            k >= 0,
            h > 0,
    ;
    assert(d / h == k) by (nonlinear_arith)
        requires
            k * h <= d < (k + 1) * h,
            h > 0,
    ;
}

/// A click on the line above the bookmarks goes on to the next browser, and
/// after the last to the first.
pub proof fn law_browsers_take_turns(s: ScanView, e: Seq<EntryView>, sh: Sheet, y: int)
    requires
        s.bookmarks,
        0 <= s.browser_idx < s.browsers.len(),
        crate::scan::rows_top(sh, true) - crate::scan::row_height(sh) <= y
            < crate::scan::rows_top(sh, true),
    ensures
        ({
            let (t, after, step) = crate::scan::clicked(s, e, sh, y);
            &&& after == e
            &&& t.browsers == s.browsers && t.apps == s.apps && t.query == s.query
            &&& s.browser_idx + 1 < s.browsers.len() ==> t.browser_idx == s.browser_idx + 1
            &&& s.browser_idx + 1 == s.browsers.len() ==> t.browser_idx == 0
        }),
{
    lemma_around(s.browser_idx, s.browsers.len() as int);
}

/// An address among arguments is found where it is a word of its own, and not
/// where it ends another one.
pub proof fn law_words_are_whole(a: Seq<char>, c: char, word: Seq<char>)
    requires
        word.len() > 0,
    ensures
        has_word(word, word),
        parts_words(c) ==> has_word(a + seq![c] + word, word),
        !parts_words(c) && c != '=' && c != word[0] ==> !has_word(seq![c] + word, word),
{
    assert(word.subrange(0, word.len() as int) =~= word);
    assert(word_at(word, word, 0));
    let s = a + seq![c] + word;
    let k = a.len() as int + 1;
    assert(s.subrange(k, k + word.len()) =~= word);
    if parts_words(c) {
        assert(s[k - 1] == c);
        assert(word_at(s, word, k));
    }
    let t = seq![c] + word;
    if !parts_words(c) && c != '=' && c != word[0] && has_word(t, word) {
        let i = choose|i: int| #[trigger] word_at(t, word, i);
        assert(t.subrange(i, i + word.len())[0] == t[i]);
        assert(i == 0 || i == 1);
        assert(t[0] == c);
    }
}

} // verus!
