//! What becomes of configured values, and of chords that are changed.

use crate::animate::{going_on, motion, still, Anim, Beat, Motion};
use crate::config::{
    colorref, default_bindings, lowered_rules, merged, workspace_count, LauncherEntry,
};
use crate::configfile::{with_change, Datum};
use crate::help::{
    bound_rows, key_pressed, matching, rebind, rival_from, row_text, HelpAsk, HelpRow, HelpView,
};
use crate::keys::{action_table, captured, chord_value, collide, expanded, takes_number, Modifiers};
use crate::launch_laws::{in_words, lemma_in_words};
use crate::layout::Rect;
use crate::numerals::{digit_of, digits_value, hex_byte};
use crate::panels::ChangeView;
use crate::text::lowercase;
use crate::tray::{chosen, menu_of, TrayStep};
use crate::tweaks::law_color_reads_back;
use crate::window::Window;
use vstd::prelude::*;

verus! {

// ------------------------------------------------------------------- values

/// There are between 1 and 24 workspaces: a number in between is taken as it
/// is.
pub proof fn law_workspace_count_is_limited(n: usize)
    ensures
        1 <= workspace_count(n) <= 24,
        1 <= n <= 24 ==> workspace_count(n) == n,
        n > 24 ==> workspace_count(n) == 24,
        n == 0 ==> workspace_count(n) == 1,
{
}

/// A color is written as red, green and blue, and held with red in the lowest
/// byte.
pub proof fn law_red_is_written_first(r: int, g: int, b: int)
    requires
        0 <= r < 256,
        0 <= g < 256,
        0 <= b < 256,
    ensures
        colorref("#"@ + hex_byte(r) + hex_byte(g) + hex_byte(b)) == r + 256 * g + 65536 * b,
{
    let c = (r + 256 * g + 65536 * b) as u32;
    law_color_reads_back(c);
    assert(c as int % 256 == r);
    assert(c as int / 256 % 256 == g);
    assert(c as int / 65536 % 256 == b);
}

proof fn lemma_no_number(s: Seq<char>, base: int, i: int)
    requires
        0 <= i < s.len(),
        digit_of(s[i], base) is None,
    ensures
        digits_value(s, base) is None,
    decreases s.len(),
{
    if i < s.len() - 1 {
        assert(s.drop_last()[i] == s[i]);
        lemma_no_number(s.drop_last(), base, i);
    }
}

proof fn lemma_no_digit(c: char)
    requires
        !('0' <= c && c <= '9'),
        !('a' <= c && c <= 'f'),
        !('A' <= c && c <= 'F'),
    ensures
        digit_of(c, 16) is None,
{
}

/// A text that names no color stands for the default accent: one of another
/// length than six, or with a character that is no hexadecimal digit.
pub proof fn law_no_color_means_the_accent(s: Seq<char>, i: int)
    requires
        s.len() > 0 ==> s[0] != '#',
        s.len() != 6 || (0 <= i < s.len() && !('0' <= s[i] && s[i] <= '9') && !('a' <= s[i]
            && s[i] <= 'f') && !('A' <= s[i] && s[i] <= 'F')),
    ensures
        colorref(s) == 0x7a + 256 * 0xa2 + 65536 * 0xf7,
        colorref("#"@ + s) == colorref(s),
{
    reveal_strlit("#");
    let h = "#"@ + s;
    assert(h[0] == '#');
    assert(h.drop_first() =~= s);
    if s.len() == 6 {
        lemma_no_digit(s[i]);
        lemma_no_number(s, 16, i);
    }
}

/// The digits of a color may be capital letters.
pub proof fn law_capital_digits_are_digits(d: int)
    requires
        10 <= d < 16,
    ensures
        digit_of((87 + d) as char, 16) == Some(d),
        digit_of((55 + d) as char, 16) == Some(d),
{
}

/// A chord that is configured under the old name of an action is taken for the
/// new one, unless that has its own.
pub proof fn law_old_names_are_understood(b: Map<Seq<char>, Seq<char>>)
    ensures
        b.contains_key("shrink_window"@) ==> merged(b).contains_key("shrink_window"@) && merged(
            b,
        )["shrink_window"@] == b["shrink_window"@],
        !b.contains_key("shrink_window"@) && b.contains_key("shrink_ratio"@) ==> merged(
            b,
        ).contains_key("shrink_window"@) && merged(b)["shrink_window"@] == b["shrink_ratio"@],
        b.contains_key("grow_window"@) ==> merged(b).contains_key("grow_window"@) && merged(
            b,
        )["grow_window"@] == b["grow_window"@],
        !b.contains_key("grow_window"@) && b.contains_key("grow_ratio"@) ==> merged(
            b,
        ).contains_key("grow_window"@) && merged(b)["grow_window"@] == b["grow_ratio"@],
{
    reveal_strlit("shrink_window");
    reveal_strlit("shrink_ratio");
    reveal_strlit("grow_window");
    reveal_strlit("grow_ratio");
    assert("shrink_window"@.len() == 13);
    assert("shrink_ratio"@.len() == 12);
    assert("grow_window"@.len() == 11);
    assert("grow_ratio"@.len() == 10);
}

/// A chord that is configured is taken, and an action without one keeps its
/// default.
pub proof fn law_own_chords_come_first(b: Map<Seq<char>, Seq<char>>, action: Seq<char>)
    requires
        action != "shrink_window"@,
        action != "shrink_ratio"@,
        action != "grow_window"@,
        action != "grow_ratio"@,
    ensures
        b.contains_key(action) ==> merged(b).contains_key(action) && merged(b)[action]
            == b[action],
        !b.contains_key(action) ==> merged(b).contains_key(action)
            == default_bindings().contains_key(action),
        !b.contains_key(action) && default_bindings().contains_key(action) ==> merged(b)[action]
            == default_bindings()[action],
{
}

// -------------------------------------------------------------------- chords

/// The help shows every action with the chord that it is bound to, and with
/// its default where it is not.
pub proof fn law_help_shows_bindings(bindings: Map<Seq<char>, Seq<char>>, i: int)
    requires
        0 <= i < action_table().len(),
    ensures
        ({
            let r = bound_rows(bindings)[i];
            let action = action_table()[i].0;
            &&& bound_rows(bindings).len() == action_table().len()
            &&& r.action == action
            &&& bindings.contains_key(action) ==> r.chord == bindings[action]
            &&& !bindings.contains_key(action) ==> r.chord == action_table()[i].1
        }),
{
}

/// The help lists exactly the actions whose name, chord or description has the
/// characters of the query in order, or all without a query.
pub proof fn law_help_lists_matches(rows: Seq<HelpRow>, query: Seq<char>, row: HelpRow)
    ensures
        matching(rows, query).contains(row) <==> rows.contains(row) && (query.len() == 0
            || in_words(row.action + " "@ + row.chord + " "@ + row.desc, query)),
{
    crate::help::law_filter_is_exact(rows, query, row);
    lemma_in_words(row_text(row), query);
}

proof fn lemma_rival(rows: Seq<HelpRow>, action: Seq<char>, chord: Seq<char>, i: int)
    requires
        0 <= i,
    ensures
        rival_from(rows, action, chord, i) is None <==> forall|k: int|
            i <= k < rows.len() && (#[trigger] rows[k]).action != action ==> !collide(
                chord,
                rows[k].chord,
            ),
    decreases rows.len() - i,
{
    if i < rows.len() {
        lemma_rival(rows, action, chord, i + 1);
        assert(rows[i].action == rows[i].action);
    }
}

/// A new chord is taken exactly if it has a modifier other than Shift, can be
/// read, and collides with that of no other action.
pub proof fn law_what_chord_is_taken(
    rows: Seq<HelpRow>,
    action: Seq<char>,
    m: Modifiers,
    vk: u32,
)
    ensures
        rebind(rows, action, m, vk) is Ok <==> {
            let chord = captured(m, vk, takes_number(action));
            &&& m.alt || m.ctrl || m.win
            &&& chord is Some
            &&& chord_value(expanded(chord->0, 1)) is Some
            &&& forall|k: int|
                0 <= k < rows.len() && (#[trigger] rows[k]).action != action ==> !collide(
                    chord->0,
                    rows[k].chord,
                )
        },
        rebind(rows, action, m, vk) matches Ok(c) ==> captured(m, vk, takes_number(action))
            == Some(c),
{
    if let Some(chord) = captured(m, vk, takes_number(action)) {
        lemma_rival(rows, action, chord, 0);
    }
}

/// A chord that is taken goes to that action alone, in the list and in the
/// bindings; Escape and a chord that is not taken change neither.
pub proof fn law_chord_goes_to_its_action(
    s: HelpView,
    rows: Seq<HelpRow>,
    bindings: Map<Seq<char>, Seq<char>>,
    vk: u32,
    m: Modifiers,
    action: Seq<char>,
    i: int,
    other: Seq<char>,
)
    requires
        s.rebinding == Some(action),
        0 <= i < rows.len(),
        other != action,
        vk != 0x10 && vk != 0x11 && vk != 0x12 && vk != 0x5B && vk != 0x5C,
    ensures
        ({
            let (t, r, b, ask) = key_pressed(s, rows, bindings, vk, m);
            match rebind(rows, action, m, vk) {
                Ok(chord) => vk != 0x1B ==> {
                    &&& rows[i].action == action ==> r[i].chord == chord
                    &&& rows[i].action != action ==> r[i] == rows[i]
                    &&& b.contains_key(action) && b[action] == chord
                    &&& b.contains_key(other) == bindings.contains_key(other)
                    &&& bindings.contains_key(other) ==> b[other] == bindings[other]
                    &&& ask == HelpAsk::Rebound(action, chord)
                },
                Err(why) => r == rows && b == bindings,
            }
        }),
        key_pressed(s, rows, bindings, 0x1B, m).1 == rows,
        key_pressed(s, rows, bindings, 0x1B, m).2 == bindings,
        key_pressed(s, rows, bindings, 0x1B, m).0.rebinding is None,
{
}

// --------------------------------------------------------------------- tray

/// Every entry of the menu does what it says: the first pauses, the second
/// reloads, the third turns the start with Windows over, and the last exits.
pub proof fn law_menu_does_what_it_says(paused: bool, autostart: bool)
    ensures
        ({
            let m = menu_of(paused, autostart);
            &&& m.len() == 4
            &&& m[0].text == "Pause tiling"@ && m[0].checked == Some(paused)
            &&& chosen(m[0].command, autostart) == TrayStep::TogglePause
            &&& m[1].text == "Reload config"@
            &&& chosen(m[1].command, autostart) == TrayStep::Reload
            &&& m[2].text == "Start with Windows"@ && m[2].checked == Some(autostart)
            &&& chosen(m[2].command, autostart) == TrayStep::Autostart(!autostart)
            &&& m[3].text == "Exit wtm"@
            &&& chosen(m[3].command, autostart) == TrayStep::Exit
        }),
{
}

// ---------------------------------------------------------------- animation

/// A window glides exactly if it is on screen, has time and is not there yet;
/// one that is off screen, or has no time, jumps.
pub proof fn law_what_glides(target: Rect, duration_ms: u32, visible: bool, frame: Rect)
    ensures
        motion(target, duration_ms, visible, frame) == Motion::Glide <==> duration_ms > 0
            && visible && frame != target,
        motion(target, duration_ms, visible, frame) == Motion::Jump <==> duration_ms == 0
            || !visible,
        motion(target, duration_ms, visible, frame) == Motion::Rest <==> duration_ms > 0
            && visible && frame == target,
{
}

/// A window that is stilled has no animation any more, and the others keep
/// theirs.
pub proof fn law_stilled_window_rests(anims: Seq<Anim>, w: Window, a: Anim)
    ensures
        still(anims, w).contains(a) <==> anims.contains(a) && a.window != w,
    decreases anims.len(),
{
    if anims.len() > 0 {
        let front = anims.drop_last();
        let last = anims.last();
        law_stilled_window_rests(front, w, a);
        let s = still(front, w);
        assert(anims.contains(a) <==> front.contains(a) || a == last) by {
            if anims.contains(a) {
                let k = choose|k: int| 0 <= k < anims.len() && anims[k] == a;
                if k < front.len() {
                    assert(front[k] == a);
                }
            }
            if front.contains(a) {
                let k = choose|k: int| 0 <= k < front.len() && front[k] == a;
                assert(anims[k] == a);
            }
            if a == last {
                assert(anims[anims.len() - 1] == a);
            }
        }
        assert(s.push(last).contains(a) <==> s.contains(a) || a == last) by {
            if s.contains(a) {
                let k = choose|k: int| 0 <= k < s.len() && s[k] == a;
                assert(s.push(last)[k] == a);
            }
            if a == last {
                assert(s.push(last)[s.len() as int] == a);
            }
            if s.push(last).contains(a) && a != last {
                let k = choose|k: int| 0 <= k < s.push(last).len() && s.push(last)[k] == a;
                assert(s[k] == a);
            }
        }
    }
}

/// A rule is kept under the name of its app in lower case; of two that then
/// agree, the later one holds.
pub proof fn law_rules_are_lowered(p: Seq<(Seq<char>, usize)>, key: Seq<char>, i: int)
    ensures
        lowered_rules(p).contains_key(key) <==> exists|j: int|
            0 <= j < p.len() && lowercase((#[trigger] p[j]).0) == key,
        0 <= i < p.len() && lowercase(p[i].0) == key && (forall|j: int|
            i < j < p.len() ==> lowercase((#[trigger] p[j]).0) != key) ==> lowered_rules(p)[key]
            == p[i].1,
    decreases p.len(),
{
    let low = p.map_values(|e: (Seq<char>, usize)| (lowercase(e.0), e.1));
    if p.len() > 0 {
        let front = p.drop_last();
        law_rules_are_lowered(front, key, i);
        let part = front.map_values(|e: (Seq<char>, usize)| (lowercase(e.0), e.1));
        assert(low.drop_last() =~= part);
        assert(low.last() == (lowercase(p.last().0), p.last().1));
        assert(lowered_rules(p) == lowered_rules(front).insert(
            lowercase(p.last().0),
            p.last().1,
        ));
        assert(p[p.len() - 1] == p.last());
        if exists|j: int| 0 <= j < front.len() && lowercase((#[trigger] front[j]).0) == key {
            let j = choose|j: int|
                0 <= j < front.len() && lowercase((#[trigger] front[j]).0) == key;
            assert(p[j] == front[j]);
        }
        if exists|j: int| 0 <= j < p.len() && lowercase((#[trigger] p[j]).0) == key {
            let j = choose|j: int| 0 <= j < p.len() && lowercase((#[trigger] p[j]).0) == key;
            if j < front.len() {
                assert(front[j] == p[j]);
            }
        }
        if 0 <= i < p.len() && lowercase(p[i].0) == key && (forall|j: int|
            i < j < p.len() ==> lowercase((#[trigger] p[j]).0) != key) {
            if i < front.len() {
                assert(front[i] == p[i]);
                assert forall|j: int| i < j < front.len() implies lowercase(
                    (#[trigger] front[j]).0,
                ) != key by {
                    assert(p[j] == front[j]);
                }
            }
        }
    } else {
        assert(low =~= Seq::empty());
    }
}

// ------------------------------------------------------------------- saving

/// The name that the setting of a change has in the file.
pub open spec fn name_in_file(c: ChangeView) -> Seq<char> {
    match c {
        ChangeView::Rule(_, _) => "app_rules"@,
        ChangeView::Launcher => "launcher"@,
        ChangeView::Names => "workspace_names"@,
        ChangeView::Color(_) => "active_border_color"@,
        ChangeView::Thickness(_) => "border_thickness"@,
        ChangeView::Workspaces(_) => "workspaces"@,
        ChangeView::Calendar(_) => "calendar_source"@,
    }
}

/// A change goes to the setting of its name, and to no other.
pub proof fn law_change_goes_to_its_setting(
    m: Map<Seq<char>, Datum>,
    c: ChangeView,
    names: Seq<Seq<char>>,
    entries: Seq<LauncherEntry>,
    other: Seq<char>,
    i: int,
)
    ensures
        ({
            let n = with_change(m, c, names, entries);
            let k = name_in_file(c);
            &&& other != k ==> n.contains_key(other) == m.contains_key(other) && n[other]
                == m[other]
            &&& c matches ChangeView::Color(hex) ==> n[k] == Datum::Text(hex)
            &&& c matches ChangeView::Calendar(source) ==> n[k] == Datum::Text(source)
            &&& c matches ChangeView::Thickness(t) ==> n[k] == Datum::Integer(t as i64)
            &&& c matches ChangeView::Workspaces(w) ==> n[k] == Datum::Integer(w as i64)
            &&& c is Names && 0 <= i < names.len() ==> (n[k] matches Datum::List(l) && l.len()
                == names.len() && l[i] == Datum::Text(names[i]))
            &&& c is Launcher && 0 <= i < entries.len() ==> (n[k] matches Datum::List(l)
                && l.len() == entries.len() && (l[i] matches Datum::Section(s) && s["name"@]
                == Datum::Text(entries[i]@.name)))
            &&& !(c is Rule) ==> n.contains_key(k)
        }),
{
    reveal_strlit("name");
    reveal_strlit("command");
    reveal_strlit("args");
    reveal_strlit("dir");
    reveal_strlit("key");
    reveal_strlit("group");
    assert("name"@[0] == 'n' && "command"@[0] == 'c' && "args"@[0] == 'a' && "dir"@[0] == 'd'
        && "key"@[0] == 'k' && "group"@[0] == 'g');
}

// ------------------------------------------------------------------- motion

/// A motion goes on exactly while its window is there and its time is not over.
pub proof fn law_what_goes_on(anims: Seq<Anim>, beats: Seq<Beat>, a: Anim)
    ensures
        going_on(anims, beats).contains(a) <==> exists|i: int|
            0 <= i < anims.len() && #[trigger] anims[i] == a && beats[i].alive && !beats[i].done,
    decreases anims.len(),
{
    if anims.len() > 0 {
        let front = anims.drop_last();
        law_what_goes_on(front, beats, a);
        let g = going_on(front, beats);
        let h = going_on(anims, beats);
        if h.contains(a) {
            let k = choose|k: int| 0 <= k < h.len() && h[k] == a;
            if k < g.len() {
                assert(g[k] == a);
                let i = choose|i: int|
                    0 <= i < front.len() && #[trigger] front[i] == a && beats[i].alive
                        && !beats[i].done;
                assert(anims[i] == a);
            } else {
                assert(anims[anims.len() - 1] == a);
            }
        }
        if exists|i: int|
            0 <= i < anims.len() && #[trigger] anims[i] == a && beats[i].alive
                && !beats[i].done {
            let i = choose|i: int|
                0 <= i < anims.len() && #[trigger] anims[i] == a && beats[i].alive
                    && !beats[i].done;
            if i < front.len() {
                assert(front[i] == a);
                let k = choose|k: int| 0 <= k < g.len() && g[k] == a;
                assert(h[k] == a);
            } else {
                assert(h[h.len() - 1] == a);
            }
        }
    }
}

} // verus!
