//! The names of the actions, and the keys that they are bound to.

use crate::config::EntryView;
use crate::hotkeys::{
    binding_requests, bound_requests, entry_requests, numbered, readable_from, unknown,
};
use crate::keys::{
    chord_value, command_of, expanded, key_code, key_name, read_tokens, Modifiers,
};
use crate::text::{has_text, trimmed};
use crate::text_laws::{law_ascii_white_space, law_trimming_takes_the_ends};
use crate::wm::{Command, Dir};
use vstd::prelude::*;

verus! {

/// The word for a direction.
pub open spec fn word_for(dir: Dir) -> Seq<char> {
    match dir {
        Dir::Left => "left"@,
        Dir::Right => "right"@,
        Dir::Up => "up"@,
        Dir::Down => "down"@,
    }
}

/// What tells the names of the actions apart: their length and three of their
/// characters.
spec fn mark(s: Seq<char>) -> (nat, char, char, char) {
    (s.len(), s[0], s[s.len() as int / 3], s[s.len() - 2])
}

proof fn lemma_names_differ()
    ensures
        mark("focus_left"@) == (10nat, 'f', 'u', 'f'),
        mark("focus_right"@) == (11nat, 'f', 'u', 'h'),
        mark("focus_up"@) == (8nat, 'f', 'c', 'u'),
        mark("focus_down"@) == (10nat, 'f', 'u', 'w'),
        mark("swap_left"@) == (9nat, 's', 'p', 'f'),
        mark("swap_right"@) == (10nat, 's', 'p', 'h'),
        mark("swap_up"@) == (7nat, 's', 'a', 'u'),
        mark("swap_down"@) == (9nat, 's', 'p', 'w'),
        mark("focus_next"@) == (10nat, 'f', 'u', 'x'),
        mark("focus_prev"@) == (10nat, 'f', 'u', 'e'),
        mark("swap_next"@) == (9nat, 's', 'p', 'x'),
        mark("swap_prev"@) == (9nat, 's', 'p', 'e'),
        mark("promote"@) == (7nat, 'p', 'o', 't'),
        mark("shrink_window"@) == (13nat, 's', 'n', 'o'),
        mark("grow_window"@) == (11nat, 'g', 'w', 'o'),
        mark("toggle_float"@) == (12nat, 't', 'l', 'a'),
        mark("toggle_monocle"@) == (14nat, 't', 'l', 'l'),
        mark("toggle_fullscreen"@) == (17nat, 't', 'e', 'e'),
        mark("close_window"@) == (12nat, 'c', 'e', 'o'),
        mark("switch_workspace"@) == (16nat, 's', 'h', 'c'),
        mark("move_to_workspace"@) == (17nat, 'm', 't', 'c'),
        mark("next_workspace"@) == (14nat, 'n', '_', 'c'),
        mark("prev_workspace"@) == (14nat, 'p', '_', 'c'),
        mark("move_next_workspace"@) == (19nat, 'm', 'e', 'c'),
        mark("move_prev_workspace"@) == (19nat, 'm', 'r', 'c'),
        mark("retile"@) == (6nat, 'r', 't', 'l'),
        mark("toggle_pause"@) == (12nat, 't', 'l', 's'),
        mark("pin_app"@) == (7nat, 'p', 'n', 'p'),
        mark("show_help"@) == (9nat, 's', 'w', 'l'),
        mark("launcher"@) == (8nat, 'l', 'u', 'e'),
        mark("exit"@) == (4nat, 'e', 'x', 'i'),
{
    reveal_strlit("focus_left");
    reveal_strlit("focus_right");
    reveal_strlit("focus_up");
    reveal_strlit("focus_down");
    reveal_strlit("swap_left");
    reveal_strlit("swap_right");
    reveal_strlit("swap_up");
    reveal_strlit("swap_down");
    reveal_strlit("focus_next");
    reveal_strlit("focus_prev");
    reveal_strlit("swap_next");
    reveal_strlit("swap_prev");
    reveal_strlit("promote");
    reveal_strlit("shrink_window");
    reveal_strlit("grow_window");
    reveal_strlit("toggle_float");
    reveal_strlit("toggle_monocle");
    reveal_strlit("toggle_fullscreen");
    reveal_strlit("close_window");
    reveal_strlit("switch_workspace");
    reveal_strlit("move_to_workspace");
    reveal_strlit("next_workspace");
    reveal_strlit("prev_workspace");
    reveal_strlit("move_next_workspace");
    reveal_strlit("move_prev_workspace");
    reveal_strlit("retile");
    reveal_strlit("toggle_pause");
    reveal_strlit("pin_app");
    reveal_strlit("show_help");
    reveal_strlit("launcher");
    reveal_strlit("exit");
}

/// An action that is named for a direction goes in that direction.
pub proof fn law_directions_are_named(dir: Dir, n: Option<usize>)
    ensures
        command_of("focus_"@ + word_for(dir), n) == Some(Command::FocusDir(dir)),
        command_of("swap_"@ + word_for(dir), n) == Some(Command::SwapDir(dir)),
{
    lemma_names_differ();
    reveal_strlit("focus_");
    reveal_strlit("swap_");
    reveal_strlit("left");
    reveal_strlit("right");
    reveal_strlit("up");
    reveal_strlit("down");
    reveal_strlit("focus_left");
    reveal_strlit("focus_right");
    reveal_strlit("focus_up");
    reveal_strlit("focus_down");
    reveal_strlit("swap_left");
    reveal_strlit("swap_right");
    reveal_strlit("swap_up");
    reveal_strlit("swap_down");
    assert("focus_"@ + "left"@ =~= "focus_left"@);
    assert("focus_"@ + "right"@ =~= "focus_right"@);
    assert("focus_"@ + "up"@ =~= "focus_up"@);
    assert("focus_"@ + "down"@ =~= "focus_down"@);
    assert("swap_"@ + "left"@ =~= "swap_left"@);
    assert("swap_"@ + "right"@ =~= "swap_right"@);
    assert("swap_"@ + "up"@ =~= "swap_up"@);
    assert("swap_"@ + "down"@ =~= "swap_down"@);
}

/// An action named next goes on and one named prev goes back.
pub proof fn law_next_goes_on(n: Option<usize>)
    ensures
        command_of("focus_next"@, n) == Some(Command::FocusNext),
        command_of("focus_prev"@, n) == Some(Command::FocusPrev),
        command_of("swap_next"@, n) == Some(Command::SwapNext),
        command_of("swap_prev"@, n) == Some(Command::SwapPrev),
        command_of("next_workspace"@, n) == Some(Command::NextWorkspace),
        command_of("prev_workspace"@, n) == Some(Command::PrevWorkspace),
        command_of("move_next_workspace"@, n) == Some(Command::MoveNextWorkspace),
        command_of("move_prev_workspace"@, n) == Some(Command::MovePrevWorkspace),
{
    lemma_names_differ();
}

/// An action for one workspace needs a number, and means that workspace.
pub proof fn law_numbers_mean_workspaces(n: usize)
    ensures
        command_of("switch_workspace"@, Some(n)) == Some(Command::SwitchWorkspace(n)),
        command_of("move_to_workspace"@, Some(n)) == Some(Command::MoveToWorkspace(n)),
        command_of("switch_workspace"@, None) is None,
        command_of("move_to_workspace"@, None) is None,
{
    lemma_names_differ();
}

/// Every other action does what it is named for.
pub proof fn law_actions_are_named(n: Option<usize>)
    ensures
        command_of("promote"@, n) == Some(Command::Promote),
        command_of("grow_window"@, n) == Some(Command::GrowWindow),
        command_of("shrink_window"@, n) == Some(Command::ShrinkWindow),
        command_of("toggle_float"@, n) == Some(Command::ToggleFloat),
        command_of("toggle_monocle"@, n) == Some(Command::ToggleMonocle),
        command_of("toggle_fullscreen"@, n) == Some(Command::ToggleFullscreen),
        command_of("close_window"@, n) == Some(Command::CloseWindow),
        command_of("retile"@, n) == Some(Command::Retile),
        command_of("toggle_pause"@, n) == Some(Command::TogglePause),
        command_of("pin_app"@, n) == Some(Command::PinApp),
        command_of("show_help"@, n) == Some(Command::ShowHelp),
        command_of("launcher"@, n) == Some(Command::Launcher),
        command_of("exit"@, n) == Some(Command::Exit),
{
    lemma_names_differ();
}

/// No two actions have one command.
pub proof fn law_no_two_actions_do_the_same(a: Seq<char>, b: Seq<char>, n: Option<usize>)
    requires
        command_of(a, n) is Some,
        command_of(a, n) == command_of(b, n),
    ensures
        a == b,
{
}

// ------------------------------------------------------------------ requests

/// A chord without a place for a number asks for its action once.
pub proof fn law_plain_chord_is_requested_once(
    action: Seq<char>,
    chord: Seq<char>,
    workspaces: int,
    c: Command,
)
    requires
        !has_text(chord, "{n}"@),
        command_of(action, None) == Some(c),
    ensures
        binding_requests(action, chord, workspaces) == seq![(chord, c)],
{
}

proof fn lemma_numbered(action: Seq<char>, chord: Seq<char>, n: int)
    requires
        0 <= n <= 9,
        forall|k: usize| command_of(action, Some(k)) is Some,
    ensures
        numbered(action, chord, n).len() == n,
        forall|k: int|
            0 <= k < n ==> #[trigger] numbered(action, chord, n)[k] == (
                expanded(chord, (k + 1) as nat),
                command_of(action, Some(k as usize))->0,
            ),
    decreases n,
{
    if n > 0 {
        lemma_numbered(action, chord, n - 1);
        assert(command_of(action, Some((n - 1) as usize)) is Some);
    }
}

/// A chord with a place for a number asks for the workspaces one to nine with
/// the digits one to nine, and for the tenth with zero, where there is one.
pub proof fn law_digits_ask_for_workspaces(
    action: Seq<char>,
    chord: Seq<char>,
    workspaces: int,
    k: int,
)
    requires
        has_text(chord, "{n}"@),
        forall|k: usize| command_of(action, Some(k)) is Some,
    ensures
        ({
            let v = binding_requests(action, chord, workspaces);
            &&& v.len() == if workspaces >= 10 {
                10int
            } else {
                9int
            }
            &&& 0 <= k < 9 ==> v[k] == (
                expanded(chord, (k + 1) as nat),
                command_of(action, Some(k as usize))->0,
            )
            &&& workspaces >= 10 ==> v[9] == (
                expanded(chord, 0),
                command_of(action, Some(9usize))->0,
            )
        }),
{
    lemma_numbered(action, chord, 9);
}

proof fn lemma_entry_requests(s: Seq<EntryView>, x: (Seq<char>, Command))
    requires
        s.len() <= usize::MAX,
    ensures
        entry_requests(s).contains(x) <==> exists|i: int|
            0 <= i < s.len() && (#[trigger] s[i]).key.len() > 0 && x == (
                s[i].key,
                Command::Launch(i as usize),
            ),
    decreases s.len(),
{
    if s.len() > 0 {
        let front = s.drop_last();
        lemma_entry_requests(front, x);
        let a = entry_requests(front);
        let b = entry_requests(s);
        let last = (s.last().key, Command::Launch((s.len() - 1) as usize));
        if b.contains(x) {
            let k = choose|k: int| 0 <= k < b.len() && b[k] == x;
            if k < a.len() {
                assert(a[k] == x);
                let i = choose|i: int|
                    0 <= i < front.len() && (#[trigger] front[i]).key.len() > 0 && x == (
                        front[i].key,
                        Command::Launch(i as usize),
                    );
                assert(s[i] == front[i]);
            } else {
                assert(s[s.len() - 1] == s.last());
            }
        }
        if exists|i: int|
            0 <= i < s.len() && (#[trigger] s[i]).key.len() > 0 && x == (
                s[i].key,
                Command::Launch(i as usize),
            ) {
            let i = choose|i: int|
                0 <= i < s.len() && (#[trigger] s[i]).key.len() > 0 && x == (
                    s[i].key,
                    Command::Launch(i as usize),
                );
            if i < front.len() {
                assert(front[i] == s[i]);
                assert(a.contains(x));
                let k = choose|k: int| 0 <= k < a.len() && a[k] == x;
                assert(b[k] == x);
            } else {
                assert(b[b.len() - 1] == x);
            }
        }
    }
}

/// Exactly the entries with a shortcut ask for it, and it launches them.
pub proof fn law_shortcuts_launch_their_entries(s: Seq<EntryView>, chord: Seq<char>, c: Command)
    requires
        s.len() <= usize::MAX,
    ensures
        entry_requests(s).contains((chord, c)) <==> exists|i: int|
            0 <= i < s.len() && (#[trigger] s[i]).key == chord && chord.len() > 0 && c
                == Command::Launch(i as usize),
{
    lemma_entry_requests(s, (chord, c));
    if entry_requests(s).contains((chord, c)) {
        let i = choose|i: int|
            0 <= i < s.len() && (#[trigger] s[i]).key.len() > 0 && (chord, c) == (
                s[i].key,
                Command::Launch(i as usize),
            );
        assert(s[i].key == chord);
    }
    if exists|i: int|
        0 <= i < s.len() && (#[trigger] s[i]).key == chord && chord.len() > 0 && c
            == Command::Launch(i as usize) {
        let i = choose|i: int|
            0 <= i < s.len() && (#[trigger] s[i]).key == chord && chord.len() > 0 && c
                == Command::Launch(i as usize);
        assert(s[i].key.len() > 0);
    }
}

// --------------------------------------------------------------------- keys

/// The keys that have names, by their codes.
pub proof fn law_keys_are_named()
    ensures
        key_name(0x08) == Some("backspace"@),
        key_name(0x09) == Some("tab"@),
        key_name(0x0D) == Some("enter"@),
        key_name(0x20) == Some("space"@),
        key_name(0x21) == Some("pageup"@),
        key_name(0x22) == Some("pagedown"@),
        key_name(0x23) == Some("end"@),
        key_name(0x24) == Some("home"@),
        key_name(0x25) == Some("left"@),
        key_name(0x26) == Some("up"@),
        key_name(0x27) == Some("right"@),
        key_name(0x28) == Some("down"@),
        key_name(0x2D) == Some("insert"@),
        key_name(0x2E) == Some("delete"@),
        key_name(0x70) == Some("f1"@),
        key_name(0x71) == Some("f2"@),
        key_name(0x72) == Some("f3"@),
        key_name(0x73) == Some("f4"@),
        key_name(0x74) == Some("f5"@),
        key_name(0x75) == Some("f6"@),
        key_name(0x76) == Some("f7"@),
        key_name(0x77) == Some("f8"@),
        key_name(0x78) == Some("f9"@),
        key_name(0x79) == Some("f10"@),
        key_name(0x7A) == Some("f11"@),
        key_name(0x7B) == Some("f12"@),
        key_name(0xBA) == Some("semicolon"@),
        key_name(0xBB) == Some("equals"@),
        key_name(0xBC) == Some("comma"@),
        key_name(0xBD) == Some("minus"@),
        key_name(0xBE) == Some("period"@),
        key_name(0xBF) == Some("slash"@),
        key_name(0xC0) == Some("backtick"@),
        key_name(0xDB) == Some("lbracket"@),
        key_name(0xDC) == Some("backslash"@),
        key_name(0xDD) == Some("rbracket"@),
        key_name(0xDE) == Some("quote"@),
{
}

/// A letter has the code of its capital, and a digit its own.
pub proof fn law_letters_and_digits_are_keys(c: char)
    ensures
        'a' <= c && c <= 'z' ==> key_code(seq![c]) == Some((c as u32 - 32) as u32),
        '0' <= c && c <= '9' ==> key_code(seq![c]) == Some(c as u32),
{
}

/// Every chord asks for its modifiers, and that a held key does not repeat.
pub proof fn law_modifiers_are_bits(m: Modifiers)
    ensures
        m.mask() / 0x4000 == 1,
        m.alt == (m.mask() % 2 == 1),
        m.ctrl == (m.mask() / 2 % 2 == 1),
        m.shift == (m.mask() / 4 % 2 == 1),
        m.win == (m.mask() / 8 % 2 == 1),
{
}

/// Two words for one modifier are read alike.
pub proof fn law_modifiers_have_two_names(rest: Seq<Seq<char>>, m: Modifiers, key: Option<u32>)
    ensures
        read_tokens(seq!["control"@] + rest, m, key) == read_tokens(
            seq!["ctrl"@] + rest,
            m,
            key,
        ),
        read_tokens(seq!["super"@] + rest, m, key) == read_tokens(seq!["win"@] + rest, m, key),
        read_tokens(seq!["ctrl"@] + rest, m, key) == read_tokens(
            rest,
            Modifiers { ctrl: true, ..m },
            key,
        ),
        read_tokens(seq!["win"@] + rest, m, key) == read_tokens(
            rest,
            Modifiers { win: true, ..m },
            key,
        ),
        read_tokens(seq!["alt"@] + rest, m, key) == read_tokens(
            rest,
            Modifiers { alt: true, ..m },
            key,
        ),
        read_tokens(seq!["shift"@] + rest, m, key) == read_tokens(
            rest,
            Modifiers { shift: true, ..m },
            key,
        ),
{
    reveal_strlit("control");
    reveal_strlit("ctrl");
    reveal_strlit("super");
    reveal_strlit("win");
    reveal_strlit("alt");
    reveal_strlit("shift");
    lemma_word("control"@, rest);
    lemma_word("ctrl"@, rest);
    lemma_word("super"@, rest);
    lemma_word("win"@, rest);
    lemma_word("alt"@, rest);
    lemma_word("shift"@, rest);
}

proof fn lemma_word(s: Seq<char>, rest: Seq<Seq<char>>)
    requires
        s.len() > 0,
        'a' <= s[0] && s[0] <= 'z',
        'a' <= s.last() && s.last() <= 'z',
    ensures
        trimmed((seq![s] + rest)[0]) == s,
        (seq![s] + rest).drop_first() == rest,
{
    let e = Seq::<char>::empty();
    law_ascii_white_space(s[0]);
    law_ascii_white_space(s.last());
    law_trimming_takes_the_ends(e, s, e);
    assert(e + s + e =~= s);
    assert((seq![s] + rest).drop_first() =~= rest);
}

/// Exactly the chords of the bindings are asked for.
pub proof fn law_every_binding_is_requested(
    pairs: Seq<(Seq<char>, Seq<char>)>,
    workspaces: int,
    x: (Seq<char>, Command),
)
    ensures
        bound_requests(pairs, workspaces).contains(x) <==> exists|i: int|
            0 <= i < pairs.len() && binding_requests(
                (#[trigger] pairs[i]).0,
                pairs[i].1,
                workspaces,
            ).contains(x),
    decreases pairs.len(),
{
    if pairs.len() > 0 {
        let front = pairs.drop_last();
        let last = pairs.last();
        law_every_binding_is_requested(front, workspaces, x);
        let a = bound_requests(front, workspaces);
        let b = binding_requests(last.0, last.1, workspaces);
        let c = a + b;
        assert(c.contains(x) <==> a.contains(x) || b.contains(x)) by {
            if a.contains(x) {
                let i = choose|i: int| 0 <= i < a.len() && a[i] == x;
                assert(c[i] == x);
            }
            if b.contains(x) {
                let i = choose|i: int| 0 <= i < b.len() && b[i] == x;
                assert(c[a.len() + i] == x);
            }
            if c.contains(x) {
                let i = choose|i: int| 0 <= i < c.len() && c[i] == x;
                if i < a.len() {
                    assert(a[i] == x);
                } else {
                    assert(b[i - a.len()] == x);
                }
            }
        }
        if exists|i: int|
            0 <= i < front.len() && binding_requests(
                (#[trigger] front[i]).0,
                front[i].1,
                workspaces,
            ).contains(x) {
            let i = choose|i: int|
                0 <= i < front.len() && binding_requests(
                    (#[trigger] front[i]).0,
                    front[i].1,
                    workspaces,
                ).contains(x);
            assert(pairs[i] == front[i]);
        }
        if b.contains(x) {
            assert(pairs[pairs.len() - 1] == last);
        }
        if exists|i: int|
            0 <= i < pairs.len() && binding_requests(
                (#[trigger] pairs[i]).0,
                pairs[i].1,
                workspaces,
            ).contains(x) {
            let i = choose|i: int|
                0 <= i < pairs.len() && binding_requests(
                    (#[trigger] pairs[i]).0,
                    pairs[i].1,
                    workspaces,
                ).contains(x);
            if i < front.len() {
                assert(front[i] == pairs[i]);
            }
        }
    }
}

/// An action is reported as unknown exactly if it has no command, and its chord
/// no place for a number.
pub proof fn law_unknown_actions_are_reported(
    pairs: Seq<(Seq<char>, Seq<char>)>,
    action: Seq<char>,
)
    ensures
        unknown(pairs).contains(action) <==> exists|i: int|
            0 <= i < pairs.len() && (#[trigger] pairs[i]).0 == action && !has_text(
                pairs[i].1,
                "{n}"@,
            ) && command_of(action, None) is None,
    decreases pairs.len(),
{
    if pairs.len() > 0 {
        let front = pairs.drop_last();
        let last = pairs.last();
        law_unknown_actions_are_reported(front, action);
        let a = unknown(front);
        let b = unknown(pairs);
        if b.contains(action) {
            let k = choose|k: int| 0 <= k < b.len() && b[k] == action;
            if k < a.len() {
                assert(a[k] == action);
                let i = choose|i: int|
                    0 <= i < front.len() && (#[trigger] front[i]).0 == action && !has_text(
                        front[i].1,
                        "{n}"@,
                    ) && command_of(action, None) is None;
                assert(pairs[i] == front[i]);
            } else {
                assert(pairs[pairs.len() - 1] == last);
            }
        }
        if exists|i: int|
            0 <= i < pairs.len() && (#[trigger] pairs[i]).0 == action && !has_text(
                pairs[i].1,
                "{n}"@,
            ) && command_of(action, None) is None {
            let i = choose|i: int|
                0 <= i < pairs.len() && (#[trigger] pairs[i]).0 == action && !has_text(
                    pairs[i].1,
                    "{n}"@,
                ) && command_of(action, None) is None;
            if i < front.len() {
                assert(front[i] == pairs[i]);
                assert(a.contains(action));
                let k = choose|k: int| 0 <= k < a.len() && a[k] == action;
                assert(b[k] == action);
            } else {
                assert(b[b.len() - 1] == action);
            }
        }
    }
}

/// The next hotkey to be registered is the next whose chord can be read.
pub proof fn law_next_hotkey_can_be_read(v: Seq<(Seq<char>, Command)>, i: int)
    requires
        0 <= i <= v.len(),
    ensures
        i <= readable_from(v, i) <= v.len(),
        forall|j: int| i <= j < readable_from(v, i) ==> chord_value((#[trigger] v[j]).0) is None,
        readable_from(v, i) < v.len() ==> chord_value(v[readable_from(v, i)].0) is Some,
    decreases v.len() - i,
{
    if i < v.len() && chord_value(v[i].0) is None {
        law_next_hotkey_can_be_read(v, i + 1);
    }
}

} // verus!
