//! The default chords: each can be read, and no two stand for the same keys.

use crate::keys::{
    action_table, captured, chord_value, collide, command_of, expanded, key_name,
    law_captured_chord_round_trips, law_key_name_reads_back, pressed, variants, Modifiers,
};
use crate::numerals::decimal;
use crate::text::{find_from, glued, has_text, lemma_find_from, occurs_at, replaced, replaced_from};
use vstd::prelude::*;

verus! {

/// The keys of the default chords, in the order of the action table: whether
/// shift is held beside alt, and the key, 0 for a digit.
pub open spec fn combos() -> Seq<(bool, u32)> {
    seq![
        (false, 0x25),
        (false, 0x27),
        (false, 0x26),
        (false, 0x28),
        (true, 0x25),
        (true, 0x27),
        (true, 0x26),
        (true, 0x28),
        (false, 0x4A),
        (false, 0x4B),
        (true, 0x4A),
        (true, 0x4B),
        (false, 0x0D),
        (false, 0x48),
        (false, 0x4C),
        (false, 0x54),
        (false, 0x46),
        (true, 0x46),
        (false, 0x51),
        (false, 0x00),
        (true, 0x00),
        (false, 0xBE),
        (false, 0xBC),
        (true, 0xBE),
        (true, 0xBC),
        (true, 0x52),
        (false, 0x50),
        (true, 0x50),
        (false, 0xBF),
        (false, 0x20),
        (true, 0x45),
    ]
}

/// The modifiers of a default chord.
pub open spec fn held(shift: bool) -> Modifiers {
    Modifiers { alt: true, ctrl: false, shift, win: false }
}

/// What the default chord of a row stands for, with the digit `k + 1` where it
/// takes one.
pub open spec fn default_value(row: int, k: int) -> (Modifiers, u32) {
    let c = combos()[row];
    (
        held(c.0),
        if c.1 == 0 {
            (0x31 + k) as u32
        } else {
            c.1
        },
    )
}

spec fn prefix(shift: bool) -> Seq<char> {
    if shift {
        "alt+shift+"@
    } else {
        "alt+"@
    }
}

/// The row whose default chord stands for these keys.
spec fn row_of(shift: bool, vk: u32) -> int {
    if shift {
        if vk == 0x25 {
            4
        } else if vk == 0x27 {
            5
        } else if vk == 0x26 {
            6
        } else if vk == 0x28 {
            7
        } else if vk == 0x4A {
            10
        } else if vk == 0x4B {
            11
        } else if vk == 0x46 {
            17
        } else if 0x31 <= vk <= 0x39 {
            20
        } else if vk == 0xBE {
            23
        } else if vk == 0xBC {
            24
        } else if vk == 0x52 {
            25
        } else if vk == 0x50 {
            27
        } else if vk == 0x45 {
            30
        } else {
            31
        }
    } else {
        if vk == 0x25 {
            0
        } else if vk == 0x27 {
            1
        } else if vk == 0x26 {
            2
        } else if vk == 0x28 {
            3
        } else if vk == 0x4A {
            8
        } else if vk == 0x4B {
            9
        } else if vk == 0x0D {
            12
        } else if vk == 0x48 {
            13
        } else if vk == 0x4C {
            14
        } else if vk == 0x54 {
            15
        } else if vk == 0x46 {
            16
        } else if vk == 0x51 {
            18
        } else if 0x31 <= vk <= 0x39 {
            19
        } else if vk == 0xBE {
            21
        } else if vk == 0xBC {
            22
        } else if vk == 0x50 {
            26
        } else if vk == 0xBF {
            28
        } else if vk == 0x20 {
            29
        } else {
            31
        }
    }
}

proof fn lemma_prefixed(shift: bool, vk: u32)
    requires
        key_name(vk) is Some,
    ensures
        captured(held(shift), vk, false) == Some(prefix(shift) + key_name(vk)->0),
{
    reveal_strlit("alt");
    reveal_strlit("shift");
    reveal_strlit("+");
    reveal_strlit("alt+");
    reveal_strlit("alt+shift+");
    reveal_with_fuel(glued, 4);
    let name = key_name(vk)->0;
    let p = pressed(held(shift)).push(name);
    if shift {
        assert(p =~= seq!["alt"@, "shift"@, name]);
        assert(p.drop_last() =~= seq!["alt"@, "shift"@]);
        assert(p.drop_last().drop_last() =~= seq!["alt"@]);
    } else {
        assert(p =~= seq!["alt"@, name]);
        assert(p.drop_last() =~= seq!["alt"@]);
    }
    assert(glued(p, "+"@) =~= prefix(shift) + name);
}

proof fn lemma_concrete(chord: Seq<char>, shift: bool, vk: u32)
    requires
        key_name(vk) is Some,
        chord == prefix(shift) + key_name(vk)->0,
    ensures
        variants(chord) == seq![chord],
        chord_value(chord) == Some((held(shift), vk)),
{
    lemma_prefixed(shift, vk);
    law_captured_chord_round_trips(held(shift), vk);
    law_key_name_reads_back(vk);
    reveal_strlit("{n}");
    reveal_strlit("alt+");
    reveal_strlit("alt+shift+");
    let name = key_name(vk)->0;
    assert(!has_text(chord, "{n}"@)) by {
        if has_text(chord, "{n}"@) {
            let i = choose|i: int| occurs_at(chord, "{n}"@, i);
            assert("{n}"@[0] == '{');
            assert(chord.subrange(i, i + 3)[0] == '{');
            assert(chord[i] == '{');
            if i >= prefix(shift).len() {
                assert(name[i - prefix(shift).len()] == '{');
            }
        }
    }
}

proof fn lemma_expanded(shift: bool, d: nat)
    requires
        1 <= d <= 9,
    ensures
        has_text(prefix(shift) + "{n}"@, "{n}"@),
        expanded(prefix(shift) + "{n}"@, d) == prefix(shift) + key_name((0x30 + d) as u32)->0,
        key_name((0x30 + d) as u32) is Some,
{
    reveal_strlit("{n}");
    reveal_strlit("alt+");
    reveal_strlit("alt+shift+");
    let p = prefix(shift);
    let n = p.len() as int;
    let s = p + "{n}"@;
    let to = decimal(d);
    assert("{n}"@[0] == '{');
    assert(s.subrange(n, n + 3) =~= "{n}"@);
    assert(occurs_at(s, "{n}"@, n));
    lemma_find_from(s, "{n}"@, 0);
    let f = find_from(s, "{n}"@, 0);
    assert(f is Some);
    let k = f->0;
    if k < n {
        assert(occurs_at(s, "{n}"@, k));
        assert(s.subrange(k, k + 3)[0] == '{');
        assert(p[k] == '{');
    }
    assert(k == n);
    assert(find_from(s, "{n}"@, n + 3) is None);
    assert(replaced_from(s, "{n}"@, to, n + 3) == s.skip(n + 3));
    assert(s.skip(n + 3) =~= Seq::<char>::empty());
    assert(s.subrange(0, n) =~= p);
    assert(replaced(s, "{n}"@, to) =~= p + to);
    assert(to =~= seq![(0x30 + d) as u8 as char]);
}

proof fn lemma_spelled(row: int)
    requires
        0 <= row < 31,
    ensures
        action_table()[row].1 == prefix(combos()[row].0) + if combos()[row].1 == 0 {
            "{n}"@
        } else {
            key_name(combos()[row].1)->0
        },
        combos()[row].1 == 0 || key_name(combos()[row].1) is Some,
{
    reveal_strlit("alt+");
    reveal_strlit("alt+shift+");
    reveal_strlit("{n}");
    if row == 0 {
        reveal_strlit("alt+left");
        reveal_strlit("left");
        assert("alt+left"@ =~= "alt+"@ + "left"@);
    } else if row == 1 {
        reveal_strlit("alt+right");
        reveal_strlit("right");
        assert("alt+right"@ =~= "alt+"@ + "right"@);
    } else if row == 2 {
        reveal_strlit("alt+up");
        reveal_strlit("up");
        assert("alt+up"@ =~= "alt+"@ + "up"@);
    } else if row == 3 {
        reveal_strlit("alt+down");
        reveal_strlit("down");
        assert("alt+down"@ =~= "alt+"@ + "down"@);
    } else if row == 4 {
        reveal_strlit("alt+shift+left");
        reveal_strlit("left");
        assert("alt+shift+left"@ =~= "alt+shift+"@ + "left"@);
    } else if row == 5 {
        reveal_strlit("alt+shift+right");
        reveal_strlit("right");
        assert("alt+shift+right"@ =~= "alt+shift+"@ + "right"@);
    } else if row == 6 {
        reveal_strlit("alt+shift+up");
        reveal_strlit("up");
        assert("alt+shift+up"@ =~= "alt+shift+"@ + "up"@);
    } else if row == 7 {
        reveal_strlit("alt+shift+down");
        reveal_strlit("down");
        assert("alt+shift+down"@ =~= "alt+shift+"@ + "down"@);
    } else if row == 8 {
        reveal_strlit("alt+j");
        assert("alt+j"@ =~= "alt+"@ + seq!['j']);
    } else if row == 9 {
        reveal_strlit("alt+k");
        assert("alt+k"@ =~= "alt+"@ + seq!['k']);
    } else if row == 10 {
        reveal_strlit("alt+shift+j");
        assert("alt+shift+j"@ =~= "alt+shift+"@ + seq!['j']);
    } else if row == 11 {
        reveal_strlit("alt+shift+k");
        assert("alt+shift+k"@ =~= "alt+shift+"@ + seq!['k']);
    } else if row == 12 {
        reveal_strlit("alt+enter");
        reveal_strlit("enter");
        assert("alt+enter"@ =~= "alt+"@ + "enter"@);
    } else if row == 13 {
        reveal_strlit("alt+h");
        assert("alt+h"@ =~= "alt+"@ + seq!['h']);
    } else if row == 14 {
        reveal_strlit("alt+l");
        assert("alt+l"@ =~= "alt+"@ + seq!['l']);
    } else if row == 15 {
        reveal_strlit("alt+t");
        assert("alt+t"@ =~= "alt+"@ + seq!['t']);
    } else if row == 16 {
        reveal_strlit("alt+f");
        assert("alt+f"@ =~= "alt+"@ + seq!['f']);
    } else if row == 17 {
        reveal_strlit("alt+shift+f");
        assert("alt+shift+f"@ =~= "alt+shift+"@ + seq!['f']);
    } else if row == 18 {
        reveal_strlit("alt+q");
        assert("alt+q"@ =~= "alt+"@ + seq!['q']);
    } else if row == 19 {
        reveal_strlit("alt+{n}");
        assert("alt+{n}"@ =~= "alt+"@ + "{n}"@);
    } else if row == 20 {
        reveal_strlit("alt+shift+{n}");
        assert("alt+shift+{n}"@ =~= "alt+shift+"@ + "{n}"@);
    } else if row == 21 {
        reveal_strlit("alt+period");
        reveal_strlit("period");
        assert("alt+period"@ =~= "alt+"@ + "period"@);
    } else if row == 22 {
        reveal_strlit("alt+comma");
        reveal_strlit("comma");
        assert("alt+comma"@ =~= "alt+"@ + "comma"@);
    } else if row == 23 {
        reveal_strlit("alt+shift+period");
        reveal_strlit("period");
        assert("alt+shift+period"@ =~= "alt+shift+"@ + "period"@);
    } else if row == 24 {
        reveal_strlit("alt+shift+comma");
        reveal_strlit("comma");
        assert("alt+shift+comma"@ =~= "alt+shift+"@ + "comma"@);
    } else if row == 25 {
        reveal_strlit("alt+shift+r");
        assert("alt+shift+r"@ =~= "alt+shift+"@ + seq!['r']);
    } else if row == 26 {
        reveal_strlit("alt+p");
        assert("alt+p"@ =~= "alt+"@ + seq!['p']);
    } else if row == 27 {
        reveal_strlit("alt+shift+p");
        assert("alt+shift+p"@ =~= "alt+shift+"@ + seq!['p']);
    } else if row == 28 {
        reveal_strlit("alt+slash");
        reveal_strlit("slash");
        assert("alt+slash"@ =~= "alt+"@ + "slash"@);
    } else if row == 29 {
        reveal_strlit("alt+space");
        reveal_strlit("space");
        assert("alt+space"@ =~= "alt+"@ + "space"@);
    } else if row == 30 {
        reveal_strlit("alt+shift+e");
        assert("alt+shift+e"@ =~= "alt+shift+"@ + seq!['e']);
    }
}

proof fn lemma_default_value(row: int, k: int)
    requires
        0 <= row < 31,
        0 <= k < variants(action_table()[row].1).len(),
    ensures
        chord_value(variants(action_table()[row].1)[k]) == Some(default_value(row, k)),
        k < 9,
{
    lemma_spelled(row);
    let (shift, vk) = combos()[row];
    let chord = action_table()[row].1;
    if vk == 0 {
        lemma_expanded(shift, 1);
        lemma_expanded(shift, (k + 1) as nat);
        let digit = (0x31 + k) as u32;
        let c = expanded(chord, (k + 1) as nat);
        assert(variants(chord)[k] == c);
        lemma_concrete(c, shift, digit);
    } else {
        lemma_concrete(chord, shift, vk);
        assert(variants(chord)[k] == chord);
    }
}

proof fn lemma_row_of(row: int, k: int)
    requires
        0 <= row < 31,
        0 <= k < 9,
    ensures
        row_of(default_value(row, k).0.shift, default_value(row, k).1) == row,
{
    let v = default_value(row, k);
    if row == 0 {
        assert(row_of(v.0.shift, v.1) == 0);
    } else if row == 1 {
        assert(row_of(v.0.shift, v.1) == 1);
    } else if row == 2 {
        assert(row_of(v.0.shift, v.1) == 2);
    } else if row == 3 {
        assert(row_of(v.0.shift, v.1) == 3);
    } else if row == 4 {
        assert(row_of(v.0.shift, v.1) == 4);
    } else if row == 5 {
        assert(row_of(v.0.shift, v.1) == 5);
    } else if row == 6 {
        assert(row_of(v.0.shift, v.1) == 6);
    } else if row == 7 {
        assert(row_of(v.0.shift, v.1) == 7);
    } else if row == 8 {
        assert(row_of(v.0.shift, v.1) == 8);
    } else if row == 9 {
        assert(row_of(v.0.shift, v.1) == 9);
    } else if row == 10 {
        assert(row_of(v.0.shift, v.1) == 10);
    } else if row == 11 {
        assert(row_of(v.0.shift, v.1) == 11);
    } else if row == 12 {
        assert(row_of(v.0.shift, v.1) == 12);
    } else if row == 13 {
        assert(row_of(v.0.shift, v.1) == 13);
    } else if row == 14 {
        assert(row_of(v.0.shift, v.1) == 14);
    } else if row == 15 {
        assert(row_of(v.0.shift, v.1) == 15);
    } else if row == 16 {
        assert(row_of(v.0.shift, v.1) == 16);
    } else if row == 17 {
        assert(row_of(v.0.shift, v.1) == 17);
    } else if row == 18 {
        assert(row_of(v.0.shift, v.1) == 18);
    } else if row == 19 {
        assert(row_of(v.0.shift, v.1) == 19);
    } else if row == 20 {
        assert(row_of(v.0.shift, v.1) == 20);
    } else if row == 21 {
        assert(row_of(v.0.shift, v.1) == 21);
    } else if row == 22 {
        assert(row_of(v.0.shift, v.1) == 22);
    } else if row == 23 {
        assert(row_of(v.0.shift, v.1) == 23);
    } else if row == 24 {
        assert(row_of(v.0.shift, v.1) == 24);
    } else if row == 25 {
        assert(row_of(v.0.shift, v.1) == 25);
    } else if row == 26 {
        assert(row_of(v.0.shift, v.1) == 26);
    } else if row == 27 {
        assert(row_of(v.0.shift, v.1) == 27);
    } else if row == 28 {
        assert(row_of(v.0.shift, v.1) == 28);
    } else if row == 29 {
        assert(row_of(v.0.shift, v.1) == 29);
    } else if row == 30 {
        assert(row_of(v.0.shift, v.1) == 30);
    }
}

/// Every default chord can be read, whatever digit stands in it, and stands
/// for its keys.
pub proof fn law_default_chords_are_read(row: int, k: int)
    requires
        0 <= row < action_table().len(),
        0 <= k < variants(action_table()[row].1).len(),
    ensures
        chord_value(variants(action_table()[row].1)[k]) == Some(default_value(row, k)),
{
    lemma_default_value(row, k);
}

/// Every action of the table has a command, once a number is given.
pub proof fn law_every_action_has_a_command(row: int, n: usize)
    requires
        0 <= row < action_table().len(),
    ensures
        command_of(action_table()[row].0, Some(n)) is Some,
{
}

/// No two default chords overlap.
pub proof fn law_default_chords_do_not_overlap(a: int, b: int)
    requires
        0 <= a < action_table().len(),
        0 <= b < action_table().len(),
        a != b,
    ensures
        !collide(action_table()[a].1, action_table()[b].1),
{
    let x = action_table()[a].1;
    let y = action_table()[b].1;
    if collide(x, y) {
        let (i, j) = choose|i: int, j: int|
            0 <= i < variants(x).len() && 0 <= j < variants(y).len() && chord_value(
                #[trigger] variants(x)[i],
            ) is Some && chord_value(variants(x)[i]) == chord_value(#[trigger] variants(y)[j]);
        lemma_default_value(a, i);
        lemma_default_value(b, j);
        lemma_row_of(a, i);
        lemma_row_of(b, j);
    }
}

} // verus!
