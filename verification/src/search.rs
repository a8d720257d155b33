//! Filtering lists by a typed query, and typing that query.

use crate::text::{
    chars_lowercase, chars_of, control, is_control_char, is_scalar, is_white, lines, lines_of,
    lower_each, slice_string, string_of, texts, trim, trimmed, white,
};
use vstd::prelude::*;

verus! {

// ------------------------------------------------------------ fuzzy match

/// Do the characters of `needle` stand in `hay` in that order, with others
/// between them perhaps?
pub open spec fn subsequence(needle: Seq<char>, hay: Seq<char>) -> bool
    decreases hay.len(),
{
    if needle.len() == 0 {
        true
    } else if hay.len() == 0 {
        false
    } else if needle[0] == hay[0] {
        subsequence(needle.drop_first(), hay.drop_first())
    } else {
        subsequence(needle, hay.drop_first())
    }
}

/// `s` without white space.
pub open spec fn solid(s: Seq<char>) -> Seq<char>
    decreases s.len(),
{
    if s.len() == 0 {
        Seq::empty()
    } else if is_white(s.last()) {
        solid(s.drop_last())
    } else {
        solid(s.drop_last()).push(s.last())
    }
}

/// Does the query match? Capitals and white space in it do not matter, and
/// only the order of its characters does.
pub open spec fn fuzzy(hay: Seq<char>, needle: Seq<char>) -> bool {
    subsequence(solid(chars_lowercase(needle)), chars_lowercase(hay))
}

fn drop_white(v: &Vec<char>) -> (r: Vec<char>)
    ensures
        r@ == solid(v@),
{
    let mut r: Vec<char> = Vec::new();
    let mut i: usize = 0;
    proof {
        assert(v@.take(0) =~= Seq::<char>::empty());
    }
    while i < v.len()
        invariant
            i <= v.len(),
            r@ == solid(v@.take(i as int)),
        decreases v.len() - i,
    {
        proof {
            assert(v@.take(i + 1).drop_last() =~= v@.take(i as int));
        }
        if !white(v[i]) {
            r.push(v[i]);
        }
        i = i + 1;
    }
    proof {
        assert(v@.take(i as int) =~= v@);
    }
    r
}

/// Does the query match?
pub fn fuzzy_match(haystack: &str, needle: &str) -> (r: bool)
    ensures
        r == fuzzy(haystack@, needle@),
{
    let hay = lower_each(haystack);
    let low = lower_each(needle);
    let want = drop_white(&low);
    let mut i: usize = 0;
    let mut k: usize = 0;
    proof {
        assert(want@.skip(0) =~= want@);
        assert(hay@.skip(0) =~= hay@);
    }
    while i < hay.len() && k < want.len()
        invariant
            i <= hay.len(),
            k <= want.len(),
            subsequence(want@.skip(k as int), hay@.skip(i as int)) == subsequence(want@, hay@),
        decreases hay.len() - i,
    {
        proof {
            assert(hay@.skip(i as int).drop_first() =~= hay@.skip(i + 1));
            assert(want@.skip(k as int).drop_first() =~= want@.skip(k + 1));
        }
        if want[k] == hay[i] {
            k = k + 1;
        }
        i = i + 1;
    }
    k == want.len()
}

/// Positions that rise, one for each character of `needle`, where these
/// stand in `hay`.
pub open spec fn embeds(at: Seq<int>, needle: Seq<char>, hay: Seq<char>) -> bool {
    &&& at.len() == needle.len()
    &&& forall|i: int| 0 <= i < at.len() ==> 0 <= #[trigger] at[i] < hay.len() && hay[at[i]]
        == needle[i]
    &&& forall|i: int, j: int| 0 <= i < j < at.len() ==> #[trigger] at[i] < #[trigger] at[j]
}

/// A query matches exactly when its characters can be found at rising
/// positions.
pub proof fn law_match_is_a_subsequence(needle: Seq<char>, hay: Seq<char>)
    ensures
        subsequence(needle, hay) <==> exists|at: Seq<int>| embeds(at, needle, hay),
{
    if subsequence(needle, hay) {
        lemma_positions(needle, hay);
    }
    if exists|at: Seq<int>| embeds(at, needle, hay) {
        let at = choose|at: Seq<int>| embeds(at, needle, hay);
        lemma_embedded(at, needle, hay);
    }
}

proof fn lemma_positions(needle: Seq<char>, hay: Seq<char>)
    requires
        subsequence(needle, hay),
    ensures
        exists|at: Seq<int>| embeds(at, needle, hay),
    decreases hay.len(),
{
    if needle.len() == 0 {
        assert(embeds(Seq::empty(), needle, hay));
    } else if needle[0] == hay[0] {
        let n = needle.drop_first();
        let h = hay.drop_first();
        lemma_positions(n, h);
        let a = choose|a: Seq<int>| embeds(a, n, h);
        let at = Seq::new(
            needle.len(),
            |i: int|
                if i == 0 {
                    0
                } else {
                    a[i - 1] + 1
                },
        );
        assert forall|i: int| 0 <= i < at.len() implies 0 <= #[trigger] at[i] < hay.len()
            && hay[at[i]] == needle[i] by {
            if i > 0 {
                assert(h[a[i - 1]] == n[i - 1]);
            }
        }
        assert forall|i: int, j: int| 0 <= i < j < at.len() implies #[trigger] at[i]
            < #[trigger] at[j] by {
            if i > 0 {
                assert(a[i - 1] < a[j - 1]);
            } else {
                assert(a[j - 1] >= 0);
            }
        }
        assert(embeds(at, needle, hay));
    } else {
        let h = hay.drop_first();
        lemma_positions(needle, h);
        let a = choose|a: Seq<int>| embeds(a, needle, h);
        let at = a.map_values(|p: int| p + 1);
        assert forall|i: int| 0 <= i < at.len() implies 0 <= #[trigger] at[i] < hay.len()
            && hay[at[i]] == needle[i] by {
            assert(h[a[i]] == needle[i]);
        }
        assert forall|i: int, j: int| 0 <= i < j < at.len() implies #[trigger] at[i]
            < #[trigger] at[j] by {
            assert(a[i] < a[j]);
        }
        assert(embeds(at, needle, hay));
    }
}

proof fn lemma_embedded(at: Seq<int>, needle: Seq<char>, hay: Seq<char>)
    requires
        embeds(at, needle, hay),
    ensures
        subsequence(needle, hay),
    decreases hay.len(),
{
    if needle.len() > 0 {
        assert(0 <= at[0] < hay.len());
        let h = hay.drop_first();
        if needle[0] == hay[0] {
            let n = needle.drop_first();
            let a = at.drop_first().map_values(|p: int| p - 1);
            assert forall|i: int| 0 <= i < a.len() implies 0 <= #[trigger] a[i] < h.len()
                && h[a[i]] == n[i] by {
                assert(at[0] < at[i + 1]);
                assert(hay[at[i + 1]] == needle[i + 1]);
            }
            assert forall|i: int, j: int| 0 <= i < j < a.len() implies #[trigger] a[i]
                < #[trigger] a[j] by {
                assert(at[i + 1] < at[j + 1]);
            }
            lemma_embedded(a, n, h);
        } else {
            let a = at.map_values(|p: int| p - 1);
            assert forall|i: int| 0 <= i < a.len() implies 0 <= #[trigger] a[i] < h.len()
                && h[a[i]] == needle[i] by {
                assert(hay[at[i]] == needle[i]);
                assert(hay[at[0]] == needle[0]);
                if i > 0 {
                    assert(at[0] < at[i]);
                }
            }
            assert forall|i: int, j: int| 0 <= i < j < a.len() implies #[trigger] a[i]
                < #[trigger] a[j] by {
                assert(at[i] < at[j]);
            }
            lemma_embedded(a, needle, h);
        }
    }
}

// ------------------------------------------------------------------ typing

/// `s` without its last character.
pub open spec fn shortened(s: Seq<char>) -> Seq<char> {
    if s.len() == 0 {
        s
    } else {
        s.drop_last()
    }
}

/// `s` without control characters.
pub open spec fn printable(s: Seq<char>) -> Seq<char>
    decreases s.len(),
{
    if s.len() == 0 {
        Seq::empty()
    } else if is_control_char(s.last()) {
        printable(s.drop_last())
    } else {
        printable(s.drop_last()).push(s.last())
    }
}

/// What of the clipboard goes into a line: its first line, trimmed, without
/// control characters.
pub open spec fn pasted(clip: Option<Seq<char>>) -> Seq<char> {
    match clip {
        Some(t) => if lines_of(t).len() > 0 {
            printable(trimmed(lines_of(t)[0]))
        } else {
            Seq::empty()
        },
        None => Seq::empty(),
    }
}

/// A character appended, where the number is that of one.
pub open spec fn appended(s: Seq<char>, ch: u32) -> Seq<char> {
    if is_scalar(ch) {
        s.push(ch as char)
    } else {
        s
    }
}

/// A typed line after one more key: backspace, Ctrl+V, or a character. Other
/// control characters are not for it.
pub open spec fn typed(s: Seq<char>, ch: u32, clip: Option<Seq<char>>) -> Option<Seq<char>> {
    if ch == 0x08 {
        Some(shortened(s))
    } else if ch == 0x16 {
        Some(s + pasted(clip))
    } else if ch >= 0x20 {
        Some(appended(s, ch))
    } else {
        None
    }
}

/// The text of an optional string.
pub open spec fn maybe(s: Option<String>) -> Option<Seq<char>> {
    match s {
        Some(t) => Some(t@),
        None => None,
    }
}

/// Removes the last character.
pub fn shorten(s: &mut String)
    ensures
        final(s)@ == shortened(old(s)@),
{
    let v = chars_of(s.as_str());
    if v.len() > 0 {
        *s = slice_string(&v, 0, v.len() - 1);
        proof {
            assert(v@.subrange(0, v.len() - 1) =~= v@.drop_last());
        }
    }
}

/// Appends the character of that number, if there is one.
pub fn append_char(s: &mut String, ch: u32)
    ensures
        final(s)@ == appended(old(s)@, ch),
{
    match char::from_u32(ch) {
        Some(c) => {
            s.push(c);
        },
        None => {},
    }
}

/// What of the clipboard goes into a line.
pub fn clipboard_line(clip: &Option<String>) -> (r: String)
    ensures
        r@ == pasted(maybe(*clip)),
{
    let t = match clip {
        Some(t) => t,
        None => {
            return String::new();
        },
    };
    let all = lines(t.as_str());
    if all.len() == 0 {
        proof {
            assert(texts(all@).len() == 0);
        }
        return String::new();
    }
    proof {
        assert(texts(all@)[0] == all@[0]@);
    }
    let line = trim(all[0].as_str());
    let v = chars_of(line.as_str());
    let mut r: Vec<char> = Vec::new();
    let mut i: usize = 0;
    proof {
        assert(v@.take(0) =~= Seq::<char>::empty());
    }
    while i < v.len()
        invariant
            i <= v.len(),
            r@ == printable(v@.take(i as int)),
        decreases v.len() - i,
    {
        proof {
            assert(v@.take(i + 1).drop_last() =~= v@.take(i as int));
        }
        if !control(v[i]) {
            r.push(v[i]);
        }
        i = i + 1;
    }
    proof {
        assert(v@.take(i as int) =~= v@);
    }
    string_of(&r)
}

/// Takes one more key; says whether it was for the line.
pub fn type_char(s: &mut String, ch: u32, clip: &Option<String>) -> (r: bool)
    ensures
        match typed(old(s)@, ch, maybe(*clip)) {
            Some(t) => r && final(s)@ == t,
            None => !r && final(s)@ == old(s)@,
        },
{
    if ch == 0x08 {
        shorten(s);
        true
    } else if ch == 0x16 {
        let line = clipboard_line(clip);
        s.append(line.as_str());
        true
    } else if ch >= 0x20 {
        append_char(s, ch);
        true
    } else {
        false
    }
}

} // verus!
