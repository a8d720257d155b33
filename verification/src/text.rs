//! Character-level text functions: trimming, splitting, searching and
//! replacing, over the sequence of characters a string holds.
use vstd::prelude::*;
use vstd::std_specs::iter::IteratorSpec;

verus! {

// ------------------------------------------------------------- characters

/// The characters with the Unicode `White_Space` property.
pub open spec fn is_white(c: char) -> bool {
    let n = c as u32;
    ||| 9 <= n <= 13
    ||| n == 0x20
    ||| n == 0x85
    ||| n == 0xA0
    ||| n == 0x1680
    ||| 0x2000 <= n <= 0x200A
    ||| n == 0x2028
    ||| n == 0x2029
    ||| n == 0x202F
    ||| n == 0x205F
    ||| n == 0x3000
}

/// Is `c` white space?
pub fn white(c: char) -> (r: bool)
    ensures
        r == is_white(c),
{
    let n: u32 = c as u32;
    (9 <= n && n <= 13) || n == 0x20 || n == 0x85 || n == 0xA0 || n == 0x1680 || (0x2000 <= n && n
        <= 0x200A) || n == 0x2028 || n == 0x2029 || n == 0x202F || n == 0x205F || n == 0x3000
}

/// The characters of the Unicode general category `Cc`.
pub open spec fn is_control_char(c: char) -> bool {
    (c as u32) < 0x20 || 0x7F <= c as u32 <= 0x9F
}

/// Is `c` a control character?
pub fn control(c: char) -> (r: bool)
    ensures
        r == is_control_char(c),
{
    let n: u32 = c as u32;
    n < 0x20 || (0x7F <= n && n <= 0x9F)
}

/// `c` with an ASCII capital turned into the small letter.
pub open spec fn ascii_lower(c: char) -> char {
    if 'A' <= c && c <= 'Z' {
        ((c as u32 + 32) as u8) as char
    } else {
        c
    }
}

/// ASCII-only lower casing of one character.
pub fn to_ascii_lower(c: char) -> (r: char)
    ensures
        r == ascii_lower(c),
{
    if 'A' <= c && c <= 'Z' {
        let n: u32 = c as u32;
        ((n + 32) as u8) as char
    } else {
        c
    }
}

/// The text `s` with every ASCII capital turned into the small letter.
pub open spec fn ascii_lowered(s: Seq<char>) -> Seq<char> {
    s.map_values(|c: char| ascii_lower(c))
}

// ---------------------------------------------------------------- strings

/// Appending one character: `String::push` adds `c` at the end and changes
/// nothing before it.
pub assume_specification[ String::push ](s: &mut String, c: char)
    ensures
        final(s)@ == old(s)@.push(c),
;

/// The characters of `s`, in order.
pub fn chars_of(s: &str) -> (r: Vec<char>)
    ensures
        r@ == s@,
{
    let mut out: Vec<char> = Vec::new();
    let mut it = s.chars();
    let ghost all = s@;
    loop
        invariant
            it.obeys_prophetic_iter_laws(),
            it.decrease() is Some,
            out@ + it.remaining() =~= all,
        ensures
            out@ =~= all,
        decreases it.decrease()->0,
    {
        match it.next() {
            Some(c) => {
                out.push(c);
            },
            None => {
                break;
            },
        }
    }
    out
}


/// The string made of the characters `lo..hi` of `v`.
pub fn slice_string(v: &Vec<char>, lo: usize, hi: usize) -> (r: String)
    requires
        lo <= hi <= v.len(),
    ensures
        r@ == v@.subrange(lo as int, hi as int),
{
    let mut out = String::new();
    let mut i: usize = lo;
    while i < hi
        invariant
            lo <= i <= hi <= v.len(),
            out@ =~= v@.subrange(lo as int, i as int),
        decreases hi - i,
    {
        out.push(v[i]);
        i = i + 1;
    }
    out
}

/// The string made of the characters of `v`.
pub fn string_of(v: &Vec<char>) -> (r: String)
    ensures
        r@ == v@,
{
    let r = slice_string(v, 0, v.len());
    proof {
        assert(v@.subrange(0, v.len() as int) =~= v@);
    }
    r
}

/// A copy of `s`.
pub fn owned(s: &str) -> (r: String)
    ensures
        r@ == s@,
{
    s.to_owned()
}

/// `a` followed by `b`.
pub fn joined(a: &str, b: &str) -> (r: String)
    ensures
        r@ == a@ + b@,
{
    let mut out = owned(a);
    out.append(b);
    out
}

/// Three texts in a row.
pub fn joined3(a: &str, b: &str, c: &str) -> (r: String)
    ensures
        r@ == a@ + b@ + c@,
{
    let mut out = joined(a, b);
    out.append(c);
    out
}

/// Do two texts hold the same characters?
pub fn same(a: &str, b: &str) -> (r: bool)
    ensures
        r == (a@ == b@),
{
    let x = chars_of(a);
    let y = chars_of(b);
    if x.len() != y.len() {
        return false;
    }
    let mut i: usize = 0;
    while i < x.len()
        invariant
            i <= x.len(),
            x.len() == y.len(),
            x@ == a@,
            y@ == b@,
            forall|k: int| 0 <= k < i ==> x@[k] == y@[k],
        decreases x.len() - i,
    {
        if x[i] != y[i] {
            proof {
                assert(a@[i as int] != b@[i as int]);
            }
            return false;
        }
        i = i + 1;
    }
    proof {
        assert(a@ =~= b@);
    }
    true
}

/// Is there no character in `s`?
pub fn is_blank(s: &str) -> (r: bool)
    ensures
        r == (s@.len() == 0),
{
    proof {
        reveal_strlit("");
        if s@.len() == 0 {
            assert(s@ =~= ""@);
        }
    }
    same(s, "")
}

/// Do two texts agree once ASCII capitals are turned into small letters?
pub fn same_ignoring_ascii_case(a: &str, b: &str) -> (r: bool)
    ensures
        r == (ascii_lowered(a@) == ascii_lowered(b@)),
{
    let x = to_ascii_lowercase(a);
    let y = to_ascii_lowercase(b);
    same(x.as_str(), y.as_str())
}

/// ASCII-only lower casing.
pub fn to_ascii_lowercase(s: &str) -> (r: String)
    ensures
        r@ == ascii_lowered(s@),
{
    let v = chars_of(s);
    let mut out = String::new();
    let mut i: usize = 0;
    while i < v.len()
        invariant
            i <= v.len(),
            v@ == s@,
            out@ =~= ascii_lowered(s@.take(i as int)),
        decreases v.len() - i,
    {
        out.push(to_ascii_lower(v[i]));
        i = i + 1;
    }
    proof {
        assert(s@.take(i as int) =~= s@);
    }
    out
}

/// What `str::to_lowercase` gives.
pub uninterp spec fn lowercase(s: Seq<char>) -> Seq<char>;

/// Full Unicode lower casing with `str::to_lowercase`. The result is a
/// function of the text; on ASCII text it lowers the ASCII capitals and
/// leaves the rest alone.
#[verifier::external_body]
pub fn to_lowercase(s: &str) -> (r: String)
    ensures
        r@ == lowercase(s@),
        is_ascii_text(s@) ==> r@ == ascii_lowered(s@),
{
    s.to_lowercase()
}

/// What `str::to_uppercase` gives.
pub uninterp spec fn uppercase(s: Seq<char>) -> Seq<char>;

/// Full Unicode upper casing with `str::to_uppercase`. The result is a
/// function of the text; what it is for a given text is not stated.
#[verifier::external_body]
pub fn to_uppercase(s: &str) -> (r: String)
    ensures
        r@ == uppercase(s@),
{
    s.to_uppercase()
}

/// Is `n` the number of a character?
pub open spec fn is_scalar(n: u32) -> bool {
    n <= 0x10FFFF && !(0xD800 <= n <= 0xDFFF)
}

/// `char::from_u32` gives the character of that number, if there is one.
pub assume_specification[ char::from_u32 ](i: u32) -> (r: Option<char>)
    ensures
        r == (if is_scalar(i) {
            Some(i as char)
        } else {
            None
        }),
;

/// Only characters below U+0080.
pub open spec fn is_ascii_text(s: Seq<char>) -> bool {
    forall|i: int| 0 <= i < s.len() ==> (#[trigger] s[i] as u32) < 128
}

/// What `char::to_lowercase` gives.
pub uninterp spec fn char_lowercase(c: char) -> Seq<char>;

/// Full Unicode lower casing of one character with `char::to_lowercase`,
/// which may give several characters. An ASCII character gives its ASCII
/// small letter.
#[verifier::external_body]
fn char_to_lowercase(c: char) -> (r: Vec<char>)
    ensures
        r@ == char_lowercase(c),
        (c as u32) < 128 ==> r@ == seq![ascii_lower(c)],
{
    c.to_lowercase().collect()
}

/// Every character of `s` lowered on its own, in order.
pub open spec fn chars_lowercase(s: Seq<char>) -> Seq<char>
    decreases s.len(),
{
    if s.len() == 0 {
        Seq::empty()
    } else {
        chars_lowercase(s.drop_last()) + char_lowercase(s.last())
    }
}

/// Lowers `s` character by character.
pub fn lower_each(s: &str) -> (r: Vec<char>)
    ensures
        r@ == chars_lowercase(s@),
{
    let v = chars_of(s);
    let mut out: Vec<char> = Vec::new();
    let mut i: usize = 0;
    while i < v.len()
        invariant
            i <= v.len(),
            v@ == s@,
            out@ == chars_lowercase(s@.take(i as int)),
        decreases v.len() - i,
    {
        let mut low = char_to_lowercase(v[i]);
        out.append(&mut low);
        i = i + 1;
        proof {
            assert(s@.take(i as int).drop_last() =~= s@.take(i - 1));
        }
    }
    proof {
        assert(s@.take(i as int) =~= s@);
    }
    out
}

// --------------------------------------------------------------- trimming

/// `s` without its leading white space.
pub open spec fn trimmed_start(s: Seq<char>) -> Seq<char>
    decreases s.len(),
{
    if s.len() > 0 && is_white(s[0]) {
        trimmed_start(s.drop_first())
    } else {
        s
    }
}

/// `s` without its trailing white space.
pub open spec fn trimmed_end(s: Seq<char>) -> Seq<char>
    decreases s.len(),
{
    if s.len() > 0 && is_white(s.last()) {
        trimmed_end(s.drop_last())
    } else {
        s
    }
}

/// `s` without white space at either end.
pub open spec fn trimmed(s: Seq<char>) -> Seq<char> {
    trimmed_end(trimmed_start(s))
}

/// Trimming at the end, on characters.
pub fn trim_end_chars(v: &Vec<char>) -> (hi: usize)
    ensures
        hi <= v.len(),
        v@.take(hi as int) == trimmed_end(v@),
{
    let mut hi: usize = v.len();
    proof {
        assert(v@.take(hi as int) =~= v@);
    }
    while hi > 0 && white(v[hi - 1])
        invariant
            hi <= v.len(),
            trimmed_end(v@.take(hi as int)) == trimmed_end(v@),
        decreases hi,
    {
        proof {
            assert(v@.take(hi as int).drop_last() =~= v@.take(hi - 1));
        }
        hi = hi - 1;
    }
    hi
}

/// `s` without its trailing white space.
pub fn trim_end(s: &str) -> (r: String)
    ensures
        r@ == trimmed_end(s@),
{
    let v = chars_of(s);
    let hi = trim_end_chars(&v);
    slice_string(&v, 0, hi)
}

/// `s` without white space at either end.
pub fn trim(s: &str) -> (r: String)
    ensures
        r@ == trimmed(s@),
{
    let v = chars_of(s);
    let mut lo: usize = 0;
    proof {
        assert(v@.skip(0) =~= v@);
    }
    while lo < v.len() && white(v[lo])
        invariant
            lo <= v.len(),
            trimmed_start(v@.skip(lo as int)) == trimmed_start(v@),
        decreases v.len() - lo,
    {
        proof {
            assert(v@.skip(lo as int).drop_first() =~= v@.skip(lo + 1));
        }
        lo = lo + 1;
    }
    let ghost body = v@.skip(lo as int);
    let mut hi: usize = v.len();
    proof {
        assert(v@.subrange(lo as int, hi as int) =~= body);
    }
    while hi > lo && white(v[hi - 1])
        invariant
            lo <= hi <= v.len(),
            trimmed_end(v@.subrange(lo as int, hi as int)) == trimmed_end(body),
        decreases hi,
    {
        proof {
            assert(v@.subrange(lo as int, hi as int).drop_last() =~= v@.subrange(
                lo as int,
                hi - 1,
            ));
        }
        hi = hi - 1;
    }
    slice_string(&v, lo, hi)
}

// -------------------------------------------------------------- searching

/// Does `pat` stand in `s` at position `i`?
pub open spec fn occurs_at(s: Seq<char>, pat: Seq<char>, i: int) -> bool {
    0 <= i && i + pat.len() <= s.len() && s.subrange(i, i + pat.len()) == pat
}

/// The first position at or after `i` where `pat` stands in `s`.
pub open spec fn find_from(s: Seq<char>, pat: Seq<char>, i: int) -> Option<int>
    decreases s.len() + 1 - i,
{
    if i < 0 || i + pat.len() > s.len() {
        None
    } else if occurs_at(s, pat, i) {
        Some(i)
    } else {
        find_from(s, pat, i + 1)
    }
}

/// Does `pat` stand anywhere in `s`?
pub open spec fn has_text(s: Seq<char>, pat: Seq<char>) -> bool {
    exists|i: int| occurs_at(s, pat, i)
}

/// `find_from` finds the first occurrence, and fails only when there is none.
pub proof fn lemma_find_from(s: Seq<char>, pat: Seq<char>, i: int)
    requires
        0 <= i,
    ensures
        find_from(s, pat, i) matches Some(k) ==> i <= k && occurs_at(s, pat, k) && forall|j: int|
            i <= j < k ==> !occurs_at(s, pat, j),
        find_from(s, pat, i) is None ==> forall|j: int| i <= j ==> !occurs_at(s, pat, j),
    decreases s.len() + 1 - i,
{
    if i + pat.len() <= s.len() && !occurs_at(s, pat, i) {
        lemma_find_from(s, pat, i + 1);
    }
}

/// Does `pat` stand in `v` at position `i`?
pub fn match_at(v: &Vec<char>, pat: &Vec<char>, i: usize) -> (r: bool)
    ensures
        r == occurs_at(v@, pat@, i as int),
{
    if i > v.len() || pat.len() > v.len() - i {
        return false;
    }
    let mut k: usize = 0;
    while k < pat.len()
        invariant
            k <= pat.len(),
            i + pat.len() <= v.len(),
            forall|j: int| 0 <= j < k ==> v@[i + j] == pat@[j],
        decreases pat.len() - k,
    {
        if v[i + k] != pat[k] {
            proof {
                assert(v@.subrange(i as int, i + pat@.len())[k as int] != pat@[k as int]);
            }
            return false;
        }
        k = k + 1;
    }
    proof {
        assert(v@.subrange(i as int, i + pat@.len()) =~= pat@);
    }
    true
}

/// The first position at or after `start` where `pat` stands in `v`.
pub fn find_at(v: &Vec<char>, pat: &Vec<char>, start: usize) -> (r: Option<usize>)
    ensures
        match r {
            Some(k) => find_from(v@, pat@, start as int) == Some(k as int),
            None => find_from(v@, pat@, start as int) is None,
        },
{
    let mut i: usize = start;
    while i <= v.len() && pat.len() <= v.len() - i
        invariant
            start <= i,
            find_from(v@, pat@, start as int) == find_from(v@, pat@, i as int),
        decreases v.len() + 1 - i,
    {
        if match_at(v, pat, i) {
            return Some(i);
        }
        if i == v.len() {
            proof {
                assert(find_from(v@, pat@, i + 1) is None);
            }
            return None;
        }
        i = i + 1;
    }
    None
}

/// Does `pat` stand anywhere in `s`?
pub fn contains(s: &str, pat: &str) -> (r: bool)
    ensures
        r == has_text(s@, pat@),
{
    let v = chars_of(s);
    let p = chars_of(pat);
    proof {
        lemma_find_from(s@, pat@, 0);
    }
    match find_at(&v, &p, 0) {
        Some(k) => true,
        None => false,
    }
}

/// Does `s` begin with `pat`?
pub open spec fn begins(s: Seq<char>, pat: Seq<char>) -> bool {
    occurs_at(s, pat, 0)
}

/// Does `s` begin with `pat`?
pub fn starts_with(s: &str, pat: &str) -> (r: bool)
    ensures
        r == begins(s@, pat@),
{
    let v = chars_of(s);
    let p = chars_of(pat);
    match_at(&v, &p, 0)
}

// -------------------------------------------------- splitting, replacing

/// `s` from position `i` on, with every occurrence of `pat` replaced by
/// `to`, leftmost first and not overlapping.
pub open spec fn replaced_from(s: Seq<char>, pat: Seq<char>, to: Seq<char>, i: int) -> Seq<char>
    decreases s.len() - i,
{
    match find_from(s, pat, i) {
        Some(k) => if pat.len() > 0 && i <= k <= s.len() - pat.len() {
            s.subrange(i, k) + to + replaced_from(s, pat, to, k + pat.len())
        } else {
            s.skip(i)
        },
        None => s.skip(i),
    }
}

/// `s` with every occurrence of `pat` replaced by `to`.
pub open spec fn replaced(s: Seq<char>, pat: Seq<char>, to: Seq<char>) -> Seq<char> {
    replaced_from(s, pat, to, 0)
}

/// Replaces every occurrence of a non-empty `pat` in `s` by `to`.
pub fn replace(s: &str, pat: &str, to: &str) -> (r: String)
    requires
        pat@.len() > 0,
    ensures
        r@ == replaced(s@, pat@, to@),
{
    let v = chars_of(s);
    let p = chars_of(pat);
    let mut out = String::new();
    let mut i: usize = 0;
    loop
        invariant_except_break
            out@ + replaced_from(s@, pat@, to@, i as int) =~= replaced(s@, pat@, to@),
        invariant
            v@ == s@,
            p@ == pat@,
            p.len() > 0,
            i <= v.len(),
        ensures
            out@ =~= replaced(s@, pat@, to@),
        decreases v.len() - i,
    {
        proof {
            lemma_find_from(s@, pat@, i as int);
        }
        match find_at(&v, &p, i) {
            Some(k) => {
                let piece = slice_string(&v, i, k);
                out.append(piece.as_str());
                out.append(to);
                i = k + p.len();
            },
            None => {
                let rest = slice_string(&v, i, v.len());
                proof {
                    assert(rest@ =~= s@.skip(i as int));
                }
                out.append(rest.as_str());
                break;
            },
        }
    }
    out
}

/// The pieces of `s` from position `i` on, between occurrences of `pat`.
pub open spec fn pieces_from(s: Seq<char>, pat: Seq<char>, i: int) -> Seq<Seq<char>>
    decreases s.len() - i,
{
    match find_from(s, pat, i) {
        Some(k) => if pat.len() > 0 && i <= k <= s.len() - pat.len() {
            seq![s.subrange(i, k)] + pieces_from(s, pat, k + pat.len())
        } else {
            seq![s.skip(i)]
        },
        None => seq![s.skip(i)],
    }
}

/// The pieces of `s` between occurrences of `pat`.
pub open spec fn pieces(s: Seq<char>, pat: Seq<char>) -> Seq<Seq<char>> {
    pieces_from(s, pat, 0)
}

/// The texts that a sequence of strings holds.
pub open spec fn texts(v: Seq<String>) -> Seq<Seq<char>> {
    v.map_values(|s: String| s@)
}

/// The `i`th text, empty where there is none.
pub open spec fn text_at(v: Seq<Seq<char>>, i: int) -> Seq<char> {
    if 0 <= i < v.len() {
        v[i]
    } else {
        Seq::empty()
    }
}

/// The `i`th text, empty where there is none.
pub fn nth(v: &Vec<String>, i: usize) -> (r: String)
    ensures
        r@ == text_at(texts(v@), i as int),
{
    if i < v.len() {
        v[i].clone()
    } else {
        String::new()
    }
}

/// Splits `s` at every occurrence of a non-empty `pat`.
pub fn split(s: &str, pat: &str) -> (r: Vec<String>)
    requires
        pat@.len() > 0,
    ensures
        texts(r@) == pieces(s@, pat@),
        r.len() > 0,
{
    let v = chars_of(s);
    let p = chars_of(pat);
    let mut out: Vec<String> = Vec::new();
    let mut i: usize = 0;
    proof {
        assert(texts(out@) =~= Seq::<Seq<char>>::empty());
    }
    loop
        invariant_except_break
            texts(out@) + pieces_from(s@, pat@, i as int) =~= pieces(s@, pat@),
        invariant
            v@ == s@,
            p@ == pat@,
            p.len() > 0,
            i <= v.len(),
        ensures
            texts(out@) =~= pieces(s@, pat@),
            out.len() > 0,
        decreases v.len() - i,
    {
        proof {
            lemma_find_from(s@, pat@, i as int);
        }
        let ghost before = out@;
        match find_at(&v, &p, i) {
            Some(k) => {
                out.push(slice_string(&v, i, k));
                proof {
                    assert(texts(out@) =~= texts(before).push(s@.subrange(i as int, k as int)));
                }
                i = k + p.len();
            },
            None => {
                let rest = slice_string(&v, i, v.len());
                proof {
                    assert(rest@ =~= s@.skip(i as int));
                }
                out.push(rest);
                proof {
                    assert(texts(out@) =~= texts(before).push(s@.skip(i as int)));
                }
                break;
            },
        }
    }
    out
}

/// `parts` one after another with `sep` between them.
pub open spec fn glued(parts: Seq<Seq<char>>, sep: Seq<char>) -> Seq<char>
    decreases parts.len(),
{
    if parts.len() == 0 {
        Seq::empty()
    } else if parts.len() == 1 {
        parts[0]
    } else {
        glued(parts.drop_last(), sep) + sep + parts.last()
    }
}

/// Joins `parts` with `sep` between them.
pub fn glue(parts: &Vec<String>, sep: &str) -> (r: String)
    ensures
        r@ == glued(texts(parts@), sep@),
{
    let mut out = String::new();
    let mut i: usize = 0;
    while i < parts.len()
        invariant
            i <= parts.len(),
            out@ == glued(texts(parts@.take(i as int)), sep@),
        decreases parts.len() - i,
    {
        if i > 0 {
            out.append(sep);
        }
        out.append(parts[i].as_str());
        i = i + 1;
        proof {
            let t = texts(parts@.take(i as int));
            assert(t.drop_last() =~= texts(parts@.take(i - 1)));
            assert(t.last() == parts@[i - 1]@);
            assert(out@ =~= glued(t, sep@));
        }
    }
    proof {
        assert(parts@.take(i as int) =~= parts@);
    }
    out
}

/// `pieces_from` when one more piece is appended behind a separator.
proof fn lemma_pieces_append(a: Seq<char>, b: Seq<char>, c: char, i: int)
    requires
        0 <= i <= a.len(),
        !b.contains(c),
    ensures
        pieces_from(a + seq![c] + b, seq![c], i) == pieces_from(a, seq![c], i).push(b),
    decreases a.len() - i,
{
    let s = a + seq![c] + b;
    let p = seq![c];
    assert forall|j: int| occurs_at(s, p, j) == (0 <= j < s.len() && s[j] == c) by {
        lemma_occurs_one(s, c, j);
    }
    assert forall|j: int| occurs_at(a, p, j) == (0 <= j < a.len() && a[j] == c) by {
        lemma_occurs_one(a, c, j);
    }
    lemma_find_from(s, p, i);
    lemma_find_from(a, p, i);
    assert(s[a.len() as int] == c);
    assert(occurs_at(s, p, a.len() as int));
    let k = find_from(s, p, i)->0;
    match find_from(a, p, i) {
        Some(ka) => {
            assert(occurs_at(a, p, ka));
            assert(s[ka] == a[ka]);
            assert(occurs_at(s, p, ka));
            if k < ka {
                assert(occurs_at(a, p, k));
            }
            assert(k == ka);
            lemma_pieces_append(a, b, c, k + 1);
            assert(s.subrange(i, k) =~= a.subrange(i, k));
            assert(pieces_from(s, p, i) =~= pieces_from(a, p, i).push(b));
        },
        None => {
            if k < a.len() {
                assert(s[k] == a[k]);
                assert(occurs_at(a, p, k));
            }
            assert(k == a.len());
            assert(s.subrange(i, k) =~= a.skip(i));
            lemma_find_from(s, p, k + 1);
            match find_from(s, p, k + 1) {
                Some(l) => {
                    assert(s[l] == b[l - k - 1]);
                    assert(b.contains(c));
                },
                None => {},
            }
            assert(s.skip(k + 1) =~= b);
            assert(find_from(s, p, k + 1) is None);
            assert(pieces_from(s, p, k + 1) == seq![b]);
            assert(pieces_from(a, p, i) == seq![a.skip(i)]);
            assert(pieces_from(s, p, i) == seq![s.subrange(i, k)] + pieces_from(s, p, k + 1));
            assert(pieces_from(s, p, i) =~= pieces_from(a, p, i).push(b));
        },
    }
}

proof fn lemma_occurs_one(s: Seq<char>, c: char, j: int)
    ensures
        occurs_at(s, seq![c], j) == (0 <= j < s.len() && s[j] == c),
{
    if 0 <= j < s.len() {
        assert(s.subrange(j, j + 1) =~= seq![s[j]]);
        if s[j] != c {
            assert(seq![s[j]][0] != seq![c][0]);
        }
    }
}

/// Splitting at a character undoes joining with it, when no part holds it.
pub proof fn law_split_undoes_glue(parts: Seq<Seq<char>>, c: char)
    requires
        parts.len() > 0,
        forall|i: int| 0 <= i < parts.len() ==> !(#[trigger] parts[i]).contains(c),
    ensures
        pieces(glued(parts, seq![c]), seq![c]) == parts,
    decreases parts.len(),
{
    let p = seq![c];
    if parts.len() == 1 {
        let s = parts[0];
        lemma_find_from(s, p, 0);
        match find_from(s, p, 0) {
            Some(k) => {
                lemma_occurs_one(s, c, k);
                assert(s.contains(c));
            },
            None => {},
        }
        assert(s.skip(0) =~= s);
        assert(pieces(s, p) =~= parts);
    } else {
        let front = parts.drop_last();
        assert forall|i: int| 0 <= i < front.len() implies !(#[trigger] front[i]).contains(c) by {
            assert(front[i] == parts[i]);
        }
        law_split_undoes_glue(front, c);
        assert(!parts[parts.len() - 1].contains(c));
        lemma_pieces_append(glued(front, p), parts.last(), c, 0);
        assert(front.push(parts.last()) =~= parts);
    }
}

/// What stands before and after the first `c`, where there is one.
pub open spec fn cut(s: Seq<char>, c: char) -> Option<(Seq<char>, Seq<char>)>
    decreases s.len(),
{
    if s.len() == 0 {
        None
    } else if s[0] == c {
        Some((Seq::empty(), s.drop_first()))
    } else {
        match cut(s.drop_first(), c) {
            Some((a, b)) => Some((seq![s[0]] + a, b)),
            None => None,
        }
    }
}

/// Two texts with `c` between them are cut apart there.
pub proof fn lemma_cut(a: Seq<char>, c: char, b: Seq<char>)
    requires
        !a.contains(c),
    ensures
        cut(a + seq![c] + b, c) == Some((a, b)),
    decreases a.len(),
{
    let s = a + seq![c] + b;
    if a.len() == 0 {
        assert(s.drop_first() =~= b);
        assert(a =~= Seq::<char>::empty());
    } else {
        assert(a[0] != c);
        assert(s[0] == a[0]);
        let t = a.drop_first();
        assert forall|i: int| 0 <= i < t.len() implies t[i] != c by {
            assert(a[i + 1] != c);
        }
        lemma_cut(t, c, b);
        assert(s.drop_first() =~= t + seq![c] + b);
        assert(seq![a[0]] + t =~= a);
    }
}

/// Cuts `s` at its first `c`.
pub fn split_once(s: &str, c: char) -> (r: Option<(String, String)>)
    ensures
        match r {
            Some((a, b)) => cut(s@, c) == Some((a@, b@)),
            None => cut(s@, c) is None,
        },
{
    let v = chars_of(s);
    let mut i: usize = 0;
    proof {
        assert(v@.skip(0) =~= v@);
        assert(v@.take(0) =~= Seq::<char>::empty());
        if cut(s@, c) is Some {
            assert(v@.take(0) + (cut(s@, c)->0).0 =~= (cut(s@, c)->0).0);
        }
    }
    while i < v.len()
        invariant
            i <= v.len(),
            v@ == s@,
            match cut(v@.skip(i as int), c) {
                Some((a, b)) => cut(s@, c) == Some((v@.take(i as int) + a, b)),
                None => cut(s@, c) is None,
            },
        decreases v.len() - i,
    {
        proof {
            assert(v@.skip(i as int).drop_first() =~= v@.skip(i + 1));
            assert(v@.skip(i as int)[0] == v@[i as int]);
        }
        if v[i] == c {
            let a = slice_string(&v, 0, i);
            let b = slice_string(&v, i + 1, v.len());
            proof {
                assert(a@ =~= v@.take(i as int) + Seq::<char>::empty());
                assert(b@ =~= v@.skip(i + 1));
            }
            return Some((a, b));
        }
        proof {
            match cut(v@.skip(i + 1), c) {
                Some((a, b)) => {
                    assert(v@.take(i as int) + (seq![v@[i as int]] + a) =~= v@.take(i + 1) + a);
                },
                None => {},
            }
        }
        i = i + 1;
    }
    None
}

/// `s` up to its first `a` or `b`.
pub open spec fn up_to_either(s: Seq<char>, a: char, b: char) -> Seq<char>
    decreases s.len(),
{
    if s.len() == 0 || s[0] == a || s[0] == b {
        Seq::empty()
    } else {
        seq![s[0]] + up_to_either(s.drop_first(), a, b)
    }
}

/// `s` up to its first `a` or `b`.
pub fn until_either(s: &str, a: char, b: char) -> (r: String)
    ensures
        r@ == up_to_either(s@, a, b),
{
    let v = chars_of(s);
    let mut i: usize = 0;
    proof {
        assert(v@.skip(0) =~= v@);
        assert(v@.take(0) + up_to_either(v@.skip(0), a, b) =~= up_to_either(v@, a, b));
    }
    while i < v.len() && v[i] != a && v[i] != b
        invariant
            i <= v.len(),
            v@ == s@,
            v@.take(i as int) + up_to_either(v@.skip(i as int), a, b) =~= up_to_either(s@, a, b),
        decreases v.len() - i,
    {
        proof {
            assert(v@.skip(i as int).drop_first() =~= v@.skip(i + 1));
            assert(v@.take(i + 1) =~= v@.take(i as int) + seq![v@[i as int]]);
        }
        i = i + 1;
    }
    let r = slice_string(&v, 0, i);
    proof {
        assert(r@ =~= v@.take(i as int));
        assert(up_to_either(v@.skip(i as int), a, b) =~= Seq::<char>::empty());
    }
    r
}

/// What follows the last `a` or `b` of `s`; all of `s` when it has neither.
pub open spec fn past_last_either(s: Seq<char>, a: char, b: char) -> Seq<char>
    decreases s.len(),
{
    if s.len() == 0 || s.last() == a || s.last() == b {
        Seq::empty()
    } else {
        past_last_either(s.drop_last(), a, b).push(s.last())
    }
}

/// What follows the last `a` or `b` of `s`; all of `s` when it has neither.
pub fn after_last_either(s: &str, a: char, b: char) -> (r: String)
    ensures
        r@ == past_last_either(s@, a, b),
{
    let v = chars_of(s);
    let mut i: usize = v.len();
    proof {
        assert(v@.take(i as int) =~= v@);
        assert(past_last_either(v@.take(i as int), a, b) + v@.skip(i as int) =~= past_last_either(
            s@,
            a,
            b,
        ));
    }
    while i > 0 && v[i - 1] != a && v[i - 1] != b
        invariant
            i <= v.len(),
            v@ == s@,
            past_last_either(v@.take(i as int), a, b) + v@.skip(i as int) =~= past_last_either(
                s@,
                a,
                b,
            ),
        decreases i,
    {
        proof {
            assert(v@.take(i as int).drop_last() =~= v@.take(i - 1));
            assert(v@.skip(i - 1) =~= seq![v@[i - 1]] + v@.skip(i as int));
        }
        i = i - 1;
    }
    let r = slice_string(&v, i, v.len());
    proof {
        assert(r@ =~= v@.skip(i as int));
        assert(past_last_either(v@.take(i as int), a, b) =~= Seq::<char>::empty());
    }
    r
}

/// The lines of `s` from position `i` on: what stands between line feeds,
/// each without one carriage return at its end; a line feed at the very end
/// opens no further line.
pub open spec fn lines_from(s: Seq<char>, i: int) -> Seq<Seq<char>>
    decreases s.len() - i,
{
    if i < 0 || i >= s.len() {
        Seq::empty()
    } else {
        match find_from(s, seq!['\n'], i) {
            Some(k) => if i <= k < s.len() {
                seq![without_cr(s.subrange(i, k))] + lines_from(s, k + 1)
            } else {
                Seq::empty()
            },
            None => seq![s.skip(i)],
        }
    }
}

/// `s` without one carriage return at its end.
pub open spec fn without_cr(s: Seq<char>) -> Seq<char> {
    if s.len() > 0 && s.last() == '\r' {
        s.drop_last()
    } else {
        s
    }
}

/// The lines of `s`.
pub open spec fn lines_of(s: Seq<char>) -> Seq<Seq<char>> {
    lines_from(s, 0)
}

/// One more line at the end of a text whose last line is complete.
proof fn lemma_lines_append_from(a: Seq<char>, l: Seq<char>, i: int)
    requires
        0 <= i <= a.len(),
        a.len() == 0 || a.last() == '\n',
        !l.contains('\n'),
        l.len() == 0 || l.last() != '\r',
    ensures
        lines_from(a + l + seq!['\n'], i) == lines_from(a, i).push(l),
    decreases a.len() - i,
{
    let s = a + l + seq!['\n'];
    let p = seq!['\n'];
    assert forall|j: int| occurs_at(s, p, j) == (0 <= j < s.len() && s[j] == '\n') by {
        lemma_occurs_one(s, '\n', j);
    }
    assert forall|j: int| occurs_at(a, p, j) == (0 <= j < a.len() && a[j] == '\n') by {
        lemma_occurs_one(a, '\n', j);
    }
    lemma_find_from(s, p, i);
    lemma_find_from(a, p, i);
    assert(s[s.len() - 1] == '\n');
    assert(occurs_at(s, p, s.len() - 1));
    let k = find_from(s, p, i)->0;
    assert(occurs_at(s, p, k));
    if i == a.len() {
        if k < s.len() - 1 {
            assert(l[k - a.len()] == '\n');
            assert(l.contains('\n'));
        }
        assert(s.subrange(i, k) =~= l);
        assert(lines_from(s, k + 1) =~= Seq::empty());
        assert(lines_from(s, i) =~= lines_from(a, i).push(l));
    } else {
        assert(a[a.len() - 1] == '\n');
        assert(occurs_at(a, p, a.len() - 1));
        let ka = find_from(a, p, i)->0;
        assert(occurs_at(a, p, ka));
        assert(s[ka] == a[ka]);
        assert(occurs_at(s, p, ka));
        if k < ka {
            assert(s[k] == a[k]);
            assert(occurs_at(a, p, k));
        }
        assert(k == ka);
        lemma_lines_append_from(a, l, k + 1);
        assert(s.subrange(i, k) =~= a.subrange(i, k));
        assert(lines_from(s, i) =~= lines_from(a, i).push(l));
    }
}

/// A line written at the end of a text is read back behind its other lines.
pub proof fn law_written_line_is_read(a: Seq<char>, l: Seq<char>)
    requires
        a.len() == 0 || a.last() == '\n',
        !l.contains('\n'),
        l.len() == 0 || l.last() != '\r',
    ensures
        lines_of(a + l + seq!['\n']) == lines_of(a).push(l),
{
    lemma_lines_append_from(a, l, 0);
}

/// Splits `s` into its lines.
pub fn lines(s: &str) -> (r: Vec<String>)
    ensures
        texts(r@) == lines_of(s@),
{
    let v = chars_of(s);
    let mut nl: Vec<char> = Vec::new();
    nl.push('\n');
    proof {
        assert(nl@ =~= seq!['\n']);
    }
    let mut out: Vec<String> = Vec::new();
    let mut i: usize = 0;
    proof {
        assert(texts(out@) =~= Seq::<Seq<char>>::empty());
    }
    while i < v.len()
        invariant
            v@ == s@,
            nl@ == seq!['\n'],
            i <= v.len(),
            texts(out@) + lines_from(s@, i as int) =~= lines_of(s@),
        decreases v.len() - i,
    {
        proof {
            lemma_find_from(s@, seq!['\n'], i as int);
        }
        let ghost before = out@;
        match find_at(&v, &nl, i) {
            Some(k) => {
                let hi: usize = if k > i && v[k - 1] == '\r' {
                    k - 1
                } else {
                    k
                };
                out.push(slice_string(&v, i, hi));
                proof {
                    let line = s@.subrange(i as int, k as int);
                    assert(s@.subrange(i as int, hi as int) =~= without_cr(line));
                    assert(texts(out@) =~= texts(before).push(without_cr(line)));
                }
                i = k + 1;
            },
            None => {
                out.push(slice_string(&v, i, v.len()));
                proof {
                    assert(s@.subrange(i as int, v.len() as int) =~= s@.skip(i as int));
                    assert(texts(out@) =~= texts(before).push(s@.skip(i as int)));
                }
                i = v.len();
            },
        }
    }
    out
}

} // verus!
