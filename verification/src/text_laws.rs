//! What trimming, cutting and counting do to texts.

use crate::numerals::{decimal, two_digits};
use crate::text::{
    ascii_lower, is_white, lemma_find_from, occurs_at, replaced, replaced_from, trimmed,
    trimmed_end, trimmed_start, up_to_either,
};
use vstd::prelude::*;

verus! {

/// All of `s` is white space.
pub open spec fn blank(s: Seq<char>) -> bool {
    forall|i: int| 0 <= i < s.len() ==> is_white(#[trigger] s[i])
}

/// `s` has no white space at its ends.
pub open spec fn tight(s: Seq<char>) -> bool {
    s.len() > 0 ==> !is_white(s[0]) && !is_white(s.last())
}

proof fn lemma_trimmed_start(a: Seq<char>, s: Seq<char>)
    requires
        blank(a),
        s.len() > 0 ==> !is_white(s[0]),
    ensures
        trimmed_start(a + s) == s,
    decreases a.len(),
{
    if a.len() == 0 {
        assert(a + s =~= s);
    } else {
        let rest = a.drop_first();
        assert(blank(rest)) by {
            assert forall|i: int| 0 <= i < rest.len() implies is_white(#[trigger] rest[i]) by {
                assert(is_white(a[i + 1]));
            }
        }
        assert(is_white(a[0]));
        lemma_trimmed_start(rest, s);
        assert((a + s).drop_first() =~= rest + s);
    }
}

pub proof fn lemma_trimmed_end(s: Seq<char>, b: Seq<char>)
    requires
        blank(b),
        s.len() > 0 ==> !is_white(s.last()),
    ensures
        trimmed_end(s + b) == s,
    decreases b.len(),
{
    if b.len() == 0 {
        assert(s + b =~= s);
    } else {
        let front = b.drop_last();
        assert(blank(front)) by {
            assert forall|i: int| 0 <= i < front.len() implies is_white(#[trigger] front[i]) by {
                assert(is_white(b[i]));
            }
        }
        assert(is_white(b[b.len() - 1]));
        lemma_trimmed_end(s, front);
        assert((s + b).drop_last() =~= s + front);
    }
}

/// Trimming takes exactly the white space at the ends.
pub proof fn law_trimming_takes_the_ends(a: Seq<char>, s: Seq<char>, b: Seq<char>)
    requires
        blank(a),
        blank(b),
        tight(s),
    ensures
        trimmed(a + s + b) == s,
{
    if s.len() > 0 {
        assert(a + s + b =~= a + (s + b));
        assert((s + b)[0] == s[0]);
        lemma_trimmed_start(a, s + b);
        lemma_trimmed_end(s, b);
    } else {
        let all = a + s + b;
        assert(blank(all)) by {
            assert forall|i: int| 0 <= i < all.len() implies is_white(#[trigger] all[i]) by {
                if i < a.len() {
                    assert(is_white(a[i]));
                } else {
                    assert(is_white(b[i - a.len()]));
                }
            }
        }
        assert(all + Seq::<char>::empty() =~= all);
        lemma_trimmed_start(all, Seq::empty());
        assert(s =~= Seq::empty());
    }
}

/// Among the characters of ASCII the blank and those from tab to carriage return
/// are white space.
pub proof fn law_ascii_white_space(c: char)
    requires
        (c as u32) < 128,
    ensures
        is_white(c) <==> c == ' ' || c == '\t' || c == '\n' || c == '\r' || c as u32 == 11 || c
            as u32 == 12,
{
}

/// Lowering changes the capital letters of ASCII alone, each to its small one.
pub proof fn law_ascii_letters_are_lowered(c: char)
    ensures
        'A' <= c && c <= 'Z' ==> ascii_lower(c) as u32 == c as u32 + 32,
        !('A' <= c && c <= 'Z') ==> ascii_lower(c) == c,
{
    if 'A' <= c && c <= 'Z' {
        let n = c as u32;
        assert(65 <= n <= 90);
        assert(((n + 32) as u8) as u32 == n + 32);
    }
}

/// A text in which the pattern does not occur is not changed by replacing it.
pub proof fn law_nothing_to_replace(s: Seq<char>, pat: Seq<char>, to: Seq<char>)
    requires
        forall|i: int| !occurs_at(s, pat, i),
    ensures
        replaced(s, pat, to) == s,
{
    lemma_find_from(s, pat, 0);
    assert(s.skip(0) =~= s);
}

/// The first occurrence of a pattern is replaced, and so are those in the rest.
pub proof fn law_first_occurrence_is_replaced(
    s: Seq<char>,
    pat: Seq<char>,
    to: Seq<char>,
    i: int,
    k: int,
)
    requires
        pat.len() > 0,
        0 <= i <= k,
        occurs_at(s, pat, k),
        forall|j: int| i <= j < k ==> !occurs_at(s, pat, j),
    ensures
        replaced_from(s, pat, to, i) == s.subrange(i, k) + to + replaced_from(
            s,
            pat,
            to,
            k + pat.len(),
        ),
{
    lemma_find_from(s, pat, i);
}

/// Where a pattern stands once, it alone is replaced.
pub proof fn law_single_occurrence_is_replaced(
    a: Seq<char>,
    pat: Seq<char>,
    b: Seq<char>,
    to: Seq<char>,
)
    requires
        pat.len() > 0,
        forall|j: int| j != a.len() ==> !#[trigger] occurs_at(a + pat + b, pat, j),
    ensures
        replaced(a + pat + b, pat, to) == a + to + b,
{
    let s = a + pat + b;
    let k = a.len() as int;
    assert(s.subrange(k, k + pat.len()) =~= pat);
    assert(occurs_at(s, pat, k));
    law_first_occurrence_is_replaced(s, pat, to, 0, k);
    lemma_find_from(s, pat, k + pat.len());
    assert(s.skip(k + pat.len()) =~= b);
    assert(s.subrange(0, k) =~= a);
    assert(a + to + b =~= a + to + s.skip(k + pat.len()));
}

/// What stands before the first of two separators.
pub proof fn law_text_up_to_either(head: Seq<char>, a: char, b: char, rest: Seq<char>)
    requires
        !head.contains(a),
        !head.contains(b),
    ensures
        up_to_either(head + seq![a] + rest, a, b) == head,
        up_to_either(head + seq![b] + rest, a, b) == head,
        up_to_either(head, a, b) == head,
    decreases head.len(),
{
    if head.len() == 0 {
        assert(up_to_either(head + seq![a] + rest, a, b) =~= head);
        assert(up_to_either(head + seq![b] + rest, a, b) =~= head);
        assert(up_to_either(head, a, b) =~= head);
    } else {
        let t = head.drop_first();
        assert(!t.contains(a) && !t.contains(b)) by {
            if t.contains(a) {
                let i = choose|i: int| 0 <= i < t.len() && t[i] == a;
                assert(head[i + 1] == a);
            }
            if t.contains(b) {
                let i = choose|i: int| 0 <= i < t.len() && t[i] == b;
                assert(head[i + 1] == b);
            }
        }
        law_text_up_to_either(t, a, b, rest);
        assert(head.contains(head[0]));
        let x = head + seq![a] + rest;
        let y = head + seq![b] + rest;
        assert(x.drop_first() =~= t + seq![a] + rest);
        assert(y.drop_first() =~= t + seq![b] + rest);
        assert(seq![head[0]] + t =~= head);
        assert(up_to_either(x, a, b) == seq![x[0]] + up_to_either(x.drop_first(), a, b));
        assert(up_to_either(y, a, b) == seq![y[0]] + up_to_either(y.drop_first(), a, b));
        assert(up_to_either(head, a, b) == seq![head[0]] + up_to_either(t, a, b));
    }
}

/// A number below a hundred is written with exactly two digits.
pub proof fn law_two_digits_are_two(n: nat)
    requires
        n < 100,
    ensures
        two_digits(n).len() == 2,
        two_digits(n)[0] as u32 == 48 + n / 10,
        two_digits(n)[1] as u32 == 48 + n % 10,
{
    if n >= 10 {
        let t = decimal(n / 10);
        assert(n / 10 < 10);
        assert(t.len() == 1);
        assert(decimal(n) == t.push(crate::numerals::digit_char((n % 10) as int)));
    }
}

} // verus!
