//! Which meetings are read, kept, shown and joined.

use crate::agenda::{clicked, line_height};
use crate::calendar::{
    by_start, law_agenda_has_not_ended, law_schedule_is_sorted, lemma_no_later, meeting_of,
    meetings_of, no_later, refresh_minutes, relevant, schedule, script_for, soon_from, upcoming,
    MeetingView,
};
use crate::numerals::{decimal, law_decimal_reads_back};
use crate::scene::Sheet;
use crate::text::{
    ascii_lowered, glued, is_white, law_split_undoes_glue, lines_of, occurs_at, trimmed,
};
use crate::text_laws::{
    law_nothing_to_replace, law_single_occurrence_is_replaced, law_trimming_takes_the_ends,
    lemma_trimmed_end, tight,
};
use vstd::prelude::*;

verus! {

// ------------------------------------------------------------------ reading

/// The line that tells of a meeting: its fields with tabs between.
pub open spec fn told(m: MeetingView) -> Seq<char> {
    glued(
        seq![
            decimal(m.start as nat),
            decimal(m.end as nat),
            m.start_hm,
            m.end_hm,
            m.subject,
            m.location,
            m.join_url,
        ],
        seq!['\t'],
    )
}

/// A text that fits in a field.
pub open spec fn fits_a_field(s: Seq<char>) -> bool {
    !s.contains('\t') && tight(s)
}

proof fn lemma_decimal_field(n: nat)
    ensures
        fits_a_field(decimal(n)),
        trimmed(decimal(n)) == decimal(n),
{
    law_decimal_reads_back(n);
    let s = decimal(n);
    if s.contains('\t') {
        let i = choose|i: int| 0 <= i < s.len() && s[i] == '\t';
        assert(s[i] as u32 >= 48);
    }
    assert(48 <= s[0] as u32 <= 57);
    assert(48 <= s[s.len() - 1] as u32 <= 57);
    lemma_tight(s);
}

proof fn lemma_tight(s: Seq<char>)
    requires
        tight(s),
    ensures
        trimmed(s) == s,
{
    let e = Seq::<char>::empty();
    law_trimming_takes_the_ends(e, s, e);
    assert(e + s + e =~= s);
}

/// A line that tells of a meeting is read as that meeting. Its subject and its
/// address are not empty.
pub proof fn law_meeting_is_read(m: MeetingView)
    requires
        fits_a_field(m.subject),
        m.subject.len() > 0,
        fits_a_field(m.location),
        fits_a_field(m.join_url),
        m.join_url.len() > 0,
        !m.start_hm.contains('\t'),
        !m.end_hm.contains('\t'),
    ensures
        meeting_of(told(m)) == Some(m),
{
    let f = seq![
        decimal(m.start as nat),
        decimal(m.end as nat),
        m.start_hm,
        m.end_hm,
        m.subject,
        m.location,
        m.join_url,
    ];
    lemma_decimal_field(m.start as nat);
    lemma_decimal_field(m.end as nat);
    law_decimal_reads_back(m.start as nat);
    law_decimal_reads_back(m.end as nat);
    lemma_tight(m.subject);
    lemma_tight(m.location);
    lemma_tight(m.join_url);
    assert forall|i: int| 0 <= i < f.len() implies !(#[trigger] f[i]).contains('\t') by {}
    law_split_undoes_glue(f, '\t');
    reveal_strlit("\t");
    assert("\t"@ =~= seq!['\t']);
    let line = told(m);
    let e = Seq::<char>::empty();
    assert(line == glued(f.drop_last(), seq!['\t']) + seq!['\t'] + f.last());
    assert(line.last() == m.join_url.last());
    lemma_trimmed_end(line, e);
    assert(line + e =~= line);
}

/// A line with fewer than five fields tells of no meeting.
pub proof fn law_short_line_tells_nothing(f: Seq<Seq<char>>)
    requires
        1 <= f.len() < 5,
        forall|i: int| 0 <= i < f.len() ==> !(#[trigger] f[i]).contains('\t'),
        glued(f, seq!['\t']).len() > 0 ==> !is_white(glued(f, seq!['\t']).last()),
    ensures
        meeting_of(glued(f, seq!['\t'])) is None,
{
    law_split_undoes_glue(f, '\t');
    reveal_strlit("\t");
    assert("\t"@ =~= seq!['\t']);
    let line = glued(f, seq!['\t']);
    let e = Seq::<char>::empty();
    lemma_trimmed_end(line, e);
    assert(line + e =~= line);
}

// ------------------------------------------------------------------ keeping

/// Exactly the meetings that some line tells of are in the schedule.
pub proof fn law_schedule_has_every_meeting(lines: Seq<Seq<char>>, m: MeetingView)
    ensures
        schedule(lines).contains(m) <==> exists|i: int|
            0 <= i < lines.len() && meeting_of(#[trigger] lines[i]) == Some(m),
    decreases lines.len(),
{
    if lines.len() > 0 {
        let front = lines.drop_last();
        law_schedule_has_every_meeting(front, m);
        let a = schedule(front);
        let b = schedule(lines);
        match meeting_of(lines.last()) {
            Some(x) => {
                lemma_no_later(a, x.start);
                let p = no_later(a, x.start);
                assert(b == a.insert(p, x));
                if a.contains(m) {
                    let k = choose|k: int| 0 <= k < a.len() && a[k] == m;
                    if k < p {
                        assert(b[k] == m);
                    } else {
                        assert(b[k + 1] == m);
                    }
                }
                if x == m {
                    assert(b[p] == m);
                }
                if b.contains(m) && x != m {
                    let k = choose|k: int| 0 <= k < b.len() && b[k] == m;
                    if k < p {
                        assert(a[k] == m);
                    } else {
                        assert(a[k - 1] == m);
                    }
                }
            },
            None => {},
        }
        if exists|i: int| 0 <= i < lines.len() && meeting_of(#[trigger] lines[i]) == Some(m) {
            let i = choose|i: int| 0 <= i < lines.len() && meeting_of(#[trigger] lines[i]) == Some(
                m,
            );
            if i < front.len() {
                assert(front[i] == lines[i]);
            }
        }
        if exists|i: int| 0 <= i < front.len() && meeting_of(#[trigger] front[i]) == Some(m) {
            let i = choose|i: int| 0 <= i < front.len() && meeting_of(#[trigger] front[i]) == Some(
                m,
            );
            assert(lines[i] == front[i]);
        }
        if meeting_of(lines.last()) == Some(m) {
            assert(lines[lines.len() - 1] == lines.last());
        }
    }
}

/// Up to twenty meetings are kept, in order of their start, and none that is
/// left out starts before one that is kept.
pub proof fn law_first_meetings_are_kept(text: Seq<char>, i: int, m: MeetingView)
    requires
        0 <= i < meetings_of(text).len(),
    ensures
        meetings_of(text).len() <= 20,
        by_start(meetings_of(text)),
        schedule(lines_of(text)).contains(meetings_of(text)[i]),
        schedule(lines_of(text)).contains(m) && !meetings_of(text).contains(m)
            ==> meetings_of(text).len() == 20 && meetings_of(text)[i].start <= m.start,
{
    let all = schedule(lines_of(text));
    let v = meetings_of(text);
    law_schedule_is_sorted(lines_of(text));
    assert(all[i] == v[i]);
    assert forall|a: int, b: int| 0 <= a < b < v.len() implies (#[trigger] v[a]).start <= (
    #[trigger] v[b]).start by {
        assert(all[a] == v[a] && all[b] == v[b]);
    }
    if all.contains(m) && !v.contains(m) {
        let k = choose|k: int| 0 <= k < all.len() && all[k] == m;
        if k < v.len() {
            assert(v[k] == m);
        }
        assert(all[i].start <= all[k].start);
    }
}

/// The calendar is read again after the minutes that are set, but at least
/// every two hours and at most every minute.
pub proof fn law_refresh_is_limited(n: u32)
    ensures
        1 <= refresh_minutes(n) <= 120,
        1 <= n <= 120 ==> refresh_minutes(n) == n,
        n > 120 ==> refresh_minutes(n) == 120,
        n == 0 ==> refresh_minutes(n) == 1,
{
}

// ------------------------------------------------------------------ showing

/// The agenda shows every meeting that has not ended, and no other.
pub proof fn law_agenda_shows_what_has_not_ended(s: Seq<MeetingView>, now: u64, m: MeetingView)
    ensures
        relevant(s, now).contains(m) <==> s.contains(m) && m.end >= now,
    decreases s.len(),
{
    law_agenda_has_not_ended(s, now);
    if relevant(s, now).contains(m) {
        let k = choose|k: int| 0 <= k < relevant(s, now).len() && relevant(s, now)[k] == m;
        assert(relevant(s, now)[k].end >= now);
        assert(s.contains(m));
    }
    if s.contains(m) && m.end >= now {
        let front = s.drop_last();
        let k = choose|k: int| 0 <= k < s.len() && s[k] == m;
        let r = relevant(front, now);
        if k < front.len() {
            assert(front[k] == m);
            law_agenda_shows_what_has_not_ended(front, now, m);
            let j = choose|j: int| 0 <= j < r.len() && r[j] == m;
            assert(relevant(s, now)[j] == m);
        } else {
            assert(relevant(s, now)[r.len() as int] == m);
        }
    }
}

proof fn lemma_soon(s: Seq<MeetingView>, now: u64, i: int)
    requires
        0 <= i,
    ensures
        match soon_from(s, now, i) {
            Some(k) => i <= k < s.len() && s[k].start <= now + 43_200 && forall|j: int|
                i <= j < k ==> (#[trigger] s[j]).start > now + 43_200,
            None => forall|j: int| i <= j < s.len() ==> (#[trigger] s[j]).start > now + 43_200,
        },
    decreases s.len() - i,
{
    if i < s.len() {
        lemma_soon(s, now, i + 1);
    }
}

/// The next meeting is one that has not ended and starts within twelve hours,
/// and none of those starts before it. Where there is one, one is found.
pub proof fn law_next_meeting_is_the_first(s: Seq<MeetingView>, now: u64, m: MeetingView)
    requires
        by_start(s),
    ensures
        upcoming(s, now) matches Some(x) ==> s.contains(x) && x.end >= now && x.start <= now
            + 43_200,
        s.contains(m) && m.end >= now && m.start <= now + 43_200 ==> (upcoming(
            s,
            now,
        ) matches Some(x) && x.start <= m.start),
{
    let r = relevant(s, now);
    law_agenda_has_not_ended(s, now);
    lemma_soon(r, now, 0);
    law_agenda_shows_what_has_not_ended(s, now, m);
    if let Some(k) = soon_from(r, now, 0) {
        assert(r.contains(r[k]));
        law_agenda_shows_what_has_not_ended(s, now, r[k]);
    }
    if s.contains(m) && m.end >= now && m.start <= now + 43_200 {
        let j = choose|j: int| 0 <= j < r.len() && r[j] == m;
        let k = soon_from(r, now, 0)->0;
        if j < k {
            assert(r[j].start > now + 43_200);
        }
    }
}

/// A click on a row of the agenda joins the meeting of that row, if it has an
/// address.
pub proof fn law_click_joins_the_meeting(list: Seq<MeetingView>, sh: Sheet, y: int, i: int)
    requires
        line_height(sh) > 0,
        0 <= i,
        sh.s(20) + i * line_height(sh) <= y < sh.s(20) + (i + 1) * line_height(sh),
    ensures
        i < list.len() && list[i].join_url.len() > 0 ==> clicked(list, sh, y) == Some(
            list[i].join_url,
        ),
        i < list.len() && list[i].join_url.len() == 0 ==> clicked(list, sh, y) is None,
        i >= list.len() ==> clicked(list, sh, y) is None,
{
    let (h, d) = (line_height(sh), y - sh.s(20));
    assert(i * h >= 0) by (nonlinear_arith)
        requires
            i >= 0,
            h > 0,
    ;
    assert(d / h == i) by (nonlinear_arith)
        requires
            i * h <= d < (i + 1) * h,
            h > 0,
    ;
}

// ------------------------------------------------------------------- asking

/// Outlook is asked with its own script, however it is written; any other
/// source is filled in where the script for calendar files has its mark.
pub proof fn law_source_is_filled_in(
    source: Seq<char>,
    outlook: Seq<char>,
    a: Seq<char>,
    b: Seq<char>,
)
    requires
        !source.contains('\''),
        forall|j: int| j != a.len() ==> !#[trigger] occurs_at(a + "__SRC__"@ + b, "__SRC__"@, j),
    ensures
        ({
            let s = script_for(source, outlook, a + "__SRC__"@ + b);
            if ascii_lowered(source) == "outlook"@ {
                s == outlook
            } else {
                s == a + source + b
            }
        }),
{
    reveal_strlit("__SRC__");
    reveal_strlit("'");
    reveal_strlit("outlook");
    assert(ascii_lowered("outlook"@) =~= "outlook"@);
    assert forall|i: int| !occurs_at(source, "'"@, i) by {
        if occurs_at(source, "'"@, i) {
            assert(source.subrange(i, i + 1)[0] == source[i]);
        }
    }
    law_nothing_to_replace(source, "'"@, "''"@);
    law_single_occurrence_is_replaced(a, "__SRC__"@, b, source);
}

/// A quote in the source is doubled, so that it does not end the text it stands
/// in.
pub proof fn law_quote_is_doubled(
    p: Seq<char>,
    q: Seq<char>,
    outlook: Seq<char>,
    a: Seq<char>,
    b: Seq<char>,
)
    requires
        !p.contains('\''),
        !q.contains('\''),
        forall|j: int| j != a.len() ==> !#[trigger] occurs_at(a + "__SRC__"@ + b, "__SRC__"@, j),
    ensures
        script_for(p + "'"@ + q, outlook, a + "__SRC__"@ + b) == a + (p + "''"@ + q) + b,
{
    reveal_strlit("__SRC__");
    reveal_strlit("'");
    reveal_strlit("outlook");
    let s = p + "'"@ + q;
    assert forall|j: int| j != p.len() implies !#[trigger] occurs_at(s, "'"@, j) by {
        if occurs_at(s, "'"@, j) {
            assert(s.subrange(j, j + 1)[0] == s[j]);
            if j < p.len() {
                assert(p[j] == '\'');
            } else {
                assert(q[j - p.len() - 1] == '\'');
            }
        }
    }
    law_single_occurrence_is_replaced(p, "'"@, q, "''"@);
    let low = ascii_lowered("outlook"@);
    assert(low =~= "outlook"@);
    assert(!low.contains('\''));
    assert(ascii_lowered(s) != low) by {
        assert(s[p.len() as int] == '\'');
        assert(ascii_lowered(s)[p.len() as int] == '\'');
        assert(ascii_lowered(s).contains('\''));
    }
    law_single_occurrence_is_replaced(a, "__SRC__"@, b, p + "''"@ + q);
}

} // verus!
