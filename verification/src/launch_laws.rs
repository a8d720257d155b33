//! What a line typed in the launcher finds, and in which order.

use crate::config::EntryView;
use crate::launcher::{
    ahead, browsing, fit, found, group_names, law_ranking_is_sorted, lemma_spot, loose, members,
    nav, query_of, ranking, spot, started, Rank, Row, RowList,
};
use crate::search::{embeds, fuzzy, law_match_is_a_subsequence, solid};
use crate::strmap::lex_lt;
use crate::text::{
    begins, char_lowercase, chars_lowercase, has_text, is_white, lowercase, occurs_at, trimmed,
};
use crate::text_laws::{law_ascii_white_space, law_trimming_takes_the_ends, tight};
use crate::usage::{key_of, one_more, score_of};
use vstd::prelude::*;

verus! {

// ------------------------------------------------------------------ finding

/// `part` stands somewhere in `s`, in one piece.
pub open spec fn within(s: Seq<char>, part: Seq<char>) -> bool {
    exists|i: int|
        0 <= i && i + part.len() <= s.len() && #[trigger] s.subrange(i, i + part.len()) == part
}

/// `s` starts with `part`.
pub open spec fn leads(s: Seq<char>, part: Seq<char>) -> bool {
    part.len() <= s.len() && s.take(part.len() as int) == part
}

/// The characters of `query`, white space left out, stand in that order in the
/// name, the group and the command of an entry, all of it in lower case.
pub open spec fn in_order(e: EntryView, query: Seq<char>) -> bool {
    ordered(
        chars_lowercase(query).filter(|c: char| !is_white(c)),
        chars_lowercase(e.name) + chars_lowercase(" "@) + chars_lowercase(e.group)
            + chars_lowercase(" "@) + chars_lowercase(e.command),
    )
}

/// All of `needle` stands in `hay`, in its order.
pub open spec fn ordered(needle: Seq<char>, hay: Seq<char>) -> bool {
    exists|at: Seq<int>| embeds(at, needle, hay)
}

proof fn lemma_within(s: Seq<char>, part: Seq<char>)
    ensures
        has_text(s, part) <==> within(s, part),
        begins(s, part) <==> leads(s, part),
{
    if has_text(s, part) {
        let i = choose|i: int| occurs_at(s, part, i);
        assert(s.subrange(i, i + part.len()) =~= part);
    }
    if within(s, part) {
        let i = choose|i: int|
            0 <= i && i + part.len() <= s.len() && #[trigger] s.subrange(i, i + part.len()) == part;
        assert(occurs_at(s, part, i));
    }
    if begins(s, part) {
        assert(s.take(part.len() as int) =~= part);
    }
    if leads(s, part) {
        assert(occurs_at(s, part, 0));
    }
}

/// Lowering character by character goes through a text from end to end.
pub proof fn law_lowering_goes_through(a: Seq<char>, b: Seq<char>, c: char)
    ensures
        chars_lowercase(a + b) == chars_lowercase(a) + chars_lowercase(b),
        chars_lowercase(seq![c]) == char_lowercase(c),
    decreases b.len(),
{
    assert(seq![c].drop_last() =~= Seq::<char>::empty());
    assert(chars_lowercase(Seq::<char>::empty()) =~= Seq::empty());
    assert(chars_lowercase(seq![c]) =~= char_lowercase(c));
    if b.len() == 0 {
        assert(a + b =~= a);
    } else {
        law_lowering_goes_through(a, b.drop_last(), c);
        assert((a + b).drop_last() =~= a + b.drop_last());
        assert(chars_lowercase(a + b) =~= chars_lowercase(a) + chars_lowercase(b));
    }
}

/// Exactly the white space is left out of what is looked for.
pub proof fn law_white_space_is_left_out(s: Seq<char>)
    ensures
        solid(s) == s.filter(|c: char| !is_white(c)),
    decreases s.len(),
{
    reveal(Seq::filter);
    if s.len() > 0 {
        law_white_space_is_left_out(s.drop_last());
    }
}

/// The characters of `query`, white space left out, stand in that order in
/// `hay`, all of it in lower case.
pub open spec fn in_words(hay: Seq<char>, query: Seq<char>) -> bool {
    ordered(chars_lowercase(query).filter(|c: char| !is_white(c)), chars_lowercase(hay))
}

pub proof fn lemma_in_words(hay: Seq<char>, query: Seq<char>)
    ensures
        fuzzy(hay, query) <==> in_words(hay, query),
{
    law_white_space_is_left_out(chars_lowercase(query));
    law_match_is_a_subsequence(solid(chars_lowercase(query)), chars_lowercase(hay));
}

proof fn lemma_in_order(e: EntryView, query: Seq<char>)
    ensures
        fuzzy(e.name + " "@ + e.group + " "@ + e.command, query) <==> in_order(e, query),
{
    let hay = e.name + " "@ + e.group + " "@ + e.command;
    law_lowering_goes_through(e.name + " "@ + e.group + " "@, e.command, ' ');
    law_lowering_goes_through(e.name + " "@ + e.group, " "@, ' ');
    law_lowering_goes_through(e.name + " "@, e.group, ' ');
    law_lowering_goes_through(e.name, " "@, ' ');
    lemma_in_words(hay, query);
}

/// An entry fits exactly where nothing is looked for, or its name or group has
/// the query in it, or the query is in order in its name, group and command.
pub proof fn law_what_fits(e: EntryView, query: Seq<char>)
    ensures
        fit(e, query) is Some <==> query.len() == 0 || within(lowercase(e.name), query) || within(
            lowercase(e.group),
            query,
        ) || in_order(e, query),
        within(lowercase(e.name), query) || within(lowercase(e.group), query) ==> (fit(
            e,
            query,
        ) matches Some(n) && n <= 2),
{
    lemma_in_order(e, query);
    lemma_within(lowercase(e.name), query);
    lemma_within(lowercase(e.group), query);
}

/// The fit is best for a name that starts with the query, then for a group that
/// does, then for a name or a group that has it elsewhere, and last for one
/// that has its characters in order.
pub proof fn law_how_well_it_fits(e: EntryView, query: Seq<char>)
    requires
        query.len() > 0,
    ensures
        ({
            let name = lowercase(e.name);
            let group = lowercase(e.group);
            &&& fit(e, query) == Some(0u32) <==> leads(name, query)
            &&& fit(e, query) == Some(1u32) <==> leads(group, query) && !leads(name, query)
            &&& fit(e, query) == Some(2u32) <==> (within(name, query) || within(group, query))
                && !leads(name, query) && !leads(group, query)
            &&& fit(e, query) == Some(3u32) <==> in_order(e, query) && !within(name, query)
                && !within(group, query)
        }),
{
    lemma_in_order(e, query);
    lemma_within(lowercase(e.name), query);
    lemma_within(lowercase(e.group), query);
    let name = lowercase(e.name);
    let group = lowercase(e.group);
    if leads(name, query) {
        assert(name.subrange(0, 0 + query.len() as int) =~= query);
    }
    if leads(group, query) {
        assert(group.subrange(0, 0 + query.len() as int) =~= query);
    }
}

/// A typed line finds exactly the entries that have it, trimmed and in lower
/// case, in their name or group, or in order in name, group and command; an
/// empty line finds all.
pub proof fn law_line_finds(
    all: Seq<EntryView>,
    usage: Map<Seq<char>, (u32, u64)>,
    now: u64,
    typed: Seq<char>,
    i: usize,
)
    requires
        all.len() <= usize::MAX,
    ensures
        found(all, usage, now, typed).contains(i) <==> i < all.len() && ({
            let line = trimmed(typed);
            let e = all[i as int];
            ||| line.len() == 0
            ||| lowercase(line).len() == 0
            ||| within(lowercase(e.name), lowercase(line))
            ||| within(lowercase(e.group), lowercase(line))
            ||| in_order(e, lowercase(line))
        }),
{
    let q = query_of(typed);
    let ranks = ranking(all, usage, now, q);
    let list = found(all, usage, now, typed);
    law_ranking_is_sorted(all, usage, now, q);
    if i < all.len() {
        law_what_fits(all[i as int], q);
        if fit(all[i as int], q) is Some {
            let k = choose|k: int| 0 <= k < ranks.len() && (#[trigger] ranks[k]).index == i;
            assert(list[k] == i);
        }
    }
    if list.contains(i) {
        let k = choose|k: int| 0 <= k < list.len() && list[k] == i;
        assert(ranks[k].index == i);
    }
}

// ----------------------------------------------------------------- ordering

proof fn lemma_rank_of(
    all: Seq<EntryView>,
    usage: Map<Seq<char>, (u32, u64)>,
    now: u64,
    query: Seq<char>,
    k: int,
)
    requires
        all.len() <= usize::MAX,
        0 <= k < ranking(all, usage, now, query).len(),
    ensures
        ({
            let r = ranking(all, usage, now, query)[k];
            let e = all[r.index as int];
            &&& r.index < all.len()
            &&& fit(e, query) == Some(r.fit)
            &&& r.score == score_of(usage, e, now)
            &&& r.name == lowercase(e.name)
        }),
    decreases all.len(),
{
    let front = all.drop_last();
    let rest = ranking(front, usage, now, query);
    let e = all.last();
    match fit(e, query) {
        Some(f) => {
            let x = Rank {
                fit: f,
                score: score_of(usage, e, now) as u64,
                name: lowercase(e.name),
                index: (all.len() - 1) as usize,
            };
            let p = spot(rest, x);
            lemma_spot(rest, x);
            lemma_score(usage, e, now);
            if k < p {
                lemma_rank_of(front, usage, now, query, k);
                assert(front[rest[k].index as int] == all[rest[k].index as int]);
            } else if k > p {
                lemma_rank_of(front, usage, now, query, k - 1);
                assert(front[rest[k - 1].index as int] == all[rest[k - 1].index as int]);
            }
        },
        None => {
            lemma_rank_of(front, usage, now, query, k);
            assert(front[rest[k].index as int] == all[rest[k].index as int]);
        },
    }
}

proof fn lemma_score(m: Map<Seq<char>, (u32, u64)>, e: EntryView, now: u64)
    ensures
        0 <= score_of(m, e, now) <= 800,
{
    assert(forall|c: int, r: int|
        0 <= c <= 100 && 1 <= r <= 8 ==> 0 <= #[trigger] (c * r) <= 800) by (nonlinear_arith);
}

/// Of two entries that were found, the one before fits no worse. Of two that
/// fit alike it was used no less, of two used alike its name comes no later,
/// and of two with one name it is configured before.
pub proof fn law_better_entries_come_first(
    all: Seq<EntryView>,
    usage: Map<Seq<char>, (u32, u64)>,
    now: u64,
    typed: Seq<char>,
    i: int,
    j: int,
)
    requires
        all.len() <= usize::MAX,
        0 <= i < j < found(all, usage, now, typed).len(),
    ensures
        ({
            let list = found(all, usage, now, typed);
            let a = all[list[i] as int];
            let b = all[list[j] as int];
            let fa = fit(a, query_of(typed))->0;
            let fb = fit(b, query_of(typed))->0;
            let sa = score_of(usage, a, now);
            let sb = score_of(usage, b, now);
            &&& list[i] < all.len() && list[j] < all.len()
            &&& fa <= fb
            &&& fa == fb ==> sa >= sb
            &&& fa == fb && sa == sb ==> !lex_lt(lowercase(b.name), lowercase(a.name))
            &&& fa == fb && sa == sb && lowercase(a.name) == lowercase(b.name) ==> list[i]
                < list[j]
        }),
{
    let q = query_of(typed);
    let ranks = ranking(all, usage, now, q);
    law_ranking_is_sorted(all, usage, now, q);
    lemma_rank_of(all, usage, now, q, i);
    lemma_rank_of(all, usage, now, q, j);
    let (a, b) = (ranks[i], ranks[j]);
    assert(!ahead(b, a) && (ahead(a, b) || a.index < b.index));
    if a.name == b.name {
        crate::strmap::lemma_lex_irreflexive(a.name);
    }
}

// -------------------------------------------------------------------- usage

/// What is launched often and lately counts most: up to a hundred launches
/// count, eightfold within an hour of the last one, fourfold within a day,
/// twofold within a week, and once after that. What was never launched counts
/// nothing.
pub proof fn law_use_counts(
    m: Map<Seq<char>, (u32, u64)>,
    e: EntryView,
    now: u64,
    count: u32,
    last: u64,
)
    requires
        m.contains_key(key_of(e)) ==> m[key_of(e)] == (count, last),
    ensures
        !m.contains_key(key_of(e)) ==> score_of(m, e, now) == 0,
        m.contains_key(key_of(e)) && count <= 100 ==> {
            let n = score_of(m, e, now);
            &&& now < last + 3_600 ==> n == 8 * count
            &&& last + 3_600 <= now < last + 86_400 ==> n == 4 * count
            &&& last + 86_400 <= now < last + 604_800 ==> n == 2 * count
            &&& last + 604_800 <= now ==> n == count
        },
        m.contains_key(key_of(e)) && count > 100 ==> score_of(m, e, now) == score_of(
            m.insert(key_of(e), (100u32, last)),
            e,
            now,
        ),
{
    if m.contains_key(key_of(e)) && count <= 100 {
        let age: int = if now > last {
            now - last
        } else {
            0
        };
        assert(score_of(m, e, now) == count as int * crate::usage::recency(age));
    }
}

/// A launch is counted once more.
pub proof fn law_launch_is_counted(m: Map<Seq<char>, (u32, u64)>, k: Seq<char>)
    ensures
        !m.contains_key(k) ==> one_more(m, k) == 1,
        m.contains_key(k) && m[k].0 < u32::MAX ==> one_more(m, k) == m[k].0 + 1,
        m.contains_key(k) ==> one_more(m, k) >= m[k].0,
{
}

// ----------------------------------------------------------------- browsing

/// Among the frequent ones are the first entries of the list that were
/// launched at all, up to the number that is asked for.
pub proof fn law_frequent_entries_were_launched(
    list: Seq<usize>,
    all: Seq<EntryView>,
    usage: Map<Seq<char>, (u32, u64)>,
    now: u64,
    n: nat,
    i: usize,
)
    ensures
        ({
            let top = started(list, all, usage, now, n);
            &&& top.len() <= n
            &&& top.contains(i) ==> list.contains(i) && score_of(usage, all[i as int], now) > 0
            &&& list.contains(i) && score_of(usage, all[i as int], now) > 0 && top.len() < n
                ==> top.contains(i)
        }),
    decreases list.len(),
{
    if list.len() > 0 {
        let front = list.drop_last();
        law_frequent_entries_were_launched(front, all, usage, now, n, i);
        let a = started(front, all, usage, now, n);
        let b = started(list, all, usage, now, n);
        if b.contains(i) {
            let k = choose|k: int| 0 <= k < b.len() && b[k] == i;
            if k < a.len() {
                assert(a[k] == i);
                let j = choose|j: int| 0 <= j < front.len() && front[j] == i;
                assert(list[j] == i);
            } else {
                assert(list[list.len() - 1] == i);
            }
        }
        if list.contains(i) && score_of(usage, all[i as int], now) > 0 && b.len() < n {
            let j = choose|j: int| 0 <= j < list.len() && list[j] == i;
            if j < front.len() {
                assert(front[j] == i);
                let k = choose|k: int| 0 <= k < a.len() && a[k] == i;
                assert(b[k] == i);
            } else {
                assert(b[b.len() - 1] == i);
            }
        }
    }
}

proof fn lemma_rows_grow(r: RowList, list: Seq<usize>, indented: bool)
    ensures
        ({
            let e = r.entries(list, indented);
            &&& e.rows.len() == r.rows.len() + list.len()
            &&& forall|k: int| 0 <= k < r.rows.len() ==> #[trigger] e.rows[k] == r.rows[k]
        }),
    decreases list.len(),
{
    if list.len() > 0 {
        lemma_rows_grow(r, list.drop_last(), indented);
    }
}

proof fn lemma_groups_grow(
    r: RowList,
    groups: Seq<Seq<char>>,
    list: Seq<usize>,
    all: Seq<EntryView>,
)
    ensures
        ({
            let e = r.groups(groups, list, all);
            &&& e.rows.len() >= r.rows.len()
            &&& forall|k: int| 0 <= k < r.rows.len() ==> #[trigger] e.rows[k] == r.rows[k]
        }),
    decreases groups.len(),
{
    if groups.len() > 0 {
        let front = groups.drop_last();
        lemma_groups_grow(r, front, list, all);
        let a = r.groups(front, list, all).header(groups.last());
        lemma_rows_grow(a, members(list, all, groups.last()), true);
    }
}

/// Where entries are grouped and at least two were launched, the list begins
/// with the frequent ones, up to five of them.
pub proof fn law_frequent_entries_come_first(
    list: Seq<usize>,
    all: Seq<EntryView>,
    usage: Map<Seq<char>, (u32, u64)>,
    now: u64,
)
    requires
        group_names(list, all).len() > 0,
        started(list, all, usage, now, 5).len() >= 2,
    ensures
        ({
            let rows = browsing(list, all, usage, now).rows;
            let top = started(list, all, usage, now, 5);
            &&& rows.len() > top.len()
            &&& rows[0] == Row::Header("frequent"@)
            &&& forall|k: int|
                0 <= k < top.len() ==> rows[k + 1] == Row::Entry(
                    k,
                    (#[trigger] top[k]) as int,
                    false,
                )
        }),
{
    let none = RowList { rows: Seq::empty(), ord: 0 };
    let groups = group_names(list, all);
    let top = started(list, all, usage, now, 5);
    let head = none.header("frequent"@);
    let a = head.entries(top, false);
    lemma_entry_rows(head, top);
    let free = loose(list, all);
    let b = if free.len() > 0 {
        a.header("ungrouped"@)
    } else {
        a
    };
    lemma_rows_grow(b, free, false);
    let c = b.entries(free, false);
    lemma_groups_grow(c, groups, list, all);
    let rows = browsing(list, all, usage, now).rows;
    assert forall|k: int| 0 <= k < a.rows.len() implies #[trigger] rows[k] == a.rows[k] by {
        assert(b.rows[k] == a.rows[k]);
        assert(c.rows[k] == b.rows[k]);
    }
    assert(a.rows[0] == head.rows[0]);
    assert forall|k: int| 0 <= k < top.len() implies rows[k + 1] == Row::Entry(
        k,
        (#[trigger] top[k]) as int,
        false,
    ) by {
        assert(a.rows[head.rows.len() + k] == Row::Entry(k, top[k] as int, false));
    }
}

proof fn lemma_entry_rows(r: RowList, list: Seq<usize>)
    ensures
        ({
            let e = r.entries(list, false);
            &&& e.rows.len() == r.rows.len() + list.len()
            &&& e.ord == r.ord + list.len()
            &&& forall|k: int| 0 <= k < r.rows.len() ==> #[trigger] e.rows[k] == r.rows[k]
            &&& forall|k: int|
                0 <= k < list.len() ==> e.rows[r.rows.len() + k] == Row::Entry(
                    r.ord + k,
                    (#[trigger] list[k]) as int,
                    false,
                )
        }),
    decreases list.len(),
{
    if list.len() > 0 {
        let front = list.drop_last();
        lemma_entry_rows(r, front);
        assert forall|k: int| 0 <= k < list.len() implies r.entries(list, false).rows[r.rows.len()
            + k] == Row::Entry(r.ord + k, (#[trigger] list[k]) as int, false) by {
            if k < front.len() {
                assert(front[k] == list[k]);
            }
        }
    }
}

/// Under the header of a group stand exactly the entries of that group, in
/// whatever case it is written; those without a group stand alone.
pub proof fn law_groups_have_their_members(
    list: Seq<usize>,
    all: Seq<EntryView>,
    group: Seq<char>,
    i: usize,
)
    ensures
        members(list, all, group).contains(i) <==> list.contains(i) && all[i as int].group.len() > 0
            && lowercase(all[i as int].group) == group,
        loose(list, all).contains(i) <==> list.contains(i) && all[i as int].group.len() == 0,
    decreases list.len(),
{
    if list.len() > 0 {
        let front = list.drop_last();
        let last = list.last();
        law_groups_have_their_members(front, all, group, i);
        assert(list.contains(i) <==> front.contains(i) || last == i) by {
            lemma_pushed(front, last, i);
            assert(front.push(last) =~= list);
        }
        lemma_pushed(members(front, all, group), last, i);
        lemma_pushed(loose(front, all), last, i);
    }
}

proof fn lemma_pushed(s: Seq<usize>, a: usize, i: usize)
    ensures
        s.push(a).contains(i) <==> s.contains(i) || a == i,
{
    if s.contains(i) {
        let k = choose|k: int| 0 <= k < s.len() && s[k] == i;
        assert(s.push(a)[k] == i);
    }
    assert(s.push(a)[s.len() as int] == a);
    if s.push(a).contains(i) && a != i {
        let k = choose|k: int| 0 <= k < s.push(a).len() && s.push(a)[k] == i;
        assert(s[k] == i);
    }
}

/// Going through the entries follows the rows from top to bottom.
pub proof fn law_navigation_follows_the_rows(rows: Seq<Row>, k: int)
    requires
        0 <= k < rows.len(),
        rows[k] is Entry,
    ensures
        ({
            let n = nav(rows.take(k)).len() as int;
            n < nav(rows).len() && (rows[k] matches Row::Entry(_, i, _) && nav(rows)[n] == i)
        }),
    decreases rows.len(),
{
    let front = rows.drop_last();
    if k == rows.len() - 1 {
        assert(rows.take(k) =~= front);
    } else {
        law_navigation_follows_the_rows(front, k);
        assert(front.take(k) =~= rows.take(k));
        assert(front[k] == rows[k]);
    }
}

/// An entry without arguments is counted under its command alone, trimmed and
/// in lower case.
pub proof fn law_use_is_counted_by_command(e: EntryView)
    requires
        e.args.len() == 0,
        tight(e.command),
        e.command.len() > 0,
    ensures
        key_of(e) == lowercase(e.command),
{
    reveal_strlit(" ");
    let b = " "@;
    law_ascii_white_space(' ');
    let none = Seq::<char>::empty();
    law_trimming_takes_the_ends(none, e.command, b);
    assert(none + e.command + b =~= e.command + b + e.args);
}

} // verus!
