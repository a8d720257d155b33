//! How often and how recently the apps of the launcher were started.

use crate::config::{EntryView, LauncherEntry};
use crate::numerals::{decimal, law_decimal_reads_back, number, read_number, show};
use crate::strmap::{pairs_map, StrMap};
use crate::text::{
    cut, joined3, law_written_line_is_read, lemma_cut, lines, lines_of, lowercase, split_once, texts,
    to_lowercase, trim, trimmed,
};
use vstd::prelude::*;

verus! {

/// What an entry is counted under: what it runs, so that renaming and moving
/// keep its history.
pub open spec fn key_of(e: EntryView) -> Seq<char> {
    lowercase(trimmed(e.command + " "@ + e.args))
}

pub fn usage_key(e: &LauncherEntry) -> (r: String)
    ensures
        r@ == key_of(e@),
{
    let line = joined3(e.command.as_str(), " ", e.args.as_str());
    let cut = trim(line.as_str());
    to_lowercase(cut.as_str())
}

/// One line of the record: count, time and key, with tabs between them; none
/// when it is not of that form.
pub open spec fn use_of(line: Seq<char>) -> Option<(Seq<char>, (u32, u64))> {
    match cut(line, '\t') {
        Some((c, rest)) => match cut(rest, '\t') {
            Some((t, k)) => match (
                number(c, 10, u32::MAX as int),
                number(t, 10, u64::MAX as int),
            ) {
                (Some(count), Some(last)) => Some((k, (count as u32, last as u64))),
                _ => None,
            },
            None => None,
        },
        None => None,
    }
}

/// The record that lines hold; of two lines with one key the later counts.
pub open spec fn record_of(lines: Seq<Seq<char>>) -> Map<Seq<char>, (u32, u64)>
    decreases lines.len(),
{
    if lines.len() == 0 {
        Map::empty()
    } else {
        let rest = record_of(lines.drop_last());
        match use_of(lines.last()) {
            Some((k, u)) => rest.insert(k, u),
            None => rest,
        }
    }
}

fn read_use(line: &str) -> (r: Option<(String, (u32, u64))>)
    ensures
        match r {
            Some((k, u)) => use_of(line@) == Some((k@, u)),
            None => use_of(line@) is None,
        },
{
    let (c, rest) = match split_once(line, '\t') {
        Some(p) => p,
        None => {
            return None;
        },
    };
    let (t, k) = match split_once(rest.as_str(), '\t') {
        Some(p) => p,
        None => {
            return None;
        },
    };
    match (read_number(c.as_str(), 10, 0xFFFF_FFFF), read_number(t.as_str(), 10, u64::MAX)) {
        (Some(count), Some(last)) => Some((k, (count as u32, last))),
        _ => None,
    }
}

/// Reads the record.
pub fn read_usage(text: &str) -> (r: StrMap<(u32, u64)>)
    ensures
        r.wf(),
        r@ == record_of(lines_of(text@)),
{
    let all = lines(text);
    let mut r: StrMap<(u32, u64)> = StrMap::new();
    let mut i: usize = 0;
    let ghost ls = texts(all@);
    proof {
        assert(ls.take(0) =~= Seq::empty());
    }
    while i < all.len()
        invariant
            i <= all.len(),
            ls == texts(all@),
            r.wf(),
            r@ == record_of(ls.take(i as int)),
        decreases all.len() - i,
    {
        proof {
            assert(ls.take(i + 1).drop_last() =~= ls.take(i as int));
            assert(ls[i as int] == all@[i as int]@);
        }
        match read_use(all[i].as_str()) {
            Some((k, u)) => {
                r.insert(k, u);
            },
            None => {},
        }
        i = i + 1;
    }
    proof {
        assert(ls.take(i as int) =~= ls);
    }
    r
}

/// One line of the record.
pub open spec fn use_line(k: Seq<char>, u: (u32, u64)) -> Seq<char> {
    decimal(u.0 as nat) + seq!['\t'] + (decimal(u.1 as nat) + seq!['\t'] + k)
}

/// The record as it is written.
pub open spec fn record_text(pairs: Seq<(Seq<char>, (u32, u64))>) -> Seq<char>
    decreases pairs.len(),
{
    if pairs.len() == 0 {
        Seq::empty()
    } else {
        record_text(pairs.drop_last()) + use_line(pairs.last().0, pairs.last().1) + seq!['\n']
    }
}

/// Writes the record.
pub fn write_usage(m: &StrMap<(u32, u64)>) -> (r: String)
    ensures
        r@ == record_text(m.pairs()),
{
    let mut out = String::new();
    let mut i: usize = 0;
    let ghost ps = m.pairs();
    proof {
        assert(ps.take(0) =~= Seq::empty());
    }
    while i < m.entries.len()
        invariant
            i <= m.entries.len(),
            ps == m.pairs(),
            out@ == record_text(ps.take(i as int)),
        decreases m.entries.len() - i,
    {
        let ghost before = out@;
        let e = &m.entries[i];
        let count = show(e.1.0 as u64);
        let last = show(e.1.1);
        out.append(count.as_str());
        out.push('\t');
        out.append(last.as_str());
        out.push('\t');
        out.append(e.0.as_str());
        out.push('\n');
        proof {
            assert(ps.take(i + 1).drop_last() =~= ps.take(i as int));
            assert(ps[i as int] == (e.0@, e.1));
            assert(out@ =~= before + use_line(e.0@, e.1) + seq!['\n']);
        }
        i = i + 1;
    }
    proof {
        assert(ps.take(i as int) =~= ps);
    }
    out
}

/// The count after one more start.
pub open spec fn one_more(m: Map<Seq<char>, (u32, u64)>, k: Seq<char>) -> u32 {
    if !m.contains_key(k) {
        1
    } else if m[k].0 == u32::MAX {
        u32::MAX
    } else {
        (m[k].0 + 1) as u32
    }
}

/// Counts a start of the entry.
pub fn record_launch(m: &mut StrMap<(u32, u64)>, e: &LauncherEntry, now: u64)
    requires
        old(m).wf(),
    ensures
        final(m).wf(),
        final(m)@ == old(m)@.insert(key_of(e@), (one_more(old(m)@, key_of(e@)), now)),
{
    let k = usage_key(e);
    let count: u32 = match m.get(k.as_str()) {
        Some(u) => u.0.saturating_add(1),
        None => 1,
    };
    m.insert(k, (count, now));
}

/// How much a start counts by its age in seconds.
pub open spec fn recency(age: int) -> int {
    if age < 3600 {
        8
    } else if age < 86_400 {
        4
    } else if age < 7 * 86_400 {
        2
    } else {
        1
    }
}

/// The score of an entry: how often it was started, up to a hundred times,
/// weighted by how recently.
pub open spec fn score_of(m: Map<Seq<char>, (u32, u64)>, e: EntryView, now: u64) -> int {
    if m.contains_key(key_of(e)) {
        let u = m[key_of(e)];
        let count = if u.0 < 100 {
            u.0 as int
        } else {
            100
        };
        let age = if now > u.1 {
            now - u.1
        } else {
            0
        };
        count * recency(age)
    } else {
        0
    }
}

/// The score of an entry.
pub fn usage_score(m: &StrMap<(u32, u64)>, e: &LauncherEntry, now: u64) -> (r: u64)
    requires
        m.wf(),
    ensures
        r == score_of(m@, e@, now),
        r <= 800,
{
    let k = usage_key(e);
    let (count, last) = match m.get(k.as_str()) {
        Some(u) => (u.0, u.1),
        None => {
            return 0;
        },
    };
    let age: u64 = now.saturating_sub(last);
    let weight: u64 = if age < 3600 {
        8
    } else if age < 86_400 {
        4
    } else if age < 7 * 86_400 {
        2
    } else {
        1
    };
    let capped: u64 = if count < 100 {
        count as u64
    } else {
        100
    };
    proof {
        let (a, b) = (capped as int, weight as int);
        assert(0 <= a * b <= 800) by (nonlinear_arith)
            requires
                0 <= a <= 100,
                1 <= b <= 8,
        ;
    }
    capped * weight
}

// --------------------------------------------------------------------- laws

/// No key breaks its line.
pub open spec fn one_line_keys(pairs: Seq<(Seq<char>, (u32, u64))>) -> bool {
    forall|i: int|
        0 <= i < pairs.len() ==> !(#[trigger] pairs[i].0).contains('\n') && (pairs[i].0.len() == 0
            || pairs[i].0.last() != '\r')
}

/// A record that was written reads back as it was.
pub proof fn law_usage_reads_back(pairs: Seq<(Seq<char>, (u32, u64))>)
    requires
        one_line_keys(pairs),
    ensures
        record_of(lines_of(record_text(pairs))) == pairs_map(pairs),
    decreases pairs.len(),
{
    if pairs.len() > 0 {
        let front = pairs.drop_last();
        let (k, u) = pairs.last();
        assert(!pairs[pairs.len() - 1].0.contains('\n'));
        assert forall|i: int| 0 <= i < front.len() implies !(#[trigger] front[i].0).contains('\n') && (
        front[i].0.len() == 0 || front[i].0.last() != '\r') by {
            assert(front[i] == pairs[i]);
            assert(!pairs[i].0.contains('\n'));
        }
        law_usage_reads_back(front);
        lemma_line_reads_back(k, u);
        lemma_text_ends(front);
        let a = record_text(front);
        let l = use_line(k, u);
        law_written_line_is_read(a, l);
        assert(lines_of(a + l + seq!['\n']).drop_last() =~= lines_of(a));
    } else {
        assert(lines_of(record_text(pairs)) =~= Seq::<Seq<char>>::empty());
    }
}

proof fn lemma_text_ends(pairs: Seq<(Seq<char>, (u32, u64))>)
    ensures
        record_text(pairs).len() == 0 || record_text(pairs).last() == '\n',
{
}

proof fn lemma_line_reads_back(k: Seq<char>, u: (u32, u64))
    requires
        !k.contains('\n'),
        k.len() == 0 || k.last() != '\r',
    ensures
        use_of(use_line(k, u)) == Some((k, u)),
        !use_line(k, u).contains('\n'),
        use_line(k, u).last() != '\r',
{
    let (c, t) = (decimal(u.0 as nat), decimal(u.1 as nat));
    law_decimal_reads_back(u.0 as nat);
    law_decimal_reads_back(u.1 as nat);
    assert(!c.contains('\t')) by {
        if c.contains('\t') {
            let i = choose|i: int| 0 <= i < c.len() && c[i] == '\t';
            assert(48 <= c[i] as u32);
        }
    }
    assert(!t.contains('\t')) by {
        if t.contains('\t') {
            let i = choose|i: int| 0 <= i < t.len() && t[i] == '\t';
            assert(48 <= t[i] as u32);
        }
    }
    let rest = t + seq!['\t'] + k;
    lemma_cut(c, '\t', rest);
    lemma_cut(t, '\t', k);
    let l = use_line(k, u);
    assert(number(c, 10, u32::MAX as int) == Some(u.0 as int));
    assert(number(t, 10, u64::MAX as int) == Some(u.1 as int));
    assert(!l.contains('\n')) by {
        if l.contains('\n') {
            let i = choose|i: int| 0 <= i < l.len() && l[i] == '\n';
            if i < c.len() {
                assert(48 <= c[i] as u32);
            } else if i == c.len() {
            } else if i < c.len() + 1 + t.len() {
                assert(l[i] == t[i - c.len() - 1]);
                assert(48 <= t[i - c.len() - 1] as u32);
            } else if i == c.len() + 1 + t.len() {
            } else {
                assert(l[i] == k[i - c.len() - t.len() - 2]);
                assert(k.contains('\n'));
            }
        }
    }
    if k.len() > 0 {
        assert(l.last() == k.last());
    } else {
        assert(l.last() == '\t');
    }
}

} // verus!
