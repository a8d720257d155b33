//! The launcher's list: which entries a query finds, in which order, and the
//! rows they are shown in.

use crate::config::{EntryView, LauncherEntry};
use crate::search::{fuzzy, fuzzy_match};
use crate::strmap::{before, lemma_lex_irreflexive, lemma_lex_total, lemma_lex_transitive, lex_lt, StrMap};
use crate::text::{
    begins, contains, has_text, is_blank, joined3, lowercase, owned, same, starts_with, texts,
    to_lowercase, trim, trimmed,
};
use crate::usage::{record_launch, score_of, usage_score};
use vstd::prelude::*;

verus! {

/// The views of launcher entries.
pub open spec fn entries_of(v: Seq<LauncherEntry>) -> Seq<EntryView> {
    v.map_values(|e: LauncherEntry| e@)
}

// ------------------------------------------------------------------ ranking

/// How well an entry fits a query in small letters: the beginning of the name
/// first, then the beginning of the group, then a part of either, then a
/// fuzzy match; none when it does not fit.
pub open spec fn fit(e: EntryView, query: Seq<char>) -> Option<u32> {
    let name = lowercase(e.name);
    let group = lowercase(e.group);
    if query.len() == 0 || begins(name, query) {
        Some(0)
    } else if group.len() > 0 && begins(group, query) {
        Some(1)
    } else if has_text(name, query) {
        Some(2)
    } else if group.len() > 0 && has_text(group, query) {
        Some(2)
    } else if fuzzy(e.name + " "@ + e.group + " "@ + e.command, query) {
        Some(3)
    } else {
        None
    }
}

fn fit_of(e: &LauncherEntry, query: &str) -> (r: Option<u32>)
    ensures
        r == fit(e@, query@),
{
    let name = to_lowercase(e.name.as_str());
    let group = to_lowercase(e.group.as_str());
    if is_blank(query) || starts_with(name.as_str(), query) {
        return Some(0);
    }
    let grouped = !is_blank(group.as_str());
    if grouped && starts_with(group.as_str(), query) {
        return Some(1);
    }
    if contains(name.as_str(), query) {
        return Some(2);
    }
    if grouped && contains(group.as_str(), query) {
        return Some(2);
    }
    let mut hay = joined3(e.name.as_str(), " ", e.group.as_str());
    hay.append(" ");
    hay.append(e.command.as_str());
    if fuzzy_match(hay.as_str(), query) {
        Some(3)
    } else {
        None
    }
}

/// An entry in the ranking.
pub struct Ranked {
    pub fit: u32,
    pub score: u64,
    pub name: String,
    pub index: usize,
}

/// An entry in the ranking.
pub struct Rank {
    pub fit: u32,
    pub score: u64,
    pub name: Seq<char>,
    pub index: usize,
}

impl View for Ranked {
    type V = Rank;

    open spec fn view(&self) -> Rank {
        Rank { fit: self.fit, score: self.score, name: self.name@, index: self.index }
    }
}

pub open spec fn ranks(v: Seq<Ranked>) -> Seq<Rank> {
    v.map_values(|r: Ranked| r@)
}

/// Does `a` come before `b`? The better fit first, then the higher score,
/// then by name.
pub open spec fn ahead(a: Rank, b: Rank) -> bool {
    if a.fit != b.fit {
        a.fit < b.fit
    } else if a.score != b.score {
        a.score > b.score
    } else {
        lex_lt(a.name, b.name)
    }
}

fn comes_before(a: &Ranked, b: &Ranked) -> (r: bool)
    ensures
        r == ahead(a@, b@),
{
    if a.fit != b.fit {
        a.fit < b.fit
    } else if a.score != b.score {
        a.score > b.score
    } else {
        before(a.name.as_str(), b.name.as_str())
    }
}

/// Where `x` goes in a ranking: behind all that it is not ahead of.
pub open spec fn spot(s: Seq<Rank>, x: Rank) -> int
    decreases s.len(),
{
    if s.len() == 0 {
        0
    } else if ahead(x, s.last()) {
        spot(s.drop_last(), x)
    } else {
        s.len() as int
    }
}

/// The ranking of the entries that fit.
pub open spec fn ranking(
    entries: Seq<EntryView>,
    usage: Map<Seq<char>, (u32, u64)>,
    now: u64,
    query: Seq<char>,
) -> Seq<Rank>
    decreases entries.len(),
{
    if entries.len() == 0 {
        Seq::empty()
    } else {
        let rest = ranking(entries.drop_last(), usage, now, query);
        let e = entries.last();
        match fit(e, query) {
            Some(f) => {
                let x = Rank {
                    fit: f,
                    score: score_of(usage, e, now) as u64,
                    name: lowercase(e.name),
                    index: (entries.len() - 1) as usize,
                };
                rest.insert(spot(rest, x), x)
            },
            None => rest,
        }
    }
}

/// The query that a typed line means.
pub open spec fn query_of(typed: Seq<char>) -> Seq<char> {
    if trimmed(typed).len() == 0 {
        Seq::empty()
    } else {
        lowercase(trimmed(typed))
    }
}

/// The indices of the entries that a typed line finds, best first.
pub open spec fn found(
    entries: Seq<EntryView>,
    usage: Map<Seq<char>, (u32, u64)>,
    now: u64,
    typed: Seq<char>,
) -> Seq<usize> {
    ranking(entries, usage, now, query_of(typed)).map_values(|r: Rank| r.index)
}

pub proof fn lemma_spot(s: Seq<Rank>, x: Rank)
    ensures
        0 <= spot(s, x) <= s.len(),
    decreases s.len(),
{
    if s.len() > 0 {
        lemma_spot(s.drop_last(), x);
    }
}

fn place_of(v: &Vec<Ranked>, x: &Ranked) -> (p: usize)
    ensures
        p == spot(ranks(v@), x@),
        p <= v.len(),
{
    let ghost s = ranks(v@);
    let mut p: usize = v.len();
    proof {
        assert(s.take(p as int) =~= s);
    }
    while p > 0
        invariant
            p <= v.len(),
            s == ranks(v@),
            spot(s.take(p as int), x@) == spot(s, x@),
        decreases p,
    {
        proof {
            assert(s.take(p as int).drop_last() =~= s.take(p - 1));
            assert(s.take(p as int).last() == v@[p - 1]@);
        }
        if !comes_before(x, &v[p - 1]) {
            return p;
        }
        p = p - 1;
    }
    p
}

/// The indices of the entries that a typed line finds, best first.
pub fn launcher_filtered(
    entries: &Vec<LauncherEntry>,
    usage: &StrMap<(u32, u64)>,
    now: u64,
    typed: &str,
) -> (r: Vec<usize>)
    requires
        usage.wf(),
    ensures
        r@ == found(entries_of(entries@), usage@, now, typed@),
        forall|i: int| 0 <= i < r.len() ==> #[trigger] r@[i] < entries.len(),
{
    let bare = trim(typed);
    let query = if is_blank(bare.as_str()) {
        String::new()
    } else {
        to_lowercase(bare.as_str())
    };
    let ghost views = entries_of(entries@);
    let ghost q = query_of(typed@);
    let mut v: Vec<Ranked> = Vec::new();
    let mut i: usize = 0;
    proof {
        assert(views.take(0) =~= Seq::empty());
        assert(ranks(v@) =~= Seq::empty());
    }
    while i < entries.len()
        invariant
            i <= entries.len(),
            usage.wf(),
            views == entries_of(entries@),
            q == query@,
            ranks(v@) == ranking(views.take(i as int), usage@, now, q),
            forall|k: int| 0 <= k < v.len() ==> (#[trigger] v@[k]).index < entries.len(),
        decreases entries.len() - i,
    {
        proof {
            assert(views.take(i + 1).drop_last() =~= views.take(i as int));
            assert(views[i as int] == entries@[i as int]@);
        }
        match fit_of(&entries[i], query.as_str()) {
            Some(f) => {
                let x = Ranked {
                    fit: f,
                    score: usage_score(usage, &entries[i], now),
                    name: to_lowercase(entries[i].name.as_str()),
                    index: i,
                };
                let p = place_of(&v, &x);
                let ghost was = v@;
                v.insert(p, x);
                proof {
                    assert(ranks(v@) =~= ranks(was).insert(p as int, x@));
                    assert forall|k: int| 0 <= k < v.len() implies (#[trigger] v@[k]).index
                        < entries.len() by {
                        if k < p {
                            assert(v@[k] == was[k]);
                        } else if k > p {
                            assert(v@[k] == was[k - 1]);
                        }
                    }
                }
            },
            None => {},
        }
        i = i + 1;
    }
    proof {
        assert(views.take(i as int) =~= views);
    }
    let mut r: Vec<usize> = Vec::new();
    let mut k: usize = 0;
    let ghost all = found(views, usage@, now, typed@);
    while k < v.len()
        invariant
            k <= v.len(),
            r@ == all.take(k as int),
            all == ranks(v@).map_values(|r: Rank| r.index),
            forall|j: int| 0 <= j < v.len() ==> (#[trigger] v@[j]).index < entries.len(),
            forall|j: int| 0 <= j < r.len() ==> #[trigger] r@[j] < entries.len(),
        decreases v.len() - k,
    {
        r.push(v[k].index);
        proof {
            assert(all.take(k + 1) =~= all.take(k as int).push(v@[k as int].index));
        }
        k = k + 1;
    }
    proof {
        assert(all.take(k as int) =~= all);
    }
    r
}

// --------------------------------------------------------------------- rows

/// A row of the launcher.
#[derive(Debug)]
pub enum LRow {
    /// The name of a group.
    Header(String),
    /// An entry: its number in the order of navigation, its index, and
    /// whether it stands under the header of its group.
    Entry(usize, usize, bool),
}

/// A row of the launcher.
pub enum Row {
    Header(Seq<char>),
    Entry(int, int, bool),
}

impl View for LRow {
    type V = Row;

    open spec fn view(&self) -> Row {
        match *self {
            LRow::Header(g) => Row::Header(g@),
            LRow::Entry(o, i, b) => Row::Entry(o as int, i as int, b),
        }
    }
}

pub open spec fn row_views(v: Seq<LRow>) -> Seq<Row> {
    v.map_values(|r: LRow| r@)
}

/// Rows in the making, and how many entries are among them.
pub struct RowList {
    pub rows: Seq<Row>,
    pub ord: int,
}

impl RowList {
    pub open spec fn header(self, g: Seq<char>) -> RowList {
        RowList { rows: self.rows.push(Row::Header(g)), ..self }
    }

    pub open spec fn entry(self, i: int, indented: bool) -> RowList {
        RowList { rows: self.rows.push(Row::Entry(self.ord, i, indented)), ord: self.ord + 1 }
    }

    /// A row for each of these entries.
    pub open spec fn entries(self, list: Seq<usize>, indented: bool) -> RowList
        decreases list.len(),
    {
        if list.len() == 0 {
            self
        } else {
            self.entries(list.drop_last(), indented).entry(list.last() as int, indented)
        }
    }

    /// Each group under its header.
    pub open spec fn groups(self, groups: Seq<Seq<char>>, list: Seq<usize>, all: Seq<EntryView>) -> RowList
        decreases groups.len(),
    {
        if groups.len() == 0 {
            self
        } else {
            self.groups(groups.drop_last(), list, all).header(groups.last()).entries(
                members(list, all, groups.last()),
                true,
            )
        }
    }
}

/// The entries of a list without a group.
pub open spec fn loose(list: Seq<usize>, all: Seq<EntryView>) -> Seq<usize>
    decreases list.len(),
{
    if list.len() == 0 {
        Seq::empty()
    } else if all[list.last() as int].group.len() == 0 {
        loose(list.drop_last(), all).push(list.last())
    } else {
        loose(list.drop_last(), all)
    }
}

/// The entries of a list in a group, which is given in small letters.
pub open spec fn members(list: Seq<usize>, all: Seq<EntryView>, group: Seq<char>) -> Seq<usize>
    decreases list.len(),
{
    if list.len() == 0 {
        Seq::empty()
    } else if all[list.last() as int].group.len() > 0 && lowercase(all[list.last() as int].group)
        == group {
        members(list.drop_last(), all, group).push(list.last())
    } else {
        members(list.drop_last(), all, group)
    }
}

/// The entries of a list that were ever started, the first `n` of them.
pub open spec fn started(
    list: Seq<usize>,
    all: Seq<EntryView>,
    usage: Map<Seq<char>, (u32, u64)>,
    now: u64,
    n: nat,
) -> Seq<usize>
    decreases list.len(),
{
    if list.len() == 0 {
        Seq::empty()
    } else {
        let rest = started(list.drop_last(), all, usage, now, n);
        if rest.len() < n && score_of(usage, all[list.last() as int], now) > 0 {
            rest.push(list.last())
        } else {
            rest
        }
    }
}

/// A sorted list of names with one more, which it may hold already.
pub open spec fn with_name(s: Seq<Seq<char>>, g: Seq<char>) -> Seq<Seq<char>>
    decreases s.len(),
{
    if s.len() == 0 {
        seq![g]
    } else if s.last() == g {
        s
    } else if lex_lt(s.last(), g) {
        s.push(g)
    } else {
        with_name(s.drop_last(), g).push(s.last())
    }
}

/// The names of the groups in a list, in small letters and sorted.
pub open spec fn group_names(list: Seq<usize>, all: Seq<EntryView>) -> Seq<Seq<char>>
    decreases list.len(),
{
    if list.len() == 0 {
        Seq::empty()
    } else {
        let g = all[list.last() as int].group;
        let rest = group_names(list.drop_last(), all);
        if g.len() > 0 {
            with_name(rest, lowercase(g))
        } else {
            rest
        }
    }
}

/// The rows while nothing is typed: where there are groups, the entries used
/// most come first, then the loose ones, then each group under its header.
pub open spec fn browsing(
    list: Seq<usize>,
    all: Seq<EntryView>,
    usage: Map<Seq<char>, (u32, u64)>,
    now: u64,
) -> RowList {
    let none = RowList { rows: Seq::empty(), ord: 0 };
    let groups = group_names(list, all);
    let top = started(list, all, usage, now, 5);
    let frequent = if groups.len() > 0 && top.len() >= 2 {
        none.header("frequent"@).entries(top, false)
    } else {
        none
    };
    let free = loose(list, all);
    let headed = if free.len() > 0 && groups.len() > 0 {
        frequent.header("ungrouped"@)
    } else {
        frequent
    };
    headed.entries(free, false).groups(groups, list, all)
}

/// The rows of the launcher: a flat ranking for a query.
pub open spec fn rows_of(
    all: Seq<EntryView>,
    usage: Map<Seq<char>, (u32, u64)>,
    now: u64,
    typed: Seq<char>,
) -> Seq<Row> {
    let list = found(all, usage, now, typed);
    if trimmed(typed).len() > 0 {
        (RowList { rows: Seq::empty(), ord: 0 }).entries(list, false).rows
    } else {
        browsing(list, all, usage, now).rows
    }
}

/// Rows in the making.
struct Rows {
    rows: Vec<LRow>,
    ord: usize,
}

impl Rows {
    spec fn list(&self) -> RowList {
        RowList { rows: row_views(self.rows@), ord: self.ord as int }
    }

    spec fn wf(&self) -> bool {
        self.ord <= self.rows.len()
    }

    fn new() -> (r: Rows)
        ensures
            r.wf(),
            r.list() == (RowList { rows: Seq::empty(), ord: 0 }),
    {
        let r = Rows { rows: Vec::new(), ord: 0 };
        proof {
            assert(row_views(r.rows@) =~= Seq::empty());
        }
        r
    }

    fn header(&mut self, g: String)
        requires
            old(self).wf(),
        ensures
            final(self).wf(),
            final(self).list() == old(self).list().header(g@),
    {
        let ghost was = self.rows@;
        self.rows.push(LRow::Header(g));
        proof {
            assert(row_views(self.rows@) =~= row_views(was).push(Row::Header(g@)));
        }
    }

    fn entry(&mut self, i: usize, indented: bool)
        requires
            old(self).wf(),
        ensures
            final(self).wf(),
            final(self).list() == old(self).list().entry(i as int, indented),
    {
        let ghost was = self.rows@;
        let o = self.ord;
        self.rows.push(LRow::Entry(o, i, indented));
        proof {
            assert(row_views(self.rows@) =~= row_views(was).push(
                Row::Entry(o as int, i as int, indented),
            ));
        }
        let n = self.rows.len();
        assert(o < n);
        self.ord = o + 1;
    }

    fn entries(&mut self, list: &Vec<usize>, indented: bool)
        requires
            old(self).wf(),
        ensures
            final(self).wf(),
            final(self).list() == old(self).list().entries(list@, indented),
    {
        let mut i: usize = 0;
        proof {
            assert(list@.take(0) =~= Seq::empty());
        }
        while i < list.len()
            invariant
                i <= list.len(),
                self.wf(),
                self.list() == old(self).list().entries(list@.take(i as int), indented),
            decreases list.len() - i,
        {
            proof {
                assert(list@.take(i + 1).drop_last() =~= list@.take(i as int));
            }
            self.entry(list[i], indented);
            i = i + 1;
        }
        proof {
            assert(list@.take(i as int) =~= list@);
        }
    }
}

/// Indices of entries.
pub open spec fn indices(list: Seq<usize>, all: Seq<LauncherEntry>) -> bool {
    forall|i: int| 0 <= i < list.len() ==> #[trigger] list[i] < all.len()
}

fn loose_of(list: &Vec<usize>, all: &Vec<LauncherEntry>) -> (r: Vec<usize>)
    requires
        indices(list@, all@),
    ensures
        r@ == loose(list@, entries_of(all@)),
{
    let ghost views = entries_of(all@);
    let mut r: Vec<usize> = Vec::new();
    let mut i: usize = 0;
    proof {
        assert(list@.take(0) =~= Seq::empty());
    }
    while i < list.len()
        invariant
            i <= list.len(),
            indices(list@, all@),
            views == entries_of(all@),
            r@ == loose(list@.take(i as int), views),
        decreases list.len() - i,
    {
        proof {
            assert(list@.take(i + 1).drop_last() =~= list@.take(i as int));
            assert(list@[i as int] < all.len());
            assert(views[list@[i as int] as int] == all@[list@[i as int] as int]@);
        }
        if is_blank(all[list[i]].group.as_str()) {
            r.push(list[i]);
        }
        i = i + 1;
    }
    proof {
        assert(list@.take(i as int) =~= list@);
    }
    r
}

fn members_of(list: &Vec<usize>, all: &Vec<LauncherEntry>, group: &str) -> (r: Vec<usize>)
    requires
        indices(list@, all@),
    ensures
        r@ == members(list@, entries_of(all@), group@),
{
    let ghost views = entries_of(all@);
    let mut r: Vec<usize> = Vec::new();
    let mut i: usize = 0;
    proof {
        assert(list@.take(0) =~= Seq::empty());
    }
    while i < list.len()
        invariant
            i <= list.len(),
            indices(list@, all@),
            views == entries_of(all@),
            r@ == members(list@.take(i as int), views, group@),
        decreases list.len() - i,
    {
        proof {
            assert(list@.take(i + 1).drop_last() =~= list@.take(i as int));
            assert(list@[i as int] < all.len());
            assert(views[list@[i as int] as int] == all@[list@[i as int] as int]@);
        }
        let name = &all[list[i]].group;
        if !is_blank(name.as_str()) {
            let low = to_lowercase(name.as_str());
            if same(low.as_str(), group) {
                r.push(list[i]);
            }
        }
        i = i + 1;
    }
    proof {
        assert(list@.take(i as int) =~= list@);
    }
    r
}

fn started_of(
    list: &Vec<usize>,
    all: &Vec<LauncherEntry>,
    usage: &StrMap<(u32, u64)>,
    now: u64,
    n: usize,
) -> (r: Vec<usize>)
    requires
        indices(list@, all@),
        usage.wf(),
    ensures
        r@ == started(list@, entries_of(all@), usage@, now, n as nat),
{
    let ghost views = entries_of(all@);
    let mut r: Vec<usize> = Vec::new();
    let mut i: usize = 0;
    proof {
        assert(list@.take(0) =~= Seq::empty());
    }
    while i < list.len()
        invariant
            i <= list.len(),
            indices(list@, all@),
            usage.wf(),
            views == entries_of(all@),
            r@ == started(list@.take(i as int), views, usage@, now, n as nat),
        decreases list.len() - i,
    {
        proof {
            assert(list@.take(i + 1).drop_last() =~= list@.take(i as int));
            assert(list@[i as int] < all.len());
            assert(views[list@[i as int] as int] == all@[list@[i as int] as int]@);
        }
        if r.len() < n && usage_score(usage, &all[list[i]], now) > 0 {
            r.push(list[i]);
        }
        i = i + 1;
    }
    proof {
        assert(list@.take(i as int) =~= list@);
    }
    r
}

fn add_name(v: &mut Vec<String>, g: String)
    ensures
        texts(final(v)@) == with_name(texts(old(v)@), g@),
{
    let ghost s = texts(v@);
    let mut p: usize = v.len();
    proof {
        assert(s.take(p as int) =~= s);
        assert(with_name(s.take(p as int), g@) + s.skip(p as int) =~= with_name(s, g@));
    }
    while p > 0 && !same(v[p - 1].as_str(), g.as_str()) && !before(v[p - 1].as_str(), g.as_str())
        invariant
            p <= v.len(),
            s == texts(v@),
            v@ == old(v)@,
            with_name(s.take(p as int), g@) + s.skip(p as int) =~= with_name(s, g@),
        decreases p,
    {
        proof {
            let t = s.take(p as int);
            assert(t.drop_last() =~= s.take(p - 1));
            assert(t.last() == v@[p - 1]@);
            assert(s.skip(p - 1) =~= seq![t.last()] + s.skip(p as int));
            assert(with_name(t, g@) =~= with_name(s.take(p - 1), g@).push(t.last()));
        }
        p = p - 1;
    }
    proof {
        if p > 0 {
            assert(s.take(p as int).last() == v@[p - 1]@);
        }
    }
    if p > 0 && same(v[p - 1].as_str(), g.as_str()) {
        proof {
            assert(s.take(p as int) + s.skip(p as int) =~= s);
        }
        return;
    }
    v.insert(p, g);
    proof {
        assert(texts(v@) =~= s.take(p as int).push(g@) + s.skip(p as int));
        if p == 0 {
            assert(s.take(0) =~= Seq::empty());
            assert(seq![g@] =~= s.take(0).push(g@));
        }
    }
}

fn names_of(list: &Vec<usize>, all: &Vec<LauncherEntry>) -> (r: Vec<String>)
    requires
        indices(list@, all@),
    ensures
        texts(r@) == group_names(list@, entries_of(all@)),
{
    let ghost views = entries_of(all@);
    let mut r: Vec<String> = Vec::new();
    let mut i: usize = 0;
    proof {
        assert(list@.take(0) =~= Seq::empty());
        assert(texts(r@) =~= Seq::empty());
    }
    while i < list.len()
        invariant
            i <= list.len(),
            indices(list@, all@),
            views == entries_of(all@),
            texts(r@) == group_names(list@.take(i as int), views),
        decreases list.len() - i,
    {
        proof {
            assert(list@.take(i + 1).drop_last() =~= list@.take(i as int));
            assert(list@[i as int] < all.len());
            assert(views[list@[i as int] as int] == all@[list@[i as int] as int]@);
        }
        let e = &all[list[i]];
        if !is_blank(e.group.as_str()) {
            add_name(&mut r, to_lowercase(e.group.as_str()));
        }
        i = i + 1;
    }
    proof {
        assert(list@.take(i as int) =~= list@);
    }
    r
}

/// Every row with an entry names one that exists.
pub open spec fn rows_fit(rows: Seq<Row>, n: int) -> bool {
    forall|i: int| 0 <= i < rows.len() ==> match #[trigger] rows[i] {
        Row::Entry(o, k, b) => 0 <= k < n,
        Row::Header(g) => true,
    }
}

/// Every index in a list is below `n`.
pub open spec fn below(list: Seq<usize>, n: int) -> bool {
    forall|i: int| 0 <= i < list.len() ==> #[trigger] list[i] < n
}

proof fn lemma_rows_fit(r: RowList, list: Seq<usize>, indented: bool, n: int)
    requires
        rows_fit(r.rows, n),
        below(list, n),
    ensures
        rows_fit(r.entries(list, indented).rows, n),
    decreases list.len(),
{
    if list.len() > 0 {
        let front = list.drop_last();
        assert forall|i: int| 0 <= i < front.len() implies #[trigger] front[i] < n by {
            assert(front[i] == list[i]);
        }
        lemma_rows_fit(r, front, indented, n);
        assert(list[list.len() - 1] < n);
    }
}

proof fn lemma_loose(list: Seq<usize>, all: Seq<EntryView>, n: int)
    requires
        below(list, n),
    ensures
        below(loose(list, all), n),
    decreases list.len(),
{
    if list.len() > 0 {
        let front = list.drop_last();
        assert forall|i: int| 0 <= i < front.len() implies #[trigger] front[i] < n by {
            assert(front[i] == list[i]);
        }
        lemma_loose(front, all, n);
        assert(list[list.len() - 1] < n);
    }
}

proof fn lemma_members(list: Seq<usize>, all: Seq<EntryView>, g: Seq<char>, n: int)
    requires
        below(list, n),
    ensures
        below(members(list, all, g), n),
    decreases list.len(),
{
    if list.len() > 0 {
        let front = list.drop_last();
        assert forall|i: int| 0 <= i < front.len() implies #[trigger] front[i] < n by {
            assert(front[i] == list[i]);
        }
        lemma_members(front, all, g, n);
        assert(list[list.len() - 1] < n);
    }
}

proof fn lemma_started(
    list: Seq<usize>,
    all: Seq<EntryView>,
    usage: Map<Seq<char>, (u32, u64)>,
    now: u64,
    k: nat,
    n: int,
)
    requires
        below(list, n),
    ensures
        below(started(list, all, usage, now, k), n),
    decreases list.len(),
{
    if list.len() > 0 {
        let front = list.drop_last();
        assert forall|i: int| 0 <= i < front.len() implies #[trigger] front[i] < n by {
            assert(front[i] == list[i]);
        }
        lemma_started(front, all, usage, now, k, n);
        assert(list[list.len() - 1] < n);
    }
}

/// The rows of the launcher.
pub fn launcher_rows(
    all: &Vec<LauncherEntry>,
    usage: &StrMap<(u32, u64)>,
    now: u64,
    typed: &str,
) -> (r: Vec<LRow>)
    requires
        usage.wf(),
    ensures
        row_views(r@) == rows_of(entries_of(all@), usage@, now, typed@),
        rows_fit(row_views(r@), all.len() as int),
{
    let ghost n = all.len() as int;
    let list = launcher_filtered(all, usage, now, typed);
    let bare = trim(typed);
    let mut rows = Rows::new();
    if !is_blank(bare.as_str()) {
        proof {
            lemma_rows_fit(rows.list(), list@, false, n);
        }
        rows.entries(&list, false);
        return rows.rows;
    }
    let groups = names_of(&list, all);
    let ghost gs = texts(groups@);
    proof {
        assert(gs.len() == groups.len());
    }
    if groups.len() > 0 {
        let top = started_of(&list, all, usage, now, 5);
        if top.len() >= 2 {
            rows.header(owned("frequent"));
            proof {
                lemma_started(list@, entries_of(all@), usage@, now, 5, n);
                lemma_rows_fit(rows.list(), top@, false, n);
            }
            rows.entries(&top, false);
        }
    }
    let free = loose_of(&list, all);
    if free.len() > 0 && groups.len() > 0 {
        rows.header(owned("ungrouped"));
    }
    proof {
        lemma_loose(list@, entries_of(all@), n);
        lemma_rows_fit(rows.list(), free@, false, n);
    }
    rows.entries(&free, false);
    let ghost start = rows.list();
    let mut i: usize = 0;
    proof {
        assert(gs.take(0) =~= Seq::empty());
    }
    while i < groups.len()
        invariant
            i <= groups.len(),
            indices(list@, all@),
            n == all.len(),
            gs == texts(groups@),
            rows.wf(),
            rows_fit(rows.list().rows, n),
            rows.list() == start.groups(gs.take(i as int), list@, entries_of(all@)),
        decreases groups.len() - i,
    {
        proof {
            assert(gs.take(i + 1).drop_last() =~= gs.take(i as int));
            assert(gs[i as int] == groups@[i as int]@);
        }
        rows.header(groups[i].clone());
        let inside = members_of(&list, all, groups[i].as_str());
        proof {
            lemma_members(list@, entries_of(all@), groups@[i as int]@, n);
            lemma_rows_fit(rows.list(), inside@, true, n);
        }
        rows.entries(&inside, true);
        i = i + 1;
    }
    proof {
        assert(gs.take(i as int) =~= gs);
    }
    rows.rows
}

/// The indices of the entries, in the order of navigation.
pub open spec fn nav(rows: Seq<Row>) -> Seq<int>
    decreases rows.len(),
{
    if rows.len() == 0 {
        Seq::empty()
    } else {
        match rows.last() {
            Row::Entry(o, i, b) => nav(rows.drop_last()).push(i),
            Row::Header(g) => nav(rows.drop_last()),
        }
    }
}

/// The indices of the entries, in the order of navigation.
pub fn launcher_nav(rows: &Vec<LRow>) -> (r: Vec<usize>)
    ensures
        r@.map_values(|i: usize| i as int) == nav(row_views(rows@)),
        r.len() <= rows.len(),
{
    let ghost views = row_views(rows@);
    let mut r: Vec<usize> = Vec::new();
    let mut k: usize = 0;
    proof {
        assert(views.take(0) =~= Seq::empty());
        assert(r@.map_values(|i: usize| i as int) =~= Seq::empty());
    }
    while k < rows.len()
        invariant
            k <= rows.len(),
            r.len() <= k,
            views == row_views(rows@),
            r@.map_values(|i: usize| i as int) == nav(views.take(k as int)),
        decreases rows.len() - k,
    {
        proof {
            assert(views.take(k + 1).drop_last() =~= views.take(k as int));
            assert(views[k as int] == rows@[k as int]@);
        }
        match &rows[k] {
            LRow::Entry(o, i, b) => {
                let ghost was = r@;
                r.push(*i);
                proof {
                    assert(r@.map_values(|i: usize| i as int) =~= was.map_values(
                        |i: usize| i as int,
                    ).push(*i as int));
                }
            },
            LRow::Header(g) => {},
        }
        k = k + 1;
    }
    proof {
        assert(views.take(k as int) =~= views);
    }
    r
}

/// The row of the entry with that number, from the `k`th row on.
pub open spec fn row_from(rows: Seq<Row>, ord: int, k: int) -> Option<int>
    decreases rows.len() - k,
{
    if k < 0 || k >= rows.len() {
        None
    } else if rows[k] matches Row::Entry(o, i, b) && o == ord {
        Some(k)
    } else {
        row_from(rows, ord, k + 1)
    }
}

/// The row of the entry with that number; the first where there is none.
pub open spec fn row_of(rows: Seq<Row>, ord: int) -> int {
    match row_from(rows, ord, 0) {
        Some(k) => k,
        None => 0,
    }
}

/// The row of the entry with that number.
pub fn launcher_row_of(rows: &Vec<LRow>, ord: usize) -> (r: usize)
    ensures
        r == row_of(row_views(rows@), ord as int),
        r < rows.len() || r == 0,
{
    let ghost views = row_views(rows@);
    let mut k: usize = 0;
    while k < rows.len()
        invariant
            k <= rows.len(),
            views == row_views(rows@),
            row_from(views, ord as int, k as int) == row_from(views, ord as int, 0),
        decreases rows.len() - k,
    {
        proof {
            assert(views[k as int] == rows@[k as int]@);
        }
        match &rows[k] {
            LRow::Entry(o, i, b) => {
                if *o == ord {
                    return k;
                }
            },
            LRow::Header(g) => {},
        }
        k = k + 1;
    }
    0
}

// ------------------------------------------------------------------- starts

/// What to run.
#[derive(Debug)]
pub struct Launch {
    pub command: String,
    pub args: String,
    pub dir: String,
}

pub struct LaunchView {
    pub command: Seq<char>,
    pub args: Seq<char>,
    pub dir: Seq<char>,
}

impl View for Launch {
    type V = LaunchView;

    open spec fn view(&self) -> LaunchView {
        LaunchView { command: self.command@, args: self.args@, dir: self.dir@ }
    }
}

/// Starts the entry of that index, counting the start; nothing where there is
/// none.
pub fn launch_index(
    entries: &Vec<LauncherEntry>,
    usage: &mut StrMap<(u32, u64)>,
    now: u64,
    i: usize,
) -> (r: Option<Launch>)
    requires
        old(usage).wf(),
    ensures
        final(usage).wf(),
        if i < entries.len() {
            let e = entries@[i as int]@;
            &&& r matches Some(l) && l@ == (LaunchView {
                command: e.command,
                args: e.args,
                dir: e.dir,
            })
            &&& final(usage)@ == old(usage)@.insert(
                crate::usage::key_of(e),
                (crate::usage::one_more(old(usage)@, crate::usage::key_of(e)), now),
            )
        } else {
            r is None && final(usage)@ == old(usage)@
        },
{
    if i < entries.len() {
        let e = &entries[i];
        record_launch(usage, e, now);
        Some(Launch { command: e.command.clone(), args: e.args.clone(), dir: e.dir.clone() })
    } else {
        None
    }
}

// --------------------------------------------------------------------- laws

/// No later entry is ahead of an earlier one, and of two alike the one that
/// comes first in the configuration comes first.
pub open spec fn well_ranked(s: Seq<Rank>) -> bool {
    forall|i: int, j: int|
        0 <= i < j < s.len() ==> !ahead(#[trigger] s[j], #[trigger] s[i]) && (ahead(s[i], s[j])
            || s[i].index < s[j].index)
}

proof fn lemma_ahead(a: Rank, b: Rank, c: Rank)
    ensures
        ahead(a, b) ==> !ahead(b, a),
        !ahead(b, a) && !ahead(c, b) ==> !ahead(c, a),
        ahead(a, b) && !ahead(c, b) ==> ahead(a, c),
{
    if lex_lt(a.name, b.name) && lex_lt(b.name, a.name) {
        lemma_lex_transitive(a.name, b.name, a.name);
        lemma_lex_irreflexive(a.name);
    }
    lemma_lex_total(a.name, b.name);
    lemma_lex_total(b.name, c.name);
    lemma_lex_total(a.name, c.name);
    lemma_lex_irreflexive(a.name);
    lemma_lex_irreflexive(b.name);
    if lex_lt(a.name, b.name) && lex_lt(b.name, c.name) {
        lemma_lex_transitive(a.name, b.name, c.name);
    }
    if lex_lt(c.name, a.name) && lex_lt(a.name, b.name) {
        lemma_lex_transitive(c.name, a.name, b.name);
    }
    if lex_lt(c.name, a.name) && lex_lt(a.name, c.name) {
        lemma_lex_transitive(c.name, a.name, c.name);
        lemma_lex_irreflexive(c.name);
    }
    if lex_lt(b.name, c.name) && lex_lt(c.name, b.name) {
        lemma_lex_transitive(b.name, c.name, b.name);
    }
}

proof fn lemma_spot_parts(s: Seq<Rank>, x: Rank)
    requires
        well_ranked(s),
    ensures
        0 <= spot(s, x) <= s.len(),
        forall|i: int| 0 <= i < spot(s, x) ==> !ahead(x, #[trigger] s[i]),
        forall|i: int| spot(s, x) <= i < s.len() ==> ahead(x, #[trigger] s[i]),
    decreases s.len(),
{
    if s.len() > 0 {
        let front = s.drop_last();
        assert forall|i: int, j: int| 0 <= i < j < front.len() implies !ahead(
            #[trigger] front[j],
            #[trigger] front[i],
        ) && (ahead(front[i], front[j]) || front[i].index < front[j].index) by {
            assert(front[i] == s[i] && front[j] == s[j]);
        }
        lemma_spot_parts(front, x);
        let p = spot(s, x);
        assert forall|i: int| 0 <= i < p implies !ahead(x, #[trigger] s[i]) by {
            if ahead(x, s.last()) {
                assert(front[i] == s[i]);
            } else if i < s.len() - 1 {
                assert(!ahead(s[s.len() - 1], s[i]));
                lemma_ahead(s[i], s.last(), x);
            }
        }
        assert forall|i: int| p <= i < s.len() implies ahead(x, #[trigger] s[i]) by {
            if i < s.len() - 1 {
                assert(front[i] == s[i]);
            }
        }
    }
}

proof fn lemma_inserted(rest: Seq<Rank>, x: Rank)
    requires
        well_ranked(rest),
        forall|i: int| 0 <= i < rest.len() ==> (#[trigger] rest[i]).index < x.index,
    ensures
        0 <= spot(rest, x) <= rest.len(),
        well_ranked(rest.insert(spot(rest, x), x)),
{
    lemma_spot_parts(rest, x);
    let p = spot(rest, x);
    let all = rest.insert(p, x);
    assert forall|i: int, j: int| 0 <= i < j < all.len() implies !ahead(
        #[trigger] all[j],
        #[trigger] all[i],
    ) && (ahead(all[i], all[j]) || all[i].index < all[j].index) by {
        if i == p {
            assert(all[j] == rest[j - 1]);
            assert(ahead(x, rest[j - 1]));
            lemma_ahead(x, rest[j - 1], x);
        } else if j == p {
            assert(all[i] == rest[i]);
            assert(!ahead(x, rest[i]));
            assert(rest[i].index < x.index);
        } else {
            let ii = if i < p {
                i
            } else {
                i - 1
            };
            let jj = if j < p {
                j
            } else {
                j - 1
            };
            assert(all[i] == rest[ii] && all[j] == rest[jj]);
        }
    }
}

/// The ranking is in order: the better fit first, then the more used, then by
/// name, then as configured. It holds exactly the entries that fit.
#[verifier::spinoff_prover]
#[verifier::rlimit(40)]
pub proof fn law_ranking_is_sorted(
    entries: Seq<EntryView>,
    usage: Map<Seq<char>, (u32, u64)>,
    now: u64,
    query: Seq<char>,
)
    requires
        entries.len() <= usize::MAX,
    ensures
        well_ranked(ranking(entries, usage, now, query)),
        forall|i: int|
            0 <= i < ranking(entries, usage, now, query).len() ==> (#[trigger] ranking(
                entries,
                usage,
                now,
                query,
            )[i]).index < entries.len() && fit(
                entries[ranking(entries, usage, now, query)[i].index as int],
                query,
            ) is Some,
        forall|k: int|
            0 <= k < entries.len() && fit(#[trigger] entries[k], query) is Some ==> exists|i: int|
                0 <= i < ranking(entries, usage, now, query).len() && (#[trigger] ranking(
                    entries,
                    usage,
                    now,
                    query,
                )[i]).index == k,
    decreases entries.len(),
{
    if entries.len() > 0 {
        let front = entries.drop_last();
        let rest = ranking(front, usage, now, query);
        let all = ranking(entries, usage, now, query);
        let e = entries.last();
        law_ranking_is_sorted(front, usage, now, query);
        assert forall|i: int| 0 <= i < rest.len() implies (#[trigger] rest[i]).index < front.len()
            && fit(entries[rest[i].index as int], query) is Some by {
            assert(front[rest[i].index as int] == entries[rest[i].index as int]);
        }
        match fit(e, query) {
            Some(f) => {
                let x = Rank {
                    fit: f,
                    score: score_of(usage, e, now) as u64,
                    name: lowercase(e.name),
                    index: (entries.len() - 1) as usize,
                };
                lemma_inserted(rest, x);
                let p = spot(rest, x);
                assert forall|i: int| 0 <= i < all.len() implies (#[trigger] all[i]).index
                    < entries.len() && fit(entries[all[i].index as int], query) is Some by {
                    if i < p {
                        assert(all[i] == rest[i]);
                    } else if i > p {
                        assert(all[i] == rest[i - 1]);
                    }
                }
                assert forall|k: int|
                    0 <= k < entries.len() && fit(#[trigger] entries[k], query)
                        is Some implies exists|i: int|
                    0 <= i < all.len() && (#[trigger] all[i]).index == k by {
                    if k == entries.len() - 1 {
                        assert(all[p].index == k);
                    } else {
                        assert(front[k] == entries[k]);
                        let i = choose|i: int| 0 <= i < rest.len() && (#[trigger] rest[i]).index == k;
                        if i < p {
                            assert(all[i] == rest[i]);
                        } else {
                            assert(all[i + 1] == rest[i]);
                        }
                    }
                }
            },
            None => {
                assert forall|k: int|
                    0 <= k < entries.len() && fit(#[trigger] entries[k], query)
                        is Some implies exists|i: int|
                    0 <= i < all.len() && (#[trigger] all[i]).index == k by {
                    assert(k < front.len());
                    assert(front[k] == entries[k]);
                }
            },
        }
    }
}

/// With nothing typed, every entry is found.
pub proof fn law_browsing_finds_all(
    all: Seq<EntryView>,
    usage: Map<Seq<char>, (u32, u64)>,
    now: u64,
    typed: Seq<char>,
    i: usize,
)
    requires
        all.len() <= usize::MAX,
        i < all.len(),
        trimmed(typed).len() == 0,
    ensures
        found(all, usage, now, typed).contains(i),
{
    let q = query_of(typed);
    law_ranking_is_sorted(all, usage, now, q);
    let ranks = ranking(all, usage, now, q);
    assert(fit(all[i as int], q) is Some);
    let k = choose|k: int| 0 <= k < ranks.len() && (#[trigger] ranks[k]).index == i;
    assert(found(all, usage, now, typed)[k] == i);
}

proof fn lemma_entries_at(r: RowList, list: Seq<usize>, indented: bool)
    ensures
        ({
            let e = r.entries(list, indented);
            &&& e.rows.len() == r.rows.len() + list.len()
            &&& e.ord == r.ord + list.len()
            &&& forall|k: int| 0 <= k < r.rows.len() ==> e.rows[k] == r.rows[k]
            &&& forall|p: int|
                0 <= p < list.len() ==> e.rows[r.rows.len() + p] == Row::Entry(
                    r.ord + p,
                    (#[trigger] list[p]) as int,
                    indented,
                )
        }),
    decreases list.len(),
{
    if list.len() > 0 {
        let front = list.drop_last();
        lemma_entries_at(r, front, indented);
        let e = r.entries(list, indented);
        let a = r.entries(front, indented);
        assert forall|p: int| 0 <= p < list.len() implies e.rows[r.rows.len() + p] == Row::Entry(
            r.ord + p,
            (#[trigger] list[p]) as int,
            indented,
        ) by {
            if p < front.len() {
                assert(front[p] == list[p]);
                assert(e.rows[r.rows.len() + p] == a.rows[r.rows.len() + p]);
            }
        }
    }
}

proof fn lemma_groups_at(r: RowList, groups: Seq<Seq<char>>, list: Seq<usize>, all: Seq<EntryView>)
    ensures
        ({
            let e = r.groups(groups, list, all);
            &&& e.rows.len() >= r.rows.len()
            &&& forall|k: int| 0 <= k < r.rows.len() ==> e.rows[k] == r.rows[k]
            &&& forall|n: int, p: int|
                #![trigger members(list, all, groups[n])[p]]
                0 <= n < groups.len() && 0 <= p < members(list, all, groups[n]).len()
                    ==> has_member(e.rows, groups[n], members(list, all, groups[n])[p] as int)
        }),
    decreases groups.len(),
{
    if groups.len() > 0 {
        let front = groups.drop_last();
        let g = groups.last();
        let inside = members(list, all, g);
        lemma_groups_at(r, front, list, all);
        let a = r.groups(front, list, all);
        let h = a.header(g);
        lemma_entries_at(h, inside, true);
        let e = r.groups(groups, list, all);
        assert forall|n: int, p: int|
            #![trigger members(list, all, groups[n])[p]]
            0 <= n < groups.len() && 0 <= p < members(list, all, groups[n]).len() implies has_member(
            e.rows,
            groups[n],
            members(list, all, groups[n])[p] as int,
        ) by {
            let i = members(list, all, groups[n])[p] as int;
            if n < front.len() {
                assert(front[n] == groups[n]);
                assert(has_member(a.rows, groups[n], i));
                let (x, y) = choose|x: int, y: int| stands_under(a.rows, groups[n], x, y, i);
                assert(stands_under(e.rows, groups[n], x, y, i)) by {
                    assert forall|j: int| x < j <= y implies (#[trigger] e.rows[j]) is Entry by {
                        assert(e.rows[j] == a.rows[j]);
                    }
                }
            } else {
                let x = a.rows.len() as int;
                let y = x + 1 + p;
                assert(h.rows[x] == Row::Header(g));
                assert(e.rows[y] == Row::Entry(h.ord + p, inside[p] as int, true));
                assert(stands_under(e.rows, g, x, y, i)) by {
                    assert forall|j: int| x < j <= y implies (#[trigger] e.rows[j]) is Entry by {
                        assert(e.rows[h.rows.len() + (j - x - 1)] == Row::Entry(
                            h.ord + (j - x - 1),
                            inside[j - x - 1] as int,
                            true,
                        ));
                    }
                }
            }
        }
    }
}

/// Row `k` is that of entry `i`, and row `h` the header of that group above
/// it, with no other header between them.
pub open spec fn stands_under(rows: Seq<Row>, group: Seq<char>, h: int, k: int, i: int) -> bool {
    &&& 0 <= h < k < rows.len()
    &&& rows[h] == Row::Header(group)
    &&& rows[k] matches Row::Entry(_, e, indented) && e == i && indented
    &&& forall|j: int| h < j <= k ==> (#[trigger] rows[j]) is Entry
}

/// Entry `i` has a row under the header of that group.
pub open spec fn has_member(rows: Seq<Row>, group: Seq<char>, i: int) -> bool {
    exists|h: int, k: int| stands_under(rows, group, h, k, i)
}

/// Entry `i` has a row.
pub open spec fn has_row(rows: Seq<Row>, i: int) -> bool {
    exists|k: int| 0 <= k < rows.len() && shows(#[trigger] rows[k], i)
}

/// The row is that of entry `i`.
pub open spec fn shows(row: Row, i: int) -> bool {
    row matches Row::Entry(_, e, _) && e == i
}

proof fn lemma_loose_has(list: Seq<usize>, all: Seq<EntryView>, i: usize)
    requires
        list.contains(i),
        all[i as int].group.len() == 0,
    ensures
        loose(list, all).contains(i),
    decreases list.len(),
{
    let front = list.drop_last();
    let r = loose(front, all);
    let k = choose|k: int| 0 <= k < list.len() && list[k] == i;
    if k < front.len() {
        assert(front[k] == i);
        lemma_loose_has(front, all, i);
        let j = choose|j: int| 0 <= j < r.len() && r[j] == i;
        assert(loose(list, all)[j] == i);
    } else {
        assert(loose(list, all)[r.len() as int] == i);
    }
}

proof fn lemma_members_has(list: Seq<usize>, all: Seq<EntryView>, i: usize)
    requires
        list.contains(i),
        all[i as int].group.len() > 0,
    ensures
        members(list, all, lowercase(all[i as int].group)).contains(i),
        group_names(list, all).contains(lowercase(all[i as int].group)),
    decreases list.len(),
{
    let g = lowercase(all[i as int].group);
    let front = list.drop_last();
    let r = members(front, all, g);
    let names = group_names(front, all);
    let other = all[list.last() as int].group;
    let k = choose|k: int| 0 <= k < list.len() && list[k] == i;
    if k < front.len() {
        assert(front[k] == i);
        lemma_members_has(front, all, i);
        let j = choose|j: int| 0 <= j < r.len() && r[j] == i;
        assert(members(list, all, g)[j] == i);
        lemma_with_name(names, lowercase(other), g);
    } else {
        assert(members(list, all, g)[r.len() as int] == i);
        lemma_with_name(names, g, g);
    }
}

proof fn lemma_with_name(s: Seq<Seq<char>>, g: Seq<char>, x: Seq<char>)
    ensures
        with_name(s, g).contains(x) <==> s.contains(x) || x == g,
    decreases s.len(),
{
    if s.len() == 0 {
        assert(with_name(s, g)[0] == g);
    } else {
        let front = s.drop_last();
        let last = s.last();
        assert(s =~= front.push(last));
        lemma_pushed_name(front, last, x);
        if last == g {
        } else if lex_lt(last, g) {
            lemma_pushed_name(s, g, x);
        } else {
            lemma_with_name(front, g, x);
            lemma_pushed_name(with_name(front, g), last, x);
        }
    }
}

proof fn lemma_pushed_name(s: Seq<Seq<char>>, g: Seq<char>, x: Seq<char>)
    ensures
        s.push(g).contains(x) <==> s.contains(x) || x == g,
{
    assert(s.push(g)[s.len() as int] == g);
    if s.contains(x) {
        let i = choose|i: int| 0 <= i < s.len() && s[i] == x;
        assert(s.push(g)[i] == x);
    }
    if s.push(g).contains(x) && x != g {
        let i = choose|i: int| 0 <= i < s.push(g).len() && s.push(g)[i] == x;
        assert(s[i] == x);
    }
}

/// With nothing typed, no entry is lost: each has a row, and one of a group
/// has one under the header of that group in small letters.
pub proof fn law_every_entry_has_a_row(
    all: Seq<EntryView>,
    usage: Map<Seq<char>, (u32, u64)>,
    now: u64,
    typed: Seq<char>,
    i: usize,
)
    requires
        all.len() <= usize::MAX,
        i < all.len(),
        trimmed(typed).len() == 0,
    ensures
        has_row(rows_of(all, usage, now, typed), i as int),
        all[i as int].group.len() > 0 ==> has_member(
            rows_of(all, usage, now, typed),
            lowercase(all[i as int].group),
            i as int,
        ),
{
    law_browsing_finds_all(all, usage, now, typed, i);
    let list = found(all, usage, now, typed);
    let rows = rows_of(all, usage, now, typed);
    let none = RowList { rows: Seq::empty(), ord: 0 };
    let groups = group_names(list, all);
    let top = started(list, all, usage, now, 5);
    let frequent = if groups.len() > 0 && top.len() >= 2 {
        none.header("frequent"@).entries(top, false)
    } else {
        none
    };
    let free = loose(list, all);
    let headed = if free.len() > 0 && groups.len() > 0 {
        frequent.header("ungrouped"@)
    } else {
        frequent
    };
    let flat = headed.entries(free, false);
    lemma_entries_at(headed, free, false);
    lemma_groups_at(flat, groups, list, all);
    if all[i as int].group.len() == 0 {
        lemma_loose_has(list, all, i);
        let p = choose|p: int| 0 <= p < free.len() && free[p] == i;
        let k = headed.rows.len() + p;
        assert(flat.rows[k] == Row::Entry(headed.ord + p, free[p] as int, false));
        assert(shows(rows[k], i as int));
    } else {
        let g = lowercase(all[i as int].group);
        lemma_members_has(list, all, i);
        let n = choose|n: int| 0 <= n < groups.len() && groups[n] == g;
        let inside = members(list, all, groups[n]);
        let p = choose|p: int| 0 <= p < inside.len() && inside[p] == i;
        assert(members(list, all, groups[n])[p] == i);
        assert(has_member(rows, g, i as int));
        let (h, k) = choose|h: int, k: int| stands_under(rows, g, h, k, i as int);
        assert(shows(rows[k], i as int));
    }
}

/// The headers of the groups ascend, each name once.
pub proof fn law_groups_ascend(list: Seq<usize>, all: Seq<EntryView>)
    ensures
        ascending(group_names(list, all)),
    decreases list.len(),
{
    if list.len() > 0 {
        law_groups_ascend(list.drop_last(), all);
        lemma_with_name_ascends(
            group_names(list.drop_last(), all),
            lowercase(all[list.last() as int].group),
        );
    }
}

/// Each text comes after those before it.
pub open spec fn ascending(s: Seq<Seq<char>>) -> bool {
    forall|i: int, j: int| 0 <= i < j < s.len() ==> lex_lt(#[trigger] s[i], #[trigger] s[j])
}

proof fn lemma_with_name_ascends(s: Seq<Seq<char>>, g: Seq<char>)
    requires
        ascending(s),
    ensures
        ascending(with_name(s, g)),
    decreases s.len(),
{
    if s.len() > 0 {
        let front = s.drop_last();
        let last = s[s.len() - 1];
        assert forall|i: int, j: int| 0 <= i < j < front.len() implies lex_lt(
            #[trigger] front[i],
            #[trigger] front[j],
        ) by {
            assert(lex_lt(s[i], s[j]));
        }
        lemma_with_name_ascends(front, g);
        lemma_lex_total(last, g);
        let t = with_name(s, g);
        if last != g {
            if lex_lt(last, g) {
                assert forall|i: int, j: int| 0 <= i < j < t.len() implies lex_lt(
                    #[trigger] t[i],
                    #[trigger] t[j],
                ) by {
                    if j < s.len() {
                        assert(lex_lt(s[i], s[j]));
                    } else if i < s.len() - 1 {
                        assert(lex_lt(s[i], s[s.len() - 1]));
                        lemma_lex_transitive(s[i], last, g);
                    }
                }
            } else {
                let r = with_name(front, g);
                assert forall|i: int, j: int| 0 <= i < j < t.len() implies lex_lt(
                    #[trigger] t[i],
                    #[trigger] t[j],
                ) by {
                    if j < r.len() {
                        assert(lex_lt(r[i], r[j]));
                    } else {
                        lemma_with_name(front, g, r[i]);
                        assert(r.contains(r[i]));
                        if r[i] != g {
                            let k = choose|k: int| 0 <= k < front.len() && front[k] == r[i];
                            assert(lex_lt(s[k], s[s.len() - 1]));
                        }
                    }
                }
            }
        }
    }
}

/// The rows number their entries from top to bottom, beginning with 0.
pub open spec fn numbered(r: RowList) -> bool {
    &&& r.ord == nav(r.rows).len()
    &&& forall|k: int|
        0 <= k < r.rows.len() ==> (#[trigger] r.rows[k] matches Row::Entry(o, _, _) ==> o == nav(
            r.rows.take(k),
        ).len())
}

proof fn lemma_numbered_push(r: RowList, row: Row)
    requires
        numbered(r),
        row matches Row::Entry(o, _, _) ==> o == r.ord,
    ensures
        numbered(
            RowList {
                rows: r.rows.push(row),
                ord: if row is Entry {
                    r.ord + 1
                } else {
                    r.ord
                },
            },
        ),
{
    let t = r.rows.push(row);
    assert(t.drop_last() =~= r.rows);
    assert forall|k: int| 0 <= k < t.len() implies (#[trigger] t[k] matches Row::Entry(o, _, _)
        ==> o == nav(t.take(k)).len()) by {
        if k < r.rows.len() {
            assert(t.take(k) =~= r.rows.take(k));
            assert(t[k] == r.rows[k]);
        } else {
            assert(t.take(k) =~= r.rows);
        }
    }
}

proof fn lemma_numbered_entries(r: RowList, list: Seq<usize>, indented: bool)
    requires
        numbered(r),
    ensures
        numbered(r.entries(list, indented)),
    decreases list.len(),
{
    if list.len() > 0 {
        lemma_numbered_entries(r, list.drop_last(), indented);
        let a = r.entries(list.drop_last(), indented);
        lemma_numbered_push(a, Row::Entry(a.ord, list.last() as int, indented));
    }
}

proof fn lemma_numbered_groups(r: RowList, groups: Seq<Seq<char>>, list: Seq<usize>, all: Seq<EntryView>)
    requires
        numbered(r),
    ensures
        numbered(r.groups(groups, list, all)),
    decreases groups.len(),
{
    if groups.len() > 0 {
        lemma_numbered_groups(r, groups.drop_last(), list, all);
        let a = r.groups(groups.drop_last(), list, all);
        lemma_numbered_push(a, Row::Header(groups.last()));
        lemma_numbered_entries(a.header(groups.last()), members(list, all, groups.last()), true);
    }
}

/// The rows of the launcher number their entries from top to bottom,
/// beginning with 0.
pub proof fn law_rows_are_numbered(
    all: Seq<EntryView>,
    usage: Map<Seq<char>, (u32, u64)>,
    now: u64,
    typed: Seq<char>,
    k: int,
)
    requires
        0 <= k < rows_of(all, usage, now, typed).len(),
    ensures
        rows_of(all, usage, now, typed)[k] matches Row::Entry(o, _, _) ==> o == nav(
            rows_of(all, usage, now, typed).take(k),
        ).len(),
{
    let list = found(all, usage, now, typed);
    let none = RowList { rows: Seq::empty(), ord: 0 };
    assert(numbered(none));
    let groups = group_names(list, all);
    let top = started(list, all, usage, now, 5);
    let free = loose(list, all);
    lemma_numbered_entries(none, list, false);
    lemma_numbered_push(none, Row::Header("frequent"@));
    lemma_numbered_entries(none.header("frequent"@), top, false);
    let frequent = if groups.len() > 0 && top.len() >= 2 {
        none.header("frequent"@).entries(top, false)
    } else {
        none
    };
    lemma_numbered_push(frequent, Row::Header("ungrouped"@));
    let headed = if free.len() > 0 && groups.len() > 0 {
        frequent.header("ungrouped"@)
    } else {
        frequent
    };
    lemma_numbered_entries(headed, free, false);
    lemma_numbered_groups(headed.entries(free, false), groups, list, all);
}

} // verus!
