//! Upcoming meetings for the chip on the bar. A helper script prints one line
//! per meeting; the lines are read here. Without a source nothing happens.

use crate::numerals::{number, read_number};
use crate::text::{
    ascii_lowered, is_blank, joined, lines, lines_of, owned, pieces, replace, replaced, same,
    same_ignoring_ascii_case, split, texts, trim, trim_end, trimmed, trimmed_end,
};
use vstd::prelude::*;

verus! {

/// One meeting.
#[derive(Debug)]
pub struct Meeting {
    /// Seconds since 1970.
    pub start: u64,
    pub end: u64,
    /// "HH:mm" in local time.
    pub start_hm: String,
    pub end_hm: String,
    pub subject: String,
    pub location: String,
    /// A link to join, or nothing.
    pub join_url: String,
}

pub struct MeetingView {
    pub start: u64,
    pub end: u64,
    pub start_hm: Seq<char>,
    pub end_hm: Seq<char>,
    pub subject: Seq<char>,
    pub location: Seq<char>,
    pub join_url: Seq<char>,
}

impl View for Meeting {
    type V = MeetingView;

    open spec fn view(&self) -> MeetingView {
        MeetingView {
            start: self.start,
            end: self.end,
            start_hm: self.start_hm@,
            end_hm: self.end_hm@,
            subject: self.subject@,
            location: self.location@,
            join_url: self.join_url@,
        }
    }
}

impl Meeting {
    /// The same meeting once more.
    pub fn duplicate(&self) -> (r: Meeting)
        ensures
            r@ == self@,
    {
        Meeting {
            start: self.start,
            end: self.end,
            start_hm: self.start_hm.clone(),
            end_hm: self.end_hm.clone(),
            subject: self.subject.clone(),
            location: self.location.clone(),
            join_url: self.join_url.clone(),
        }
    }
}

pub open spec fn meeting_views(v: Seq<Meeting>) -> Seq<MeetingView> {
    v.map_values(|m: Meeting| m@)
}

// ----------------------------------------------------------------- reading

/// Field `i` without white space around it, or nothing where it is missing.
pub open spec fn field(f: Seq<Seq<char>>, i: int) -> Seq<char> {
    if i < f.len() {
        trimmed(f[i])
    } else {
        Seq::empty()
    }
}

/// The meeting that a line of the helper stands for: start and end, both
/// times, the subject, and perhaps a place and a link, with tabs between.
pub open spec fn meeting_of(line: Seq<char>) -> Option<MeetingView> {
    let f = pieces(trimmed_end(line), "\t"@);
    if f.len() < 5 {
        None
    } else {
        match (
            number(trimmed(f[0]), 10, u64::MAX as int),
            number(trimmed(f[1]), 10, u64::MAX as int),
        ) {
            (Some(start), Some(end)) => if trimmed(f[4]).len() == 0 {
                None
            } else {
                Some(
                    MeetingView {
                        start: start as u64,
                        end: end as u64,
                        start_hm: f[2],
                        end_hm: f[3],
                        subject: trimmed(f[4]),
                        location: field(f, 5),
                        join_url: field(f, 6),
                    },
                )
            },
            _ => None,
        }
    }
}

fn trimmed_field(f: &Vec<String>, i: usize) -> (r: String)
    ensures
        r@ == field(texts(f@), i as int),
{
    if i < f.len() {
        proof {
            assert(texts(f@)[i as int] == f@[i as int]@);
        }
        trim(f[i].as_str())
    } else {
        String::new()
    }
}

/// Reads one line of the helper.
pub fn parse_line(line: &str) -> (r: Option<Meeting>)
    ensures
        match r {
            Some(m) => meeting_of(line@) == Some(m@),
            None => meeting_of(line@) is None,
        },
{
    let cut = trim_end(line);
    proof {
        reveal_strlit("\t");
    }
    let f = split(cut.as_str(), "\t");
    if f.len() < 5 {
        return None;
    }
    proof {
        assert forall|i: int| 0 <= i < f.len() implies texts(f@)[i] == f@[i]@ by {}
    }
    let a = trim(f[0].as_str());
    let b = trim(f[1].as_str());
    let start: u64 = match read_number(a.as_str(), 10, u64::MAX) {
        Some(n) => n,
        None => {
            return None;
        },
    };
    let end: u64 = match read_number(b.as_str(), 10, u64::MAX) {
        Some(n) => n,
        None => {
            return None;
        },
    };
    let subject = trim(f[4].as_str());
    if is_blank(subject.as_str()) {
        return None;
    }
    Some(
        Meeting {
            start,
            end,
            start_hm: f[2].clone(),
            end_hm: f[3].clone(),
            subject,
            location: trimmed_field(&f, 5),
            join_url: trimmed_field(&f, 6),
        },
    )
}

/// How many meetings at the front start no later than `start`.
pub open spec fn no_later(s: Seq<MeetingView>, start: u64) -> int
    decreases s.len(),
{
    if s.len() == 0 || s[0].start > start {
        0
    } else {
        1 + no_later(s.drop_first(), start)
    }
}

/// `m` put in its place by its start, behind those that start with it.
pub open spec fn placed(s: Seq<MeetingView>, m: MeetingView) -> Seq<MeetingView> {
    s.insert(no_later(s, m.start), m)
}

/// The meetings of the lines that hold one, by their start.
pub open spec fn schedule(lines: Seq<Seq<char>>) -> Seq<MeetingView>
    decreases lines.len(),
{
    if lines.len() == 0 {
        Seq::empty()
    } else {
        match meeting_of(lines.last()) {
            Some(m) => placed(schedule(lines.drop_last()), m),
            None => schedule(lines.drop_last()),
        }
    }
}

/// The first 20 meetings of an output, by their start.
pub open spec fn meetings_of(text: Seq<char>) -> Seq<MeetingView> {
    let all = schedule(lines_of(text));
    if all.len() > 20 {
        all.take(20)
    } else {
        all
    }
}

pub proof fn lemma_no_later(s: Seq<MeetingView>, start: u64)
    ensures
        0 <= no_later(s, start) <= s.len(),
        forall|i: int| 0 <= i < no_later(s, start) ==> (#[trigger] s[i]).start <= start,
        no_later(s, start) < s.len() ==> s[no_later(s, start)].start > start,
    decreases s.len(),
{
    if s.len() > 0 && s[0].start <= start {
        let t = s.drop_first();
        lemma_no_later(t, start);
        assert forall|i: int| 0 <= i < no_later(s, start) implies (#[trigger] s[i]).start
            <= start by {
            if i > 0 {
                assert(t[i - 1] == s[i]);
            }
        }
        assert(no_later(t, start) < t.len() ==> t[no_later(t, start)] == s[no_later(s, start)]);
    }
}

fn rank(v: &Vec<Meeting>, start: u64) -> (r: usize)
    ensures
        r == no_later(meeting_views(v@), start),
        r <= v.len(),
{
    let ghost s = meeting_views(v@);
    let mut i: usize = 0;
    proof {
        assert(s.skip(0) =~= s);
        lemma_no_later(s, start);
    }
    while i < v.len() && v[i].start <= start
        invariant
            i <= v.len(),
            s == meeting_views(v@),
            no_later(s, start) == i + no_later(s.skip(i as int), start),
        decreases v.len() - i,
    {
        proof {
            assert(s.skip(i as int)[0] == s[i as int]);
            assert(s.skip(i as int).drop_first() =~= s.skip(i + 1));
        }
        i = i + 1;
    }
    i
}

/// Reads the output of the helper.
pub fn parse_output(text: &str) -> (r: Vec<Meeting>)
    ensures
        meeting_views(r@) == meetings_of(text@),
{
    let all = lines(text);
    let mut list: Vec<Meeting> = Vec::new();
    let mut i: usize = 0;
    proof {
        assert(texts(all@).take(0) =~= Seq::empty());
        assert(meeting_views(list@) =~= Seq::empty());
    }
    while i < all.len()
        invariant
            i <= all.len(),
            meeting_views(list@) == schedule(texts(all@).take(i as int)),
        decreases all.len() - i,
    {
        proof {
            assert(texts(all@).take(i + 1).drop_last() =~= texts(all@).take(i as int));
            assert(texts(all@).take(i + 1).last() == all@[i as int]@);
        }
        if let Some(m) = parse_line(all[i].as_str()) {
            let at: usize = rank(&list, m.start);
            let ghost was = meeting_views(list@);
            let ghost mv = m@;
            list.insert(at, m);
            proof {
                assert(meeting_views(list@) =~= was.insert(at as int, mv));
            }
        }
        i = i + 1;
    }
    proof {
        assert(texts(all@).take(i as int) =~= texts(all@));
    }
    if list.len() > 20 {
        let ghost was = meeting_views(list@);
        list.truncate(20);
        proof {
            assert(meeting_views(list@) =~= was.take(20));
        }
    }
    list
}

/// What to report when the helper fails: the first line of its errors.
pub open spec fn failure_text(errors: Seq<char>) -> Seq<char> {
    "helper failed: "@ + if lines_of(errors).len() > 0 {
        lines_of(errors)[0]
    } else {
        "(no output)"@
    }
}

/// What to report when the helper fails.
pub fn failure_message(errors: &str) -> (r: String)
    ensures
        r@ == failure_text(errors@),
{
    let all = lines(errors);
    if all.len() > 0 {
        proof {
            assert(texts(all@)[0] == all@[0]@);
        }
        joined("helper failed: ", all[0].as_str())
    } else {
        joined("helper failed: ", "(no output)")
    }
}

/// What came of one run of the helper: whether it succeeded, what it printed
/// and what errors it wrote.
pub fn fetched(success: bool, output: &str, errors: &str) -> (r: Result<Vec<Meeting>, String>)
    ensures
        match r {
            Ok(list) => success && meeting_views(list@) == meetings_of(output@),
            Err(e) => !success && e@ == failure_text(errors@),
        },
{
    if success {
        Ok(parse_output(output))
    } else {
        Err(failure_message(errors))
    }
}

/// The script that reads a source: the one for Outlook, or the one for
/// calendar files with the source filled in, its quotes doubled.
pub open spec fn script_for(source: Seq<char>, outlook: Seq<char>, ics: Seq<char>) -> Seq<char> {
    if ascii_lowered(source) == ascii_lowered("outlook"@) {
        outlook
    } else {
        replaced(ics, "__SRC__"@, replaced(source, "'"@, "''"@))
    }
}

/// The script that reads a source.
pub fn helper_script(source: &str, outlook: &str, ics: &str) -> (r: String)
    ensures
        r@ == script_for(source@, outlook@, ics@),
{
    if same_ignoring_ascii_case(source, "outlook") {
        owned(outlook)
    } else {
        proof {
            reveal_strlit("'");
            reveal_strlit("__SRC__");
        }
        let quoted = replace(source, "'", "''");
        replace(ics, "__SRC__", quoted.as_str())
    }
}

// ------------------------------------------------------------------- state

/// The calendar: its source and what was last read from it.
pub struct Calendar {
    pub meetings: Vec<Meeting>,
    pub source: String,
    pub refresh_min: u64,
    /// The refresher runs.
    pub started: bool,
    /// The last failure that was reported.
    pub last_error: String,
}

/// The time between refreshes in minutes, held between 1 and 120.
pub open spec fn refresh_minutes(n: u32) -> u64 {
    if n < 1 {
        1
    } else if n > 120 {
        120
    } else {
        n as u64
    }
}

/// The seconds since 1970; nothing before that.
pub fn now_epoch(since: Option<u64>) -> (r: u64)
    ensures
        r == match since {
            Some(n) => n,
            None => 0,
        },
{
    match since {
        Some(n) => n,
        None => 0,
    }
}

/// Those of `s` that have not ended at `now`.
pub open spec fn relevant(s: Seq<MeetingView>, now: u64) -> Seq<MeetingView>
    decreases s.len(),
{
    if s.len() == 0 {
        s
    } else if s.last().end >= now {
        relevant(s.drop_last(), now).push(s.last())
    } else {
        relevant(s.drop_last(), now)
    }
}

/// The first of `s` that starts within twelve hours, from `i` on.
pub open spec fn soon_from(s: Seq<MeetingView>, now: u64, i: int) -> Option<int>
    decreases s.len() - i,
{
    if i >= s.len() {
        None
    } else if s[i].start <= now + 12 * 3600 {
        Some(i)
    } else {
        soon_from(s, now, i + 1)
    }
}

/// The first of `s` that has not ended and starts within twelve hours.
pub open spec fn upcoming(s: Seq<MeetingView>, now: u64) -> Option<MeetingView> {
    match soon_from(relevant(s, now), now, 0) {
        Some(i) => Some(relevant(s, now)[i]),
        None => None,
    }
}

impl Default for Calendar {
    fn default() -> (r: Calendar)
        ensures
            r.meetings@.len() == 0,
            r.source@.len() == 0,
            r.refresh_min == 5,
            !r.started,
            r.last_error@.len() == 0,
    {
        Calendar {
            meetings: Vec::new(),
            source: String::new(),
            refresh_min: 5,
            started: false,
            last_error: String::new(),
        }
    }
}

impl Calendar {
    /// Takes over the configured source. Says whether the refresher has to be
    /// started now: the first time that there is a source. What was read from
    /// another source, or from one that was removed, is forgotten.
    pub fn configure(&mut self, source: &str, refresh_min: u32) -> (r: bool)
        ensures
            final(self).source@ == trimmed(source@),
            final(self).refresh_min == refresh_minutes(refresh_min),
            final(self).last_error == old(self).last_error,
            r == (trimmed(source@).len() > 0 && !old(self).started),
            final(self).started == (old(self).started || r),
            final(self).meetings@ == if trimmed(source@).len() == 0 || (old(self).started && trimmed(
                source@,
            ) != old(self).source@) {
                Seq::empty()
            } else {
                old(self).meetings@
            },
    {
        let source = trim(source);
        self.refresh_min = if refresh_min < 1 {
            1
        } else if refresh_min > 120 {
            120
        } else {
            refresh_min as u64
        };
        let changed = !same(self.source.as_str(), source.as_str());
        let empty = is_blank(source.as_str());
        self.source = source;
        if empty {
            self.meetings = Vec::new();
            return false;
        }
        if !self.started {
            self.started = true;
            return true;
        }
        if changed {
            self.meetings = Vec::new();
        }
        false
    }

    /// Everything ongoing or upcoming, soonest first.
    pub fn agenda(&self, now: u64) -> (r: Vec<Meeting>)
        ensures
            meeting_views(r@) == relevant(meeting_views(self.meetings@), now),
    {
        let ghost s = meeting_views(self.meetings@);
        let mut r: Vec<Meeting> = Vec::new();
        let mut i: usize = 0;
        proof {
            assert(s.take(0) =~= Seq::empty());
            assert(meeting_views(r@) =~= Seq::empty());
        }
        while i < self.meetings.len()
            invariant
                i <= self.meetings.len(),
                s == meeting_views(self.meetings@),
                meeting_views(r@) == relevant(s.take(i as int), now),
            decreases self.meetings.len() - i,
        {
            proof {
                assert(s.take(i + 1).drop_last() =~= s.take(i as int));
                assert(s.take(i + 1).last() == self.meetings@[i as int]@);
            }
            if self.meetings[i].end >= now {
                let ghost was = meeting_views(r@);
                r.push(self.meetings[i].duplicate());
                proof {
                    assert(meeting_views(r@) =~= was.push(s[i as int]));
                }
            }
            i = i + 1;
        }
        proof {
            assert(s.take(i as int) =~= s);
        }
        r
    }

    /// What the chip shows: the ongoing meeting, or the next one within
    /// twelve hours.
    pub fn next_meeting(&self, now: u64) -> (r: Option<Meeting>)
        ensures
            match r {
                Some(m) => upcoming(meeting_views(self.meetings@), now) == Some(m@),
                None => upcoming(meeting_views(self.meetings@), now) is None,
            },
    {
        let list = self.agenda(now);
        let ghost s = meeting_views(list@);
        let mut i: usize = 0;
        while i < list.len()
            invariant
                i <= list.len(),
                s == meeting_views(list@),
                s == relevant(meeting_views(self.meetings@), now),
                soon_from(s, now, 0) == soon_from(s, now, i as int),
            decreases list.len() - i,
        {
            proof {
                assert(s[i as int] == list@[i as int]@);
            }
            if list[i].start as u128 <= now as u128 + 12 * 3600 {
                return Some(list[i].duplicate());
            }
            i = i + 1;
        }
        None
    }

    /// Takes over what the refresher read. Gives back a failure to report:
    /// each one only once in a row.
    pub fn refreshed(&mut self, read: Result<Vec<Meeting>, String>) -> (r: Option<String>)
        ensures
            final(self).source == old(self).source,
            final(self).refresh_min == old(self).refresh_min,
            final(self).started == old(self).started,
            match read {
                Ok(list) => final(self).meetings == list && final(self).last_error@.len() == 0
                    && r is None,
                Err(e) => final(self).meetings == old(self).meetings && final(self).last_error@
                    == e@ && (r is Some <==> e@ != old(self).last_error@) && (r matches Some(t)
                    ==> t@ == e@),
            },
    {
        match read {
            Ok(list) => {
                self.meetings = list;
                self.last_error = String::new();
                None
            },
            Err(e) => {
                if same(e.as_str(), self.last_error.as_str()) {
                    None
                } else {
                    self.last_error = e.clone();
                    Some(e)
                }
            },
        }
    }

    /// How long the refresher sleeps, in seconds.
    pub fn pause(&self) -> (r: u64)
        requires
            self.refresh_min <= 120,
        ensures
            r == self.refresh_min * 60,
    {
        self.refresh_min * 60
    }
}

// -------------------------------------------------------------------- laws

pub open spec fn by_start(s: Seq<MeetingView>) -> bool {
    forall|i: int, j: int| 0 <= i < j < s.len() ==> (#[trigger] s[i]).start <= (#[trigger] s[j]).start
}

/// The meetings that were read are ordered by their start.
pub proof fn law_schedule_is_sorted(lines: Seq<Seq<char>>)
    ensures
        by_start(schedule(lines)),
    decreases lines.len(),
{
    if lines.len() > 0 {
        law_schedule_is_sorted(lines.drop_last());
        if let Some(m) = meeting_of(lines.last()) {
            let s = schedule(lines.drop_last());
            let n = no_later(s, m.start);
            lemma_no_later(s, m.start);
            let t = placed(s, m);
            assert forall|i: int, j: int| 0 <= i < j < t.len() implies (#[trigger] t[i]).start
                <= (#[trigger] t[j]).start by {
                let a = if i < n {
                    s[i].start
                } else if i == n {
                    m.start
                } else {
                    s[i - 1].start
                };
                assert(t[i].start == a);
                if j < n {
                    assert(t[j] == s[j]);
                } else if j == n {
                    assert(t[j] == m);
                } else {
                    assert(t[j] == s[j - 1]);
                    assert(s[n].start <= s[j - 1].start);
                }
            }
        }
    }
}

/// What the agenda shows has not ended, and stays in order.
pub proof fn law_agenda_has_not_ended(s: Seq<MeetingView>, now: u64)
    ensures
        forall|i: int|
            0 <= i < relevant(s, now).len() ==> (#[trigger] relevant(s, now)[i]).end >= now,
        by_start(s) ==> by_start(relevant(s, now)),
        forall|m: MeetingView| relevant(s, now).contains(m) ==> #[trigger] s.contains(m),
    decreases s.len(),
{
    if s.len() > 0 {
        let front = s.drop_last();
        law_agenda_has_not_ended(front, now);
        let r = relevant(front, now);
        let t = relevant(s, now);
        if by_start(s) {
            assert(by_start(front)) by {
                assert forall|i: int, j: int| 0 <= i < j < front.len() implies (
                #[trigger] front[i]).start <= (#[trigger] front[j]).start by {
                    assert(front[i] == s[i] && front[j] == s[j]);
                }
            }
            assert forall|i: int| 0 <= i < r.len() implies (#[trigger] r[i]).start
                <= s.last().start by {
                assert(r.contains(r[i]));
                assert(front.contains(r[i]));
                let k = choose|k: int| 0 <= k < front.len() && front[k] == r[i];
                assert(s[k] == r[i]);
                assert(s[s.len() - 1] == s.last());
            }
            assert forall|i: int, j: int| 0 <= i < j < t.len() implies (#[trigger] t[i]).start
                <= (#[trigger] t[j]).start by {
                assert(t[i] == r[i]);
                if j < r.len() {
                    assert(t[j] == r[j]);
                }
            }
        }
        assert forall|m: MeetingView| t.contains(m) implies #[trigger] s.contains(m) by {
            let i = choose|i: int| 0 <= i < t.len() && t[i] == m;
            if i < r.len() {
                assert(r.contains(m));
                assert(front.contains(m));
                let k = choose|k: int| 0 <= k < front.len() && front[k] == m;
                assert(s[k] == m);
            } else {
                assert(s[s.len() - 1] == m);
            }
        }
    }
}

} // verus!
