//! Never losing a window: the journal of hidden windows, showing them again
//! after a crash, and the clean exit.

use super::census::{as_valid, lemma_acts_valid, lemma_shown_other};
use super::desktop::{Action, DeskView, Desktop};
use super::records::WindowSet;
use super::state::{world, MonView, WindowManager, WmView, World};
use crate::numerals::{
    decimal, law_decimal_reads_back, law_signed_decimal_reads_back, read_signed, show_signed, signed_decimal,
    signed_number,
};
use crate::text::{is_white, law_written_line_is_read, lines, lines_of, texts, trim, trimmed};
use crate::window::Window;
use vstd::prelude::*;

verus! {

// ----------------------------------------------------------------- journal

/// One line per window, with its handle.
pub open spec fn journal_text(hidden: Seq<Window>) -> Seq<char>
    decreases hidden.len(),
{
    if hidden.len() == 0 {
        Seq::empty()
    } else {
        journal_text(hidden.drop_last()) + signed_decimal(hidden.last().0 as int) + seq!['\n']
    }
}

/// The handles on the lines that hold one.
pub open spec fn handles(lines: Seq<Seq<char>>) -> Seq<Window>
    decreases lines.len(),
{
    if lines.len() == 0 {
        Seq::empty()
    } else {
        match signed_number(trimmed(lines.last())) {
            Some(n) => handles(lines.drop_last()).push(Window(n as isize)),
            None => handles(lines.drop_last()),
        }
    }
}

impl DeskView {
    /// The windows of `list` that exist and are hidden shown again.
    pub open spec fn restored(self, list: Seq<Window>) -> DeskView
        decreases list.len(),
    {
        if list.len() == 0 {
            self
        } else {
            let d = self.restored(list.drop_last());
            if d.valid(list.last()) && !d.visible(list.last()) {
                d.shown(list.last())
            } else {
                d
            }
        }
    }
}

/// The handles in a journal.
pub fn journal_handles(text: &str) -> (r: Vec<Window>)
    ensures
        r@ == handles(lines_of(text@)),
{
    let all = lines(text);
    let mut r: Vec<Window> = Vec::new();
    let mut i: usize = 0;
    proof {
        assert(texts(all@).take(0) =~= Seq::empty());
    }
    while i < all.len()
        invariant
            i <= all.len(),
            r@ == handles(texts(all@).take(i as int)),
        decreases all.len() - i,
    {
        proof {
            assert(texts(all@).take(i + 1).drop_last() =~= texts(all@).take(i as int));
            assert(texts(all@).take(i + 1).last() == all@[i as int]@);
        }
        let t = trim(all[i].as_str());
        if let Some(n) = read_signed(t.as_str()) {
            r.push(Window(n));
        }
        i = i + 1;
    }
    proof {
        assert(texts(all@).take(i as int) =~= texts(all@));
    }
    r
}

/// Shows again what a journal says was hidden, as far as it exists and is
/// hidden still. Run at the start, after a crash.
pub fn restore_orphans(desk: &mut Desktop, text: &str)
    ensures
        final(desk)@ == old(desk)@.restored(handles(lines_of(text@))),
{
    let list = journal_handles(text);
    let ghost d = desk@;
    let mut i: usize = 0;
    proof {
        assert(list@.take(0) =~= Seq::empty());
    }
    while i < list.len()
        invariant
            i <= list.len(),
            desk@ == d.restored(list@.take(i as int)),
        decreases list.len() - i,
    {
        proof {
            assert(list@.take(i + 1).drop_last() =~= list@.take(i as int));
        }
        let w = list[i];
        if desk.is_valid(w) && !desk.is_visible(w) {
            desk.show(w);
        }
        i = i + 1;
    }
    proof {
        assert(list@.take(i as int) =~= list@);
    }
}

impl WindowManager {
    /// What the journal has to say, each hidden window once; none when nothing
    /// is hidden, and the file is then removed.
    pub fn journal(&self) -> (r: Option<String>)
        ensures
            self@.hidden.no_duplicates(),
            match r {
                Some(t) => self@.hidden.len() > 0 && t@ == journal_text(self@.hidden),
                None => self@.hidden.len() == 0,
            },
    {
        let windows = self.hidden_by_us.list();
        if windows.len() == 0 {
            return None;
        }
        let mut out = String::new();
        let ghost h = windows@;
        let mut i: usize = 0;
        proof {
            assert(h.take(0) =~= Seq::empty());
        }
        while i < windows.len()
            invariant
                i <= windows.len(),
                h == windows@,
                out@ == journal_text(h.take(i as int)),
            decreases windows.len() - i,
        {
            proof {
                assert(h.take(i + 1).drop_last() =~= h.take(i as int));
            }
            let ghost was = out@;
            let n = show_signed(windows[i].0 as i64);
            out.append(n.as_str());
            out.push('\n');
            proof {
                assert(out@ =~= was + signed_decimal(h[i as int].0 as int) + seq!['\n']);
            }
            i = i + 1;
        }
        proof {
            assert(h.take(i as int) =~= h);
        }
        Some(out)
    }
}

// -------------------------------------------------------------- clean exit

impl World {
    /// `w` shown if it is hidden on purpose.
    pub open spec fn freed(self, w: Window) -> World {
        if self.wm.hidden.contains(w) {
            World { desk: self.desk.shown(w), ..self }
        } else {
            self
        }
    }

    /// The parked windows of `list` shown and set back.
    pub open spec fn unparked(self, list: Seq<Window>) -> World
        decreases list.len(),
    {
        if list.len() == 0 {
            self
        } else {
            let w = list.last();
            self.unparked(list.drop_last()).freed(w).act(Action::Topmost(w, false)).act(
                Action::Border(w, None),
            )
        }
    }

    /// The windows of `list` shown and set back.
    pub open spec fn handed_back(self, list: Seq<Window>) -> World
        decreases list.len(),
    {
        if list.len() == 0 {
            self
        } else {
            let w = list.last();
            self.handed_back(list.drop_last()).freed(w).act(Action::Border(w, None))
        }
    }

    /// The workspaces before `n` of a monitor handed back.
    pub open spec fn spaces_back(self, mon: MonView, n: int) -> World
        decreases n,
    {
        if n <= 0 {
            self
        } else {
            let s = self.spaces_back(mon, n - 1);
            let ws = mon.workspaces[n - 1];
            let t = match ws.fullscreen {
                Some(f) => s.act(Action::Topmost(f, false)),
                None => s,
            };
            t.handed_back(ws.all())
        }
    }

    /// The monitors before `n` handed back.
    pub open spec fn monitors_back(self, n: int) -> World
        decreases n,
    {
        if n <= 0 {
            self
        } else {
            let mon = self.wm.monitors[n - 1];
            self.monitors_back(n - 1).spaces_back(mon, mon.workspaces.len() as int)
        }
    }

    /// The companions of `pairs` that still exist shown.
    pub open spec fn companions_back(self, pairs: Seq<(Window, Window)>) -> World
        decreases pairs.len(),
    {
        if pairs.len() == 0 {
            self
        } else {
            let s = self.companions_back(pairs.drop_last());
            let c = pairs.last().1;
            if s.desk.valid(c) {
                World { desk: s.desk.shown(c), ..s }
            } else {
                s
            }
        }
    }

    /// Everything that was hidden shown, all borders set back.
    pub open spec fn cleaned_up(self) -> World {
        let s = self.unparked(self.wm.scratch).monitors_back(
            self.wm.monitors.len() as int,
        ).companions_back(self.wm.companions);
        World {
            wm: WmView { hidden: Seq::empty(), companions: Seq::empty(), ..self.wm },
            ..s
        }.act(Action::Journal)
    }
}

proof fn lemma_backs_keep(s: World, list: Seq<Window>)
    ensures
        s.unparked(list).wm == s.wm,
        s.handed_back(list).wm == s.wm,
    decreases list.len(),
{
    if list.len() > 0 {
        lemma_backs_keep(s, list.drop_last());
    }
}

proof fn lemma_spaces_keep(s: World, mon: MonView, n: int)
    ensures
        s.spaces_back(mon, n).wm == s.wm,
    decreases n,
{
    if n > 0 {
        lemma_spaces_keep(s, mon, n - 1);
        let t = s.spaces_back(mon, n - 1);
        let ws = mon.workspaces[n - 1];
        let u = match ws.fullscreen {
            Some(f) => t.act(Action::Topmost(f, false)),
            None => t,
        };
        lemma_backs_keep(u, ws.all());
    }
}

proof fn lemma_monitors_keep(s: World, n: int)
    ensures
        s.monitors_back(n).wm == s.wm,
    decreases n,
{
    if n > 0 {
        lemma_monitors_keep(s, n - 1);
        let mon = s.wm.monitors[n - 1];
        lemma_spaces_keep(s.monitors_back(n - 1), mon, mon.workspaces.len() as int);
    }
}

impl WindowManager {
    fn free(&self, desk: &mut Desktop, w: Window)
        ensures
            world(*self, *final(desk)) == world(*self, *old(desk)).freed(w),
    {
        if self.hidden_by_us.has(w) {
            desk.show(w);
        }
    }

    fn hand_back(&self, desk: &mut Desktop, list: &Vec<Window>)
        ensures
            world(*self, *final(desk)) == world(*self, *old(desk)).handed_back(list@),
    {
        let ghost s = world(*self, *desk);
        let mut i: usize = 0;
        proof {
            assert(list@.take(0) =~= Seq::empty());
        }
        while i < list.len()
            invariant
                i <= list.len(),
                world(*self, *desk) == s.handed_back(list@.take(i as int)),
            decreases list.len() - i,
        {
            proof {
                assert(list@.take(i + 1).drop_last() =~= list@.take(i as int));
            }
            self.free(desk, list[i]);
            desk.act(Action::Border(list[i], None));
            i = i + 1;
        }
        proof {
            assert(list@.take(i as int) =~= list@);
        }
    }

    /// Shows everything that was hidden and sets all borders back, for a
    /// clean exit.
    pub fn cleanup(&mut self, desk: &mut Desktop)
        ensures
            world(*final(self), *final(desk)) == world(*old(self), *old(desk)).cleaned_up(),
            final(self).config == old(self).config,
    {
        let ghost s = world(*self, *desk);
        let mut i: usize = 0;
        proof {
            assert(self.scratch@.take(0) =~= Seq::empty());
        }
        while i < self.scratch.len()
            invariant
                i <= self.scratch.len(),
                *self == *old(self),
                world(*self, *desk) == s.unparked(self.scratch@.take(i as int)),
            decreases self.scratch.len() - i,
        {
            proof {
                assert(self.scratch@.take(i + 1).drop_last() =~= self.scratch@.take(i as int));
            }
            let w = self.scratch[i];
            self.free(desk, w);
            desk.set_topmost(w, false);
            desk.act(Action::Border(w, None));
            i = i + 1;
        }
        proof {
            assert(self.scratch@.take(i as int) =~= self.scratch@);
            lemma_backs_keep(s, s.wm.scratch);
        }
        let ghost a = world(*self, *desk);
        let mut mi: usize = 0;
        while mi < self.monitors.len()
            invariant
                mi <= self.monitors.len(),
                *self == *old(self),
                a.wm == self@,
                world(*self, *desk) == a.monitors_back(mi as int),
            decreases self.monitors.len() - mi,
        {
            let ghost b = world(*self, *desk);
            let mon = &self.monitors[mi];
            proof {
                assert(a.wm.monitors[mi as int] == mon@);
            }
            let mut wi: usize = 0;
            while wi < mon.workspaces.len()
                invariant
                    wi <= mon.workspaces.len(),
                    world(*self, *desk) == b.spaces_back(mon@, wi as int),
                decreases mon.workspaces.len() - wi,
            {
                let ws = &mon.workspaces[wi];
                proof {
                    assert(mon@.workspaces[wi as int] == ws@);
                }
                if let Some(f) = ws.fullscreen {
                    desk.set_topmost(f, false);
                }
                let all = ws.all_windows();
                self.hand_back(desk, &all);
                wi = wi + 1;
            }
            mi = mi + 1;
        }
        proof {
            lemma_monitors_keep(a, a.wm.monitors.len() as int);
        }
        let ghost c = world(*self, *desk);
        let mut k: usize = 0;
        proof {
            assert(self.companions_hidden@.take(0) =~= Seq::empty());
        }
        while k < self.companions_hidden.len()
            invariant
                k <= self.companions_hidden.len(),
                *self == *old(self),
                world(*self, *desk) == c.companions_back(self.companions_hidden@.take(k as int)),
            decreases self.companions_hidden.len() - k,
        {
            proof {
                assert(self.companions_hidden@.take(k + 1).drop_last()
                    =~= self.companions_hidden@.take(k as int));
            }
            let w = self.companions_hidden[k].1;
            if desk.is_valid(w) {
                desk.show(w);
            }
            k = k + 1;
        }
        proof {
            assert(self.companions_hidden@.take(k as int) =~= self.companions_hidden@);
        }
        self.companions_hidden = Vec::new();
        self.hidden_by_us = WindowSet::new();
        desk.act(Action::Journal);
    }
}

// -------------------------------------------------------------------- laws

proof fn lemma_handle_line(n: isize)
    ensures
        ({
            let t = signed_decimal(n as int);
            &&& trimmed(t) == t
            &&& !t.contains('\n')
            &&& t.len() > 0
            &&& t.last() != '\r'
        }),
{
    let t = signed_decimal(n as int);
    let m = if n < 0 {
        (-(n as int)) as nat
    } else {
        n as nat
    };
    law_decimal_reads_back(m);
    let d = decimal(m);
    assert forall|i: int| 0 <= i < t.len() implies t[i] == '-' || (48 <= (#[trigger] t[i]) as u32
        && t[i] as u32 <= 57) by {
        if n < 0 {
            if i > 0 {
                assert(t[i] == d[i - 1]);
            }
        } else {
            assert(t[i] == d[i]);
        }
    }
    assert(!is_white(t[0]));
    assert(!is_white(t[t.len() - 1]));
}

/// Every hidden window that the journal names is read back from it, in
/// order.
pub proof fn law_journal_reads_back(hidden: Seq<Window>)
    ensures
        handles(lines_of(journal_text(hidden))) == hidden,
        journal_text(hidden).len() == 0 || journal_text(hidden).last() == '\n',
    decreases hidden.len(),
{
    if hidden.len() > 0 {
        let front = hidden.drop_last();
        law_journal_reads_back(front);
        let n = hidden.last().0;
        let l = signed_decimal(n as int);
        lemma_handle_line(n);
        law_signed_decimal_reads_back(n);
        let a = journal_text(front);
        law_written_line_is_read(a, l);
        let all = lines_of(journal_text(hidden));
        assert(all == lines_of(a).push(l));
        assert(all.drop_last() =~= lines_of(a));
        assert(all.last() == l);
        assert(handles(all) == front.push(hidden.last()));
        assert(front.push(hidden.last()) =~= hidden);
    } else {
        assert(lines_of(Seq::<char>::empty()) =~= Seq::<Seq<char>>::empty());
        assert(handles(Seq::<Seq<char>>::empty()) =~= hidden);
    }
}

proof fn lemma_restored(d: DeskView, list: Seq<Window>, w: Window)
    ensures
        as_valid(d, d.restored(list)),
        !list.contains(w) ==> d.restored(list).visible(w) == d.visible(w),
        list.contains(w) && d.valid(w) && !d.visible(w) ==> d.restored(list).actions.contains(
            Action::Show(w),
        ),
    decreases list.len(),
{
    if list.len() > 0 {
        let front = list.drop_last();
        let x = list.last();
        lemma_restored(d, front, w);
        let e = d.restored(front);
        lemma_acts_valid(e);
        lemma_pushed(e.actions, Action::Show(x));
        assert(e.valid(w) == d.valid(w));
        if x != w {
            lemma_shown_other(e, x, w);
            if list.contains(w) {
                let i = choose|i: int| 0 <= i < list.len() && list[i] == w;
                assert(front[i] == w);
            }
        } else {
            assert(list[list.len() - 1] == w);
        }
        if front.contains(w) {
            let i = choose|i: int| 0 <= i < front.len() && front[i] == w;
            assert(list[i] == w);
        }
    }
}

/// After a crash the journal brings back every window that was hidden on
/// purpose, still exists and is hidden still.
pub proof fn law_restart_shows_hidden_windows(hidden: Seq<Window>, d: DeskView, w: Window)
    requires
        hidden.contains(w),
        d.valid(w),
        !d.visible(w),
    ensures
        d.restored(handles(lines_of(journal_text(hidden)))).actions.contains(Action::Show(w)),
{
    law_journal_reads_back(hidden);
    lemma_restored(d, hidden, w);
}

impl World {
    /// `w` is a managed window hidden on purpose, or one that still exists of
    /// those hidden along with another.
    pub open spec fn hides(self, w: Window) -> bool {
        ||| self.wm.hidden.contains(w) && self.wm.is_managed(w)
        ||| self.desk.valid(w) && exists|o: Window| self.wm.companions.contains((o, w))
    }
}

/// From `s` to `t` actions were only added.
pub open spec fn extends(s: World, t: World) -> bool {
    &&& t.wm == s.wm
    &&& as_valid(s.desk, t.desk)
    &&& forall|a: Action| s.desk.actions.contains(a) ==> #[trigger] t.desk.actions.contains(a)
}

proof fn lemma_pushed(s: Seq<Action>, a: Action)
    ensures
        s.push(a).contains(a),
        forall|x: Action| s.contains(x) ==> #[trigger] s.push(a).contains(x),
{
    assert(s.push(a)[s.len() as int] == a);
    assert forall|x: Action| s.contains(x) implies #[trigger] s.push(a).contains(x) by {
        let i = choose|i: int| 0 <= i < s.len() && s[i] == x;
        assert(s.push(a)[i] == x);
    }
}

proof fn lemma_extends_act(s: World, a: Action)
    ensures
        extends(s, s.act(a)),
        s.act(a).desk.actions.contains(a),
{
    lemma_acts_valid(s.desk);
    lemma_pushed(s.desk.actions, a);
}

proof fn lemma_extends_freed(s: World, w: Window)
    ensures
        extends(s, s.freed(w)),
        s.wm.hidden.contains(w) ==> s.freed(w).desk.actions.contains(Action::Show(w)),
{
    lemma_acts_valid(s.desk);
    lemma_pushed(s.desk.actions, Action::Show(w));
}

proof fn lemma_backs_extend(s: World, list: Seq<Window>, w: Window)
    ensures
        extends(s, s.unparked(list)),
        extends(s, s.handed_back(list)),
        list.contains(w) && s.wm.hidden.contains(w) ==> s.unparked(list).desk.actions.contains(
            Action::Show(w),
        ) && s.handed_back(list).desk.actions.contains(Action::Show(w)),
    decreases list.len(),
{
    if list.len() > 0 {
        lemma_backs_extend(s, list.drop_last(), w);
        let x = list.last();
        let a = s.unparked(list.drop_last());
        lemma_extends_freed(a, x);
        lemma_extends_act(a.freed(x), Action::Topmost(x, false));
        lemma_extends_act(a.freed(x).act(Action::Topmost(x, false)), Action::Border(x, None));
        let b = s.handed_back(list.drop_last());
        lemma_extends_freed(b, x);
        lemma_extends_act(b.freed(x), Action::Border(x, None));
        if list.contains(w) && w != x {
            let i = choose|i: int| 0 <= i < list.len() && list[i] == w;
            assert(list.drop_last()[i] == w);
        }
    }
}

proof fn lemma_spaces_extend(s: World, mon: MonView, n: int, wi: int, w: Window)
    ensures
        extends(s, s.spaces_back(mon, n)),
        0 <= wi < n && mon.workspaces[wi].holds(w) && s.wm.hidden.contains(w) ==> s.spaces_back(
            mon,
            n,
        ).desk.actions.contains(Action::Show(w)),
    decreases n,
{
    if n > 0 {
        lemma_spaces_extend(s, mon, n - 1, wi, w);
        let t = s.spaces_back(mon, n - 1);
        let ws = mon.workspaces[n - 1];
        let u = match ws.fullscreen {
            Some(f) => t.act(Action::Topmost(f, false)),
            None => t,
        };
        match ws.fullscreen {
            Some(f) => {
                lemma_extends_act(t, Action::Topmost(f, false));
            },
            None => {},
        }
        lemma_backs_extend(u, ws.all(), w);
        if ws.tiled.contains(w) {
            let i = choose|i: int| 0 <= i < ws.tiled.len() && ws.tiled[i] == w;
            assert(ws.all()[i] == w);
        }
        if ws.floating.contains(w) {
            let i = choose|i: int| 0 <= i < ws.floating.len() && ws.floating[i] == w;
            assert(ws.all()[ws.tiled.len() + i] == w);
        }
    }
}

proof fn lemma_monitors_extend(s: World, n: int, mi: int, wi: int, w: Window)
    requires
        n <= s.wm.monitors.len(),
    ensures
        extends(s, s.monitors_back(n)),
        0 <= mi < n && s.wm.has(mi, wi) && s.wm.ws(mi, wi).holds(w) && s.wm.hidden.contains(w)
            ==> s.monitors_back(n).desk.actions.contains(Action::Show(w)),
    decreases n,
{
    if n > 0 {
        lemma_monitors_extend(s, n - 1, mi, wi, w);
        let mon = s.wm.monitors[n - 1];
        let t = s.monitors_back(n - 1);
        lemma_spaces_extend(t, mon, mon.workspaces.len() as int, wi, w);
    }
}

proof fn lemma_companions_extend(s: World, pairs: Seq<(Window, Window)>, w: Window)
    ensures
        extends(s, s.companions_back(pairs)),
        s.desk.valid(w) && (exists|o: Window| pairs.contains((o, w))) ==> s.companions_back(
            pairs,
        ).desk.actions.contains(Action::Show(w)),
    decreases pairs.len(),
{
    if pairs.len() > 0 {
        let front = pairs.drop_last();
        lemma_companions_extend(s, front, w);
        let t = s.companions_back(front);
        lemma_acts_valid(t.desk);
        assert(t.desk.valid(w) == s.desk.valid(w));
        lemma_pushed(t.desk.actions, Action::Show(pairs.last().1));
        if (exists|o: Window| pairs.contains((o, w))) && pairs.last().1 != w {
            let o = choose|o: Window| pairs.contains((o, w));
            let i = choose|i: int| 0 <= i < pairs.len() && pairs[i] == (o, w);
            assert(front[i] == (o, w));
            assert(front.contains((o, w)));
        }
    }
}

/// A clean exit shows every managed window that is hidden on purpose, and
/// every window that still exists of those hidden along with another. It
/// remembers none as hidden any more.
pub proof fn law_exit_restores_hidden_windows(s: World, w: Window)
    requires
        s.hides(w),
    ensures
        s.cleaned_up().desk.actions.contains(Action::Show(w)),
        s.cleaned_up().wm.hidden.len() == 0,
        s.cleaned_up().wm.companions.len() == 0,
{
    let a = s.unparked(s.wm.scratch);
    lemma_backs_extend(s, s.wm.scratch, w);
    let n = s.wm.monitors.len() as int;
    super::state::lemma_mon_from(s.wm.monitors, w, 0);
    match s.wm.find(w) {
        Some((mi, wi)) => {
            lemma_monitors_extend(a, n, mi, wi, w);
        },
        None => {
            lemma_monitors_extend(a, n, 0, 0, w);
        },
    }
    let b = a.monitors_back(n);
    assert(b.desk.valid(w) == s.desk.valid(w));
    lemma_companions_extend(b, s.wm.companions, w);
    let c = b.companions_back(s.wm.companions);
    lemma_pushed(c.desk.actions, Action::Journal);
}

} // verus!
