//! Registering the hotkeys, and what they and the events of the system mean.

use crate::config::{EntryView, LauncherEntry};
use crate::keys::{
    action_to_command, chord_value, command_of, expand, expanded, parse_chord, Modifiers,
};
use crate::launcher::entries_of;
use crate::strmap::StrMap;
use crate::text::{contains, has_text, is_blank, texts};
use crate::window::Window;
use crate::wm::{Command, WmEvent};
use vstd::prelude::*;

verus! {

// ----------------------------------------------------------------- requests

/// A chord that is to trigger a command.
#[derive(Debug)]
pub struct Request {
    pub chord: String,
    pub command: Command,
}

/// The chords and commands of requests.
pub open spec fn request_views(v: Seq<Request>) -> Seq<(Seq<char>, Command)> {
    v.map_values(|r: Request| (r.chord@, r.command))
}

/// A request, where the action has a command.
pub open spec fn request(action: Seq<char>, digit: Option<usize>, chord: Seq<char>) -> Seq<
    (Seq<char>, Command),
> {
    match command_of(action, digit) {
        Some(c) => seq![(chord, c)],
        None => Seq::empty(),
    }
}

/// The digit keys from 1 to `n`.
pub open spec fn numbered(action: Seq<char>, chord: Seq<char>, n: int) -> Seq<(Seq<char>, Command)>
    decreases n,
{
    if n <= 0 {
        Seq::empty()
    } else {
        numbered(action, chord, n - 1) + request(
            action,
            Some((n - 1) as usize),
            expanded(chord, n as nat),
        )
    }
}

/// The requests of one binding. A chord with a place for a digit is meant for
/// each of them; the 0 key is for the tenth workspace, where there is one.
pub open spec fn binding_requests(action: Seq<char>, chord: Seq<char>, workspaces: int) -> Seq<
    (Seq<char>, Command),
> {
    if has_text(chord, "{n}"@) {
        numbered(action, chord, 9) + if workspaces >= 10 {
            request(action, Some(9usize), expanded(chord, 0))
        } else {
            Seq::empty()
        }
    } else {
        request(action, None, chord)
    }
}

/// The requests of all bindings, in their order.
pub open spec fn bound_requests(pairs: Seq<(Seq<char>, Seq<char>)>, workspaces: int) -> Seq<
    (Seq<char>, Command),
>
    decreases pairs.len(),
{
    if pairs.len() == 0 {
        Seq::empty()
    } else {
        bound_requests(pairs.drop_last(), workspaces) + binding_requests(
            pairs.last().0,
            pairs.last().1,
            workspaces,
        )
    }
}

/// The requests of the launcher entries that have a shortcut.
pub open spec fn entry_requests(s: Seq<EntryView>) -> Seq<(Seq<char>, Command)>
    decreases s.len(),
{
    if s.len() == 0 {
        Seq::empty()
    } else if s.last().key.len() > 0 {
        entry_requests(s.drop_last()).push(
            (s.last().key, Command::Launch((s.len() - 1) as usize)),
        )
    } else {
        entry_requests(s.drop_last())
    }
}

fn add_request(v: &mut Vec<Request>, action: &str, digit: Option<usize>, chord: String)
    ensures
        request_views(final(v)@) == request_views(old(v)@) + request(action@, digit, chord@),
{
    let ghost was = v@;
    match action_to_command(action, digit) {
        Some(command) => {
            v.push(Request { chord, command });
            proof {
                assert(request_views(v@) =~= request_views(was) + request(action@, digit, chord@));
            }
        },
        None => {
            proof {
                assert(request_views(v@) =~= request_views(was) + request(action@, digit, chord@));
            }
        },
    }
}

fn add_binding(v: &mut Vec<Request>, action: &str, chord: &str, workspaces: usize)
    ensures
        request_views(final(v)@) == request_views(old(v)@) + binding_requests(
            action@,
            chord@,
            workspaces as int,
        ),
{
    let ghost start = request_views(v@);
    if contains(chord, "{n}") {
        let mut d: usize = 1;
        proof {
            assert(start + numbered(action@, chord@, 0) =~= start);
        }
        while d <= 9
            invariant
                1 <= d <= 10,
                request_views(v@) == start + numbered(action@, chord@, d - 1),
            decreases 10 - d,
        {
            add_request(v, action, Some(d - 1), expand(chord, d));
            proof {
                assert(start + numbered(action@, chord@, d as int) =~= (start + numbered(
                    action@,
                    chord@,
                    d - 1,
                )) + request(action@, Some((d - 1) as usize), expanded(chord@, d as nat)));
            }
            d = d + 1;
        }
        if workspaces >= 10 {
            add_request(v, action, Some(9), expand(chord, 0));
        }
        proof {
            assert(request_views(v@) =~= start + binding_requests(
                action@,
                chord@,
                workspaces as int,
            ));
        }
    } else {
        add_request(v, action, None, crate::text::owned(chord));
    }
}

/// All chords to register, in order: the bindings, then the shortcuts of the
/// launcher.
pub fn requests(bindings: &StrMap<String>, workspaces: usize, launcher: &Vec<LauncherEntry>) -> (r:
    Vec<Request>)
    ensures
        request_views(r@) == bound_requests(bindings.pairs(), workspaces as int) + entry_requests(
            entries_of(launcher@),
        ),
{
    let mut r: Vec<Request> = Vec::new();
    let ghost pairs = bindings.pairs();
    let mut i: usize = 0;
    proof {
        assert(pairs.take(0) =~= Seq::empty());
        assert(request_views(r@) =~= Seq::empty());
    }
    while i < bindings.entries.len()
        invariant
            i <= bindings.entries.len(),
            pairs == bindings.pairs(),
            request_views(r@) == bound_requests(pairs.take(i as int), workspaces as int),
        decreases bindings.entries.len() - i,
    {
        let e = &bindings.entries[i];
        proof {
            assert(pairs.take(i + 1).drop_last() =~= pairs.take(i as int));
            assert(pairs[i as int] == (e.0@, e.1@));
        }
        add_binding(&mut r, e.0.as_str(), e.1.as_str(), workspaces);
        i = i + 1;
    }
    proof {
        assert(pairs.take(i as int) =~= pairs);
    }
    let ghost start = request_views(r@);
    let ghost views = entries_of(launcher@);
    let mut k: usize = 0;
    proof {
        assert(views.take(0) =~= Seq::empty());
        assert(start + entry_requests(views.take(0)) =~= start);
    }
    while k < launcher.len()
        invariant
            k <= launcher.len(),
            views == entries_of(launcher@),
            request_views(r@) == start + entry_requests(views.take(k as int)),
        decreases launcher.len() - k,
    {
        let e = &launcher[k];
        proof {
            assert(views.take(k + 1).drop_last() =~= views.take(k as int));
            assert(views[k as int] == e@);
        }
        if !is_blank(e.key.as_str()) {
            let ghost was = r@;
            r.push(Request { chord: e.key.clone(), command: Command::Launch(k) });
            proof {
                assert(request_views(r@) =~= request_views(was).push(
                    (e.key@, Command::Launch(k)),
                ));
                assert(request_views(r@) =~= start + entry_requests(views.take(k + 1)));
            }
        }
        k = k + 1;
    }
    proof {
        assert(views.take(k as int) =~= views);
    }
    r
}

/// The bound actions that are none: without a place for a digit in their
/// chord, and without a command.
pub open spec fn unknown(pairs: Seq<(Seq<char>, Seq<char>)>) -> Seq<Seq<char>>
    decreases pairs.len(),
{
    if pairs.len() == 0 {
        Seq::empty()
    } else {
        let (action, chord) = pairs.last();
        if !has_text(chord, "{n}"@) && command_of(action, None) is None {
            unknown(pairs.drop_last()).push(action)
        } else {
            unknown(pairs.drop_last())
        }
    }
}

/// The bound actions that are none.
pub fn unknown_actions(bindings: &StrMap<String>) -> (r: Vec<String>)
    ensures
        texts(r@) == unknown(bindings.pairs()),
{
    let mut r: Vec<String> = Vec::new();
    let ghost pairs = bindings.pairs();
    let mut i: usize = 0;
    proof {
        assert(pairs.take(0) =~= Seq::empty());
        assert(texts(r@) =~= Seq::empty());
    }
    while i < bindings.entries.len()
        invariant
            i <= bindings.entries.len(),
            pairs == bindings.pairs(),
            texts(r@) == unknown(pairs.take(i as int)),
        decreases bindings.entries.len() - i,
    {
        let e = &bindings.entries[i];
        let ghost was = r@;
        proof {
            assert(pairs.take(i + 1).drop_last() =~= pairs.take(i as int));
            assert(pairs[i as int] == (e.0@, e.1@));
        }
        if !contains(e.1.as_str(), "{n}") && action_to_command(e.0.as_str(), None).is_none() {
            r.push(e.0.clone());
            proof {
                assert(texts(r@) =~= texts(was).push(e.0@));
            }
        }
        i = i + 1;
    }
    proof {
        assert(pairs.take(i as int) =~= pairs);
    }
    r
}

// ----------------------------------------------------------------- registry

/// The registration of hotkeys: what is asked for, how far it got, and what
/// is registered.
pub struct Registry {
    pub requests: Vec<Request>,
    pub at: usize,
    pub next_id: i32,
    /// Identifiers of registered hotkeys with their commands.
    pub keys: Vec<(i32, Command)>,
    pub failures: usize,
}

/// The first request, from the `i`th on, whose chord can be read.
pub open spec fn readable_from(v: Seq<(Seq<char>, Command)>, i: int) -> int
    decreases v.len() - i,
{
    if i < 0 || i >= v.len() || chord_value(v[i].0) is Some {
        i
    } else {
        readable_from(v, i + 1)
    }
}

impl Registry {
    /// Every request so far is registered or failed, and the identifiers
    /// count up from 1.
    pub open spec fn wf(&self) -> bool {
        &&& self.at <= self.requests.len() < 0x7FFF_FFFF
        &&& self.keys.len() + self.failures == self.at
        &&& self.next_id == self.keys.len() + 1
        &&& forall|i: int| 0 <= i < self.keys.len() ==> (#[trigger] self.keys@[i]).0 == i + 1
    }

    /// Nothing registered yet.
    pub fn new(requests: Vec<Request>) -> (r: Registry)
        requires
            requests.len() < 0x7FFF_FFFF,
        ensures
            r.wf(),
            r.requests == requests,
            r.at == 0,
            r.keys.len() == 0,
    {
        Registry { requests, at: 0, next_id: 1, keys: Vec::new(), failures: 0 }
    }

    /// The next hotkey to register: identifier, modifiers and key. Chords that
    /// cannot be read fail.
    pub fn next(&mut self) -> (r: Option<(i32, Modifiers, u32)>)
        requires
            old(self).wf(),
        ensures
            final(self).wf(),
            final(self).requests == old(self).requests,
            final(self).keys == old(self).keys,
            final(self).at == readable_from(request_views(old(self).requests@), old(self).at as int),
            match r {
                Some((id, m, vk)) => {
                    &&& final(self).at < final(self).requests.len()
                    &&& id == final(self).next_id
                    &&& chord_value(final(self).requests@[final(self).at as int].chord@) == Some(
                        (m, vk),
                    )
                },
                None => final(self).at == final(self).requests.len(),
            },
    {
        let ghost views = request_views(self.requests@);
        while self.at < self.requests.len()
            invariant
                self.wf(),
                self.requests == old(self).requests,
                self.keys == old(self).keys,
                views == request_views(self.requests@),
                readable_from(views, self.at as int) == readable_from(views, old(self).at as int),
            decreases self.requests.len() - self.at,
        {
            proof {
                assert(views[self.at as int] == (
                    self.requests@[self.at as int].chord@,
                    self.requests@[self.at as int].command,
                ));
            }
            match parse_chord(self.requests[self.at].chord.as_str()) {
                Some((m, vk)) => {
                    return Some((self.next_id, m, vk));
                },
                None => {
                    self.failures = self.failures + 1;
                    self.at = self.at + 1;
                },
            }
        }
        None
    }

    /// The system took the hotkey, or did not.
    pub fn answered(&mut self, taken: bool)
        requires
            old(self).wf(),
            old(self).at < old(self).requests.len(),
        ensures
            final(self).wf(),
            final(self).requests == old(self).requests,
            final(self).at == old(self).at + 1,
            final(self).keys@ == if taken {
                old(self).keys@.push(
                    (old(self).next_id, old(self).requests@[old(self).at as int].command),
                )
            } else {
                old(self).keys@
            },
    {
        if taken {
            let id = self.next_id;
            let command = self.requests[self.at].command;
            self.keys.push((id, command));
            self.next_id = id + 1;
        } else {
            self.failures = self.failures + 1;
        }
        self.at = self.at + 1;
    }

    /// The command of a registered hotkey.
    pub fn command(&self, id: i32) -> (r: Option<Command>)
        requires
            self.wf(),
        ensures
            r == if 1 <= id <= self.keys.len() {
                Some(self.keys@[id - 1].1)
            } else {
                None
            },
            forall|k: int| 0 <= k < self.keys.len() && (#[trigger] self.keys@[k]).0 == id ==> r
                == Some(self.keys@[k].1),
    {
        if id >= 1 && (id - 1) as usize <= 0x7FFF_FFFF && ((id - 1) as usize) < self.keys.len() {
            Some(self.keys[(id - 1) as usize].1)
        } else {
            None
        }
    }
}

/// Where a hotkey's command goes.
#[derive(Clone, Copy, Debug, PartialEq, Eq, Structural)]
pub enum Route {
    Help,
    Launcher,
    Launch(usize),
    Overview,
    Switcher,
    /// The window manager handles it.
    Manager(Command),
}

/// Where a hotkey's command goes.
pub fn route(c: Command) -> (r: Route)
    ensures
        r == match c {
            Command::ShowHelp => Route::Help,
            Command::Launcher => Route::Launcher,
            Command::Launch(i) => Route::Launch(i),
            Command::Overview => Route::Overview,
            Command::WindowSwitcher => Route::Switcher,
            _ => Route::Manager(c),
        },
{
    match c {
        Command::ShowHelp => Route::Help,
        Command::Launcher => Route::Launcher,
        Command::Launch(i) => Route::Launch(i),
        Command::Overview => Route::Overview,
        Command::WindowSwitcher => Route::Switcher,
        _ => Route::Manager(c),
    }
}

// ------------------------------------------------------------------- events

pub const EVENT_FOREGROUND: u32 = 0x0003;

pub const EVENT_MOVE_SIZE_END: u32 = 0x000B;

pub const EVENT_MINIMIZE_START: u32 = 0x0016;

pub const EVENT_MINIMIZE_END: u32 = 0x0017;

pub const EVENT_DESTROY: u32 = 0x8001;

pub const EVENT_SHOW: u32 = 0x8002;

pub const EVENT_HIDE: u32 = 0x8003;

pub const EVENT_NAME_CHANGE: u32 = 0x800C;

pub const EVENT_CLOAKED: u32 = 0x8017;

pub const EVENT_UNCLOAKED: u32 = 0x8018;

/// What an event of the system means for the window manager. `drop` is the
/// workspace cell that a dragged window was dropped on.
pub open spec fn event_meaning(event: u32, w: Window, drop: Option<(isize, usize)>) -> Option<
    WmEvent,
> {
    if event == EVENT_SHOW || event == EVENT_UNCLOAKED {
        Some(WmEvent::Shown(w))
    } else if event == EVENT_NAME_CHANGE {
        Some(WmEvent::Retitled(w))
    } else if event == EVENT_MINIMIZE_END {
        Some(WmEvent::Restored(w))
    } else if event == EVENT_HIDE || event == EVENT_CLOAKED {
        Some(WmEvent::Hidden(w))
    } else if event == EVENT_DESTROY {
        Some(WmEvent::Destroyed(w))
    } else if event == EVENT_FOREGROUND {
        Some(WmEvent::Foreground(w))
    } else if event == EVENT_MINIMIZE_START {
        Some(WmEvent::MinimizeStart(w))
    } else if event == EVENT_MOVE_SIZE_END {
        Some(WmEvent::MoveSizeEnd(w, drop))
    } else {
        None
    }
}

/// What an event of the system means for the window manager.
pub fn meaning_of(event: u32, w: Window, drop: Option<(isize, usize)>) -> (r: Option<WmEvent>)
    ensures
        r == event_meaning(event, w, drop),
{
    if event == EVENT_SHOW || event == EVENT_UNCLOAKED {
        Some(WmEvent::Shown(w))
    } else if event == EVENT_NAME_CHANGE {
        Some(WmEvent::Retitled(w))
    } else if event == EVENT_MINIMIZE_END {
        Some(WmEvent::Restored(w))
    } else if event == EVENT_HIDE || event == EVENT_CLOAKED {
        Some(WmEvent::Hidden(w))
    } else if event == EVENT_DESTROY {
        Some(WmEvent::Destroyed(w))
    } else if event == EVENT_FOREGROUND {
        Some(WmEvent::Foreground(w))
    } else if event == EVENT_MINIMIZE_START {
        Some(WmEvent::MinimizeStart(w))
    } else if event == EVENT_MOVE_SIZE_END {
        Some(WmEvent::MoveSizeEnd(w, drop))
    } else {
        None
    }
}

// --------------------------------------------------------------------- laws

/// With fewer than ten workspaces no chord asks for the tenth by the 0 key.
pub proof fn law_zero_key_needs_ten(action: Seq<char>, chord: Seq<char>, workspaces: int)
    requires
        has_text(chord, "{n}"@),
        workspaces < 10,
    ensures
        binding_requests(action, chord, workspaces) == numbered(action, chord, 9),
{
    assert(binding_requests(action, chord, workspaces) =~= numbered(action, chord, 9));
}

} // verus!
