//! Web apps: addresses, the browsers that open them, and bookmark files.

use crate::config::{EntryView, LauncherEntry};
use crate::text::{
    after_last_either, ascii_lower, ascii_lowered, begins, chars_of, contains, find_at, find_from, has_text,
    is_blank, joined, lemma_find_from, lowercase, match_at, occurs_at, owned, past_last_either,
    pieces, pieces_from, replace, replaced, replaced_from, same, same_ignoring_ascii_case,
    slice_string, split, starts_with, texts, to_ascii_lowercase, to_lowercase, trim, trimmed,
    until_either, up_to_either,
};
use vstd::arithmetic::div_mod::{
    lemma_add_mod_noop, lemma_mod_add_multiples_vanish, lemma_mod_twice, lemma_small_mod,
};
use vstd::prelude::*;

verus! {

// --------------------------------------------------------------- file names

/// What stands before the last `c`, where there is one.
pub open spec fn before_last(s: Seq<char>, c: char) -> Option<Seq<char>>
    decreases s.len(),
{
    if s.len() == 0 {
        None
    } else if s.last() == c {
        Some(s.drop_last())
    } else {
        before_last(s.drop_last(), c)
    }
}

/// The file name of a path without its extension.
pub open spec fn stem_of(path: Seq<char>) -> Seq<char> {
    let base = past_last_either(path, '\\', '/');
    match before_last(base, '.') {
        Some(stem) => stem,
        None => base,
    }
}

/// The file name of a path without its extension.
pub fn file_stem(path: &str) -> (r: String)
    ensures
        r@ == stem_of(path@),
{
    let base = after_last_either(path, '\\', '/');
    let v = chars_of(base.as_str());
    let mut n: usize = v.len();
    proof {
        assert(v@.take(n as int) =~= v@);
    }
    while n > 0
        invariant
            n <= v.len(),
            v@ == base@,
            base@ == past_last_either(path@, '\\', '/'),
            before_last(v@.take(n as int), '.') == before_last(base@, '.'),
        decreases n,
    {
        proof {
            assert(v@.take(n as int).drop_last() =~= v@.take(n - 1));
        }
        if v[n - 1] == '.' {
            proof {
                assert(v@.subrange(0, n - 1) =~= v@.take(n - 1));
            }
            return slice_string(&v, 0, n - 1);
        }
        n = n - 1;
    }
    base
}

// ---------------------------------------------------------------- addresses

/// The address that a typed text means: https unless it names a scheme.
pub open spec fn normal_url(raw: Seq<char>) -> Seq<char> {
    if has_text(trimmed(raw), "://"@) {
        trimmed(raw)
    } else {
        "https://"@ + trimmed(raw)
    }
}

pub fn normalize_url(raw: &str) -> (r: String)
    ensures
        r@ == normal_url(raw@),
{
    let t = trim(raw);
    if contains(t.as_str(), "://") {
        t
    } else {
        joined("https://", t.as_str())
    }
}

/// `s` without `pat` in front, however often it stands there.
pub open spec fn stripped(s: Seq<char>, pat: Seq<char>) -> Seq<char>
    decreases s.len(),
{
    if pat.len() > 0 && begins(s, pat) {
        stripped(s.skip(pat.len() as int), pat)
    } else {
        s
    }
}

/// The piece after the first `pat`, up to the next one.
pub open spec fn second_piece(s: Seq<char>, pat: Seq<char>) -> Option<Seq<char>> {
    if pieces(s, pat).len() > 1 {
        Some(pieces(s, pat)[1])
    } else {
        None
    }
}

fn piece_after(s: &str, pat: &str) -> (r: Option<String>)
    requires
        pat@.len() > 0,
    ensures
        match r {
            Some(t) => second_piece(s@, pat@) == Some(t@),
            None => second_piece(s@, pat@) is None,
        },
{
    let parts = split(s, pat);
    if parts.len() > 1 {
        proof {
            assert(texts(parts@)[1] == parts@[1]@);
        }
        Some(parts[1].clone())
    } else {
        None
    }
}

/// The host of an address, without www.
pub open spec fn host_name(url: Seq<char>) -> Seq<char> {
    let rest = match second_piece(url, "://"@) {
        Some(t) => t,
        None => url,
    };
    stripped(up_to_either(rest, '/', '?'), "www."@)
}

/// The host of an address, without www.
pub fn url_display_name(url: &str) -> (r: String)
    ensures
        r@ == host_name(url@),
{
    proof {
        reveal_strlit("://");
        reveal_strlit("www.");
    }
    let rest = match piece_after(url, "://") {
        Some(t) => t,
        None => owned(url),
    };
    let host = until_either(rest.as_str(), '/', '?');
    let v = chars_of(host.as_str());
    let www = chars_of("www.");
    let mut i: usize = 0;
    proof {
        assert(v@.skip(0) =~= v@);
    }
    while match_at(&v, &www, i)
        invariant
            i <= v.len(),
            www@ == "www."@,
            www.len() > 0,
            stripped(v@.skip(i as int), "www."@) == stripped(v@, "www."@),
        decreases v.len() - i,
    {
        proof {
            assert(v@.skip(i as int).subrange(0, www@.len() as int) =~= v@.subrange(
                i as int,
                i + www@.len(),
            ));
            assert(v@.skip(i as int).skip(www@.len() as int) =~= v@.skip(i + www@.len()));
        }
        i = i + www.len();
    }
    proof {
        if occurs_at(v@.skip(i as int), www@, 0) {
            assert(v@.skip(i as int).subrange(0, www@.len() as int) =~= v@.subrange(
                i as int,
                i + www@.len(),
            ));
        }
        assert(v@.subrange(i as int, v.len() as int) =~= v@.skip(i as int));
    }
    slice_string(&v, i, v.len())
}

// ----------------------------------------------------------------- browsers

/// A way to open an address.
#[derive(Debug)]
pub struct BrowserChoice {
    pub label: String,
    /// The browser; nothing hands the address to the system.
    pub exe: String,
    /// Its arguments, the address among them.
    pub args: String,
}

pub struct ChoiceView {
    pub label: Seq<char>,
    pub exe: Seq<char>,
    pub args: Seq<char>,
}

impl View for BrowserChoice {
    type V = ChoiceView;

    open spec fn view(&self) -> ChoiceView {
        ChoiceView { label: self.label@, exe: self.exe@, args: self.args@ }
    }
}

impl BrowserChoice {
    pub fn duplicate(&self) -> (r: BrowserChoice)
        ensures
            r@ == self@,
    {
        BrowserChoice {
            label: self.label.clone(),
            exe: self.exe.clone(),
            args: self.args.clone(),
        }
    }
}

pub open spec fn choice_views(v: Seq<BrowserChoice>) -> Seq<ChoiceView> {
    v.map_values(|c: BrowserChoice| c@)
}

/// The folders that browsers are installed in.
pub struct Folders {
    pub programs: String,
    pub programs_x86: String,
    pub local: String,
}

pub struct FoldersView {
    pub programs: Seq<char>,
    pub programs_x86: Seq<char>,
    pub local: Seq<char>,
}

impl View for Folders {
    type V = FoldersView;

    open spec fn view(&self) -> FoldersView {
        FoldersView {
            programs: self.programs@,
            programs_x86: self.programs_x86@,
            local: self.local@,
        }
    }
}

/// A text, or another one where there is none.
pub open spec fn or_text(s: Option<String>, d: Seq<char>) -> Seq<char> {
    match s {
        Some(t) => t@,
        None => d,
    }
}

fn given(s: Option<String>, d: &str) -> (r: String)
    ensures
        r@ == or_text(s, d@),
{
    match s {
        Some(t) => t,
        None => owned(d),
    }
}

impl Folders {
    /// From what the environment says of them.
    pub fn from_environment(
        programs: Option<String>,
        programs_x86: Option<String>,
        local: Option<String>,
    ) -> (r: Folders)
        ensures
            r@.programs == or_text(programs, "C:\\Program Files"@),
            r@.programs_x86 == or_text(programs_x86, "C:\\Program Files (x86)"@),
            r@.local == or_text(local, ""@),
    {
        Folders {
            programs: given(programs, "C:\\Program Files"),
            programs_x86: given(programs_x86, "C:\\Program Files (x86)"),
            local: given(local, ""),
        }
    }
}

/// A browser: its label, the places it may be installed in, best first, and
/// what its argument begins with.
pub struct BrowserView {
    pub label: Seq<char>,
    pub paths: Seq<Seq<char>>,
    pub switch: Seq<char>,
}

/// The browsers that are looked for.
pub open spec fn known_browsers(f: FoldersView) -> Seq<BrowserView> {
    seq![
        BrowserView {
            label: "Brave — app window"@,
            paths: seq![
                f.programs + "\\BraveSoftware\\Brave-Browser\\Application\\brave.exe"@,
                f.local + "\\BraveSoftware\\Brave-Browser\\Application\\brave.exe"@,
            ],
            switch: "--app="@,
        },
        BrowserView {
            label: "Edge — app window"@,
            paths: seq![
                f.programs_x86 + "\\Microsoft\\Edge\\Application\\msedge.exe"@,
                f.programs + "\\Microsoft\\Edge\\Application\\msedge.exe"@,
            ],
            switch: "--app="@,
        },
        BrowserView {
            label: "Chrome — app window"@,
            paths: seq![
                f.programs + "\\Google\\Chrome\\Application\\chrome.exe"@,
                f.programs_x86 + "\\Google\\Chrome\\Application\\chrome.exe"@,
                f.local + "\\Google\\Chrome\\Application\\chrome.exe"@,
            ],
            switch: "--app="@,
        },
        BrowserView {
            label: "Firefox — new window"@,
            paths: seq![
                f.programs + "\\Mozilla Firefox\\firefox.exe"@,
                f.programs_x86 + "\\Mozilla Firefox\\firefox.exe"@,
            ],
            switch: "-new-window "@,
        },
    ]
}

/// A browser that is looked for.
pub struct Browser {
    pub label: String,
    /// Where it may be installed, best first.
    pub paths: Vec<String>,
    /// What its argument begins with.
    pub switch: String,
}

impl View for Browser {
    type V = BrowserView;

    open spec fn view(&self) -> BrowserView {
        BrowserView { label: self.label@, paths: texts(self.paths@), switch: self.switch@ }
    }
}

pub open spec fn browser_views(v: Seq<Browser>) -> Seq<BrowserView> {
    v.map_values(|b: Browser| b@)
}

fn two(a: String, b: String) -> (r: Vec<String>)
    ensures
        texts(r@) == seq![a@, b@],
{
    let mut r: Vec<String> = Vec::new();
    r.push(a);
    r.push(b);
    proof {
        assert(texts(r@) =~= seq![a@, b@]);
    }
    r
}

/// The browsers that are looked for.
pub fn browsers(f: &Folders) -> (r: Vec<Browser>)
    ensures
        browser_views(r@) == known_browsers(f@),
{
    let pf = f.programs.as_str();
    let pf86 = f.programs_x86.as_str();
    let lad = f.local.as_str();
    let brave = Browser {
        label: owned("Brave — app window"),
        paths: two(
            joined(pf, "\\BraveSoftware\\Brave-Browser\\Application\\brave.exe"),
            joined(lad, "\\BraveSoftware\\Brave-Browser\\Application\\brave.exe"),
        ),
        switch: owned("--app="),
    };
    let edge = Browser {
        label: owned("Edge — app window"),
        paths: two(
            joined(pf86, "\\Microsoft\\Edge\\Application\\msedge.exe"),
            joined(pf, "\\Microsoft\\Edge\\Application\\msedge.exe"),
        ),
        switch: owned("--app="),
    };
    let ghost all = known_browsers(f@);
    let mut chromes: Vec<String> = Vec::new();
    chromes.push(joined(pf, "\\Google\\Chrome\\Application\\chrome.exe"));
    chromes.push(joined(pf86, "\\Google\\Chrome\\Application\\chrome.exe"));
    chromes.push(joined(lad, "\\Google\\Chrome\\Application\\chrome.exe"));
    proof {
        assert(texts(chromes@) =~= all[2].paths);
    }
    let chrome = Browser {
        label: owned("Chrome — app window"),
        paths: chromes,
        switch: owned("--app="),
    };
    let firefox = Browser {
        label: owned("Firefox — new window"),
        paths: two(
            joined(pf, "\\Mozilla Firefox\\firefox.exe"),
            joined(pf86, "\\Mozilla Firefox\\firefox.exe"),
        ),
        switch: owned("-new-window "),
    };
    let mut r: Vec<Browser> = Vec::new();
    r.push(brave);
    r.push(edge);
    r.push(chrome);
    r.push(firefox);
    proof {
        assert(browser_views(r@) =~= all);
    }
    r
}

/// The first of the paths, from the `i`th on, that is among `present`.
pub open spec fn first_present(
    paths: Seq<Seq<char>>,
    present: Seq<Seq<char>>,
    i: int,
) -> Option<Seq<char>>
    decreases paths.len() - i,
{
    if i < 0 || i >= paths.len() {
        None
    } else if present.contains(paths[i]) {
        Some(paths[i])
    } else {
        first_present(paths, present, i + 1)
    }
}

/// The choices that the first browsers give.
pub open spec fn found_choices(
    b: Seq<BrowserView>,
    url: Seq<char>,
    present: Seq<Seq<char>>,
) -> Seq<ChoiceView>
    decreases b.len(),
{
    if b.len() == 0 {
        Seq::empty()
    } else {
        let rest = found_choices(b.drop_last(), url, present);
        match first_present(b.last().paths, present, 0) {
            Some(p) => rest.push(
                ChoiceView { label: b.last().label, exe: p, args: b.last().switch + url },
            ),
            None => rest,
        }
    }
}

/// The choices for an address, when of the places where browsers are looked
/// for these are present. The default browser comes last, always.
pub open spec fn choices(f: FoldersView, url: Seq<char>, present: Seq<Seq<char>>) -> Seq<
    ChoiceView,
> {
    found_choices(known_browsers(f), url, present).push(
        ChoiceView { label: "Default browser — normal tab"@, exe: ""@, args: ""@ },
    )
}

fn listed(s: &String, v: &Vec<String>) -> (r: bool)
    ensures
        r == texts(v@).contains(s@),
{
    let mut i: usize = 0;
    while i < v.len()
        invariant
            i <= v.len(),
            forall|k: int| 0 <= k < i ==> v@[k]@ != s@,
        decreases v.len() - i,
    {
        if same(v[i].as_str(), s.as_str()) {
            proof {
                assert(texts(v@)[i as int] == s@);
            }
            return true;
        }
        i = i + 1;
    }
    proof {
        if texts(v@).contains(s@) {
            let k = choose|k: int| 0 <= k < texts(v@).len() && texts(v@)[k] == s@;
            assert(v@[k]@ == s@);
        }
    }
    false
}

fn installed(paths: &Vec<String>, present: &Vec<String>) -> (r: Option<String>)
    ensures
        match r {
            Some(p) => first_present(texts(paths@), texts(present@), 0) == Some(p@),
            None => first_present(texts(paths@), texts(present@), 0) is None,
        },
{
    let mut i: usize = 0;
    while i < paths.len()
        invariant
            i <= paths.len(),
            first_present(texts(paths@), texts(present@), i as int) == first_present(
                texts(paths@),
                texts(present@),
                0,
            ),
        decreases paths.len() - i,
    {
        proof {
            assert(texts(paths@)[i as int] == paths@[i as int]@);
        }
        if listed(&paths[i], present) {
            return Some(paths[i].clone());
        }
        i = i + 1;
    }
    None
}

/// The choices for an address. `present` holds those of the places where
/// browsers are looked for that exist.
pub fn web_browser_choices(f: &Folders, url: &str, present: &Vec<String>) -> (r: Vec<
    BrowserChoice,
>)
    ensures
        choice_views(r@) == choices(f@, url@, texts(present@)),
        r.len() > 0,
{
    let known = browsers(f);
    let mut r: Vec<BrowserChoice> = Vec::new();
    let mut i: usize = 0;
    let ghost all = known_browsers(f@);
    proof {
        assert(all.take(0) =~= Seq::empty());
        assert(choice_views(r@) =~= Seq::empty());
    }
    while i < known.len()
        invariant
            i <= known.len(),
            browser_views(known@) == all,
            choice_views(r@) == found_choices(all.take(i as int), url@, texts(present@)),
        decreases known.len() - i,
    {
        let ghost before = r@;
        proof {
            assert(all.take(i + 1).drop_last() =~= all.take(i as int));
            assert(browser_views(known@)[i as int] == known@[i as int]@);
        }
        match installed(&known[i].paths, present) {
            Some(exe) => {
                r.push(
                    BrowserChoice {
                        label: known[i].label.clone(),
                        exe,
                        args: joined(known[i].switch.as_str(), url),
                    },
                );
                proof {
                    assert(choice_views(r@) =~= choice_views(before).push(r@.last()@));
                }
            },
            None => {},
        }
        i = i + 1;
    }
    proof {
        assert(all.take(i as int) =~= all);
    }
    let ghost before = r@;
    r.push(
        BrowserChoice {
            label: owned("Default browser — normal tab"),
            exe: owned(""),
            args: owned(""),
        },
    );
    proof {
        assert(choice_views(r@) =~= choice_views(before).push(r@.last()@));
    }
    r
}

/// What a launcher entry for an address runs with that choice: command and
/// arguments. The choice is made for the address itself.
pub open spec fn wired(c: ChoiceView, url: Seq<char>) -> (Seq<char>, Seq<char>) {
    if c.exe.len() == 0 {
        (url, ""@)
    } else {
        (c.exe, c.args)
    }
}

/// The same, for a choice made for the place holder {url}.
pub open spec fn wired_for(c: ChoiceView, url: Seq<char>) -> (Seq<char>, Seq<char>) {
    if c.exe.len() == 0 {
        (url, ""@)
    } else {
        (c.exe, replaced(c.args, "{url}"@, url))
    }
}

pub fn wire(c: &BrowserChoice, url: &str) -> (r: (String, String))
    ensures
        (r.0@, r.1@) == wired(c@, url@),
{
    if is_blank(c.exe.as_str()) {
        (owned(url), owned(""))
    } else {
        (c.exe.clone(), c.args.clone())
    }
}

pub fn wire_for(c: &BrowserChoice, url: &str) -> (r: (String, String))
    ensures
        (r.0@, r.1@) == wired_for(c@, url@),
{
    if is_blank(c.exe.as_str()) {
        (owned(url), owned(""))
    } else {
        proof {
            reveal_strlit("{url}");
        }
        (c.exe.clone(), replace(c.args.as_str(), "{url}", url))
    }
}

// ----------------------------------------------------------- web app entries

/// The address that an entry opens, however it is wired to its browser.
pub open spec fn url_of(e: EntryView) -> Option<Seq<char>> {
    if begins(e.command, "http://"@) || begins(e.command, "https://"@) {
        Some(e.command)
    } else {
        match second_piece(e.args, "--app="@) {
            Some(u) => Some(trimmed(u)),
            None => match second_piece(e.args, "-new-window "@) {
                Some(u) => Some(trimmed(u)),
                None => None,
            },
        }
    }
}

/// The address that an entry opens.
pub fn entry_url(e: &LauncherEntry) -> (r: Option<String>)
    ensures
        match r {
            Some(u) => url_of(e@) == Some(u@),
            None => url_of(e@) is None,
        },
{
    proof {
        reveal_strlit("--app=");
        reveal_strlit("-new-window ");
    }
    if starts_with(e.command.as_str(), "http://") || starts_with(e.command.as_str(), "https://") {
        return Some(e.command.clone());
    }
    match piece_after(e.args.as_str(), "--app=") {
        Some(u) => {
            return Some(trim(u.as_str()));
        },
        None => {},
    }
    match piece_after(e.args.as_str(), "-new-window ") {
        Some(u) => Some(trim(u.as_str())),
        None => None,
    }
}

/// A short name for the browser of an entry.
pub open spec fn browser_label(e: EntryView) -> Seq<char> {
    let exe = lowercase(past_last_either(e.command, '\\', '/'));
    if exe == "brave.exe"@ {
        "Brave"@
    } else if exe == "msedge.exe"@ {
        "Edge"@
    } else if exe == "chrome.exe"@ {
        "Chrome"@
    } else if exe == "firefox.exe"@ {
        "Firefox"@
    } else {
        "Default"@
    }
}

/// A short name for the browser of an entry.
pub fn entry_browser_label(e: &LauncherEntry) -> (r: String)
    ensures
        r@ == browser_label(e@),
{
    let base = after_last_either(e.command.as_str(), '\\', '/');
    let exe = to_lowercase(base.as_str());
    if same(exe.as_str(), "brave.exe") {
        owned("Brave")
    } else if same(exe.as_str(), "msedge.exe") {
        owned("Edge")
    } else if same(exe.as_str(), "chrome.exe") {
        owned("Chrome")
    } else if same(exe.as_str(), "firefox.exe") {
        owned("Firefox")
    } else {
        owned("Default")
    }
}

/// The first choice, from the `i`th on, whose browser the command is.
pub open spec fn choice_from(cs: Seq<ChoiceView>, command: Seq<char>, i: int) -> Option<int>
    decreases cs.len() - i,
{
    if i < 0 || i >= cs.len() {
        None
    } else if cs[i].exe.len() > 0 && ascii_lowered(command) == ascii_lowered(cs[i].exe) {
        Some(i)
    } else {
        choice_from(cs, command, i + 1)
    }
}

/// The choice after the one in use; a command that is no browser counts as
/// the last choice.
pub open spec fn next_choice(cs: Seq<ChoiceView>, command: Seq<char>) -> int {
    let cur = match choice_from(cs, command, 0) {
        Some(i) => i,
        None => cs.len() - 1,
    };
    if cur + 1 == cs.len() {
        0
    } else {
        cur + 1
    }
}

/// An entry wired to the next browser. The choices are those for {url}.
pub open spec fn cycled(e: EntryView, cs: Seq<ChoiceView>) -> EntryView {
    match url_of(e) {
        Some(url) => {
            let (command, args) = wired_for(cs[next_choice(cs, e.command)], url);
            EntryView { command, args, ..e }
        },
        None => e,
    }
}

/// Wires a web app to the next browser, the first after the last. Says
/// whether it is a web app.
pub fn cycle_entry_browser(e: &mut LauncherEntry, cs: &Vec<BrowserChoice>) -> (r: bool)
    requires
        cs.len() > 0,
    ensures
        final(e)@ == cycled(old(e)@, choice_views(cs@)),
        r == (url_of(old(e)@) is Some),
{
    let url = match entry_url(e) {
        Some(u) => u,
        None => {
            return false;
        },
    };
    let ghost views = choice_views(cs@);
    let mut i: usize = 0;
    while i < cs.len() && !(!is_blank(cs[i].exe.as_str()) && same_ignoring_ascii_case(
        e.command.as_str(),
        cs[i].exe.as_str(),
    ))
        invariant
            i <= cs.len(),
            views == choice_views(cs@),
            choice_from(views, e.command@, i as int) == choice_from(views, e.command@, 0),
        decreases cs.len() - i,
    {
        proof {
            assert(views[i as int] == cs@[i as int]@);
        }
        i = i + 1;
    }
    let cur: usize = if i < cs.len() {
        proof {
            assert(views[i as int] == cs@[i as int]@);
        }
        i
    } else {
        cs.len() - 1
    };
    let next: usize = if cur + 1 == cs.len() {
        0
    } else {
        cur + 1
    };
    proof {
        assert(views[next as int] == cs@[next as int]@);
        assert(next == next_choice(views, e.command@));
    }
    let (command, args) = wire_for(&cs[next], url.as_str());
    e.command = command;
    e.args = args;
    true
}

// ---------------------------------------------------------------- bookmarks

/// `s` with the five common entities resolved.
pub open spec fn decoded(s: Seq<char>) -> Seq<char> {
    replaced(
        replaced(
            replaced(
                replaced(replaced(s, "&amp;"@, "&"@), "&lt;"@, "<"@),
                "&gt;"@,
                ">"@,
            ),
            "&quot;"@,
            "\""@,
        ),
        "&#39;"@,
        "'"@,
    )
}

pub fn decode_entities(s: &str) -> (r: String)
    ensures
        r@ == decoded(s@),
{
    proof {
        reveal_strlit("&amp;");
        reveal_strlit("&lt;");
        reveal_strlit("&gt;");
        reveal_strlit("&quot;");
        reveal_strlit("&#39;");
    }
    let a = replace(s, "&amp;", "&");
    let b = replace(a.as_str(), "&lt;", "<");
    let c = replace(b.as_str(), "&gt;", ">");
    let d = replace(c.as_str(), "&quot;", "\"");
    replace(d.as_str(), "&#39;", "'")
}

/// The value of href in the tag that reaches from `start` to `end`.
pub open spec fn link_of(text: Seq<char>, start: int, end: int) -> Option<Seq<char>> {
    match find_from(ascii_lowered(text).take(end), "href=\""@, start) {
        Some(h) => match find_from(text.take(end), "\""@, h + 6) {
            Some(q) => Some(decoded(text.subrange(h + 6, q))),
            None => None,
        },
        None => None,
    }
}

/// The text from `start` to the closing tag.
pub open spec fn caption_of(text: Seq<char>, start: int) -> Option<Seq<char>> {
    match find_from(ascii_lowered(text), "</a>"@, start) {
        Some(e) => Some(decoded(trimmed(text.subrange(start, e)))),
        None => None,
    }
}

/// The links from position `pos` on, as pairs of caption and address; only
/// those with an http address and a caption.
pub open spec fn links_from(text: Seq<char>, pos: int) -> Seq<(Seq<char>, Seq<char>)>
    decreases text.len() - pos,
{
    let low = ascii_lowered(text);
    match find_from(low, "<a "@, pos) {
        None => Seq::empty(),
        Some(start) => match find_from(low, ">"@, start) {
            None => Seq::empty(),
            Some(end) => if pos <= end < text.len() {
                let rest = links_from(text, end + 1);
                match (link_of(text, start, end), caption_of(text, end + 1)) {
                    (Some(url), Some(title)) => if begins(url, "http"@) && title.len() > 0 {
                        seq![(title, url)] + rest
                    } else {
                        rest
                    },
                    _ => rest,
                }
            } else {
                Seq::empty()
            },
        },
    }
}

/// The links of a bookmarks file, as pairs of caption and address.
pub open spec fn links_of(text: Seq<char>) -> Seq<(Seq<char>, Seq<char>)> {
    links_from(text, 0)
}

/// The texts of pairs of strings.
pub open spec fn pair_texts(v: Seq<(String, String)>) -> Seq<(Seq<char>, Seq<char>)> {
    v.map_values(|p: (String, String)| (p.0@, p.1@))
}

/// The first place at or after `start` where `pat` stands before `end`.
fn find_before(v: &Vec<char>, pat: &Vec<char>, start: usize, end: usize) -> (r: Option<usize>)
    requires
        end <= v.len(),
    ensures
        match r {
            Some(k) => find_from(v@.take(end as int), pat@, start as int) == Some(k as int),
            None => find_from(v@.take(end as int), pat@, start as int) is None,
        },
{
    let ghost s = v@.take(end as int);
    let mut i: usize = start;
    while i <= end && pat.len() <= end - i
        invariant
            start <= i,
            end <= v.len(),
            s == v@.take(end as int),
            find_from(s, pat@, start as int) == find_from(s, pat@, i as int),
        decreases end + 1 - i,
    {
        proof {
            assert(s.subrange(i as int, i + pat@.len()) =~= v@.subrange(
                i as int,
                i + pat@.len(),
            ));
        }
        if match_at(v, pat, i) {
            return Some(i);
        }
        if i == end {
            proof {
                assert(find_from(s, pat@, i + 1) is None);
            }
            return None;
        }
        i = i + 1;
    }
    None
}

fn read_link(text: &Vec<char>, low: &Vec<char>, start: usize, end: usize) -> (r: Option<String>)
    requires
        low@ == ascii_lowered(text@),
        end <= text.len(),
    ensures
        match r {
            Some(u) => link_of(text@, start as int, end as int) == Some(u@),
            None => link_of(text@, start as int, end as int) is None,
        },
{
    proof {
        reveal_strlit("href=\"");
        reveal_strlit("\"");
        lemma_find_from(low@.take(end as int), "href=\""@, start as int);
    }
    let href = chars_of("href=\"");
    let quote = chars_of("\"");
    let h = match find_before(low, &href, start, end) {
        Some(h) => h,
        None => {
            return None;
        },
    };
    proof {
        lemma_find_from(text@.take(end as int), "\""@, h + 6);
    }
    match find_before(text, &quote, h + 6, end) {
        Some(q) => {
            let value = slice_string(text, h + 6, q);
            Some(decode_entities(value.as_str()))
        },
        None => None,
    }
}

fn read_caption(text: &Vec<char>, low: &Vec<char>, start: usize) -> (r: Option<String>)
    requires
        low@ == ascii_lowered(text@),
        start <= text.len(),
    ensures
        match r {
            Some(t) => caption_of(text@, start as int) == Some(t@),
            None => caption_of(text@, start as int) is None,
        },
{
    proof {
        reveal_strlit("</a>");
        lemma_find_from(low@, "</a>"@, start as int);
    }
    let close = chars_of("</a>");
    match find_at(low, &close, start) {
        Some(e) => {
            let raw = slice_string(text, start, e);
            let cut = trim(raw.as_str());
            Some(decode_entities(cut.as_str()))
        },
        None => None,
    }
}

/// The links of a bookmarks file, as browsers export it: pairs of caption
/// and address.
pub fn parse_bookmarks_html(text: &str) -> (r: Vec<(String, String)>)
    ensures
        pair_texts(r@) == links_of(text@),
{
    let v = chars_of(text);
    let lowered = to_ascii_lowercase(text);
    let low = chars_of(lowered.as_str());
    let open = chars_of("<a ");
    let close = chars_of(">");
    let mut r: Vec<(String, String)> = Vec::new();
    let mut pos: usize = 0;
    proof {
        reveal_strlit("<a ");
        reveal_strlit(">");
        assert(pair_texts(r@) =~= Seq::empty());
        assert(low.len() == v.len());
    }
    loop
        invariant_except_break
            pair_texts(r@) + links_from(text@, pos as int) =~= links_of(text@),
        invariant
            pos <= v.len(),
            v@ == text@,
            low@ == ascii_lowered(text@),
            low.len() == v.len(),
            open@ == "<a "@,
            close@ == ">"@,
            open.len() == 3,
            close.len() == 1,
        ensures
            pair_texts(r@) =~= links_of(text@),
        decreases v.len() - pos,
    {
        proof {
            lemma_find_from(low@, open@, pos as int);
        }
        let start = match find_at(&low, &open, pos) {
            Some(k) => k,
            None => {
                break;
            },
        };
        proof {
            lemma_find_from(low@, close@, start as int);
        }
        let end = match find_at(&low, &close, start) {
            Some(k) => k,
            None => {
                break;
            },
        };
        let link = read_link(&v, &low, start, end);
        let caption = read_caption(&v, &low, end + 1);
        match (link, caption) {
            (Some(url), Some(title)) => {
                if starts_with(url.as_str(), "http") && !is_blank(title.as_str()) {
                    let ghost before = r@;
                    r.push((title, url));
                    proof {
                        assert(pair_texts(r@) =~= pair_texts(before).push((title@, url@)));
                    }
                }
            },
            _ => {},
        }
        pos = end + 1;
    }
    r
}

// --------------------------------------------------------------------- laws

/// A plain address: it names http or https, has no white space around it,
/// and holds no browser switch.
pub open spec fn plain_address(url: Seq<char>) -> bool {
    &&& begins(url, "http://"@) || begins(url, "https://"@)
    &&& trimmed(url) == url
    &&& !has_text(url, "--app="@)
    &&& !has_text(url, "-new-window "@)
}

/// No path among these is an address.
pub open spec fn only_paths(present: Seq<Seq<char>>) -> bool {
    forall|i: int|
        0 <= i < present.len() ==> !begins(#[trigger] present[i], "http://"@) && !begins(
            present[i],
            "https://"@,
        )
}

/// An entry wired to a choice that was made for the place holder {url}.
pub open spec fn wired_to(e: EntryView, c: ChoiceView, url: Seq<char>) -> EntryView {
    EntryView { command: wired_for(c, url).0, args: wired_for(c, url).1, ..e }
}

/// An entry wired to any of the choices opens the address that it was wired
/// for.
pub proof fn law_wired_entry_opens_the_address(
    e: EntryView,
    f: FoldersView,
    present: Seq<Seq<char>>,
    url: Seq<char>,
    n: int,
)
    requires
        plain_address(url),
        only_paths(present),
        0 <= n < choices(f, "{url}"@, present).len(),
    ensures
        url_of(wired_to(e, choices(f, "{url}"@, present)[n], url)) == Some(url),
{
    let cs = choices(f, "{url}"@, present);
    let c = cs[n];
    lemma_found_choices(known_browsers(f), "{url}"@, present);
    let found = found_choices(known_browsers(f), "{url}"@, present);
    if n < found.len() {
        assert(c == found[n]);
        assert(served(found[n], "{url}"@, present));
        reveal_strlit("--app=");
        reveal_strlit("-new-window ");
        if c.exe.len() > 0 {
            let k = choose|k: int| 0 <= k < present.len() && present[k] == c.exe;
            assert(!begins(present[k], "http://"@));
            if c.args == "--app="@ + "{url}"@ {
                lemma_place_holder("--app="@, url);
                lemma_after_switch("--app="@, url);
            } else {
                lemma_place_holder("-new-window "@, url);
                lemma_after_switch("-new-window "@, url);
                lemma_other_switch(url);
            }
        }
    } else {
        reveal_strlit("");
        assert(c.exe.len() == 0);
    }
}

/// Wiring a web app to the next browser keeps the address that it opens.
pub proof fn law_cycling_keeps_the_address(
    e: EntryView,
    f: FoldersView,
    present: Seq<Seq<char>>,
    url: Seq<char>,
)
    requires
        url_of(e) == Some(url),
        plain_address(url),
        only_paths(present),
    ensures
        url_of(cycled(e, choices(f, "{url}"@, present))) == Some(url),
{
    let cs = choices(f, "{url}"@, present);
    lemma_choice_from(cs, e.command, 0);
    law_wired_entry_opens_the_address(e, f, present, url, next_choice(cs, e.command));
}

/// The entry after that many changes of its browser.
pub open spec fn cycled_times(e: EntryView, cs: Seq<ChoiceView>, times: nat) -> EntryView
    decreases times,
{
    if times == 0 {
        e
    } else {
        cycled(cycled_times(e, cs, (times - 1) as nat), cs)
    }
}

/// Of which browser each choice is.
spec fn sources(b: Seq<BrowserView>, present: Seq<Seq<char>>) -> Seq<int>
    decreases b.len(),
{
    if b.len() == 0 {
        Seq::empty()
    } else if first_present(b.last().paths, present, 0) is Some {
        sources(b.drop_last(), present).push(b.len() - 1)
    } else {
        sources(b.drop_last(), present)
    }
}

proof fn lemma_sources(b: Seq<BrowserView>, url: Seq<char>, present: Seq<Seq<char>>)
    ensures
        sources(b, present).len() == found_choices(b, url, present).len(),
        forall|i: int|
            0 <= i < sources(b, present).len() ==> 0 <= #[trigger] sources(b, present)[i] < b.len()
                && b[sources(b, present)[i]].paths.contains(found_choices(b, url, present)[i].exe),
        forall|i: int, j: int|
            0 <= i < j < sources(b, present).len() ==> #[trigger] sources(b, present)[i]
                < #[trigger] sources(b, present)[j],
    decreases b.len(),
{
    if b.len() > 0 {
        let front = b.drop_last();
        lemma_sources(front, url, present);
        lemma_first_path(b.last().paths, present, 0);
        let old = sources(front, present);
        let new = sources(b, present);
        let was = found_choices(front, url, present);
        let all = found_choices(b, url, present);
        assert forall|i: int| 0 <= i < new.len() implies 0 <= #[trigger] new[i] < b.len()
            && b[new[i]].paths.contains(all[i].exe) by {
            if i < old.len() {
                assert(new[i] == old[i]);
                assert(all[i] == was[i]);
                assert(front[old[i]] == b[old[i]]);
            }
        }
        assert forall|i: int, j: int| 0 <= i < j < new.len() implies #[trigger] new[i]
            < #[trigger] new[j] by {
            assert(new[i] == old[i]);
            if j < old.len() {
                assert(new[j] == old[j]);
            }
        }
    }
}

proof fn lemma_first_path(paths: Seq<Seq<char>>, present: Seq<Seq<char>>, i: int)
    requires
        0 <= i,
    ensures
        first_present(paths, present, i) matches Some(p) ==> paths.contains(p),
    decreases paths.len() - i,
{
    if i < paths.len() {
        lemma_first_path(paths, present, i + 1);
    }
}

/// The sixth character from the end, by which the names of the browsers
/// differ.
spec fn sixth_last(s: Seq<char>) -> char {
    s[s.len() - 6]
}

proof fn lemma_sixth_last(a: Seq<char>, b: Seq<char>)
    requires
        b.len() >= 6,
    ensures
        (a + b).len() >= 6,
        sixth_last(a + b) == sixth_last(b),
{
}

/// The paths of the browsers end differently.
proof fn lemma_path_ends(f: FoldersView, j: int, p: Seq<char>)
    requires
        0 <= j < 4,
        known_browsers(f)[j].paths.contains(p),
    ensures
        p.len() >= 6,
        sixth_last(p) == seq!['v', 'g', 'm', 'o'][j],
{
    reveal_strlit("\\BraveSoftware\\Brave-Browser\\Application\\brave.exe");
    reveal_strlit("\\Microsoft\\Edge\\Application\\msedge.exe");
    reveal_strlit("\\Google\\Chrome\\Application\\chrome.exe");
    reveal_strlit("\\Mozilla Firefox\\firefox.exe");
    let brave = "\\BraveSoftware\\Brave-Browser\\Application\\brave.exe"@;
    let edge = "\\Microsoft\\Edge\\Application\\msedge.exe"@;
    let chrome = "\\Google\\Chrome\\Application\\chrome.exe"@;
    let firefox = "\\Mozilla Firefox\\firefox.exe"@;
    lemma_sixth_last(f.programs, brave);
    lemma_sixth_last(f.local, brave);
    lemma_sixth_last(f.programs_x86, edge);
    lemma_sixth_last(f.programs, edge);
    lemma_sixth_last(f.programs, chrome);
    lemma_sixth_last(f.programs_x86, chrome);
    lemma_sixth_last(f.local, chrome);
    lemma_sixth_last(f.programs, firefox);
    lemma_sixth_last(f.programs_x86, firefox);
    let paths = known_browsers(f)[j].paths;
    let i = choose|i: int| 0 <= i < paths.len() && paths[i] == p;
    assert(paths[i] == p);
}

/// The browser of each choice is found as that choice.
proof fn lemma_own_choice(f: FoldersView, present: Seq<Seq<char>>, n: int, i: int)
    requires
        0 <= i <= n < found_choices(known_browsers(f), "{url}"@, present).len(),
    ensures
        ({
            let cs = choices(f, "{url}"@, present);
            choice_from(cs, cs[n].exe, i) == Some(n)
        }),
    decreases n - i,
{
    let b = known_browsers(f);
    let found = found_choices(b, "{url}"@, present);
    let from = sources(b, present);
    let cs = choices(f, "{url}"@, present);
    lemma_sources(b, "{url}"@, present);
    assert(cs[n] == found[n] && cs[i] == found[i]);
    assert(0 <= from[n] < 4 && 0 <= from[i] < 4);
    lemma_path_ends(f, from[n], found[n].exe);
    lemma_path_ends(f, from[i], found[i].exe);
    if i < n {
        lemma_own_choice(f, present, n, i + 1);
        let (x, y) = (found[n].exe, found[i].exe);
        if ascii_lowered(x) == ascii_lowered(y) {
            assert(ascii_lowered(x).len() == x.len() && ascii_lowered(y).len() == y.len());
            let at = x.len() - 6;
            assert(ascii_lowered(x)[at] == ascii_lower(x[at]));
            assert(ascii_lowered(y)[at] == ascii_lower(y[at]));
            assert(from[i] < from[n]);
            assert(false);
        }
    }
}

/// An address is found as none of the choices that have a browser.
proof fn lemma_no_choice(cs: Seq<ChoiceView>, command: Seq<char>, i: int)
    requires
        0 <= i,
        forall|k: int|
            0 <= k < cs.len() ==> (#[trigger] cs[k]).exe.len() == 0 || ascii_lowered(command)
                != ascii_lowered(cs[k].exe),
    ensures
        choice_from(cs, command, i) is None,
    decreases cs.len() - i,
{
    if i < cs.len() {
        lemma_no_choice(cs, command, i + 1);
    }
}

/// From the `n`th choice the change of the browser leads to the next one, and
/// from the last one to the first.
proof fn lemma_next_choice(f: FoldersView, present: Seq<Seq<char>>, url: Seq<char>, n: int)
    requires
        plain_address(url),
        only_paths(present),
        forall|i: int|
            0 <= i < present.len() ==> ascii_lowered(#[trigger] present[i]) != ascii_lowered(url),
        0 <= n < choices(f, "{url}"@, present).len(),
    ensures
        ({
            let cs = choices(f, "{url}"@, present);
            next_choice(cs, wired_for(cs[n], url).0) == (n + 1) % (cs.len() as int)
        }),
{
    let cs = choices(f, "{url}"@, present);
    let found = found_choices(known_browsers(f), "{url}"@, present);
    lemma_found_choices(known_browsers(f), "{url}"@, present);
    reveal_strlit("");
    if n < found.len() {
        lemma_own_choice(f, present, n, 0);
        lemma_sources(known_browsers(f), "{url}"@, present);
        let from = sources(known_browsers(f), present);
        assert(0 <= from[n] < 4);
        lemma_path_ends(f, from[n], found[n].exe);
        assert(cs[n] == found[n]);
    } else {
        assert forall|k: int| 0 <= k < cs.len() implies (#[trigger] cs[k]).exe.len() == 0
            || ascii_lowered(url) != ascii_lowered(cs[k].exe) by {
            if k < found.len() {
                assert(cs[k] == found[k]);
                assert(served(found[k], "{url}"@, present));
                let i = choose|i: int| 0 <= i < present.len() && present[i] == found[k].exe;
                assert(ascii_lowered(present[i]) != ascii_lowered(url));
            }
        }
        lemma_no_choice(cs, url, 0);
    }
    let k = cs.len() as int;
    if n + 1 == k {
        assert((n + 1) % k == 0) by (nonlinear_arith)
            requires
                n + 1 == k,
                k > 0,
        ;
    } else {
        assert((n + 1) % k == n + 1) by (nonlinear_arith)
            requires
                0 <= n,
                n + 1 < k,
        ;
    }
}

/// Changes of the browser go round: each leads from a choice to the one after
/// it. So as many changes as there are choices lead back, past each choice
/// once. The address is none of the paths that the browsers are looked for
/// at.
pub proof fn law_cycling_goes_round(
    e: EntryView,
    f: FoldersView,
    present: Seq<Seq<char>>,
    url: Seq<char>,
    times: nat,
)
    requires
        url_of(e) == Some(url),
        plain_address(url),
        only_paths(present),
        forall|i: int|
            0 <= i < present.len() ==> ascii_lowered(#[trigger] present[i]) != ascii_lowered(url),
    ensures
        ({
            let cs = choices(f, "{url}"@, present);
            let k = cs.len() as int;
            let first = cycled(e, cs);
            let n = next_choice(cs, e.command);
            &&& 0 <= n < k
            &&& cycled_times(first, cs, times) == wired_to(first, cs[(n + times) % k], url)
            &&& times == k ==> cycled_times(first, cs, times) == first
        }),
    decreases times,
{
    let cs = choices(f, "{url}"@, present);
    let k = cs.len() as int;
    let first = cycled(e, cs);
    let n = next_choice(cs, e.command);
    lemma_choice_from(cs, e.command, 0);
    assert(first == wired_to(first, cs[n], url));
    if times == 0 {
        assert(n % k == n) by (nonlinear_arith)
            requires
                0 <= n < k,
        ;
    } else {
        let before = (times - 1) as nat;
        law_cycling_goes_round(e, f, present, url, before);
        let m = (n + before) % k;
        let was = cycled_times(first, cs, before);
        assert(0 <= m < k) by (nonlinear_arith)
            requires
                k > 0,
                m == (n + before) % k,
        ;
        law_wired_entry_opens_the_address(first, f, present, url, m);
        lemma_next_choice(f, present, url, m);
        assert((m + 1) % k == (n + times) % k) by {
            lemma_add_mod_noop(n + before, 1, k);
            lemma_add_mod_noop(m, 1, k);
            lemma_mod_twice(n + before, k);
        }
        assert(cycled_times(first, cs, times) == cycled(was, cs));
        assert(cycled(was, cs) == wired_to(first, cs[(m + 1) % k], url));
        if times == k {
            assert((n + k) % k == n) by {
                lemma_mod_add_multiples_vanish(n, k);
                lemma_small_mod(n as nat, k as nat);
            }
        }
    }
}

/// The changes of the browser pass every choice.
pub proof fn law_cycling_passes_every_choice(
    e: EntryView,
    f: FoldersView,
    present: Seq<Seq<char>>,
    url: Seq<char>,
    choice: int,
) -> (times: nat)
    requires
        url_of(e) == Some(url),
        plain_address(url),
        only_paths(present),
        forall|i: int|
            0 <= i < present.len() ==> ascii_lowered(#[trigger] present[i]) != ascii_lowered(url),
        0 <= choice < choices(f, "{url}"@, present).len(),
    ensures
        ({
            let cs = choices(f, "{url}"@, present);
            let first = cycled(e, cs);
            &&& times < cs.len()
            &&& cycled_times(first, cs, times) == wired_to(first, cs[choice], url)
        }),
{
    let cs = choices(f, "{url}"@, present);
    let k = cs.len() as int;
    let n = next_choice(cs, e.command);
    lemma_choice_from(cs, e.command, 0);
    let times = (if choice >= n {
        choice - n
    } else {
        choice - n + k
    }) as nat;
    law_cycling_goes_round(e, f, present, url, times);
    lemma_small_mod(choice as nat, k as nat);
    if choice < n {
        lemma_mod_add_multiples_vanish(choice, k);
    }
    times
}

proof fn lemma_choice_from(cs: Seq<ChoiceView>, command: Seq<char>, i: int)
    requires
        0 <= i,
    ensures
        choice_from(cs, command, i) matches Some(k) ==> i <= k < cs.len(),
    decreases cs.len() - i,
{
    if i < cs.len() {
        lemma_choice_from(cs, command, i + 1);
    }
}

proof fn lemma_first_present(paths: Seq<Seq<char>>, present: Seq<Seq<char>>, i: int)
    requires
        0 <= i,
    ensures
        first_present(paths, present, i) matches Some(p) ==> present.contains(p),
    decreases paths.len() - i,
{
    if i < paths.len() {
        lemma_first_present(paths, present, i + 1);
    }
}

/// The browser is present, and gets the address behind a switch of its own.
spec fn served(c: ChoiceView, url: Seq<char>, present: Seq<Seq<char>>) -> bool {
    present.contains(c.exe) && (c.args == "--app="@ + url || c.args == "-new-window "@ + url)
}

proof fn lemma_found_choices(b: Seq<BrowserView>, url: Seq<char>, present: Seq<Seq<char>>)
    requires
        forall|i: int|
            0 <= i < b.len() ==> #[trigger] b[i].switch == "--app="@ || b[i].switch
                == "-new-window "@,
    ensures
        forall|i: int|
            0 <= i < found_choices(b, url, present).len() ==> served(
                #[trigger] found_choices(b, url, present)[i],
                url,
                present,
            ),
    decreases b.len(),
{
    if b.len() > 0 {
        let front = b.drop_last();
        assert forall|i: int| 0 <= i < front.len() implies #[trigger] front[i].switch == "--app="@
            || front[i].switch == "-new-window "@ by {
            assert(front[i] == b[i]);
        }
        lemma_found_choices(front, url, present);
        lemma_first_present(b.last().paths, present, 0);
        assert(b[b.len() - 1].switch == "--app="@ || b[b.len() - 1].switch == "-new-window "@);
        let rest = found_choices(front, url, present);
        let all = found_choices(b, url, present);
        assert forall|i: int| 0 <= i < all.len() implies served(#[trigger] all[i], url, present) by {
            if i < rest.len() {
                assert(all[i] == rest[i]);
                assert(served(rest[i], url, present));
            }
        }
    }
}

/// Filling in the place holder behind a switch.
proof fn lemma_place_holder(switch: Seq<char>, url: Seq<char>)
    requires
        switch == "--app="@ || switch == "-new-window "@,
    ensures
        replaced(switch + "{url}"@, "{url}"@, url) == switch + url,
{
    reveal_strlit("--app=");
    reveal_strlit("-new-window ");
    reveal_strlit("{url}");
    let pat = "{url}"@;
    let s = switch + pat;
    let n = switch.len() as int;
    assert(s.subrange(n, n + 5) =~= pat);
    lemma_find_from(s, pat, 0);
    assert forall|j: int| 0 <= j < n implies !occurs_at(s, pat, j) by {
        if occurs_at(s, pat, j) {
            assert(s.subrange(j, j + 5)[0] == s[j]);
            assert(s[j] == switch[j]);
        }
    }
    assert(occurs_at(s, pat, n));
    assert(find_from(s, pat, 0) == Some(n));
    assert(find_from(s, pat, n + 5) is None);
    assert(s.skip(n + 5) =~= Seq::<char>::empty());
    assert(replaced_from(s, pat, url, n + 5) =~= Seq::<char>::empty());
    assert(s.subrange(0, n) =~= switch);
    assert(replaced(s, pat, url) =~= switch + url);
}

/// What follows a switch is read back.
proof fn lemma_after_switch(switch: Seq<char>, url: Seq<char>)
    requires
        switch.len() > 0,
        !has_text(url, switch),
    ensures
        second_piece(switch + url, switch) == Some(url),
{
    let s = switch + url;
    let n = switch.len() as int;
    assert(s.subrange(0, n) =~= switch);
    assert(find_from(s, switch, 0) == Some(0int));
    lemma_find_from(s, switch, n);
    assert forall|j: int| n <= j implies !occurs_at(s, switch, j) by {
        if occurs_at(s, switch, j) {
            assert(url.subrange(j - n, j - n + n) =~= s.subrange(j, j + n));
            assert(occurs_at(url, switch, j - n));
        }
    }
    assert(find_from(s, switch, n) is None);
    assert(s.skip(n) =~= url);
    assert(pieces_from(s, switch, n) =~= seq![url]);
    assert(pieces(s, switch)[1] == url);
}

/// The one switch is not found behind the other.
proof fn lemma_other_switch(url: Seq<char>)
    requires
        !has_text(url, "--app="@),
    ensures
        second_piece("-new-window "@ + url, "--app="@) is None,
{
    reveal_strlit("--app=");
    reveal_strlit("-new-window ");
    let pat = "--app="@;
    let front = "-new-window "@;
    let s = front + url;
    lemma_find_from(s, pat, 0);
    assert forall|j: int| 0 <= j implies !occurs_at(s, pat, j) by {
        if occurs_at(s, pat, j) {
            assert(s.subrange(j, j + 6)[0] == s[j]);
            assert(s.subrange(j, j + 6)[1] == s[j + 1]);
            if j < 12 {
                assert(s[j] == front[j]);
                if j + 1 < 12 {
                    assert(s[j + 1] == front[j + 1]);
                }
            } else {
                assert(url.subrange(j - 12, j - 12 + 6) =~= s.subrange(j, j + 6));
                assert(occurs_at(url, pat, j - 12));
            }
        }
    }
    assert(find_from(s, pat, 0) is None);
    assert(pieces(s, pat).len() == 1);
}

} // verus!
