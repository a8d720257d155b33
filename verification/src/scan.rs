//! The list of installed apps, or of bookmarks, from which entries are added
//! to the launcher.

use crate::config::{EntryView, LauncherEntry};
use crate::launcher::entries_of;
use crate::launcher_panel::{scroll, scrolled};
use crate::layout::{divided, quot, Rect};
use crate::numerals::{decimal, show};
use crate::scene::{
    area, blank, bold, bold_pen, lesser, max2, min2, normal, normal_pen, perch, perched, span, Align,
    BarStyle, Perch, Scene, Sheet, Sketch,
};
use crate::search::{fuzzy, fuzzy_match, maybe, type_char, typed};
use crate::strmap::{before, lemma_lex_total, lemma_lex_transitive, lex_lt};
use crate::text::{
    ascii_lowered, chars_of, contains, has_text, is_blank, is_white, joined, joined3, lowercase,
    match_at, occurs_at, owned, same, same_ignoring_ascii_case, texts, to_lowercase, trim, trimmed,
    white,
};
use crate::vk::VK_ESCAPE;
use crate::webapps::{
    choice_views, choices, entry_url, law_wired_entry_opens_the_address, only_paths, pair_texts,
    plain_address, url_of, web_browser_choices, wire_for, wired_for, wired_to, BrowserChoice,
    ChoiceView, Folders, FoldersView,
};
use vstd::prelude::*;

verus! {

// --------------------------------------------------------------- Start Menu

/// What to do with something found in a Start Menu folder.
#[derive(Clone, Copy, Debug, PartialEq, Eq, Structural)]
pub enum Visit {
    Skip,
    /// Look into the folder.
    Descend,
    /// It is the shortcut of an app.
    Add,
}

/// Uninstallers are not wanted in a launcher.
pub open spec fn uninstaller(stem: Seq<char>) -> bool {
    has_text(lowercase(stem), "uninstall"@) || has_text(lowercase(stem), "désinstall"@)
}

/// What to do with something found in a Start Menu folder.
pub open spec fn visited(folder: bool, stem: Option<Seq<char>>, ext: Option<Seq<char>>) -> Visit {
    if folder {
        Visit::Descend
    } else if ext is Some && ascii_lowered(ext->0) == ascii_lowered("lnk"@) && stem is Some
        && !uninstaller(stem->0) {
        Visit::Add
    } else {
        Visit::Skip
    }
}

/// What to do with something found in a Start Menu folder: its file name is
/// given without and with nothing but the extension, where they can be read.
pub fn visit(folder: bool, stem: &Option<String>, ext: &Option<String>) -> (r: Visit)
    ensures
        r == visited(folder, maybe(*stem), maybe(*ext)),
{
    if folder {
        return Visit::Descend;
    }
    match (stem, ext) {
        (Some(s), Some(e)) => {
            if !same_ignoring_ascii_case(e.as_str(), "lnk") {
                return Visit::Skip;
            }
            let low = to_lowercase(s.as_str());
            if contains(low.as_str(), "uninstall") || contains(low.as_str(), "désinstall") {
                Visit::Skip
            } else {
                Visit::Add
            }
        },
        _ => Visit::Skip,
    }
}

/// Is a folder so many levels down still looked into?
pub fn within_depth(depth: u32) -> (r: bool)
    ensures
        r == (depth <= 4),
{
    depth <= 4
}

/// A list of apps sorted by name, with one more; a name that is there already
/// stays as it is.
pub open spec fn with_app(s: Seq<(Seq<char>, Seq<char>)>, a: (Seq<char>, Seq<char>)) -> Seq<
    (Seq<char>, Seq<char>),
>
    decreases s.len(),
{
    if s.len() == 0 {
        seq![a]
    } else if lowercase(s.last().0) == lowercase(a.0) {
        s
    } else if lex_lt(lowercase(s.last().0), lowercase(a.0)) {
        s.push(a)
    } else {
        with_app(s.drop_last(), a).push(s.last())
    }
}

/// The apps found, each name once, sorted. The first of two with one name
/// counts; capitals do not matter.
pub open spec fn start_menu(raw: Seq<(Seq<char>, Seq<char>)>) -> Seq<(Seq<char>, Seq<char>)>
    decreases raw.len(),
{
    if raw.len() == 0 {
        Seq::empty()
    } else {
        with_app(start_menu(raw.drop_last()), raw.last())
    }
}

fn copy_pair(p: &(String, String)) -> (r: (String, String))
    ensures
        r.0@ == p.0@,
        r.1@ == p.1@,
{
    (p.0.clone(), p.1.clone())
}

fn add_app(v: &mut Vec<(String, String)>, a: (String, String))
    ensures
        pair_texts(final(v)@) == with_app(pair_texts(old(v)@), (a.0@, a.1@)),
{
    let ghost s = pair_texts(v@);
    let ghost x = (a.0@, a.1@);
    let key = to_lowercase(a.0.as_str());
    let mut p: usize = v.len();
    proof {
        assert(s.take(p as int) =~= s);
        assert(with_app(s.take(p as int), x) + s.skip(p as int) =~= with_app(s, x));
    }
    while p > 0
        invariant
            p <= v.len(),
            s == pair_texts(v@),
            v@ == old(v)@,
            x == (a.0@, a.1@),
            key@ == lowercase(a.0@),
            with_app(s.take(p as int), x) + s.skip(p as int) =~= with_app(s, x),
        decreases p,
    {
        proof {
            assert(s.take(p as int).last() == (v@[p - 1].0@, v@[p - 1].1@));
        }
        let low = to_lowercase(v[p - 1].0.as_str());
        if same(low.as_str(), key.as_str()) {
            proof {
                assert(s.take(p as int) + s.skip(p as int) =~= s);
            }
            return;
        }
        if before(low.as_str(), key.as_str()) {
            v.insert(p, a);
            proof {
                assert(pair_texts(v@) =~= s.take(p as int).push(x) + s.skip(p as int));
            }
            return;
        }
        proof {
            let t = s.take(p as int);
            assert(t.drop_last() =~= s.take(p - 1));
            assert(s.skip(p - 1) =~= seq![t.last()] + s.skip(p as int));
            assert(with_app(t, x) =~= with_app(s.take(p - 1), x).push(t.last()));
        }
        p = p - 1;
    }
    v.insert(0, a);
    proof {
        assert(s.take(0) =~= Seq::empty());
        assert(pair_texts(v@) =~= seq![x] + s.skip(0));
    }
}

/// The apps found, each name once, sorted.
pub fn scan_start_menu(raw: &Vec<(String, String)>) -> (r: Vec<(String, String)>)
    ensures
        pair_texts(r@) == start_menu(pair_texts(raw@)),
{
    let ghost all = pair_texts(raw@);
    let mut r: Vec<(String, String)> = Vec::new();
    let mut i: usize = 0;
    proof {
        assert(all.take(0) =~= Seq::empty());
        assert(pair_texts(r@) =~= Seq::empty());
    }
    while i < raw.len()
        invariant
            i <= raw.len(),
            all == pair_texts(raw@),
            pair_texts(r@) == start_menu(all.take(i as int)),
        decreases raw.len() - i,
    {
        proof {
            assert(all.take(i + 1).drop_last() =~= all.take(i as int));
            assert(all[i as int] == (raw@[i as int].0@, raw@[i as int].1@));
        }
        add_app(&mut r, copy_pair(&raw[i]));
        i = i + 1;
    }
    proof {
        assert(all.take(i as int) =~= all);
    }
    r
}

// -------------------------------------------------------------------- state

/// The state of the panel.
pub struct ScanState {
    pub query: String,
    /// The first row that is shown.
    pub offset: usize,
    /// Names with shortcuts, or captions with addresses.
    pub apps: Vec<(String, String)>,
    /// Bookmarks become web apps in the chosen browser.
    pub bookmarks: bool,
    /// The browsers found, for the place holder {url}.
    pub browsers: Vec<BrowserChoice>,
    pub browser_idx: usize,
}

/// The state of the panel.
#[verifier::ext_equal]
pub struct ScanView {
    pub query: Seq<char>,
    pub offset: int,
    pub apps: Seq<(Seq<char>, Seq<char>)>,
    pub bookmarks: bool,
    pub browsers: Seq<ChoiceView>,
    pub browser_idx: int,
}

impl View for ScanState {
    type V = ScanView;

    open spec fn view(&self) -> ScanView {
        ScanView {
            query: self.query@,
            offset: self.offset as int,
            apps: pair_texts(self.apps@),
            bookmarks: self.bookmarks,
            browsers: choice_views(self.browsers@),
            browser_idx: self.browser_idx as int,
        }
    }
}

/// The state of a panel just opened.
pub open spec fn opened(
    apps: Seq<(Seq<char>, Seq<char>)>,
    bookmarks: bool,
    f: FoldersView,
    present: Seq<Seq<char>>,
) -> ScanView {
    ScanView {
        query: Seq::empty(),
        offset: 0,
        apps,
        bookmarks,
        browsers: if bookmarks {
            choices(f, "{url}"@, present)
        } else {
            Seq::empty()
        },
        browser_idx: 0,
    }
}

/// The state of a panel just opened. `present` holds those of the places where
/// browsers are looked for that exist.
pub fn open_scan(
    apps: Vec<(String, String)>,
    bookmarks: bool,
    f: &Folders,
    present: &Vec<String>,
) -> (r: ScanState)
    ensures
        r@ == opened(pair_texts(apps@), bookmarks, f@, texts(present@)),
{
    let browsers: Vec<BrowserChoice> = if bookmarks {
        web_browser_choices(f, "{url}", present)
    } else {
        Vec::new()
    };
    let r = ScanState {
        query: String::new(),
        offset: 0,
        apps,
        bookmarks,
        browsers,
        browser_idx: 0,
    };
    proof {
        assert(r@ =~= opened(pair_texts(apps@), bookmarks, f@, texts(present@)));
    }
    r
}

/// Opens the list of installed apps over what was found, or closes it: the
/// state of the new panel, or nothing.
pub fn toggle_scan_panel(
    shown: bool,
    raw: &Vec<(String, String)>,
    f: &Folders,
    present: &Vec<String>,
) -> (r: Option<ScanState>)
    ensures
        match r {
            Some(s) => !shown && s@ == opened(
                start_menu(pair_texts(raw@)),
                false,
                f@,
                texts(present@),
            ),
            None => shown,
        },
{
    if shown {
        return None;
    }
    Some(open_scan(scan_start_menu(raw), false, f, present))
}

/// What the panel asks for.
#[derive(Clone, Copy, Debug, PartialEq, Eq, Structural)]
pub enum ScanStep {
    Nothing,
    Close,
    Redraw,
    /// The entries changed: save them and register the hotkeys anew.
    Save,
}

pub open spec fn row_height(sh: Sheet) -> int {
    sh.s(26)
}

/// The top of the first row; bookmarks have a line for the browser above it.
pub open spec fn rows_top(sh: Sheet, bookmarks: bool) -> int {
    sh.s(20) + sh.s(26) * (if bookmarks {
        3int
    } else {
        2int
    })
}

/// The top of the first row.
pub fn scan_rows_top(sh: &Sheet, bookmarks: bool) -> (r: i64)
    ensures
        r == rows_top(*sh, bookmarks),
        0 <= r <= 0x3_0000_0000,
{
    sh.px(20) as i64 + sh.px(26) as i64 * (if bookmarks {
        3
    } else {
        2
    })
}

/// The place of the panel.
pub open spec fn scan_place(bounds: Rect, dpi: u32) -> Rect {
    let sh = Sheet { w: 0, h: 0, dpi };
    perched(bounds, sh.s(560), min2(quot(bounds.h * 3, 4), sh.s(720)), Perch::Middle)
}

/// The place of the panel.
pub fn scan_panel(bounds: &Rect, dpi: u32) -> (r: Rect)
    ensures
        r == scan_place(*bounds, dpi),
{
    let sh = Sheet { w: 0, h: 0, dpi };
    let h: i64 = lesser(divided(bounds.h as i64 * 3, 4), sh.px(720) as i64);
    perch(bounds, sh.px(560) as i64, h, Perch::Middle)
}

/// The rows whose name matches the query; all when it is empty.
pub open spec fn matching(apps: Seq<(Seq<char>, Seq<char>)>, query: Seq<char>) -> Seq<
    (Seq<char>, Seq<char>),
>
    decreases apps.len(),
{
    if apps.len() == 0 {
        Seq::empty()
    } else if query.len() == 0 || fuzzy(apps.last().0, query) {
        matching(apps.drop_last(), query).push(apps.last())
    } else {
        matching(apps.drop_last(), query)
    }
}

/// The rows whose name matches the query.
pub fn scan_filtered(apps: &Vec<(String, String)>, query: &str) -> (r: Vec<(String, String)>)
    ensures
        pair_texts(r@) == matching(pair_texts(apps@), query@),
{
    let ghost all = pair_texts(apps@);
    let every = is_blank(query);
    let mut r: Vec<(String, String)> = Vec::new();
    let mut i: usize = 0;
    proof {
        assert(all.take(0) =~= Seq::empty());
        assert(pair_texts(r@) =~= Seq::empty());
    }
    while i < apps.len()
        invariant
            i <= apps.len(),
            every == (query@.len() == 0),
            all == pair_texts(apps@),
            pair_texts(r@) == matching(all.take(i as int), query@),
        decreases apps.len() - i,
    {
        proof {
            assert(all.take(i + 1).drop_last() =~= all.take(i as int));
            assert(all[i as int] == (apps@[i as int].0@, apps@[i as int].1@));
        }
        if every || fuzzy_match(apps[i].0.as_str(), query) {
            let ghost was = r@;
            r.push(copy_pair(&apps[i]));
            proof {
                assert(pair_texts(r@) =~= pair_texts(was).push(all[i as int]));
            }
        }
        i = i + 1;
    }
    proof {
        assert(all.take(i as int) =~= all);
    }
    r
}

// ---------------------------------------------------------------- toggling

/// An entry of the launcher without further settings.
pub open spec fn plain_entry(name: Seq<char>, command: Seq<char>, args: Seq<char>) -> EntryView {
    EntryView {
        name,
        command,
        args,
        dir: Seq::empty(),
        key: Seq::empty(),
        group: Seq::empty(),
    }
}

/// The first entry, from the `i`th on, that runs a path.
pub open spec fn runner_from(e: Seq<EntryView>, path: Seq<char>, i: int) -> Option<int>
    decreases e.len() - i,
{
    if i < 0 || i >= e.len() {
        None
    } else if ascii_lowered(e[i].command) == ascii_lowered(path) {
        Some(i)
    } else {
        runner_from(e, path, i + 1)
    }
}

/// White space and quotes stand between the words of a command line.
pub open spec fn parts_words(c: char) -> bool {
    is_white(c) || c == '"' || c == '\''
}

/// A word begins at `i`, or the value of an option such as `--app=` does.
pub open spec fn begins_value(s: Seq<char>, i: int) -> bool {
    ||| i == 0
    ||| 0 < i <= s.len() && parts_words(s[i - 1])
    ||| 0 < i <= s.len() && s[i - 1] == '=' && exists|lo: int| #[trigger] is_option(s, lo, i - 1)
}

/// The characters from `lo` to `hi` are the name of an option, at the
/// beginning of a word.
pub open spec fn is_option(s: Seq<char>, lo: int, hi: int) -> bool {
    &&& 0 <= lo < hi <= s.len()
    &&& s[lo] == '-'
    &&& lo == 0 || parts_words(s[lo - 1])
    &&& forall|j: int| lo <= j < hi ==> !parts_words(#[trigger] s[j]) && s[j] != '='
}

/// `word` stands at `i` as a word, or as the value of an option.
pub open spec fn word_at(s: Seq<char>, word: Seq<char>, i: int) -> bool {
    &&& occurs_at(s, word, i)
    &&& begins_value(s, i)
    &&& i + word.len() == s.len() || parts_words(s[i + word.len()])
}

/// `word` stands somewhere in `s` as a word, or as the value of an option.
pub open spec fn has_word(s: Seq<char>, word: Seq<char>) -> bool {
    exists|i: int| #[trigger] word_at(s, word, i)
}

/// The entry opens that address: its command is the address, or a word of its
/// arguments is, or all that it hands to its browser; white space around it
/// and capitals aside.
pub open spec fn opens(e: EntryView, url: Seq<char>) -> bool {
    ||| ascii_lowered(e.command) == ascii_lowered(url)
    ||| has_word(lowercase(e.args), lowercase(trimmed(url)))
    ||| url_of(e) matches Some(u) && lowercase(trimmed(u)) == lowercase(trimmed(url))
}

fn is_between(c: char) -> (r: bool)
    ensures
        r == parts_words(c),
{
    white(c) || c == '"' || c == '\''
}

fn starts_value(v: &Vec<char>, i: usize) -> (r: bool)
    requires
        i <= v.len(),
    ensures
        r == begins_value(v@, i as int),
{
    if i == 0 || is_between(v[i - 1]) {
        return true;
    }
    if v[i - 1] != '=' {
        return false;
    }
    let hi: usize = i - 1;
    let mut lo: usize = hi;
    while lo > 0 && !is_between(v[lo - 1]) && v[lo - 1] != '='
        invariant
            lo <= hi < v.len(),
            forall|j: int| lo <= j < hi ==> !parts_words(#[trigger] v@[j]) && v@[j] != '=',
        decreases lo,
    {
        lo = lo - 1;
    }
    let r = lo < hi && v[lo] == '-' && (lo == 0 || is_between(v[lo - 1]));
    proof {
        if r {
            assert(is_option(v@, lo as int, hi as int));
        } else if exists|k: int| #[trigger] is_option(v@, k, hi as int) {
            let k = choose|k: int| #[trigger] is_option(v@, k, hi as int);
            if k > lo {
                assert(!parts_words(v@[k - 1]));
            } else if k < lo {
                assert(!parts_words(v@[lo - 1]) && v@[lo - 1] != '=');
            }
        }
    }
    r
}

fn holds_word(s: &str, word: &str) -> (r: bool)
    ensures
        r == has_word(s@, word@),
{
    let v = chars_of(s);
    let w = chars_of(word);
    let mut i: usize = 0;
    while w.len() <= v.len() - i
        invariant
            v@ == s@,
            w@ == word@,
            i <= v.len(),
            forall|k: int| k < i ==> !#[trigger] word_at(s@, word@, k),
        decreases v.len() + 1 - i,
    {
        if match_at(&v, &w, i) && starts_value(&v, i) {
            let end: usize = i + w.len();
            if end == v.len() || is_between(v[end]) {
                proof {
                    assert(word_at(s@, word@, i as int));
                }
                return true;
            }
        }
        if i == v.len() {
            return false;
        }
        i = i + 1;
    }
    false
}

fn opens_address(e: &LauncherEntry, url: &str) -> (r: bool)
    ensures
        r == opens(e@, url@),
{
    if same_ignoring_ascii_case(e.command.as_str(), url) {
        return true;
    }
    let bare = trim(url);
    let address = to_lowercase(bare.as_str());
    let args = to_lowercase(e.args.as_str());
    if holds_word(args.as_str(), address.as_str()) {
        return true;
    }
    match entry_url(e) {
        Some(u) => {
            let a = trim(u.as_str());
            let x = to_lowercase(a.as_str());
            same(x.as_str(), address.as_str())
        },
        None => false,
    }
}

/// The first entry, from the `i`th on, that opens an address.
pub open spec fn opener_from(e: Seq<EntryView>, url: Seq<char>, i: int) -> Option<int>
    decreases e.len() - i,
{
    if i < 0 || i >= e.len() {
        None
    } else if opens(e[i], url) {
        Some(i)
    } else {
        opener_from(e, url, i + 1)
    }
}

/// The entries without the one at a place, or with one more.
pub open spec fn toggled(e: Seq<EntryView>, at: Option<int>, new: EntryView) -> Seq<EntryView> {
    match at {
        Some(i) => e.remove(i),
        None => e.push(new),
    }
}

fn plain(name: &str, command: String, args: String) -> (r: LauncherEntry)
    ensures
        r@ == plain_entry(name@, command@, args@),
{
    LauncherEntry {
        name: owned(name),
        command,
        args,
        dir: String::new(),
        key: String::new(),
        group: String::new(),
    }
}

fn toggle_at(entries: &mut Vec<LauncherEntry>, at: Option<usize>, new: LauncherEntry)
    requires
        at matches Some(i) ==> i < old(entries).len(),
    ensures
        entries_of(final(entries)@) == toggled(
            entries_of(old(entries)@),
            match at {
                Some(i) => Some(i as int),
                None => None,
            },
            new@,
        ),
{
    let ghost views = entries_of(entries@);
    match at {
        Some(i) => {
            let _ = entries.remove(i);
            proof {
                assert(entries_of(entries@) =~= views.remove(i as int));
            }
        },
        None => {
            entries.push(new);
            proof {
                assert(entries_of(entries@) =~= views.push(new@));
            }
        },
    }
}

/// Adds an app to the launcher, or removes it where it is there already.
pub fn scan_toggle_entry(entries: &mut Vec<LauncherEntry>, name: &str, path: &str)
    ensures
        entries_of(final(entries)@) == toggled(
            entries_of(old(entries)@),
            runner_from(entries_of(old(entries)@), path@, 0),
            plain_entry(name@, path@, Seq::empty()),
        ),
{
    let ghost views = entries_of(entries@);
    let mut i: usize = 0;
    while i < entries.len() && !same_ignoring_ascii_case(entries[i].command.as_str(), path)
        invariant
            i <= entries.len(),
            entries@ == old(entries)@,
            views == entries_of(entries@),
            runner_from(views, path@, i as int) == runner_from(views, path@, 0),
        decreases entries.len() - i,
    {
        proof {
            assert(views[i as int] == entries@[i as int]@);
        }
        i = i + 1;
    }
    let at: Option<usize> = if i < entries.len() {
        proof {
            assert(views[i as int] == entries@[i as int]@);
        }
        Some(i)
    } else {
        None
    };
    toggle_at(entries, at, plain(name, owned(path), String::new()));
}

/// Adds a bookmark to the launcher as a web app in the chosen browser, or
/// removes it where it is there already.
pub fn scan_toggle_bookmark(
    entries: &mut Vec<LauncherEntry>,
    title: &str,
    url: &str,
    c: &BrowserChoice,
)
    ensures
        entries_of(final(entries)@) == toggled(
            entries_of(old(entries)@),
            opener_from(entries_of(old(entries)@), url@, 0),
            plain_entry(title@, wired_for(c@, url@).0, wired_for(c@, url@).1),
        ),
{
    let ghost views = entries_of(entries@);
    let mut at: Option<usize> = None;
    let mut i: usize = 0;
    while i < entries.len()
        invariant_except_break
            at is None,
            opener_from(views, url@, i as int) == opener_from(views, url@, 0),
        invariant
            i <= entries.len(),
            entries@ == old(entries)@,
            views == entries_of(entries@),
        ensures
            match at {
                Some(k) => k < entries.len() && opener_from(views, url@, 0) == Some(k as int),
                None => opener_from(views, url@, 0) is None,
            },
        decreases entries.len() - i,
    {
        let e = &entries[i];
        proof {
            assert(views[i as int] == e@);
        }
        if opens_address(e, url) {
            at = Some(i);
            break;
        }
        i = i + 1;
    }
    let (command, args) = wire_for(c, url);
    toggle_at(entries, at, plain(title, command, args));
}

// --------------------------------------------------------------------- input

/// The first row that is shown.
pub open spec fn first_row(s: ScanView) -> int {
    min2(s.offset, max2(matching(s.apps, s.query).len() - 1, 0))
}

/// What choosing the `i`th of the matching rows does: it is added to the
/// launcher, or removed where it is there already.
pub open spec fn chosen(s: ScanView, e: Seq<EntryView>, i: int) -> (Seq<EntryView>, ScanStep) {
    let (name, path) = matching(s.apps, s.query)[i];
    if !s.bookmarks {
        (
            toggled(e, runner_from(e, path, 0), plain_entry(name, path, Seq::empty())),
            ScanStep::Save,
        )
    } else if s.browser_idx < s.browsers.len() {
        let w = wired_for(s.browsers[s.browser_idx], path);
        (toggled(e, opener_from(e, path, 0), plain_entry(name, w.0, w.1)), ScanStep::Save)
    } else {
        (e, ScanStep::Nothing)
    }
}

/// What a click does to the panel and the entries.
pub open spec fn clicked(s: ScanView, e: Seq<EntryView>, sh: Sheet, y: int) -> (
    ScanView,
    Seq<EntryView>,
    ScanStep,
) {
    let top = rows_top(sh, s.bookmarks);
    let line = row_height(sh);
    if s.bookmarks && top - line <= y < top {
        (
            if s.browsers.len() > 0 {
                ScanView { browser_idx: (s.browser_idx + 1) % s.browsers.len() as int, ..s }
            } else {
                s
            },
            e,
            ScanStep::Redraw,
        )
    } else if y >= top {
        let i = first_row(s) + (y - top) / line;
        if i < matching(s.apps, s.query).len() {
            let (after, step) = chosen(s, e, i);
            (s, after, step)
        } else {
            (s, e, ScanStep::Nothing)
        }
    } else {
        (s, e, ScanStep::Nothing)
    }
}

/// What a character does.
pub open spec fn typed_into(s: ScanView, ch: u32, clip: Option<Seq<char>>) -> ScanView {
    match typed(s.query, ch, clip) {
        Some(q) => ScanView { query: q, offset: 0, ..s },
        None => s,
    }
}

impl ScanState {
    /// A click.
    pub fn on_click(&mut self, entries: &mut Vec<LauncherEntry>, sh: &Sheet, y: i32) -> (r: ScanStep)
        requires
            row_height(*sh) > 0,
            old(self).browser_idx < usize::MAX,
        ensures
            (final(self)@, entries_of(final(entries)@), r) == clicked(
                old(self)@,
                entries_of(old(entries)@),
                *sh,
                y as int,
            ),
    {
        let top: i64 = scan_rows_top(sh, self.bookmarks);
        let line: i64 = sh.px(26) as i64;
        let at: i64 = y as i64;
        proof {
            assert(self@.browsers.len() == self.browsers.len());
        }
        if self.bookmarks && top - line <= at && at < top {
            if self.browsers.len() > 0 {
                self.browser_idx = (self.browser_idx + 1) % self.browsers.len();
            }
            return ScanStep::Redraw;
        }
        if at < top {
            return ScanStep::Nothing;
        }
        let down: u64 = ((at - top) / line) as u64;
        let shown = scan_filtered(&self.apps, self.query.as_str());
        let n = shown.len();
        proof {
            assert(pair_texts(shown@).len() == n);
        }
        let last: usize = if n > 0 {
            n - 1
        } else {
            0
        };
        let first: usize = if self.offset < last {
            self.offset
        } else {
            last
        };
        if down >= (n - first) as u64 {
            return ScanStep::Nothing;
        }
        let i: usize = first + down as usize;
        proof {
            assert(pair_texts(shown@)[i as int] == (shown@[i as int].0@, shown@[i as int].1@));
        }
        if !self.bookmarks {
            scan_toggle_entry(entries, shown[i].0.as_str(), shown[i].1.as_str());
            return ScanStep::Save;
        }
        if self.browser_idx < self.browsers.len() {
            proof {
                assert(self@.browsers[self.browser_idx as int]
                    == self.browsers@[self.browser_idx as int]@);
            }
            scan_toggle_bookmark(
                entries,
                shown[i].0.as_str(),
                shown[i].1.as_str(),
                &self.browsers[self.browser_idx],
            );
            return ScanStep::Save;
        }
        ScanStep::Nothing
    }

    /// The wheel turned by `delta`.
    pub fn wheel(&mut self, delta: i32)
        requires
            old(self).offset <= 0x7FFF_FFFF,
            old(self).apps.len() <= 0x7FFF_FFFF,
        ensures
            final(self)@ == (ScanView {
                offset: scrolled(
                    old(self)@.offset,
                    delta as int,
                    max2(old(self)@.apps.len() - 5, 0),
                ),
                ..old(self)@
            }),
    {
        let n = self.apps.len();
        let most: usize = if n > 5 {
            n - 5
        } else {
            0
        };
        self.offset = scroll(self.offset, delta, most);
    }

    /// A key: Escape closes.
    pub fn on_key(&self, vk: u32) -> (r: ScanStep)
        ensures
            r == if vk == VK_ESCAPE {
                ScanStep::Close
            } else {
                ScanStep::Nothing
            },
    {
        if vk == VK_ESCAPE {
            ScanStep::Close
        } else {
            ScanStep::Nothing
        }
    }

    /// A character, with the text of the clipboard for Ctrl+V.
    pub fn on_char(&mut self, ch: u32, clip: &Option<String>)
        ensures
            final(self)@ == typed_into(old(self)@, ch, maybe(*clip)),
    {
        if type_char(&mut self.query, ch, clip) {
            self.offset = 0;
        }
    }
}

// ----------------------------------------------------------------- painting

/// Does an entry run that path, or open that address?
pub open spec fn holds(e: EntryView, bookmarks: bool, path: Seq<char>) -> bool {
    if bookmarks {
        opens(e, path)
    } else {
        lowercase(e.command) == lowercase(path)
    }
}

/// Is it in the launcher already?
pub open spec fn is_added(e: Seq<EntryView>, bookmarks: bool, path: Seq<char>) -> bool {
    exists|i: int| 0 <= i < e.len() && holds(#[trigger] e[i], bookmarks, path)
}

/// One row: the name, and whether it is in the launcher.
pub open spec fn row_drawn(
    k: Sketch,
    sh: Sheet,
    st: BarStyle,
    added: bool,
    name: Seq<char>,
    y: int,
) -> Sketch {
    let (pad, line, w) = (sh.s(20), row_height(sh), sh.w as int);
    let pen = normal(sh.s(15));
    k.text(name, span(pad, y, w - pad - sh.s(120), y + line), st.fg, pen.cut()).text(
        if added {
            "✓ in launcher"@
        } else {
            "+ add"@
        },
        span(w - pad - sh.s(120), y, w - pad, y + line),
        if added {
            st.accent
        } else {
            st.cell_occupied
        },
        pen.at(Align::Right),
    )
}

/// The rows from the `i`th on, as many as fit; where the next would be, and
/// which one it is.
pub open spec fn rows_drawn(
    k: Sketch,
    sh: Sheet,
    st: BarStyle,
    e: Seq<EntryView>,
    bookmarks: bool,
    rows: Seq<(Seq<char>, Seq<char>)>,
    i: int,
    y: int,
) -> (Sketch, int, int)
    decreases rows.len() - i,
{
    let line = row_height(sh);
    if i < 0 || i >= rows.len() || y + line > sh.h - line - sh.s(6) {
        (k, y, i)
    } else {
        rows_drawn(
            row_drawn(k, sh, st, is_added(e, bookmarks, rows[i].1), rows[i].0, y),
            sh,
            st,
            e,
            bookmarks,
            rows,
            i + 1,
            y + line,
        )
    }
}

/// The panel above its rows.
pub open spec fn scan_head(sh: Sheet, st: BarStyle, s: ScanView) -> Sketch {
    let (pad, line, w) = (sh.s(20), row_height(sh), sh.w as int);
    let title = span(pad, pad, w - pad, pad + line);
    let search = span(pad, pad + line, w - pad, pad + line * 2);
    let with = span(pad, pad + line * 2, w - pad, pad + line * 3);
    let pen = normal(sh.s(15));
    let strong = bold(sh.s(15));
    let titled = blank().frame(sh, st).text(
        if s.bookmarks {
            "bookmarks ("@ + decimal(s.apps.len()) + ")"@
        } else {
            "installed apps ("@ + decimal(s.apps.len()) + ")"@
        },
        title,
        st.accent,
        strong,
    ).text("click to add / remove"@, title, st.fg, strong.at(Align::Right));
    let searched = if s.query.len() == 0 {
        titled.text("type to filter…"@, search, st.cell_occupied, pen)
    } else {
        titled.text("filter: "@ + s.query + "_"@, search, st.fg, pen)
    };
    if s.bookmarks {
        let label = if s.browser_idx < s.browsers.len() {
            s.browsers[s.browser_idx].label
        } else {
            "?"@
        };
        searched.text("open with:  "@ + label, with, st.accent, pen).text(
            "click to change"@,
            with,
            st.cell_occupied,
            pen.at(Align::Right),
        )
    } else {
        searched
    }
}

/// The whole panel.
pub open spec fn scan_painted(sh: Sheet, st: BarStyle, s: ScanView, e: Seq<EntryView>) -> Sketch {
    let (pad, line, w, h) = (sh.s(20), row_height(sh), sh.w as int, sh.h as int);
    let pen = normal(sh.s(15));
    let shown = matching(s.apps, s.query);
    let (listed, y, next) = rows_drawn(
        scan_head(sh, st, s),
        sh,
        st,
        e,
        s.bookmarks,
        shown,
        first_row(s),
        rows_top(sh, s.bookmarks),
    );
    let told = if shown.len() == 0 {
        listed.text("no match"@, span(pad, y, w - pad, y + line), st.cell_occupied, pen)
    } else {
        listed
    };
    told.text(
        if shown.len() > next {
            decimal((shown.len() - next) as nat) + " more — scroll or type to filter · Esc closes"@
        } else {
            "wheel scrolls · type to filter · Esc closes"@
        },
        span(pad, h - line - sh.s(6), w - pad, h - sh.s(6)),
        st.cell_occupied,
        pen,
    )
}

fn added(entries: &Vec<LauncherEntry>, bookmarks: bool, path: &str) -> (r: bool)
    ensures
        r == is_added(entries_of(entries@), bookmarks, path@),
{
    let ghost views = entries_of(entries@);
    let low = to_lowercase(path);
    let mut i: usize = 0;
    while i < entries.len()
        invariant
            i <= entries.len(),
            views == entries_of(entries@),
            low@ == lowercase(path@),
            forall|k: int| 0 <= k < i ==> !holds(#[trigger] views[k], bookmarks, path@),
        decreases entries.len() - i,
    {
        let e = &entries[i];
        proof {
            assert(views[i as int] == e@);
        }
        let there = if bookmarks {
            opens_address(e, path)
        } else {
            let command = to_lowercase(e.command.as_str());
            same(command.as_str(), low.as_str())
        };
        if there {
            proof {
                assert(holds(views[i as int], bookmarks, path@));
            }
            return true;
        }
        i = i + 1;
    }
    false
}

fn draw_head(sh: &Sheet, st: &BarStyle, s: &ScanState) -> (k: Scene)
    ensures
        k@ == scan_head(*sh, *st, s@),
{
    let pad: i64 = sh.px(20) as i64;
    let line: i64 = sh.px(26) as i64;
    let w: i64 = sh.w as i64;
    let strong = bold_pen(sh.px(15) as i64);
    let pen = normal_pen(sh.px(15) as i64);
    let mut k = Scene::new();
    k.frame(sh, st);
    let title = area(pad, pad, w - pad, pad + line);
    let count = show(s.apps.len() as u64);
    proof {
        assert(s@.apps.len() == s.apps.len());
        assert(s@.browsers.len() == s.browsers.len());
    }
    let words = if s.bookmarks {
        joined3("bookmarks (", count.as_str(), ")")
    } else {
        joined3("installed apps (", count.as_str(), ")")
    };
    k.text(words, title, st.accent, strong);
    k.text(owned("click to add / remove"), title, st.fg, strong.to(Align::Right));
    let search = area(pad, pad + line, w - pad, pad + line * 2);
    if is_blank(s.query.as_str()) {
        k.text(owned("type to filter…"), search, st.cell_occupied, pen);
    } else {
        k.text(joined3("filter: ", s.query.as_str(), "_"), search, st.fg, pen);
    }
    if s.bookmarks {
        let with = area(pad, pad + line * 2, w - pad, pad + line * 3);
        let label = if s.browser_idx < s.browsers.len() {
            proof {
                assert(s@.browsers[s.browser_idx as int] == s.browsers@[s.browser_idx as int]@);
            }
            s.browsers[s.browser_idx].label.clone()
        } else {
            owned("?")
        };
        k.text(joined("open with:  ", label.as_str()), with, st.accent, pen);
        k.text(owned("click to change"), with, st.cell_occupied, pen.to(Align::Right));
    }
    k
}

fn draw_row(k: &mut Scene, sh: &Sheet, st: &BarStyle, is_in: bool, name: String, y: i64)
    requires
        0 <= y <= 0x10_0000_0000,
    ensures
        final(k)@ == row_drawn(old(k)@, *sh, *st, is_in, name@, y as int),
{
    let pad: i64 = sh.px(20) as i64;
    let line: i64 = sh.px(26) as i64;
    let w: i64 = sh.w as i64;
    let pen = normal_pen(sh.px(15) as i64);
    let edge: i64 = w - pad - sh.px(120) as i64;
    k.text(name, area(pad, y, edge, y + line), st.fg, pen.cutting());
    let mark = if is_in {
        owned("✓ in launcher")
    } else {
        owned("+ add")
    };
    k.text(
        mark,
        area(edge, y, w - pad, y + line),
        if is_in {
            st.accent
        } else {
            st.cell_occupied
        },
        pen.to(Align::Right),
    );
}

/// The whole panel.
pub fn paint_scan(sh: &Sheet, st: &BarStyle, s: &ScanState, entries: &Vec<LauncherEntry>) -> (k: Scene)
    ensures
        k@ == scan_painted(*sh, *st, s@, entries_of(entries@)),
{
    let pad: i64 = sh.px(20) as i64;
    let line: i64 = sh.px(26) as i64;
    let edge: i64 = sh.px(6) as i64;
    let w: i64 = sh.w as i64;
    let h: i64 = sh.h as i64;
    let floor: i64 = h - line - edge;
    let pen = normal_pen(sh.px(15) as i64);
    let mut k = draw_head(sh, st, s);
    let shown = scan_filtered(&s.apps, s.query.as_str());
    let ghost views = pair_texts(shown@);
    let ghost start = k@;
    let n = shown.len();
    proof {
        assert(views.len() == n);
    }
    let last: usize = if n > 0 {
        n - 1
    } else {
        0
    };
    let first: usize = if s.offset < last {
        s.offset
    } else {
        last
    };
    let mut y: i64 = scan_rows_top(sh, s.bookmarks);
    let mut i: usize = first;
    while i < n && y + line <= floor
        invariant
            first <= i <= n,
            n == shown.len(),
            views == pair_texts(shown@),
            line == row_height(*sh),
            0 <= line < 0x8000_0000,
            floor == sh.h - row_height(*sh) - sh.s(6),
            floor <= 0x7FFF_FFFF,
            0 <= y <= 0x8_0000_0000,
            rows_drawn(
                k@,
                *sh,
                *st,
                entries_of(entries@),
                s.bookmarks,
                views,
                i as int,
                y as int,
            ) == rows_drawn(
                start,
                *sh,
                *st,
                entries_of(entries@),
                s.bookmarks,
                views,
                first as int,
                rows_top(*sh, s.bookmarks),
            ),
        decreases n - i,
    {
        proof {
            assert(views[i as int] == (shown@[i as int].0@, shown@[i as int].1@));
        }
        let is_in = added(entries, s.bookmarks, shown[i].1.as_str());
        draw_row(&mut k, sh, st, is_in, shown[i].0.clone(), y);
        y = y + line;
        i = i + 1;
    }
    if n == 0 {
        k.text(owned("no match"), area(pad, y, w - pad, y + line), st.cell_occupied, pen);
    }
    let foot = if n > i {
        let more = show((n - i) as u64);
        joined(more.as_str(), " more — scroll or type to filter · Esc closes")
    } else {
        owned("wheel scrolls · type to filter · Esc closes")
    };
    k.text(foot, area(pad, floor, w - pad, h - edge), st.cell_occupied, pen);
    k
}

// --------------------------------------------------------------------- laws

/// Strictly sorted by name, capitals aside.
pub open spec fn by_name(s: Seq<(Seq<char>, Seq<char>)>) -> bool {
    forall|i: int, j: int|
        0 <= i < j < s.len() ==> lex_lt(lowercase(#[trigger] s[i].0), lowercase(#[trigger] s[j].0))
}

/// The apps of the Start Menu come sorted by name, and no name twice.
pub proof fn law_start_menu_is_sorted(raw: Seq<(Seq<char>, Seq<char>)>)
    ensures
        by_name(start_menu(raw)),
    decreases raw.len(),
{
    if raw.len() > 0 {
        law_start_menu_is_sorted(raw.drop_last());
        lemma_with_app(start_menu(raw.drop_last()), raw.last());
    }
}

proof fn lemma_with_app(s: Seq<(Seq<char>, Seq<char>)>, a: (Seq<char>, Seq<char>))
    requires
        by_name(s),
    ensures
        by_name(with_app(s, a)),
        forall|i: int|
            0 <= i < with_app(s, a).len() ==> (#[trigger] with_app(s, a)[i]) == a || s.contains(
                with_app(s, a)[i],
            ),
    decreases s.len(),
{
    if s.len() > 0 {
        let front = s.drop_last();
        let z = s.last();
        assert forall|i: int, j: int| 0 <= i < j < front.len() implies lex_lt(
            lowercase(#[trigger] front[i].0),
            lowercase(#[trigger] front[j].0),
        ) by {
            assert(front[i] == s[i] && front[j] == s[j]);
        }
        lemma_with_app(front, a);
        let all = with_app(s, a);
        if lowercase(z.0) == lowercase(a.0) {
            assert forall|i: int| 0 <= i < all.len() implies (#[trigger] all[i]) == a || s.contains(
                all[i],
            ) by {
                assert(s[i] == all[i]);
            }
        } else if lex_lt(lowercase(z.0), lowercase(a.0)) {
            assert forall|i: int, j: int| 0 <= i < j < all.len() implies lex_lt(
                lowercase(#[trigger] all[i].0),
                lowercase(#[trigger] all[j].0),
            ) by {
                if j == s.len() {
                    assert(all[i] == s[i]);
                    if i < s.len() - 1 {
                        assert(lex_lt(lowercase(s[i].0), lowercase(s[s.len() - 1].0)));
                        lemma_lex_transitive(lowercase(s[i].0), lowercase(z.0), lowercase(a.0));
                    }
                } else {
                    assert(all[i] == s[i] && all[j] == s[j]);
                }
            }
            assert forall|i: int| 0 <= i < all.len() implies (#[trigger] all[i]) == a || s.contains(
                all[i],
            ) by {
                if i < s.len() {
                    assert(s[i] == all[i]);
                }
            }
        } else {
            lemma_lex_total(lowercase(z.0), lowercase(a.0));
            let rest = with_app(front, a);
            assert forall|i: int, j: int| 0 <= i < j < all.len() implies lex_lt(
                lowercase(#[trigger] all[i].0),
                lowercase(#[trigger] all[j].0),
            ) by {
                if j == rest.len() {
                    assert(all[i] == rest[i]);
                    if rest[i] != a {
                        assert(front.contains(rest[i]));
                        let k = choose|k: int| 0 <= k < front.len() && front[k] == rest[i];
                        assert(s[k] == rest[i]);
                        assert(lex_lt(lowercase(s[k].0), lowercase(s[s.len() - 1].0)));
                    }
                } else {
                    assert(all[i] == rest[i] && all[j] == rest[j]);
                }
            }
            assert forall|i: int| 0 <= i < all.len() implies (#[trigger] all[i]) == a || s.contains(
                all[i],
            ) by {
                if i < rest.len() {
                    assert(all[i] == rest[i]);
                    if rest[i] != a {
                        assert(front.contains(rest[i]));
                        let k = choose|k: int| 0 <= k < front.len() && front[k] == rest[i];
                        assert(s[k] == rest[i]);
                    }
                } else {
                    assert(s[s.len() - 1] == all[i]);
                }
            }
        }
    }
}

/// Choosing an app that is not in the launcher adds it, and choosing it again
/// removes it.
pub proof fn law_choosing_twice_changes_nothing(
    e: Seq<EntryView>,
    name: Seq<char>,
    path: Seq<char>,
)
    requires
        runner_from(e, path, 0) is None,
    ensures
        ({
            let once = toggled(
                e,
                runner_from(e, path, 0),
                plain_entry(name, path, Seq::empty()),
            );
            toggled(
                once,
                runner_from(once, path, 0),
                plain_entry(name, path, Seq::empty()),
            ) == e
        }),
{
    let new = plain_entry(name, path, Seq::empty());
    let once = e.push(new);
    lemma_runner_at_end(e, new, path, 0);
    assert(once.remove(e.len() as int) =~= e);
}

/// Choosing a bookmark that is not in the launcher adds it, and choosing it
/// again removes it, whichever browser is chosen for it.
pub proof fn law_bookmark_twice_changes_nothing(
    e: Seq<EntryView>,
    title: Seq<char>,
    url: Seq<char>,
    f: FoldersView,
    present: Seq<Seq<char>>,
    n: int,
)
    requires
        opener_from(e, url, 0) is None,
        plain_address(url),
        only_paths(present),
        0 <= n < choices(f, "{url}"@, present).len(),
    ensures
        ({
            let w = wired_for(choices(f, "{url}"@, present)[n], url);
            let new = plain_entry(title, w.0, w.1);
            let once = toggled(e, opener_from(e, url, 0), new);
            &&& once == e.push(new)
            &&& toggled(once, opener_from(once, url, 0), new) == e
        }),
{
    let c = choices(f, "{url}"@, present)[n];
    let w = wired_for(c, url);
    let new = plain_entry(title, w.0, w.1);
    law_wired_entry_opens_the_address(new, f, present, url, n);
    assert(new == wired_to(new, c, url));
    assert(opens(new, url));
    lemma_opener_at_end(e, new, url, 0);
    assert(e.push(new).remove(e.len() as int) =~= e);
}

proof fn lemma_opener_at_end(e: Seq<EntryView>, new: EntryView, url: Seq<char>, i: int)
    requires
        0 <= i <= e.len(),
        opener_from(e, url, i) is None,
        opens(new, url),
    ensures
        opener_from(e.push(new), url, i) == Some(e.len() as int),
    decreases e.len() - i,
{
    if i < e.len() {
        assert(e.push(new)[i] == e[i]);
        lemma_opener_at_end(e, new, url, i + 1);
    }
}

/// The panel is painted down to row `i`, which comes at `y`.
pub open spec fn reaches(
    k: Sketch,
    sh: Sheet,
    st: BarStyle,
    s: ScanView,
    e: Seq<EntryView>,
    i: int,
    y: int,
) -> bool {
    exists|above: Sketch|
        rows_drawn(
            k,
            sh,
            st,
            e,
            s.bookmarks,
            matching(s.apps, s.query),
            first_row(s),
            rows_top(sh, s.bookmarks),
        ) == #[trigger] rows_drawn(
            above,
            sh,
            st,
            e,
            s.bookmarks,
            matching(s.apps, s.query),
            i,
            y,
        )
}

/// A row that is drawn is drawn where a click chooses it: painting comes to
/// row `i` at the height `y`, where it fits, and a click on that height or
/// within the row chooses row `i`.
pub proof fn law_click_hits_drawn_row(
    k: Sketch,
    sh: Sheet,
    st: BarStyle,
    s: ScanView,
    e: Seq<EntryView>,
    i: int,
    within: int,
)
    requires
        row_height(sh) > 0,
        s.offset >= 0,
        first_row(s) <= i < matching(s.apps, s.query).len(),
        0 <= within < row_height(sh),
        ({
            let line = row_height(sh);
            rows_top(sh, s.bookmarks) + (i - first_row(s)) * line + line <= sh.h - line - sh.s(6)
        }),
    ensures
        ({
            let y = rows_top(sh, s.bookmarks) + (i - first_row(s)) * row_height(sh);
            &&& drawn_at(k, sh, st, s, e, i, y)
            &&& clicked(s, e, sh, y + within) == (s, chosen(s, e, i).0, chosen(s, e, i).1)
        }),
{
    let line = row_height(sh);
    let top = rows_top(sh, s.bookmarks);
    let d = i - first_row(s);
    let y = top + d * line;
    lemma_reaches(k, sh, st, s, e, i);
    assert(d * line >= 0) by (nonlinear_arith)
        requires
            d >= 0,
            line > 0,
    ;
    assert((d * line + within) / line == d) by (nonlinear_arith)
        requires
            line > 0,
            0 <= within < line,
    ;
}

/// Painting draws row `i` at the height `y`, and goes on below it.
pub open spec fn drawn_at(
    k: Sketch,
    sh: Sheet,
    st: BarStyle,
    s: ScanView,
    e: Seq<EntryView>,
    i: int,
    y: int,
) -> bool {
    reaches(k, sh, st, s, e, i, y) && y + row_height(sh) <= sh.h - row_height(sh) - sh.s(6)
}

proof fn lemma_reaches(k: Sketch, sh: Sheet, st: BarStyle, s: ScanView, e: Seq<EntryView>, i: int)
    requires
        row_height(sh) > 0,
        first_row(s) <= i < matching(s.apps, s.query).len(),
        0 <= first_row(s),
        rows_top(sh, s.bookmarks) + (i - first_row(s)) * row_height(sh) + row_height(sh) <= sh.h
            - row_height(sh) - sh.s(6),
    ensures
        reaches(
            k,
            sh,
            st,
            s,
            e,
            i,
            rows_top(sh, s.bookmarks) + (i - first_row(s)) * row_height(sh),
        ),
    decreases i - first_row(s),
{
    let line = row_height(sh);
    let rows = matching(s.apps, s.query);
    let top = rows_top(sh, s.bookmarks);
    let first = first_row(s);
    let whole = rows_drawn(k, sh, st, e, s.bookmarks, rows, first, top);
    let y = top + (i - first) * line;
    if i > first {
        let above = y - line;
        assert((i - first) * line == (i - 1 - first) * line + line) by (nonlinear_arith);
        lemma_reaches(k, sh, st, s, e, i - 1);
        let was = choose|was: Sketch|
            whole == #[trigger] rows_drawn(
                was,
                sh,
                st,
                e,
                s.bookmarks,
                rows,
                i - 1,
                above,
            );
        let next = row_drawn(
            was,
            sh,
            st,
            is_added(e, s.bookmarks, rows[i - 1].1),
            rows[i - 1].0,
            above,
        );
        assert(whole == rows_drawn(next, sh, st, e, s.bookmarks, rows, i, y));
    } else {
        assert((i - first) * line == 0) by (nonlinear_arith)
            requires
                i == first,
        ;
        assert(whole == rows_drawn(k, sh, st, e, s.bookmarks, rows, i, y));
    }
}

proof fn lemma_runner_at_end(e: Seq<EntryView>, new: EntryView, path: Seq<char>, i: int)
    requires
        0 <= i <= e.len(),
        runner_from(e, path, i) is None,
        new.command == path,
    ensures
        runner_from(e.push(new), path, i) == Some(e.len() as int),
    decreases e.len() - i,
{
    if i < e.len() {
        assert(e.push(new)[i] == e[i]);
        lemma_runner_at_end(e, new, path, i + 1);
    }
}

} // verus!
