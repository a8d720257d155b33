//! The manage-apps panel: adding apps and web apps, grouping them, choosing
//! their browser, and removing them.

use crate::config::{EntryView, LauncherEntry};
use crate::launcher::entries_of;
use crate::launcher_panel::{remove_entry, scroll, scrolled};
use crate::layout::{divided, quot, Rect};
use crate::numerals::{decimal, show};
use crate::scene::{
    area, blank, bold, bold_pen, lesser, max2, min2, normal, normal_pen, perch, perched, span, Align,
    BarStyle, Pen, Perch, Quill, Scene, Sheet, Sketch,
};
use crate::search::{maybe, type_char, typed};
use crate::text::{
    is_blank, joined, joined3, lowercase, owned, texts, to_lowercase, trim, trimmed,
};
use crate::vk::{VK_ESCAPE, VK_RETURN};
use crate::webapps::{
    browser_label, choice_views, choices, cycle_entry_browser, cycled, entry_browser_label, entry_url,
    file_stem, host_name, normal_url, normalize_url, stem_of, url_display_name, url_of,
    web_browser_choices, wire, wired, BrowserChoice, ChoiceView, Folders, FoldersView,
};
use vstd::prelude::*;

verus! {

// -------------------------------------------------------------------- state

/// The state of the panel.
pub struct MgrState {
    /// The first entry that is shown.
    pub offset: usize,
    /// What a new entry runs, while its name is typed.
    pub adding: Option<String>,
    /// The arguments that go with it.
    pub adding_args: String,
    pub name_buf: String,
    /// The address of a new web app, while it is typed.
    pub web_url: Option<String>,
    /// An address whose browser is being chosen, with the choices.
    pub web_pick: Option<(String, Vec<BrowserChoice>)>,
    /// The index of the entry whose group is typed.
    pub group_edit: Option<usize>,
    pub group_buf: String,
    /// A dialog is open; it takes the focus, and the panel stays.
    pub dialog_open: bool,
    /// What the last line says, or nothing.
    pub message: String,
}

/// The state of the panel.
#[verifier::ext_equal]
pub struct MgrView {
    pub offset: int,
    pub adding: Option<Seq<char>>,
    pub adding_args: Seq<char>,
    pub name_buf: Seq<char>,
    pub web_url: Option<Seq<char>>,
    pub web_pick: Option<(Seq<char>, Seq<ChoiceView>)>,
    pub group_edit: Option<usize>,
    pub group_buf: Seq<char>,
    pub dialog_open: bool,
    pub message: Seq<char>,
}

/// An address and the choices for it.
pub open spec fn pick_view(p: Option<(String, Vec<BrowserChoice>)>) -> Option<
    (Seq<char>, Seq<ChoiceView>),
> {
    match p {
        Some((u, cs)) => Some((u@, choice_views(cs@))),
        None => None,
    }
}

impl View for MgrState {
    type V = MgrView;

    open spec fn view(&self) -> MgrView {
        MgrView {
            offset: self.offset as int,
            adding: maybe(self.adding),
            adding_args: self.adding_args@,
            name_buf: self.name_buf@,
            web_url: maybe(self.web_url),
            web_pick: pick_view(self.web_pick),
            group_edit: self.group_edit,
            group_buf: self.group_buf@,
            dialog_open: self.dialog_open,
            message: self.message@,
        }
    }
}

/// The state of a panel just opened.
pub open spec fn fresh_manager() -> MgrView {
    MgrView {
        offset: 0,
        adding: None,
        adding_args: Seq::empty(),
        name_buf: Seq::empty(),
        web_url: None,
        web_pick: None,
        group_edit: None,
        group_buf: Seq::empty(),
        dialog_open: false,
        message: Seq::empty(),
    }
}

/// What the panel asks for.
#[derive(Clone, Copy, Debug, PartialEq, Eq, Structural)]
pub enum MgrStep {
    Nothing,
    Close,
    Redraw,
    /// Let the user choose a file to add.
    Browse,
    /// Close, and open the list of installed apps.
    Scan,
    /// Let the user choose a bookmarks file.
    Import,
    /// The entries changed: save them.
    Keep,
    /// The entries changed: save them and register the hotkeys anew.
    Save,
    /// Entries were removed: the same, and the launcher selects its first.
    Removed,
}

// ----------------------------------------------------------------- geometry

pub open spec fn line_height(sh: Sheet) -> int {
    sh.s(28)
}

/// The top of the four actions.
pub open spec fn actions_top(sh: Sheet) -> int {
    sh.s(20) + sh.s(28) + sh.s(6)
}

/// The top of the first entry.
pub open spec fn rows_top(sh: Sheet) -> int {
    actions_top(sh) + 4 * sh.s(28) + sh.s(6)
}

/// The place of the panel.
pub open spec fn manager_place(bounds: Rect, dpi: u32) -> Rect {
    let sh = Sheet { w: 0, h: 0, dpi };
    perched(bounds, sh.s(640), min2(quot(bounds.h * 3, 4), sh.s(760)), Perch::Middle)
}

/// The place of the panel.
pub fn manager_panel(bounds: &Rect, dpi: u32) -> (r: Rect)
    ensures
        r == manager_place(*bounds, dpi),
{
    let sh = Sheet { w: 0, h: 0, dpi };
    let h: i64 = lesser(divided(bounds.h as i64 * 3, 4), sh.px(760) as i64);
    perch(bounds, sh.px(640) as i64, h, Perch::Middle)
}

// ------------------------------------------------------------------ changes

/// A browser was chosen: the name of the new entry is typed next.
pub open spec fn picked(s: MgrView, url: Seq<char>, c: ChoiceView) -> MgrView {
    let (command, args) = wired(c, url);
    MgrView {
        web_pick: None,
        adding: Some(command),
        adding_args: args,
        name_buf: host_name(url),
        ..s
    }
}

/// The new entry.
pub open spec fn new_entry(name: Seq<char>, path: Seq<char>, args: Seq<char>) -> EntryView {
    EntryView {
        name: if trimmed(name).len() == 0 {
            stem_of(path)
        } else {
            trimmed(name)
        },
        command: path,
        args,
        dir: Seq::empty(),
        key: Seq::empty(),
        group: Seq::empty(),
    }
}

/// Typing a name is over.
pub open spec fn unnamed(s: MgrView) -> MgrView {
    MgrView { adding: None, adding_args: Seq::empty(), name_buf: Seq::empty(), ..s }
}

/// The new entry is added.
pub open spec fn committed(s: MgrView) -> MgrView {
    MgrView { message: "added — assign a shortcut from the launcher's key chip"@, ..unnamed(s) }
}

/// Typing a group is over.
pub open spec fn ungrouped(s: MgrView) -> MgrView {
    MgrView { group_edit: None, group_buf: Seq::empty(), ..s }
}

/// The entries with another group for one, where it exists.
pub open spec fn with_group(s: Seq<EntryView>, idx: int, group: Seq<char>) -> Seq<EntryView> {
    if 0 <= idx < s.len() {
        s.update(idx, EntryView { group, ..s[idx] })
    } else {
        s
    }
}

/// What a key does: each step of the wizards takes Enter and Escape, the
/// choice of a browser takes digits, and otherwise Escape closes.
pub open spec fn keyed(
    s: MgrView,
    e: Seq<EntryView>,
    f: FoldersView,
    present: Seq<Seq<char>>,
    vk: u32,
) -> (MgrView, Seq<EntryView>, MgrStep) {
    if s.web_url is Some {
        let buf = s.web_url->0;
        if vk == VK_RETURN && trimmed(buf).len() > 0 {
            let url = normal_url(buf);
            (
                MgrView { web_url: None, web_pick: Some((url, choices(f, url, present))), ..s },
                e,
                MgrStep::Redraw,
            )
        } else if vk == VK_ESCAPE {
            (MgrView { web_url: None, ..s }, e, MgrStep::Redraw)
        } else {
            (s, e, MgrStep::Nothing)
        }
    } else if s.web_pick is Some {
        let (url, cs) = s.web_pick->0;
        if vk == VK_ESCAPE {
            (MgrView { web_pick: None, ..s }, e, MgrStep::Redraw)
        } else if 0x31 <= vk <= 0x39 && vk - 0x31 < cs.len() {
            (picked(s, url, cs[vk - 0x31]), e, MgrStep::Redraw)
        } else {
            (s, e, MgrStep::Nothing)
        }
    } else if s.adding is Some {
        if vk == VK_RETURN {
            (
                committed(s),
                e.push(new_entry(s.name_buf, s.adding->0, s.adding_args)),
                MgrStep::Save,
            )
        } else if vk == VK_ESCAPE {
            (unnamed(s), e, MgrStep::Redraw)
        } else {
            (s, e, MgrStep::Nothing)
        }
    } else if s.group_edit is Some {
        if vk == VK_RETURN {
            (
                ungrouped(s),
                with_group(e, s.group_edit->0 as int, lowercase(trimmed(s.group_buf))),
                MgrStep::Keep,
            )
        } else if vk == VK_ESCAPE {
            (ungrouped(s), e, MgrStep::Redraw)
        } else {
            (s, e, MgrStep::Nothing)
        }
    } else if vk == VK_ESCAPE {
        (s, e, MgrStep::Close)
    } else {
        (s, e, MgrStep::Nothing)
    }
}

/// What a character does: it goes into the line that is typed.
pub open spec fn typed_into(s: MgrView, ch: u32, clip: Option<Seq<char>>) -> MgrView {
    if s.web_url is Some {
        match typed(s.web_url->0, ch, clip) {
            Some(t) => MgrView { web_url: Some(t), ..s },
            None => s,
        }
    } else if s.adding is Some {
        match typed(s.name_buf, ch, clip) {
            Some(t) => MgrView { name_buf: t, ..s },
            None => s,
        }
    } else if s.group_edit is Some {
        match typed(s.group_buf, ch, clip) {
            Some(t) => MgrView { group_buf: t, ..s },
            None => s,
        }
    } else {
        s
    }
}

/// What a click on the row of entry `i` does: its cross removes it, the
/// browser chip takes the next browser, the group chip lets its group be
/// typed.
pub open spec fn entry_clicked(
    s: MgrView,
    e: Seq<EntryView>,
    f: FoldersView,
    present: Seq<Seq<char>>,
    sh: Sheet,
    x: int,
    i: int,
) -> (MgrView, Seq<EntryView>, MgrStep) {
    let w = sh.w;
    if x >= w - sh.s(44) {
        (s, e.remove(i), MgrStep::Removed)
    } else if w - sh.s(190) <= x < w - sh.s(48) && url_of(e[i]) is Some {
        (s, e.update(i, cycled(e[i], choices(f, "{url}"@, present))), MgrStep::Keep)
    } else if w - sh.s(330) <= x < w - sh.s(195) {
        (
            MgrView {
                group_edit: Some(i as usize),
                group_buf: e[i].group,
                message: Seq::empty(),
                ..s
            },
            e,
            MgrStep::Redraw,
        )
    } else {
        (s, e, MgrStep::Nothing)
    }
}

/// What a click does.
pub open spec fn clicked(
    s: MgrView,
    e: Seq<EntryView>,
    f: FoldersView,
    present: Seq<Seq<char>>,
    sh: Sheet,
    x: int,
    y: int,
) -> (MgrView, Seq<EntryView>, MgrStep) {
    let line = line_height(sh);
    let top = actions_top(sh);
    if s.adding is Some || s.web_url is Some {
        (s, e, MgrStep::Nothing)
    } else if s.web_pick is Some {
        let (url, cs) = s.web_pick->0;
        if y >= top && (y - top) / line < cs.len() {
            (picked(s, url, cs[(y - top) / line]), e, MgrStep::Redraw)
        } else {
            (s, e, MgrStep::Nothing)
        }
    } else if top <= y < top + 4 * line {
        let i = (y - top) / line;
        if i == 0 {
            (s, e, MgrStep::Browse)
        } else if i == 1 {
            (s, e, MgrStep::Scan)
        } else if i == 2 {
            (
                MgrView { web_url: Some(Seq::empty()), message: Seq::empty(), ..s },
                e,
                MgrStep::Redraw,
            )
        } else {
            (s, e, MgrStep::Import)
        }
    } else if y < rows_top(sh) {
        (s, e, MgrStep::Nothing)
    } else {
        let i = min2(s.offset, max2(e.len() - 1, 0)) + (y - rows_top(sh)) / line;
        if i < e.len() {
            entry_clicked(s, e, f, present, sh, x, i)
        } else {
            (s, e, MgrStep::Nothing)
        }
    }
}

impl MgrState {
    /// The state of a panel just opened.
    pub fn new() -> (r: MgrState)
        ensures
            r@ == fresh_manager(),
    {
        MgrState {
            offset: 0,
            adding: None,
            adding_args: String::new(),
            name_buf: String::new(),
            web_url: None,
            web_pick: None,
            group_edit: None,
            group_buf: String::new(),
            dialog_open: false,
            message: String::new(),
        }
    }

    /// A dialog opens or closes.
    pub fn dialog(&mut self, open: bool)
        ensures
            final(self)@ == (MgrView { dialog_open: open, ..old(self)@ }),
    {
        self.dialog_open = open;
    }

    /// The focus is gone: does the panel close?
    pub fn on_focus_lost(&self) -> (r: bool)
        ensures
            r == !self@.dialog_open,
    {
        !self.dialog_open
    }

    /// The user chose a file to add, or none.
    pub fn add_app_flow(&mut self, path: Option<String>)
        ensures
            final(self)@ == match maybe(path) {
                Some(p) => MgrView { name_buf: stem_of(p), adding: Some(p), ..old(self)@ },
                None => old(self)@,
            },
    {
        match path {
            Some(p) => {
                self.name_buf = file_stem(p.as_str());
                self.adding = Some(p);
            },
            None => {},
        }
    }

    /// A bookmarks file held that many links. Says whether to close the panel
    /// and show them.
    pub fn import_bookmarks_flow(&mut self, links: usize) -> (r: bool)
        ensures
            r == (links > 0),
            final(self)@ == if links > 0 {
                old(self)@
            } else {
                MgrView { message: "no bookmarks found in that file"@, ..old(self)@ }
            },
    {
        if links == 0 {
            self.message = owned("no bookmarks found in that file");
        }
        links > 0
    }

    /// The wheel turned by `delta`; `count` is the number of entries.
    pub fn wheel(&mut self, delta: i32, count: usize)
        requires
            old(self).offset <= 0x7FFF_FFFF,
            count <= 0x7FFF_FFFF,
        ensures
            final(self)@ == (MgrView {
                offset: scrolled(old(self)@.offset, delta as int, max2(count - 3, 0)),
                ..old(self)@
            }),
    {
        let most: usize = if count > 3 {
            count - 3
        } else {
            0
        };
        self.offset = scroll(self.offset, delta, most);
    }

    /// A browser was chosen for an address.
    pub fn pick_web_browser(&mut self, url: &str, c: &BrowserChoice)
        ensures
            final(self)@ == picked(old(self)@, url@, c@),
    {
        let (command, args) = wire(c, url);
        self.web_pick = None;
        self.adding = Some(command);
        self.adding_args = args;
        self.name_buf = url_display_name(url);
    }

    /// Adds the new entry.
    pub fn commit_new_app(&mut self, entries: &mut Vec<LauncherEntry>) -> (r: bool)
        ensures
            r == (old(self)@.adding is Some),
            old(self)@.adding matches Some(path) ==> final(self)@ == committed(old(self)@)
                && entries_of(final(entries)@) == entries_of(old(entries)@).push(
                new_entry(old(self)@.name_buf, path, old(self)@.adding_args),
            ),
            old(self)@.adding is None ==> final(self)@ == old(self)@ && final(entries)@ == old(
                entries,
            )@,
    {
        let path = match &self.adding {
            Some(p) => p.clone(),
            None => {
                return false;
            },
        };
        let bare = trim(self.name_buf.as_str());
        let name = if is_blank(bare.as_str()) {
            file_stem(path.as_str())
        } else {
            bare
        };
        let ghost was = entries@;
        entries.push(
            LauncherEntry {
                name,
                command: path,
                args: self.adding_args.clone(),
                dir: String::new(),
                key: String::new(),
                group: String::new(),
            },
        );
        proof {
            assert(entries@.last()@.dir =~= Seq::empty());
            assert(entries_of(entries@) =~= entries_of(was).push(entries@.last()@));
        }
        self.adding = None;
        self.adding_args = String::new();
        self.name_buf = String::new();
        self.message = owned("added — assign a shortcut from the launcher's key chip");
        true
    }

    /// A key. `present` holds those of the places where browsers are looked
    /// for that exist.
    pub fn on_mgr_key(
        &mut self,
        entries: &mut Vec<LauncherEntry>,
        f: &Folders,
        present: &Vec<String>,
        vk: u32,
    ) -> (r: MgrStep)
        ensures
            (final(self)@, entries_of(final(entries)@), r) == keyed(
                old(self)@,
                entries_of(old(entries)@),
                f@,
                texts(present@),
                vk,
            ),
    {
        match &self.web_url {
            Some(buf) => {
                let bare = trim(buf.as_str());
                if vk == VK_RETURN && !is_blank(bare.as_str()) {
                    let url = normalize_url(buf.as_str());
                    let cs = web_browser_choices(f, url.as_str(), present);
                    self.web_url = None;
                    self.web_pick = Some((url, cs));
                    return MgrStep::Redraw;
                }
                if vk == VK_ESCAPE {
                    self.web_url = None;
                    return MgrStep::Redraw;
                }
                return MgrStep::Nothing;
            },
            None => {},
        }
        match &self.web_pick {
            Some(p) => {
                if vk == VK_ESCAPE {
                    self.web_pick = None;
                    return MgrStep::Redraw;
                }
                proof {
                    assert(choice_views(p.1@).len() == p.1.len());
                }
                if 0x31 <= vk && vk <= 0x39 && ((vk - 0x31) as usize) < p.1.len() {
                    let i: usize = (vk - 0x31) as usize;
                    proof {
                        assert(choice_views(p.1@)[i as int] == p.1@[i as int]@);
                    }
                    let url = p.0.clone();
                    let c = p.1[i].duplicate();
                    self.pick_web_browser(url.as_str(), &c);
                    return MgrStep::Redraw;
                }
                return MgrStep::Nothing;
            },
            None => {},
        }
        match &self.adding {
            Some(path) => {
                if vk == VK_RETURN {
                    let _ = self.commit_new_app(entries);
                    return MgrStep::Save;
                }
                if vk == VK_ESCAPE {
                    self.adding = None;
                    self.adding_args = String::new();
                    self.name_buf = String::new();
                    return MgrStep::Redraw;
                }
                return MgrStep::Nothing;
            },
            None => {},
        }
        match self.group_edit {
            Some(idx) => {
                if vk == VK_RETURN {
                    let bare = trim(self.group_buf.as_str());
                    let group = to_lowercase(bare.as_str());
                    let ghost views = entries_of(entries@);
                    if idx < entries.len() {
                        entries[idx].group = group;
                        proof {
                            assert(entries_of(entries@) =~= with_group(
                                views,
                                idx as int,
                                lowercase(trimmed(old(self)@.group_buf)),
                            ));
                        }
                    }
                    self.group_edit = None;
                    self.group_buf = String::new();
                    return MgrStep::Keep;
                }
                if vk == VK_ESCAPE {
                    self.group_edit = None;
                    self.group_buf = String::new();
                    return MgrStep::Redraw;
                }
                return MgrStep::Nothing;
            },
            None => {},
        }
        if vk == VK_ESCAPE {
            MgrStep::Close
        } else {
            MgrStep::Nothing
        }
    }

    /// A character, with the text of the clipboard for Ctrl+V.
    pub fn on_mgr_char(&mut self, ch: u32, clip: &Option<String>)
        ensures
            final(self)@ == typed_into(old(self)@, ch, maybe(*clip)),
    {
        match &self.web_url {
            Some(u) => {
                let mut line = u.clone();
                let _ = type_char(&mut line, ch, clip);
                self.web_url = Some(line);
                return;
            },
            None => {},
        }
        match &self.adding {
            Some(p) => {
                let _ = type_char(&mut self.name_buf, ch, clip);
                return;
            },
            None => {},
        }
        match self.group_edit {
            Some(i) => {
                let _ = type_char(&mut self.group_buf, ch, clip);
            },
            None => {},
        }
    }

    fn click_entry(
        &mut self,
        entries: &mut Vec<LauncherEntry>,
        f: &Folders,
        present: &Vec<String>,
        sh: &Sheet,
        x: i32,
        i: usize,
    ) -> (r: MgrStep)
        requires
            i < old(entries).len(),
        ensures
            (final(self)@, entries_of(final(entries)@), r) == entry_clicked(
                old(self)@,
                entries_of(old(entries)@),
                f@,
                texts(present@),
                *sh,
                x as int,
                i as int,
            ),
    {
        let ghost views = entries_of(entries@);
        proof {
            assert(views[i as int] == entries@[i as int]@);
        }
        let at: i64 = x as i64;
        let w: i64 = sh.w as i64;
        if at >= w - sh.px(44) as i64 {
            remove_entry(entries, i);
            return MgrStep::Removed;
        }
        if w - sh.px(190) as i64 <= at && at < w - sh.px(48) as i64 {
            let mut e = entries[i].duplicate();
            let cs = web_browser_choices(f, "{url}", present);
            if cycle_entry_browser(&mut e, &cs) {
                entries[i] = e;
                proof {
                    assert(entries_of(entries@) =~= views.update(
                        i as int,
                        cycled(views[i as int], choices(f@, "{url}"@, texts(present@))),
                    ));
                }
                return MgrStep::Keep;
            }
        }
        if w - sh.px(330) as i64 <= at && at < w - sh.px(195) as i64 {
            self.group_edit = Some(i);
            self.group_buf = entries[i].group.clone();
            self.message = String::new();
            return MgrStep::Redraw;
        }
        MgrStep::Nothing
    }

    /// A click.
    pub fn on_mgr_click(
        &mut self,
        entries: &mut Vec<LauncherEntry>,
        f: &Folders,
        present: &Vec<String>,
        sh: &Sheet,
        x: i32,
        y: i32,
    ) -> (r: MgrStep)
        requires
            line_height(*sh) > 0,
        ensures
            (final(self)@, entries_of(final(entries)@), r) == clicked(
                old(self)@,
                entries_of(old(entries)@),
                f@,
                texts(present@),
                *sh,
                x as int,
                y as int,
            ),
    {
        let line: i64 = sh.px(28) as i64;
        let top: i64 = sh.px(20) as i64 + line + sh.px(6) as i64;
        let at: i64 = y as i64;
        if self.adding.is_some() || self.web_url.is_some() {
            return MgrStep::Nothing;
        }
        match &self.web_pick {
            Some(p) => {
                proof {
                    assert(choice_views(p.1@).len() == p.1.len());
                }
                if at >= top && ((at - top) / line) as u64 <= 0xFFFF_FFFF && (((at - top) / line)
                    as usize) < p.1.len() {
                    let i: usize = ((at - top) / line) as usize;
                    proof {
                        assert(choice_views(p.1@)[i as int] == p.1@[i as int]@);
                    }
                    let url = p.0.clone();
                    let c = p.1[i].duplicate();
                    self.pick_web_browser(url.as_str(), &c);
                    return MgrStep::Redraw;
                }
                return MgrStep::Nothing;
            },
            None => {},
        }
        if top <= at && at < top + 4 * line {
            let i: i64 = (at - top) / line;
            if i == 0 {
                return MgrStep::Browse;
            }
            if i == 1 {
                return MgrStep::Scan;
            }
            if i == 2 {
                self.web_url = Some(String::new());
                self.message = String::new();
                return MgrStep::Redraw;
            }
            return MgrStep::Import;
        }
        let rows: i64 = top + 4 * line + sh.px(6) as i64;
        if at < rows {
            return MgrStep::Nothing;
        }
        let n = entries.len();
        let last: usize = if n > 0 {
            n - 1
        } else {
            0
        };
        let first: usize = if self.offset < last {
            self.offset
        } else {
            last
        };
        let down: u64 = ((at - rows) / line) as u64;
        if down < (n - first) as u64 {
            return self.click_entry(entries, f, present, sh, x, first + down as usize);
        }
        MgrStep::Nothing
    }
}

// ----------------------------------------------------------------- painting

/// The last line of the panel.
pub open spec fn foot_drawn(k: Sketch, sh: Sheet, st: BarStyle, text: Seq<char>, pen: Quill) -> Sketch {
    let (pad, line, w, h) = (sh.s(20), line_height(sh), sh.w as int, sh.h as int);
    k.text(
        text,
        span(pad, h - line - sh.s(6), w - pad, h - sh.s(6)),
        st.cell_occupied,
        pen,
    )
}

/// The line at height `y`.
pub open spec fn line_span(sh: Sheet, y: int) -> crate::scene::Span {
    span(sh.s(20), y, sh.w - sh.s(20), y + line_height(sh))
}

/// Typing an address.
pub open spec fn address_step(k: Sketch, sh: Sheet, st: BarStyle, url: Seq<char>) -> Sketch {
    foot_drawn(
        k.text(
            "web app URL:  "@ + url + "_"@,
            line_span(sh, sh.s(20)),
            st.fg,
            bold(sh.s(15)),
        ).text(
            "e.g. grafana.mycorp.com — https:// is assumed"@,
            line_span(sh, sh.s(20) + line_height(sh)),
            st.cell_occupied,
            normal(sh.s(15)),
        ),
        sh,
        st,
        "Enter continues · Esc cancels · Ctrl+V pastes"@,
        normal(sh.s(15)),
    )
}

/// The choices of browsers from the `i`th on, as many as fit.
pub open spec fn choices_drawn(
    k: Sketch,
    sh: Sheet,
    st: BarStyle,
    cs: Seq<ChoiceView>,
    i: int,
    y: int,
) -> Sketch
    decreases cs.len() - i,
{
    let (pad, line) = (sh.s(20), line_height(sh));
    if i < 0 || i >= cs.len() || y + line > sh.h - line {
        k
    } else {
        choices_drawn(
            k.text(
                decimal((i + 1) as nat),
                span(pad, y, pad + sh.s(28), y + line),
                st.accent,
                bold(sh.s(15)),
            ).text(
                cs[i].label,
                span(pad + sh.s(32), y, sh.w - pad, y + line),
                st.fg,
                normal(sh.s(15)).cut(),
            ),
            sh,
            st,
            cs,
            i + 1,
            y + line,
        )
    }
}

/// Choosing a browser. The footer is written like what stands before it, so
/// boldly where no choice fits.
pub open spec fn browser_step(
    k: Sketch,
    sh: Sheet,
    st: BarStyle,
    url: Seq<char>,
    cs: Seq<ChoiceView>,
) -> Sketch {
    foot_drawn(
        choices_drawn(
            k.text(
                "open "@ + url + " with:"@,
                line_span(sh, sh.s(20)),
                st.fg,
                bold(sh.s(15)).cut(),
            ),
            sh,
            st,
            cs,
            0,
            actions_top(sh),
        ),
        sh,
        st,
        "click or press the number · Esc cancels"@,
        if cs.len() > 0 && actions_top(sh) + line_height(sh) <= sh.h - line_height(sh) {
            normal(sh.s(15))
        } else {
            bold(sh.s(15))
        },
    )
}

/// Typing a name.
pub open spec fn name_step(k: Sketch, sh: Sheet, st: BarStyle, s: MgrView, path: Seq<char>) -> Sketch {
    foot_drawn(
        k.text(
            "name:  "@ + s.name_buf + "_"@,
            line_span(sh, sh.s(20)),
            st.fg,
            bold(sh.s(15)),
        ).text(
            if s.adding_args.len() == 0 {
                path
            } else {
                path + " "@ + s.adding_args
            },
            line_span(sh, sh.s(20) + line_height(sh)),
            st.cell_occupied,
            normal(sh.s(15)).cut(),
        ),
        sh,
        st,
        "Enter saves · Esc cancels"@,
        normal(sh.s(15)),
    )
}

/// The labels of the four actions.
pub open spec fn action_label(i: int) -> Seq<char> {
    if i == 0 {
        "+  add app (browse…)"@
    } else if i == 1 {
        "⊞  scan installed apps…"@
    } else if i == 2 {
        "🌐  add web app (URL)…"@
    } else {
        "★  import bookmarks (.html)…"@
    }
}

/// Title, hint and the four actions.
pub open spec fn actions_drawn(k: Sketch, sh: Sheet, st: BarStyle) -> Sketch {
    let (line, top) = (line_height(sh), actions_top(sh));
    let pen = normal(sh.s(15));
    k.text("manage apps"@, line_span(sh, sh.s(20)), st.accent, bold(sh.s(15))).text(
        "click a field to edit it"@,
        line_span(sh, sh.s(20)),
        st.cell_occupied,
        pen.at(Align::Right),
    ).text(action_label(0), line_span(sh, top), st.accent, pen).text(
        action_label(1),
        line_span(sh, top + line),
        st.accent,
        pen,
    ).text(action_label(2), line_span(sh, top + 2 * line), st.accent, pen).text(
        action_label(3),
        line_span(sh, top + 3 * line),
        st.accent,
        pen,
    )
}

/// One entry: icon, name, the chip of its group, the chip of its browser for
/// a web app, and the cross that removes it.
pub open spec fn entry_drawn(
    k: Sketch,
    sh: Sheet,
    st: BarStyle,
    s: MgrView,
    e: EntryView,
    i: int,
    y: int,
) -> Sketch {
    let (pad, line, w) = (sh.s(20), line_height(sh), sh.w as int);
    let pen = normal(sh.s(15));
    let center = pen.at(Align::Center);
    let editing = s.group_edit == Some(i as usize);
    let (label, ink) = if editing {
        (s.group_buf + "_"@, st.accent)
    } else if e.group.len() == 0 {
        ("+ group"@, st.cell_occupied)
    } else {
        (e.group, st.fg)
    };
    let group = span(w - sh.s(330), y + sh.s(3), w - sh.s(195), y + line - sh.s(3));
    let browser = span(w - sh.s(190), y + sh.s(3), w - sh.s(48), y + line - sh.s(3));
    let named = k.file_icon(
        e.command,
        pad,
        y + quot(line - sh.s(16), 2),
        sh.s(16),
    ).text(
        e.name,
        span(pad + sh.s(24), y, w - sh.s(340), y + line),
        st.fg,
        bold(sh.s(15)).cut(),
    ).chip(
        group,
        st.bg,
        if editing {
            st.accent
        } else {
            st.cell_occupied
        },
    ).text(label, group, ink, center.cut());
    let webbed = if url_of(e) is Some {
        named.chip(browser, st.bg, st.cell_occupied).text(
            "🌐 "@ + browser_label(e),
            browser,
            st.fg,
            center.cut(),
        )
    } else {
        named
    };
    webbed.text("✕"@, span(w - sh.s(44), y, w - pad, y + line), st.fg, center)
}

/// The entries from the `i`th on, as many as fit; where the next would be, and
/// which one it is.
pub open spec fn entries_drawn(
    k: Sketch,
    sh: Sheet,
    st: BarStyle,
    s: MgrView,
    e: Seq<EntryView>,
    i: int,
    y: int,
) -> (Sketch, int, int)
    decreases e.len() - i,
{
    let line = line_height(sh);
    if i < 0 || i >= e.len() || y + line > sh.h - line - sh.s(6) {
        (k, y, i)
    } else {
        entries_drawn(entry_drawn(k, sh, st, s, e[i], i, y), sh, st, s, e, i + 1, y + line)
    }
}

/// What the last line says under the entries.
pub open spec fn list_foot(s: MgrView, remaining: int) -> Seq<char> {
    if s.message.len() > 0 {
        s.message
    } else if remaining > 0 {
        decimal(remaining as nat) + " more — wheel scrolls · Esc closes"@
    } else {
        "group chip types a category · 🌐 chip cycles the browser · Esc closes"@
    }
}

/// The list of entries.
pub open spec fn list_step(k: Sketch, sh: Sheet, st: BarStyle, s: MgrView, e: Seq<EntryView>) -> Sketch {
    let first = min2(s.offset, max2(e.len() - 1, 0));
    let (listed, y, next) = entries_drawn(
        actions_drawn(k, sh, st),
        sh,
        st,
        s,
        e,
        first,
        rows_top(sh),
    );
    let told = if e.len() == 0 {
        listed.text(
            "no apps yet — use the actions above"@,
            line_span(sh, y),
            st.cell_occupied,
            normal(sh.s(15)),
        )
    } else {
        listed
    };
    foot_drawn(told, sh, st, list_foot(s, e.len() - next), normal(sh.s(15)).cut())
}

/// The whole panel: the step of a wizard, or the list.
pub open spec fn manager_painted(sh: Sheet, st: BarStyle, s: MgrView, e: Seq<EntryView>) -> Sketch {
    let ground = blank().frame(sh, st);
    if s.web_url is Some {
        address_step(ground, sh, st, s.web_url->0)
    } else if s.web_pick is Some {
        browser_step(ground, sh, st, (s.web_pick->0).0, (s.web_pick->0).1)
    } else if s.adding is Some {
        name_step(ground, sh, st, s, s.adding->0)
    } else {
        list_step(ground, sh, st, s, e)
    }
}

fn draw_foot(k: &mut Scene, sh: &Sheet, st: &BarStyle, text: String, pen: Pen)
    ensures
        final(k)@ == foot_drawn(old(k)@, *sh, *st, text@, pen@),
{
    let pad: i64 = sh.px(20) as i64;
    let line: i64 = sh.px(28) as i64;
    let edge: i64 = sh.px(6) as i64;
    let w: i64 = sh.w as i64;
    let h: i64 = sh.h as i64;
    k.text(text, area(pad, h - line - edge, w - pad, h - edge), st.cell_occupied, pen);
}

fn line_area(sh: &Sheet, y: i64) -> (r: crate::scene::Area)
    requires
        0 <= y <= 0x10_0000_0000,
    ensures
        r@ == line_span(*sh, y as int),
{
    let pad: i64 = sh.px(20) as i64;
    area(pad, y, sh.w as i64 - pad, y + sh.px(28) as i64)
}

fn draw_address(k: &mut Scene, sh: &Sheet, st: &BarStyle, url: &String)
    ensures
        final(k)@ == address_step(old(k)@, *sh, *st, url@),
{
    let pad: i64 = sh.px(20) as i64;
    let line: i64 = sh.px(28) as i64;
    k.text(
        joined3("web app URL:  ", url.as_str(), "_"),
        line_area(sh, pad),
        st.fg,
        bold_pen(sh.px(15) as i64),
    );
    k.text(
        owned("e.g. grafana.mycorp.com — https:// is assumed"),
        line_area(sh, pad + line),
        st.cell_occupied,
        normal_pen(sh.px(15) as i64),
    );
    draw_foot(k, sh, st, owned("Enter continues · Esc cancels · Ctrl+V pastes"), normal_pen(sh.px(15) as i64));
}

fn draw_browsers(k: &mut Scene, sh: &Sheet, st: &BarStyle, url: &String, cs: &Vec<BrowserChoice>)
    ensures
        final(k)@ == browser_step(old(k)@, *sh, *st, url@, choice_views(cs@)),
{
    let pad: i64 = sh.px(20) as i64;
    let line: i64 = sh.px(28) as i64;
    let w: i64 = sh.w as i64;
    let h: i64 = sh.h as i64;
    let strong = bold_pen(sh.px(15) as i64);
    let plain = normal_pen(sh.px(15) as i64);
    k.text(
        joined3("open ", url.as_str(), " with:"),
        line_area(sh, pad),
        st.fg,
        strong.cutting(),
    );
    let ghost start = k@;
    let ghost views = choice_views(cs@);
    let mut y: i64 = pad + line + sh.px(6) as i64;
    let mut i: usize = 0;
    while i < cs.len() && y + line <= h - line
        invariant
            i <= cs.len(),
            views == choice_views(cs@),
            pad == sh.s(20),
            line == line_height(*sh),
            0 <= pad < 0x8000_0000,
            0 <= line < 0x8000_0000,
            w == sh.w,
            h == sh.h,
            strong@ == bold(sh.s(15)),
            plain@ == normal(sh.s(15)),
            0 <= y <= 0x3_0000_0000,
            i == 0 ==> y == actions_top(*sh),
            i > 0 ==> cs.len() > 0 && actions_top(*sh) + line <= h - line,
            choices_drawn(k@, *sh, *st, views, i as int, y as int) == choices_drawn(
                start,
                *sh,
                *st,
                views,
                0,
                actions_top(*sh),
            ),
        decreases cs.len() - i,
    {
        proof {
            assert(views[i as int] == cs@[i as int]@);
        }
        k.text(
            show(i as u64 + 1),
            area(pad, y, pad + sh.px(28) as i64, y + line),
            st.accent,
            strong,
        );
        k.text(
            cs[i].label.clone(),
            area(pad + sh.px(32) as i64, y, w - pad, y + line),
            st.fg,
            plain.cutting(),
        );
        y = y + line;
        i = i + 1;
    }
    let pen = if i > 0 {
        plain
    } else {
        strong
    };
    draw_foot(k, sh, st, owned("click or press the number · Esc cancels"), pen);
}

fn draw_name(k: &mut Scene, sh: &Sheet, st: &BarStyle, s: &MgrState, path: &String)
    ensures
        final(k)@ == name_step(old(k)@, *sh, *st, s@, path@),
{
    let pad: i64 = sh.px(20) as i64;
    let line: i64 = sh.px(28) as i64;
    k.text(
        joined3("name:  ", s.name_buf.as_str(), "_"),
        line_area(sh, pad),
        st.fg,
        bold_pen(sh.px(15) as i64),
    );
    let command = if is_blank(s.adding_args.as_str()) {
        path.clone()
    } else {
        joined3(path.as_str(), " ", s.adding_args.as_str())
    };
    k.text(
        command,
        line_area(sh, pad + line),
        st.cell_occupied,
        normal_pen(sh.px(15) as i64).cutting(),
    );
    draw_foot(k, sh, st, owned("Enter saves · Esc cancels"), normal_pen(sh.px(15) as i64));
}

fn draw_actions(k: &mut Scene, sh: &Sheet, st: &BarStyle)
    ensures
        final(k)@ == actions_drawn(old(k)@, *sh, *st),
{
    let pad: i64 = sh.px(20) as i64;
    let line: i64 = sh.px(28) as i64;
    let top: i64 = pad + line + sh.px(6) as i64;
    let pen = normal_pen(sh.px(15) as i64);
    let title = line_area(sh, pad);
    k.text(owned("manage apps"), title, st.accent, bold_pen(sh.px(15) as i64));
    k.text(owned("click a field to edit it"), title, st.cell_occupied, pen.to(Align::Right));
    k.text(owned("+  add app (browse…)"), line_area(sh, top), st.accent, pen);
    k.text(owned("⊞  scan installed apps…"), line_area(sh, top + line), st.accent, pen);
    k.text(owned("🌐  add web app (URL)…"), line_area(sh, top + 2 * line), st.accent, pen);
    k.text(owned("★  import bookmarks (.html)…"), line_area(sh, top + 3 * line), st.accent, pen);
}

fn draw_entry(
    k: &mut Scene,
    sh: &Sheet,
    st: &BarStyle,
    s: &MgrState,
    e: &LauncherEntry,
    i: usize,
    y: i64,
)
    requires
        0 <= y <= 0x10_0000_0000,
    ensures
        final(k)@ == entry_drawn(old(k)@, *sh, *st, s@, e@, i as int, y as int),
{
    let pad: i64 = sh.px(20) as i64;
    let line: i64 = sh.px(28) as i64;
    let w: i64 = sh.w as i64;
    let bottom: i64 = y + line;
    let inset: i64 = sh.px(3) as i64;
    let icon: i64 = sh.px(16) as i64;
    let plain = normal_pen(sh.px(15) as i64);
    let center = plain.to(Align::Center);
    k.file_icon(e.command.clone(), pad, y + divided(line - icon, 2), icon);
    k.text(
        e.name.clone(),
        area(pad + sh.px(24) as i64, y, w - sh.px(340) as i64, bottom),
        st.fg,
        bold_pen(sh.px(15) as i64).cutting(),
    );
    let editing: bool = match s.group_edit {
        Some(g) => g == i,
        None => false,
    };
    let grouped = !is_blank(e.group.as_str());
    let label = if editing {
        joined(s.group_buf.as_str(), "_")
    } else if grouped {
        e.group.clone()
    } else {
        owned("+ group")
    };
    let ink: u32 = if editing {
        st.accent
    } else if grouped {
        st.fg
    } else {
        st.cell_occupied
    };
    let group = area(w - sh.px(330) as i64, y + inset, w - sh.px(195) as i64, bottom - inset);
    k.chip(
        group,
        st.bg,
        if editing {
            st.accent
        } else {
            st.cell_occupied
        },
    );
    k.text(label, group, ink, center.cutting());
    match entry_url(e) {
        Some(url) => {
            let browser = area(
                w - sh.px(190) as i64,
                y + inset,
                w - sh.px(48) as i64,
                bottom - inset,
            );
            k.chip(browser, st.bg, st.cell_occupied);
            let name = entry_browser_label(e);
            k.text(joined("🌐 ", name.as_str()), browser, st.fg, center.cutting());
        },
        None => {},
    }
    k.text(owned("✕"), area(w - sh.px(44) as i64, y, w - pad, bottom), st.fg, center);
}

fn draw_list(k: &mut Scene, sh: &Sheet, st: &BarStyle, s: &MgrState, entries: &Vec<LauncherEntry>)
    ensures
        final(k)@ == list_step(old(k)@, *sh, *st, s@, entries_of(entries@)),
{
    let pad: i64 = sh.px(20) as i64;
    let line: i64 = sh.px(28) as i64;
    let edge: i64 = sh.px(6) as i64;
    let floor: i64 = sh.h as i64 - line - edge;
    draw_actions(k, sh, st);
    let ghost start = k@;
    let ghost views = entries_of(entries@);
    let n = entries.len();
    proof {
        assert(views.len() == n);
    }
    let last: usize = if n > 0 {
        n - 1
    } else {
        0
    };
    let first: usize = if s.offset < last {
        s.offset
    } else {
        last
    };
    let mut y: i64 = pad + line + edge + 4 * line + edge;
    let mut i: usize = first;
    while i < n && y + line <= floor
        invariant
            first <= i <= n,
            n == entries.len(),
            views == entries_of(entries@),
            line == line_height(*sh),
            0 <= line < 0x8000_0000,
            floor == sh.h - line_height(*sh) - sh.s(6),
            floor <= 0x7FFF_FFFF,
            0 <= y <= 0x8_0000_0000,
            entries_drawn(k@, *sh, *st, s@, views, i as int, y as int) == entries_drawn(
                start,
                *sh,
                *st,
                s@,
                views,
                first as int,
                rows_top(*sh),
            ),
        decreases n - i,
    {
        proof {
            assert(views[i as int] == entries@[i as int]@);
        }
        draw_entry(k, sh, st, s, &entries[i], i, y);
        y = y + line;
        i = i + 1;
    }
    if n == 0 {
        k.text(
            owned("no apps yet — use the actions above"),
            line_area(sh, y),
            st.cell_occupied,
            normal_pen(sh.px(15) as i64),
        );
    }
    let foot = if !is_blank(s.message.as_str()) {
        s.message.clone()
    } else if n > i {
        let more = show((n - i) as u64);
        joined(more.as_str(), " more — wheel scrolls · Esc closes")
    } else {
        owned("group chip types a category · 🌐 chip cycles the browser · Esc closes")
    };
    draw_foot(k, sh, st, foot, normal_pen(sh.px(15) as i64).cutting());
}

/// The whole panel.
pub fn paint_mgr(sh: &Sheet, st: &BarStyle, s: &MgrState, entries: &Vec<LauncherEntry>) -> (k: Scene)
    ensures
        k@ == manager_painted(*sh, *st, s@, entries_of(entries@)),
{
    let mut k = Scene::new();
    k.frame(sh, st);
    match &s.web_url {
        Some(url) => {
            draw_address(&mut k, sh, st, url);
            return k;
        },
        None => {},
    }
    match &s.web_pick {
        Some(p) => {
            draw_browsers(&mut k, sh, st, &p.0, &p.1);
            return k;
        },
        None => {},
    }
    match &s.adding {
        Some(path) => {
            draw_name(&mut k, sh, st, s, path);
            return k;
        },
        None => {},
    }
    draw_list(&mut k, sh, st, s, entries);
    k
}

} // verus!
