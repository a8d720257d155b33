//! User configuration. Every setting has a default, so the file is optional.

use crate::keys::{action_table, actions, rows};
use crate::numerals::{digits_value, lemma_hex_below, read_plain};
use crate::single::{Ratio, R_0_50};
use crate::strmap::{pairs_map, StrMap};
use crate::text::{chars_of, lowercase, owned, slice_string, texts, to_lowercase};
use vstd::arithmetic::power::pow;
use vstd::prelude::*;

verus! {

/// One entry of the application launcher.
#[derive(Debug)]
pub struct LauncherEntry {
    /// Display name.
    pub name: String,
    /// Program, script, link or document. %ENV_VARS% are expanded.
    pub command: String,
    /// Command-line arguments, or nothing.
    pub args: String,
    /// Working directory, or nothing.
    pub dir: String,
    /// Global shortcut such as "win+enter", or nothing.
    pub key: String,
    /// Group name, or nothing; groups are shown under headers.
    pub group: String,
}

/// The texts of a launcher entry.
pub struct EntryView {
    pub name: Seq<char>,
    pub command: Seq<char>,
    pub args: Seq<char>,
    pub dir: Seq<char>,
    pub key: Seq<char>,
    pub group: Seq<char>,
}

impl View for LauncherEntry {
    type V = EntryView;

    open spec fn view(&self) -> EntryView {
        EntryView {
            name: self.name@,
            command: self.command@,
            args: self.args@,
            dir: self.dir@,
            key: self.key@,
            group: self.group@,
        }
    }
}

impl LauncherEntry {
    /// The same entry once more.
    pub fn duplicate(&self) -> (r: LauncherEntry)
        ensures
            r@ == self@,
    {
        LauncherEntry {
            name: self.name.clone(),
            command: self.command.clone(),
            args: self.args.clone(),
            dir: self.dir.clone(),
            key: self.key.clone(),
            group: self.group.clone(),
        }
    }
}

/// All settings.
pub struct Config {
    /// Gap between the edge of the work area and windows, in pixels.
    pub outer_gap: i32,
    /// Gap between tiled windows, in pixels.
    pub inner_gap: i32,
    /// Share of space that the earlier window keeps at each split.
    pub split_ratio: Ratio,
    /// Border color of the focused window, "#RRGGBB".
    pub active_border_color: String,
    /// Thickness of the focus frame in pixels; 0 turns it off.
    pub border_thickness: i32,
    /// Corner radius of the focus frame; 0 gives square corners.
    pub border_corner_radius: i32,
    /// Number of workspaces per monitor, 1 to 24.
    pub workspaces: usize,
    /// Names shown on the bar, the first for workspace 1.
    pub workspace_names: Vec<String>,
    /// Pinned apps: where their new windows open, counted from 1.
    pub app_rules: StrMap<usize>,
    /// Show the status bar.
    pub bar_enabled: bool,
    /// Bar height in logical pixels.
    pub bar_height: i32,
    /// Bar background, "#RRGGBB".
    pub bar_background: String,
    /// Bar text, "#RRGGBB".
    pub bar_foreground: String,
    /// Bar opacity.
    pub bar_alpha: u8,
    /// Duration of window moves in milliseconds; 0 moves at once.
    pub animation_ms: u32,
    /// After moving a window to another workspace, switch there too.
    pub follow_moved_window: bool,
    /// Hovering over a managed window activates it.
    pub focus_follows_mouse: bool,
    /// A lone window fills the whole work area, without gaps or frame.
    pub smart_gaps: bool,
    /// The chord of each action.
    pub keybindings: StrMap<String>,
    /// The apps of the launcher, in order.
    pub launcher: Vec<LauncherEntry>,
    /// Window classes that float.
    pub float_classes: Vec<String>,
    /// Parts of titles that float.
    pub float_titles: Vec<String>,
    /// Window classes that are never managed.
    pub ignore_classes: Vec<String>,
    /// Programs that are never managed.
    pub ignore_exes: Vec<String>,
    /// Parts of titles that are never managed.
    pub ignore_titles: Vec<String>,
}

impl Config {
    /// The two tables are in order.
    pub open spec fn wf(&self) -> bool {
        self.app_rules.wf() && self.keybindings.wf()
    }
}

/// The chord of each action when nothing is configured.
pub open spec fn default_bindings() -> Map<Seq<char>, Seq<char>> {
    pairs_map(action_table().map_values(|r: (Seq<char>, Seq<char>, Seq<char>)| (r.0, r.1)))
}

/// The chord of each action when nothing is configured.
pub fn default_keybindings() -> (r: StrMap<String>)
    ensures
        r.wf(),
        r@ == default_bindings(),
{
    let table = actions();
    let mut r: StrMap<String> = StrMap::new();
    let ghost all = action_table().map_values(|r: (Seq<char>, Seq<char>, Seq<char>)| (r.0, r.1));
    let mut i: usize = 0;
    proof {
        assert(all.take(0) =~= Seq::empty());
    }
    while i < table.len()
        invariant
            i <= table.len(),
            rows(table@) == action_table(),
            all == action_table().map_values(|r: (Seq<char>, Seq<char>, Seq<char>)| (r.0, r.1)),
            r.wf(),
            r@ == pairs_map(all.take(i as int)),
        decreases table.len() - i,
    {
        proof {
            assert(all.take(i + 1).drop_last() =~= all.take(i as int));
            assert(rows(table@)[i as int] == action_table()[i as int]);
            assert(all.take(i + 1).last() == (table@[i as int].0@, table@[i as int].1@));
        }
        r.insert(owned(table[i].0), owned(table[i].1));
        i = i + 1;
    }
    proof {
        assert(all.take(i as int) =~= all);
    }
    r
}

/// The texts of a list of string literals.
pub open spec fn literals(v: Seq<&'static str>) -> Seq<Seq<char>> {
    v.map_values(|s: &'static str| s@)
}

fn strings(v: Vec<&'static str>) -> (r: Vec<String>)
    ensures
        texts(r@) == literals(v@),
{
    let mut r: Vec<String> = Vec::new();
    let mut i: usize = 0;
    while i < v.len()
        invariant
            i <= v.len(),
            texts(r@) == literals(v@).take(i as int),
        decreases v.len() - i,
    {
        let ghost was = texts(r@);
        r.push(owned(v[i]));
        proof {
            assert(texts(r@) =~= was.push(v@[i as int]@));
            assert(literals(v@).take(i + 1) =~= literals(v@).take(i as int).push(v@[i as int]@));
        }
        i = i + 1;
    }
    proof {
        assert(literals(v@).take(i as int) =~= literals(v@));
    }
    r
}

pub open spec fn default_float_classes() -> Seq<Seq<char>> {
    seq!["#32770"@, "OperationStatusWindow"@]
}

pub open spec fn default_ignore_classes() -> Seq<Seq<char>> {
    seq![
        "Progman"@,
        "WorkerW"@,
        "Shell_TrayWnd"@,
        "Shell_SecondaryTrayWnd"@,
        "Windows.UI.Core.CoreWindow"@,
        "XamlExplorerHostIslandWindow"@,
        "Xaml_WindowedPopupClass"@,
        "TaskListThumbnailWnd"@,
        "TopLevelWindowForOverflowXamlIsland"@,
    ]
}

pub open spec fn default_ignore_exes() -> Seq<Seq<char>> {
    seq![
        "SearchHost.exe"@,
        "StartMenuExperienceHost.exe"@,
        "ShellExperienceHost.exe"@,
        "TextInputHost.exe"@,
        "LockApp.exe"@,
    ]
}

/// `c` holds the default of every setting.
pub open spec fn is_default(c: Config) -> bool {
    &&& c.wf()
    &&& c.outer_gap == 10
    &&& c.inner_gap == 10
    &&& c.split_ratio.bits == R_0_50
    &&& c.active_border_color@ == "#7aa2f7"@
    &&& c.border_thickness == 3
    &&& c.border_corner_radius == 8
    &&& c.workspaces == 9
    &&& c.workspace_names@.len() == 0
    &&& c.app_rules@ == Map::<Seq<char>, usize>::empty()
    &&& c.bar_enabled
    &&& c.bar_height == 32
    &&& c.bar_background@ == "#181825"@
    &&& c.bar_foreground@ == "#cdd6f4"@
    &&& c.bar_alpha == 235
    &&& c.animation_ms == 150
    &&& c.follow_moved_window
    &&& c.focus_follows_mouse
    &&& c.smart_gaps
    &&& c.keybindings@ == default_bindings()
    &&& c.launcher@.len() == 0
    &&& texts(c.float_classes@) == default_float_classes()
    &&& c.float_titles@.len() == 0
    &&& texts(c.ignore_classes@) == default_ignore_classes()
    &&& texts(c.ignore_exes@) == default_ignore_exes()
    &&& c.ignore_titles@.len() == 0
}

impl Default for Config {
    fn default() -> (r: Config)
        ensures
            is_default(r),
    {
        let floats: Vec<&'static str> = vec!["#32770", "OperationStatusWindow"];
        let classes: Vec<&'static str> = vec![
            "Progman",
            "WorkerW",
            "Shell_TrayWnd",
            "Shell_SecondaryTrayWnd",
            "Windows.UI.Core.CoreWindow",
            "XamlExplorerHostIslandWindow",
            "Xaml_WindowedPopupClass",
            "TaskListThumbnailWnd",
            "TopLevelWindowForOverflowXamlIsland",
        ];
        let exes: Vec<&'static str> = vec![
            "SearchHost.exe",
            "StartMenuExperienceHost.exe",
            "ShellExperienceHost.exe",
            "TextInputHost.exe",
            "LockApp.exe",
        ];
        proof {
            assert(literals(floats@) =~= default_float_classes());
            assert(literals(classes@) =~= default_ignore_classes());
            assert(literals(exes@) =~= default_ignore_exes());
        }
        Config {
            outer_gap: 10,
            inner_gap: 10,
            split_ratio: Ratio { bits: R_0_50 },
            active_border_color: owned("#7aa2f7"),
            border_thickness: 3,
            border_corner_radius: 8,
            workspaces: 9,
            workspace_names: Vec::new(),
            app_rules: StrMap::new(),
            bar_enabled: true,
            bar_height: 32,
            bar_background: owned("#181825"),
            bar_foreground: owned("#cdd6f4"),
            bar_alpha: 235,
            animation_ms: 150,
            follow_moved_window: true,
            focus_follows_mouse: true,
            smart_gaps: true,
            keybindings: default_keybindings(),
            launcher: Vec::new(),
            float_classes: strings(floats),
            float_titles: Vec::new(),
            ignore_classes: strings(classes),
            ignore_exes: strings(exes),
            ignore_titles: Vec::new(),
        }
    }
}

// ------------------------------------------------------------------ loading

/// Bindings with an action renamed; a binding of the new name stays.
pub open spec fn renamed(
    b: Map<Seq<char>, Seq<char>>,
    from: Seq<char>,
    to: Seq<char>,
) -> Map<Seq<char>, Seq<char>> {
    if b.contains_key(from) {
        let rest = b.remove(from);
        if rest.contains_key(to) {
            rest
        } else {
            rest.insert(to, b[from])
        }
    } else {
        b
    }
}

/// Bindings with the action names of today.
pub open spec fn migrated(b: Map<Seq<char>, Seq<char>>) -> Map<Seq<char>, Seq<char>> {
    renamed(renamed(b, "shrink_ratio"@, "shrink_window"@), "grow_ratio"@, "grow_window"@)
}

/// Bindings as configured, with the defaults for the rest.
pub open spec fn merged(b: Map<Seq<char>, Seq<char>>) -> Map<Seq<char>, Seq<char>> {
    default_bindings().union_prefer_right(migrated(b))
}

/// The workspace count held between 1 and 24.
pub open spec fn workspace_count(n: usize) -> usize {
    if n < 1 {
        1
    } else if n > 24 {
        24
    } else {
        n
    }
}

/// Rules with lower-case names; of two that then agree the later one wins.
pub open spec fn lowered_rules(p: Seq<(Seq<char>, usize)>) -> Map<Seq<char>, usize> {
    pairs_map(p.map_values(|e: (Seq<char>, usize)| (lowercase(e.0), e.1)))
}

fn rename(b: &mut StrMap<String>, from: &str, to: &str)
    requires
        old(b).wf(),
    ensures
        final(b).wf(),
        final(b)@ == renamed(old(b)@, from@, to@),
{
    if let Some(chord) = b.remove(from) {
        if b.get(to).is_none() {
            b.insert(owned(to), chord);
        }
    }
}

/// Makes a configuration as it was read fit for use: renamed actions are
/// migrated, missing bindings filled in, the workspace count held to its
/// range, rule names lowered.
pub fn settle(cfg: Config) -> (r: Config)
    requires
        cfg.wf(),
    ensures
        r.wf(),
        r.keybindings@ == merged(cfg.keybindings@),
        r.workspaces == workspace_count(cfg.workspaces),
        r.app_rules@ == lowered_rules(cfg.app_rules.pairs()),
        r == (Config {
            keybindings: r.keybindings,
            workspaces: r.workspaces,
            app_rules: r.app_rules,
            ..cfg
        }),
{
    let mut cfg = cfg;
    let ghost given = cfg;
    let mut user = StrMap::new();
    std::mem::swap(&mut user, &mut cfg.keybindings);
    rename(&mut user, "shrink_ratio", "shrink_window");
    rename(&mut user, "grow_ratio", "grow_window");
    let ghost b = user@;
    let ghost p = user.pairs();
    let mut all = default_keybindings();
    let mut i: usize = 0;
    proof {
        assert(p.take(0) =~= Seq::empty());
        assert(default_bindings().union_prefer_right(pairs_map(p.take(0))) =~= default_bindings());
    }
    while i < user.entries.len()
        invariant
            i <= user.entries.len(),
            p == user.pairs(),
            all.wf(),
            all@ == default_bindings().union_prefer_right(pairs_map(p.take(i as int))),
        decreases user.entries.len() - i,
    {
        let ghost was = all@;
        all.insert(user.entries[i].0.clone(), user.entries[i].1.clone());
        proof {
            assert(p.take(i + 1).drop_last() =~= p.take(i as int));
            assert(p.take(i + 1).last() == (user.entries@[i as int].0@, user.entries@[i as int].1@));
            assert(all@ =~= default_bindings().union_prefer_right(pairs_map(p.take(i + 1))));
        }
        i = i + 1;
    }
    proof {
        assert(p.take(i as int) =~= p);
    }
    cfg.keybindings = all;
    if cfg.workspaces < 1 {
        cfg.workspaces = 1;
    } else if cfg.workspaces > 24 {
        cfg.workspaces = 24;
    }
    let mut rules: StrMap<usize> = StrMap::new();
    let ghost q = cfg.app_rules.pairs();
    let ghost low = q.map_values(|e: (Seq<char>, usize)| (lowercase(e.0), e.1));
    let mut j: usize = 0;
    proof {
        assert(low.take(0) =~= Seq::empty());
    }
    while j < cfg.app_rules.entries.len()
        invariant
            j <= cfg.app_rules.entries.len(),
            q == cfg.app_rules.pairs(),
            low == q.map_values(|e: (Seq<char>, usize)| (lowercase(e.0), e.1)),
            rules.wf(),
            rules@ == pairs_map(low.take(j as int)),
        decreases cfg.app_rules.entries.len() - j,
    {
        rules.insert(to_lowercase(cfg.app_rules.entries[j].0.as_str()), cfg.app_rules.entries[j].1);
        proof {
            assert(low.take(j + 1).drop_last() =~= low.take(j as int));
            assert(q[j as int] == (cfg.app_rules.entries@[j as int].0@, cfg.app_rules.entries@[j as int].1));
            assert(low.take(j + 1).last() == low[j as int]);
        }
        j = j + 1;
    }
    proof {
        assert(low.take(j as int) =~= low);
    }
    cfg.app_rules = rules;
    cfg
}

/// The configuration to start with: what was read, or the defaults.
pub fn load(read: Option<Config>) -> (r: Config)
    requires
        read matches Some(c) ==> c.wf(),
    ensures
        r.wf(),
        match read {
            Some(c) => r == c,
            None => is_default(r),
        },
{
    match read {
        Some(c) => c,
        None => Config::default(),
    }
}

// ------------------------------------------------------------------- colors

/// `s` without the `#` it begins with.
pub open spec fn without_hashes(s: Seq<char>) -> Seq<char>
    decreases s.len(),
{
    if s.len() > 0 && s[0] == '#' {
        without_hashes(s.drop_first())
    } else {
        s
    }
}

/// Red and blue exchanged.
pub open spec fn swapped_channels(rgb: int) -> int {
    (rgb % 256) * 65536 + (rgb / 256) % 256 * 256 + (rgb / 65536) % 256
}

/// The color that a text "#RRGGBB" names, blue in the high byte; a blue
/// accent when it names none.
pub open spec fn colorref(hex: Seq<char>) -> int {
    let s = without_hashes(hex);
    match digits_value(s, 16) {
        Some(rgb) => if s.len() == 6 {
            swapped_channels(rgb)
        } else {
            0x00F7A27A
        },
        None => 0x00F7A27A,
    }
}

/// "#RRGGBB" as a Win32 COLORREF (0x00BBGGRR); a blue accent when malformed.
pub fn parse_colorref(hex: &str) -> (r: u32)
    ensures
        r == colorref(hex@),
{
    let v = chars_of(hex);
    let mut lo: usize = 0;
    proof {
        assert(v@.skip(0) =~= v@);
    }
    while lo < v.len() && v[lo] == '#'
        invariant
            lo <= v.len(),
            without_hashes(v@) == without_hashes(v@.skip(lo as int)),
        decreases v.len() - lo,
    {
        proof {
            assert(v@.skip(lo as int).drop_first() =~= v@.skip(lo + 1));
        }
        lo = lo + 1;
    }
    let s = slice_string(&v, lo, v.len());
    proof {
        assert(s@ =~= v@.skip(lo as int));
        assert(without_hashes(s@) == s@);
    }
    if v.len() - lo == 6 {
        proof {
            lemma_hex_below(s@);
            assert(pow(16, 6) == 0x100_0000) by {
                reveal_with_fuel(pow, 7);
            }
        }
        if let Some(rgb) = read_plain(s.as_str(), 16, u32::MAX as u64) {
            let rgb: u32 = rgb as u32;
            return (rgb % 256) * 65536 + (rgb / 256) % 256 * 256 + (rgb / 65536) % 256;
        }
    }
    0x00F7A27A
}

// -------------------------------------------------------------------- laws

/// Every action stays bound, whatever was configured, and a configured chord
/// of an action's present name is kept.
pub proof fn law_every_action_stays_bound(b: Map<Seq<char>, Seq<char>>, action: Seq<char>)
    ensures
        default_bindings().contains_key(action) ==> merged(b).contains_key(action),
        b.contains_key(action) && action != "shrink_ratio"@ && action != "grow_ratio"@
            ==> merged(b).contains_key(action) && merged(b)[action] == b[action],
{
    reveal_strlit("shrink_ratio");
    reveal_strlit("grow_ratio");
    reveal_strlit("shrink_window");
    reveal_strlit("grow_window");
}

/// Exchanging red and blue twice changes nothing.
pub proof fn law_channels_swap_back(rgb: int)
    requires
        0 <= rgb < 0x100_0000,
    ensures
        swapped_channels(swapped_channels(rgb)) == rgb,
{
    let (b, g, r) = (rgb % 256, (rgb / 256) % 256, (rgb / 65536) % 256);
    let x = b * 65536 + g * 256 + r;
    assert(x % 256 == r);
    assert(x / 256 == b * 256 + g);
    assert((x / 256) % 256 == g);
    assert(x / 65536 == b);
    assert(rgb == r * 65536 + g * 256 + b);
}

} // verus!
