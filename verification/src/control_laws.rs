//! What commands, clicks and changes of the configuration lead to.

use crate::bar::configured_style;
use crate::config::{colorref, workspace_count, Config, LauncherEntry};
use crate::panels::{counted, entries_changed, starting, ChangeView, Panel, Panels, TaskView};
use crate::scene::BarStyle;
use crate::shell::{reconfigured, same_settings, Shell};
use crate::strmap::StrMap;
use crate::text::texts;
use crate::usage::key_of;
use crate::window::Window;
use crate::wm::displays::lemma_count_changed;
use crate::wm::state::{settings_of, Settings, WmView, World};
use crate::wm::tiling::lemma_retiled_up_to_keeps;
use crate::wm::Command;
use vstd::prelude::*;

verus! {

// -------------------------------------------------------------------- tasks

proof fn lemma_either(a: Seq<TaskView>, b: Seq<TaskView>, t: TaskView)
    ensures
        (a + b).contains(t) <==> a.contains(t) || b.contains(t),
{
    let c = a + b;
    if a.contains(t) {
        let i = choose|i: int| 0 <= i < a.len() && a[i] == t;
        assert(c[i] == t);
    }
    if b.contains(t) {
        let i = choose|i: int| 0 <= i < b.len() && b[i] == t;
        assert(c[a.len() + i] == t);
    }
    if c.contains(t) {
        let i = choose|i: int| 0 <= i < c.len() && c[i] == t;
        if i < a.len() {
            assert(a[i] == t);
        } else {
            assert(b[i - a.len()] == t);
        }
    }
}

proof fn lemma_one(u: TaskView, t: TaskView)
    ensures
        seq![u].contains(t) <==> u == t,
{
    assert(seq![u][0] == u);
}

proof fn lemma_command_tasks(s: World, c: Command, t: TaskView)
    ensures
        Shell::command_tasks(s, c).contains(t) <==> {
            ||| t == TaskView::RedrawBars
            ||| t == TaskView::Frame
            ||| c == Command::Exit && t == TaskView::Quit
            ||| c == Command::PinApp && !s.wm.paused && (s.pin_change() matches Some((key, n))
                && t == TaskView::Save(ChangeView::Rule(key, n)))
        },
{
    let rule = if c == Command::PinApp && !s.wm.paused {
        match s.pin_change() {
            Some((key, n)) => seq![TaskView::Save(ChangeView::Rule(key, n))],
            None => Seq::empty(),
        }
    } else {
        Seq::empty()
    };
    let end = if c == Command::Exit {
        seq![TaskView::Quit]
    } else {
        Seq::empty()
    };
    let rest = seq![TaskView::RedrawBars, TaskView::Frame];
    assert(rest.contains(t) <==> t == TaskView::RedrawBars || t == TaskView::Frame) by {
        assert(rest[0] == TaskView::RedrawBars);
        assert(rest[1] == TaskView::Frame);
    }
    lemma_one(TaskView::Quit, t);
    if let Some((key, n)) = s.pin_change() {
        lemma_one(TaskView::Save(ChangeView::Rule(key, n)), t);
    }
    lemma_either(rule + end, rest, t);
    lemma_either(rule, end, t);
}

/// A command ends the program exactly if it is the one to exit.
pub proof fn law_only_exit_quits(s: World, c: Command)
    ensures
        Shell::command_tasks(s, c).contains(TaskView::Quit) <==> c == Command::Exit,
{
    lemma_command_tasks(s, c, TaskView::Quit);
}

/// A rule is written to the file exactly if the focused app was pinned or
/// unpinned, and it is that one.
pub proof fn law_pinned_app_is_saved(s: World, c: Command, key: Seq<char>, n: Option<usize>)
    ensures
        Shell::command_tasks(s, c).contains(TaskView::Save(ChangeView::Rule(key, n))) <==> c
            == Command::PinApp && !s.wm.paused && s.pin_change() == Some((key, n)),
{
    lemma_command_tasks(s, c, TaskView::Save(ChangeView::Rule(key, n)));
}

/// After every command the bars and the frame are drawn anew.
pub proof fn law_commands_are_shown(s: World, c: Command)
    ensures
        Shell::command_tasks(s, c).contains(TaskView::RedrawBars),
        Shell::command_tasks(s, c).contains(TaskView::Frame),
{
    lemma_command_tasks(s, c, TaskView::RedrawBars);
    lemma_command_tasks(s, c, TaskView::Frame);
}

/// A new configuration closes the overview where it is open, asks for the
/// meetings from its own calendar, and has the bars made anew.
pub proof fn law_reload_starts_over(s: Shell, source: Seq<char>, minutes: u32)
    ensures
        ({
            let r = s.reload_tasks(source, minutes);
            &&& r.contains(TaskView::Close(Panel::Overview)) <==> s.overview.shown
            &&& forall|a: Seq<char>, m: u32|
                #[trigger] r.contains(TaskView::Meetings(a, m)) <==> a == source && m == minutes
            &&& r.last() == TaskView::Rebuild(true)
        }),
{
    let r = s.reload_tasks(source, minutes);
    let n = r.len() as int;
    assert(r[n - 2] == TaskView::Meetings(source, minutes));
    if s.overview.shown {
        assert(r[0] == TaskView::Close(Panel::Overview));
    }
}

/// Choosing in the overview closes it, and gives the focus to exactly the
/// window that was chosen.
pub proof fn law_choice_gets_the_focus(s: Shell, chosen: Option<Window>, w: Window)
    ensures
        s.jump_tasks(chosen).contains(TaskView::Focus(w)) <==> chosen == Some(w),
        s.jump_tasks(chosen).contains(TaskView::Close(Panel::Overview)) <==> s.overview.shown,
{
    let a = s.closing_overview();
    let b = match chosen {
        Some(v) => seq![TaskView::Focus(v)],
        None => Seq::empty(),
    };
    let rest = seq![TaskView::RedrawBars, TaskView::Frame];
    let f = TaskView::Focus(w);
    let c = TaskView::Close(Panel::Overview);
    lemma_one(c, f);
    lemma_one(c, c);
    if let Some(v) = chosen {
        lemma_one(TaskView::Focus(v), f);
        lemma_one(TaskView::Focus(v), c);
    }
    lemma_either(a + b, rest, f);
    lemma_either(a, b, f);
    lemma_either(a + b, rest, c);
    lemma_either(a, b, c);
}

/// A new accent color is drawn, is written to the file, and changes nothing of
/// the window manager but the color.
pub proof fn law_accent_is_set_and_saved(s: World, hex: Seq<char>)
    ensures
        Shell::color_tasks(hex).contains(TaskView::Save(ChangeView::Color(hex))),
        Shell::color_tasks(hex).contains(TaskView::FrameColor(colorref(hex) as u32)),
        Shell::accented(s, hex).wm.cfg.accent == hex,
        Shell::accented(s, hex).wm.border_color == colorref(hex) as u32,
        Shell::accented(s, hex).wm.cfg == (Settings { accent: hex, ..s.wm.cfg }),
        Shell::accented(s, hex).wm.monitors == s.wm.monitors,
{
    let r = Shell::color_tasks(hex);
    assert(r[0] == TaskView::FrameColor(colorref(hex) as u32));
    assert(r[2] == TaskView::Save(ChangeView::Color(hex)));
}

/// Entries that changed are written to the file, and their shortcuts asked for.
pub proof fn law_changed_entries_are_saved()
    ensures
        entries_changed().contains(TaskView::Save(ChangeView::Launcher)),
        entries_changed().contains(TaskView::Hotkeys),
        forall|p: Panel|
            p is Scan || p is Launcher || p is Manager ==> #[trigger] entries_changed().contains(
                TaskView::Redraw(p),
            ),
{
    let r = entries_changed();
    assert(r[0] == TaskView::Save(ChangeView::Launcher));
    assert(r[1] == TaskView::Hotkeys);
    assert(r[2] == TaskView::Redraw(Panel::Scan));
    assert(r[3] == TaskView::Redraw(Panel::Launcher));
    assert(r[4] == TaskView::Redraw(Panel::Manager));
}

/// Starting an entry runs its own command and counts it once more, as of now;
/// no other entry is run, and no other is counted.
pub proof fn law_started_entry_is_run_and_counted(
    usage: Map<Seq<char>, (u32, u64)>,
    entries: Seq<LauncherEntry>,
    now: u64,
    i: int,
    other: Seq<char>,
)
    requires
        0 <= i < entries.len(),
    ensures
        ({
            let e = entries[i]@;
            let after = counted(usage, entries, now, i);
            let k = key_of(e);
            &&& forall|c: Seq<char>, a: Seq<char>, d: Seq<char>|
                #[trigger] starting(entries, i).contains(TaskView::Run(c, a, d)) <==> c
                    == e.command && a == e.args && d == e.dir
            &&& starting(entries, i).contains(TaskView::SaveUsage)
            &&& after.contains_key(k) && after[k].1 == now
            &&& !usage.contains_key(k) ==> after[k].0 == 1
            &&& usage.contains_key(k) && usage[k].0 < u32::MAX ==> after[k].0 == usage[k].0 + 1
            &&& other != k ==> (after.contains_key(other) <==> usage.contains_key(other))
            &&& other != k && usage.contains_key(other) ==> after[other] == usage[other]
        }),
{
    let e = entries[i]@;
    let r = starting(entries, i);
    assert(r[0] == TaskView::SaveUsage);
    assert(r[1] == TaskView::Run(e.command, e.args, e.dir));
}

/// A panel keeps its place on the screen when the focus leaves it only while a
/// dialog of its own is open.
pub proof fn law_only_dialogs_keep_panels(a: Panels, p: Panel)
    ensures
        a.stays(p) ==> p is Manager || p is Tweaks,
        a.stays(Panel::Tweaks) <==> a.color_dialog,
        a.stays(Panel::Manager) ==> a.manager is Some,
        a.manager matches Some(m) ==> (a.stays(Panel::Manager) <==> m@.dialog_open),
{
}

// ----------------------------------------------------------------- settings

/// Each setting that the window manager reads is the one of that name: one that
/// changes in the configuration changes there, and no other does.
pub proof fn law_settings_are_read(
    c: Config,
    gap: i32,
    color: String,
    rules: StrMap<usize>,
    ms: u32,
    flag: bool,
    list: Vec<String>,
)
    ensures
        ({
            let s = settings_of(c);
            &&& settings_of(Config { outer_gap: gap, ..c }) == (Settings { outer_gap: gap, ..s })
            &&& settings_of(Config { inner_gap: gap, ..c }) == (Settings { inner_gap: gap, ..s })
            &&& settings_of(Config { active_border_color: color, ..c }) == (Settings {
                accent: color@,
                ..s
            })
            &&& settings_of(Config { app_rules: rules, ..c }) == (Settings {
                app_rules: rules@,
                ..s
            })
            &&& settings_of(Config { animation_ms: ms, ..c }) == (Settings {
                animation_ms: ms,
                ..s
            })
            &&& settings_of(Config { follow_moved_window: flag, ..c }) == (Settings {
                follow_moved_window: flag,
                ..s
            })
            &&& settings_of(Config { smart_gaps: flag, ..c }) == (Settings {
                smart_gaps: flag,
                ..s
            })
            &&& settings_of(Config { float_classes: list, ..c }).rules.float_classes == texts(
                list@,
            )
            &&& settings_of(Config { float_titles: list, ..c }).rules.float_titles == texts(list@)
            &&& settings_of(Config { ignore_classes: list, ..c }).rules.ignore_classes == texts(
                list@,
            )
            &&& settings_of(Config { ignore_exes: list, ..c }).rules.ignore_exes == texts(list@)
            &&& settings_of(Config { ignore_titles: list, ..c }).rules.ignore_titles == texts(
                list@,
            )
            &&& settings_of(Config { workspace_names: list, ..c }).names == texts(list@)
        }),
{
}

/// The bar takes its height, its colors and its opacity from the settings of
/// those names.
pub proof fn law_style_is_read(c: Config, height: i32, color: String, alpha: u8)
    ensures
        ({
            let s = configured_style(c);
            &&& configured_style(Config { bar_height: height, ..c }) == (BarStyle { height, ..s })
            &&& configured_style(Config { bar_background: color, ..c }) == (BarStyle {
                bg: colorref(color@) as u32,
                ..s
            })
            &&& configured_style(Config { bar_foreground: color, ..c }) == (BarStyle {
                fg: colorref(color@) as u32,
                ..s
            })
            &&& configured_style(Config { active_border_color: color, ..c }) == (BarStyle {
                accent: colorref(color@) as u32,
                ..s
            })
            &&& configured_style(Config { bar_alpha: alpha, ..c }) == (BarStyle { alpha, ..s })
        }),
{
}

/// A configuration is passed over as the same only where nothing that is read
/// from it differs; a ratio may differ in the sign of a zero.
pub proof fn law_same_settings_act_the_same(a: Config, b: Config)
    requires
        same_settings(a, b),
        a.wf(),
        b.wf(),
    ensures
        settings_of(a) == (Settings { split_ratio: a.split_ratio, ..settings_of(b) }),
        configured_style(a) == configured_style(b),
        a.keybindings@ == b.keybindings@,
        a.border_thickness == b.border_thickness,
        a.border_corner_radius == b.border_corner_radius,
        a.bar_enabled == b.bar_enabled,
        a.focus_follows_mouse == b.focus_follows_mouse,
{
}

/// A new configuration is what the window manager goes by from then on, with
/// the number of workspaces held to its limits.
pub proof fn law_new_settings_hold(s: World, cfg: Config)
    requires
        s.wm.wf(),
        !s.wm.paused,
    ensures
        reconfigured(s, cfg).wm.cfg == (Settings {
            workspaces: workspace_count(cfg.workspaces),
            ..settings_of(cfg)
        }),
        reconfigured(s, cfg).wm.monitors.len() == s.wm.monitors.len(),
{
    let a = World {
        wm: WmView {
            cfg: Settings { workspaces: s.wm.cfg.workspaces, ..settings_of(cfg) },
            border_color: colorref(cfg.active_border_color@) as u32,
            ..s.wm
        },
        desk: s.desk,
    };
    assert(a.wm.wf());
    lemma_count_changed(a, cfg.workspaces);
    let b = a.set_workspace_count(cfg.workspaces);
    lemma_retiled_up_to_keeps(b, b.wm.monitors.len() as int);
}

} // verus!
