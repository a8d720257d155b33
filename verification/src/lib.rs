//! Decisions of a tiling window manager: layout, workspaces, key chords,
//! configuration, panels and the bar. The library computes; the program
//! around it watches the desktop and carries out what was decided.

#![allow(unused_imports)]

use vstd::prelude::*;

pub mod agenda;
pub mod animate;
pub mod bar;
pub mod border;
pub mod calendar;
pub mod config;
pub mod config_laws;
pub mod configfile;
pub mod control;
pub mod control_laws;
pub mod default_keys;
pub mod drag_laws;
pub mod entry_laws;
pub mod help;
pub mod hotkeys;
pub mod icons;
pub mod key_laws;
pub mod keys;
pub mod launch_laws;
pub mod launcher;
pub mod launcher_panel;
pub mod layout;
pub mod layout_laws;
pub mod lists;
pub mod logger;
pub mod manager;
pub mod meeting_laws;
pub mod monitor;
pub mod mouse;
pub mod numerals;
pub mod overview;
pub mod overview_laws;
pub mod paint_laws;
pub mod panel_laws;
pub mod panels;
pub mod ratio_laws;
pub mod row_laws;
pub mod scan;
pub mod scene;
pub mod search;
pub mod settings;
pub mod shell;
pub mod single;
pub mod strmap;
pub mod switcher;
pub mod text;
pub mod text_laws;
pub mod tray;
pub mod tweaks;
pub mod usage;
pub mod vk;
pub mod web_laws;
pub mod webapps;
pub mod window;
pub mod window_laws;
pub mod wm;

verus! {

} // verus!
