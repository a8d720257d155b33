# wtm

A tiling window manager for Windows 11. The decisions are a verified library;
the program around it watches the desktop and carries them out.

- `src/` is the library: layout, workspaces, rules, key chords, configuration,
  the bar, the panels and what they draw. Every function states what it
  returns or changes, and Verus proves it. `src/wm/` is the window manager
  itself. The guarantees that span its operations stand there: commands
  and events lose no window (`laws.rs`, `display_laws.rs`), windows get to
  where they are sent (`arrival_laws.rs`), and what is hidden is written down
  (`journal_laws.rs`).
- `app/` is the program: Win32 calls, files, dialogs and the message loop. It
  hands the library what it sees as plain values (`Desktop`, `Facts`,
  `MonitorInfo`), and gets back actions on windows and tasks.
- `tests/` runs the library on concrete values.

Drawing is data: a panel is painted into a `Scene`, a list of marks, so that
what is drawn can be stated and proved. For the bar and the list of found
programs it is proved that a click hits what was drawn there.
Single-precision numbers of the configuration are kept as bit patterns, with
their arithmetic in `src/single.rs`.
