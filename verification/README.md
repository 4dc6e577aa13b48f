# osdockx

The rules of the OSDockX dock for X11 desktops, written in Verus and proved
against their contracts.

- `src/` is the verified library: the configuration and its normalization and
  menu edits, desktop-entry matching, the dock model (assembly from pinned
  launchers, windows and applets, sections, saved item order, moves, presence
  changes), icon lookup keys and search directories, theme-pack identity and
  assets, the byte budget of the rendered-surface caches, X11 property
  decoding, monitor choice, dock geometry and struts, performance counters and
  the performance probe's decisions.
- `tests/` runs the library on concrete values.
- `app/` is the program around it: configuration files, X11 connections,
  environment and file-system lookups, and the performance probe's loop.

Drawing (cairo, GL) and the GTK user interface work in floating point and are
not part of the library.
