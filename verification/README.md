# rologlyphex

A macropad daemon for X11: a rotary knob cycles through layers ("decks") of glyphs, a
floating overlay shows the active layer and its button legends, and each button types
its glyph into the focused window (non-BMP glyphs into Java/AWT windows go through a
clipboard paste).

The decision-making core is a library verified with Verus (`src/`):

- `layers`: resolving `layers.toml` (aliases, navigation keys, groups, labels) into the
  layer ring, the overlay model and the typing table, with the reasons a config is refused.
- `xgrab`: the layer-ring state machine of the key-grab thread, when the keymap is
  remapped, how a glyph is delivered, which keycodes are grabbed.
- `xtype`: the typists' keycode bookkeeping (keysym cache with LRU eviction, scratch
  keycodes, the single-batch layer rewrite).
- `clipserve`: the clipboard owner's paste / serve / restore protocol.
- `awtfocus`: anchored glob matching of WM_CLASS and the focused-window decision.
- `monitor`, `overlay`: overlay placement, corner and monitor selection, dismiss timer,
  the GTK poll loop.
- `cli`, `settings`, `socket`, `server`, `ipc`, `xerror`: the command line, settings and
  paths, the control-socket protocol, keyd's IPC framing and X error names.
- `text`, `keymap`, `config`: shared helpers and the overlay data model.

`app/` is the program around it: GTK4 windows, Xlib/XTest calls, the control socket,
threads and file reading. `tests/` exercises the library.
