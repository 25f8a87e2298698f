# vpower-shell

A terminal multiplexer that splits one terminal window into a 2x2, 3x3 or 4x4
grid of shells (Alt+G cycles the layout, Alt+Arrow or Ctrl+Arrow moves the
focus, Ctrl+V pastes the clipboard into the focused shell, Ctrl+Q quits).

- `src/` is the verified library (Verus): grid geometry, key mapping, the
  per-pane screen buffer fed through the `vte` escape-sequence parser, the
  multiplexer state machine (`App::step`: from an event to the next state and
  the outside work to do), and the glyphs that make up a frame.
- `app/` is the program around it: terminal setup, the async event loop that
  performs what `App::step` asks for, PTY processes, the clipboard, and
  painting glyphs with ratatui.
- `tests/` exercises the library on concrete inputs.
