# enzato

A terminal text editor whose core is verified with Verus.

- `src/` is the verified library:
  - `buffer.rs`: a gap buffer of characters (insert, delete, line and column
    arithmetic, search), specified over the text it holds (`Seq<char>`);
  - `text.rs`: spec functions for lines, line breaks and occurrences, with lemmas
    and laws (insert/delete round trips, line/column round trip);
  - `history.rs`: undo and redo stacks and their laws;
  - `model.rs`: the editor as a state machine (`EngineView::step`), its invariant,
    and the laws that undo reverses an edit and that undo and redo cancel out;
  - `engine.rs`: the editing session, whose `handle_key` follows `step` exactly and
    returns what the program around it must do (save, copy, paste, quit);
  - `viewer.rs`: the window's scroll offsets, which keep the cursor in view;
  - `strings.rs`: the few `String`/`char` operations taken from std.
- `app/` is the terminal program: raw mode, the key loop, files, the clipboard
  and drawing, built on crossterm.
- `tests/` runs the library on concrete inputs.
