# rustfw_apps

A calculator and a notes manager for the desktop, with their logic written in
Verus and proved against its contracts.

- `src/` — the verified library
  - `text` — UTF-8/UTF-16 widths, white space, trimming and search over
    `Seq<char>` views of strings.
  - `calc` — the calculator state machine (`model`) and keypad styling
    (`widgets`). Floating-point arithmetic is supplied by the caller as an
    `Evaluation` of the current state.
  - `notes` — notes, their in-memory repository, the note service (validation,
    search), the list preview, the notes screen state machine and theme mode;
    `notes::laws` states what holds across calls.
  - `framework` — byte/UTF-16 offset arithmetic and the text-field editing
    state (selection, composition, grapheme-wise moves, line layout).
- `tests/` — tests of the library.
- `app/` — the gpui front ends: windows, widgets, painting, the floating-point
  calculator arithmetic and the JSON notes file.
