# slidetrace

A presentation workbench whose main axis is speaking time: script, slides,
handwriting and audio are bound to one timeline, so that "what I say"
drives "what appears", and clicking anything jumps back to what was said
at that moment.

## Layout

- `src/` — the verified library (Verus):
  - `model/` — projects, pages, elements, strokes, script, rehearsals,
    assets; id allocation, page management, script prompts and keywords,
    slugs, date formatting, colour parsing.
  - `timeline.rs` — event ordering, `state_at(t)` (the complete
    presentation at a moment), hit tests and space-to-time lookups.
  - `storage.rs` — the store's decisions: paths, slugs, schema check,
    ordering of rehearsal summaries, normalisation on load and save,
    names for imported images.
  - `shell.rs` — the decisions of the desktop shell: key commands, live
    recordings, automatic script anchors, finishing a recording, clicks
    during review, canvas rows.
  - `session.rs` — the shell's working state and its steps: switching
    between the four modes, starting and stopping a recording, changing
    page, editing and deleting elements, double clicks.
  - `cli.rs` — command line options and the start-up steps (which
    project gets opened, and the fallbacks when that fails).
  - `demo.rs`, `camera.rs`, `sort.rs`, `text.rs`, `scalar.rs`,
    `visibility.rs` — demo data, helpers.
- `app/` — the program around it: JSON files (serde), disk access, WAV and
  PNG writing, floating-point geometry and audio arithmetic.
- `tests/` — tests of the library.

Numbers (times, coordinates) are carried as the bit patterns of IEEE-754
doubles (`scalar::Real`); the library only compares them and takes maxima,
exactly as the hardware does. Arithmetic on them happens in `app/`.
