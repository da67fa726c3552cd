# sqlly-textbox

The editing core of a single-/multi-line text field, written in Verus and
verified: every public function carries a contract and is proved against it.

- `src/utf8_model.rs` — the model: text as a character sequence, UTF-8 byte
  offsets and UTF-16 offsets of prefixes, character boundaries, splicing.
- `src/str_ops.rs` — character views, byte lengths, slicing at boundaries.
- `src/utf.rs` — UTF-8 ↔ UTF-16 offset conversion and boundary clamping.
- `src/segmentation.rs` — grapheme and word segmentation (`unicode-segmentation`)
  and the navigation decisions taken over the offsets it reports.
- `src/selection.rs` — the caret/anchor selection and `apply_movement`.
- `src/edit.rs` — newline normalization, whitespace, splicing strings.
- `src/history.rs` — the bounded undo/redo stacks.
- `src/state.rs` — `TextBoxState`, the editing state machine, and its laws
  (undo/redo round trips, undo reverting an edit, coalescing of typing runs).
- `src/field.rs` — what a field does on clicks, clipboard actions, Enter,
  vertical movement, platform text input (IME) and when rendering.
- `src/layout.rs` — integer bookkeeping for painting and hit-testing shaped lines.
- `src/mode.rs`, `src/validation.rs` — field mode and validation state.

`app/` holds the GPUI entity, its custom element, the actions and key
bindings; it hands plain values to the library and performs the drawing,
clipboard and focus work.
