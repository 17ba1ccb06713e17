# simple_note

A sticky-note board, verified with Verus.

- `src/note.rs`: a note and its model.
- `src/board.rs`: the board (notes in insertion order, fresh ids), its model
  `BoardView`, the search functions of the model, and the verified
  operations: add, delete, edit, hide, unhide, toggle, and cyclic navigation
  among the visible notes.
- `src/app.rs`: the state of the note application (selection, hidden-notes
  switch, edit buffers) and its commands, each a verified step on that state.
- `src/laws.rs`: properties of the board and the application proved over the
  models (well-formedness kept by every operation, fresh ids, undoing,
  navigation round trips).
- `app/`: the egui/eframe front end: persistence, layout, shortcuts.
