# Pixesh

A small pixel-art editor: layers, animation frames, brush, eraser, flood
fill, selection and move tools, copy and paste, undo/redo, resize, crop,
scale and PNG export.

- `src/` is the `pixesh` library, verified with Verus: the document model
  and every edit on it, with contracts over mathematical views (`Content`,
  `UiState`, `History`, `DocState`) and proved laws (undo/redo, the history
  bound, mirroring twice, gap-free lines, whole strokes undone at once, the
  settings file read back as written).
- `app/` is the egui program: windows, panels, dialogs, reading and writing
  files. It turns input into calls of the library.
- `tests/` runs the library on concrete documents.
