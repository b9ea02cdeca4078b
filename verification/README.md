# Pulso

Pulso is a desktop presentation editor. Its native `.pulso` file is a ZIP
archive holding the document as JSON, a small metadata file and the media.

This crate is written in Verus: the presentation model, its reversible edits
and the undo history, the editor's and the slide show's decisions, the rules of
the file format and the text and colour handling that drawing needs are
verified against their specifications.

- `src/` — the verified library (`model`, `editor`, `show`, `canvas`, `io`,
  `preferences`, `text`), with its laws as proof functions.
- `app/` — the GTK4/libadwaita application around it: windows, drawing with
  cairo and pango, dialogs, files on disk, JSON and settings.
- `tests/` — tests of the library.
