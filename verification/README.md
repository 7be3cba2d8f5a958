# sticky

A note manager for Linux: a command line and a terminal manager for
browsing notes, and a GTK editor for writing them. Notes are stored one
directory each under `<data dir>/sticky/notes/<id>/`, as `note.md` with a
TOML frontmatter, next to an `images/` directory.

The library in `src/` is verified with Verus:

- `model` — note types, timestamps, notes and their metadata;
- `frontmatter` — the note file format (framing and taking apart);
- `repository` — the store layout, fresh note ids, most-recent-first order;
- `cli` — commands, note type names and the command line's output;
- `tui` — the manager's state machine, key bindings and screen geometry;
- `editor` — list display, Return continuations, image markers, edits;
- `markup` — the markdown preview's HTML-to-Pango conversion;
- `text`, `number` — the string and number primitives these rest on.

`app/` is the program around it: file I/O, TOML with serde, clap,
crossterm/ratatui and GTK.
