# Arca

Arca is a file manager with a file chooser. This crate is its logic as a
library verified with Verus, with a small command-line front end.

## Layout

- `src/` — the verified library. Every function states its behaviour in
  `requires`/`ensures`, and Verus proves it.
  - `engine/`: entries and sorting, path handling and completion,
    navigation state (tabs, history, selection, bookmarks), undo, the
    directory watcher's decisions, formatting of sizes and dates.
  - `lantern/`: the chooser, configuration, glob filters, history and the
    thumbnail service with its on-disk cache format.
  - `xdg/`: base directories, desktop entries, MIME database and
    associations, `file://` URIs, clipboard payloads and the trash.
  - `arca_core/`: bookmarks, paste-destination naming and trash metadata.
  - `ui/`: key bindings, menus, chooser footer texts, icons and uploads.
  - `text.rs`, `naming.rs`: shared string helpers.
- `tests/` — tests of the library on concrete values.
- `app/` — the program: argument handling, file-system I/O,
  threads, and the chooser prompter protocol. It hands the library plain
  values and acts on what comes back.

The proved laws (round trips of the clipboard, URI, `.trashinfo`,
bookmark and configuration formats, the calendar, history and undo
laws, and the thumbnail service's cache laws) are public proof functions
named `law_*`.
