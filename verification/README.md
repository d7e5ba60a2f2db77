# tui-notes

A terminal notes browser over a directory of `.md`/`.txt` files: a tree of
the notes, fuzzy filename and full-text search, a markdown preview, note
create/rename/delete, editing in an outside editor, and reminders kept in
sqlite.

## Layout

- `src/` is the library, verified with Verus. Each operation states what it
  returns in its `ensures`, over spec functions on plain values.
  - `app.rs`: the application state and its transitions. `App::step` takes
    a key or the outcome of the last outside operation and answers with the
    next outside operation to perform (`Command`).
  - `notes.rs`: the note tree (dirs first, case-insensitive names, expanded
    folders), the list of all notes.
  - `store.rs`: the reminder table: ids, soft dismissal, the active list.
  - `fuzzy.rs`, `content.rs`: name and content search.
  - `fs_ops.rs`: note and folder names and the paths built from them.
  - `md.rs`: the preview's markdown reading.
  - `cli.rs`: the `remind` subcommand's arguments.
  - `date.rs`, `paths.rs`, `text.rs`, `models.rs`: dates, paths, character
    sequences, the reminder record.
- `app/` is the program around it: terminal, file system, sqlite, editor.
  It performs the commands the library asks for and draws the state.
- `tests/` runs the library on concrete values.

Proof functions named `law_*` state properties that hold across calls, such
as "a reminder that was added is read back as it was added" or "toggling a
folder twice changes nothing".
