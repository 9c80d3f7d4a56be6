# overlay_core

A small overlay for quick notes: notes are Markdown files in one directory,
tasks are `- [ ]` / `- [x]` lines, and the overlay lists the five most recent
notes, shows a note's tasks and lines, and lets the user add, edit, toggle,
pin, hide and delete them.

Layout:

- `src/` is the verified library (Verus).
  - `text.rs`: characters, trimming, searching, lines and their joins, UTF-8 lengths.
  - `notes.rs`: task counting, front matter, appending and replacing lines,
    path expansion, choosing the recent notes.
  - `order.rs`: a stable sort, newest first.
  - `tasks.rs`: parsing a note into tasks and content lines, toggling a task.
  - `labels.rs`: relative times, note titles, session note names.
  - `overlay.rs`: the overlay as a state machine; each user action gives the
    next state and the commands (file access, window changes, launches) that
    the program around it performs, feeding back their responses.
  - `rows.rs`: what each row and footer of the panel shows.
  - `laws.rs`: properties that span several functions.
  - `bindings.rs`: the calls into std, `dirs` and `chrono`, with the contracts
    that the rest relies on.
- `tests/` runs the library on concrete values.
- `app/` is the program: the `iced` window, configuration and file I/O,
  driving the state machine of `overlay.rs`.
