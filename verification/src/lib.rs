//! The library of a note-taking overlay: notes kept as Markdown files, their
//! tasks (`- [ ]` / `- [x]` lines) and front matter, the list of recent notes,
//! and the overlay's behaviour as a state machine whose file access, window
//! changes and program launches are left to the program around it.
mod bindings;
pub mod text;
pub mod notes;
pub mod order;
pub mod tasks;
pub mod labels;
pub mod overlay;
pub mod rows;
pub mod laws;

pub use bindings::{Day, Stamp};
pub use notes::{
    appended_note, count_tasks, expand_path, expand_path_with_home, get_recent_notes_from,
    md_note_name, replace_line_text, resolve_notes_path, Config, NoteInfo, ScannedNote,
};
