//! A sticky-note board: notes with stable ids, editing, hiding, and
//! cyclic navigation among the visible notes, together with the
//! selection and edit-buffer state of the note application.

pub mod app;
pub mod board;
pub mod laws;
pub mod note;

pub use app::{Action, SimpleNoteApp};
pub use board::Board;
pub use note::Note;
