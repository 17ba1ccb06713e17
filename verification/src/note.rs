use vstd::prelude::*;

verus! {

/// The mathematical model of a note: its id, the characters of its title
/// and content, and whether it is hidden.
#[verifier::ext_equal]
pub struct NoteView {
    pub id: u64,
    pub title: Seq<char>,
    pub content: Seq<char>,
    pub hidden: bool,
}

/// A single sticky note.
pub struct Note {
    pub id: u64,
    pub title: String,
    pub content: String,
    pub hidden: bool,
}

impl View for Note {
    type V = NoteView;

    open spec fn view(&self) -> NoteView {
        NoteView { id: self.id, title: self.title@, content: self.content@, hidden: self.hidden }
    }
}

impl Note {
    /// A new note is visible and carries the given id, title and content.
    pub fn new(id: u64, title: String, content: String) -> (note: Note)
        ensures
            note@ == (NoteView { id, title: title@, content: content@, hidden: false }),
    {
        Note { id, title, content, hidden: false }
    }
}

} // verus!
