use vstd::prelude::*;

use crate::board::{has_id, next_visible, position_of, prev_visible, visible, Board, BoardView};
use crate::note::{Note, NoteView};

verus! {

/// The title a new note starts with.
pub open spec fn new_note_title() -> Seq<char> {
    "新标签"@
}

/// The content a new note starts with.
pub open spec fn new_note_content() -> Seq<char> {
    "新标签内容"@
}

/// A keyboard command of the application.
pub enum Action {
    /// Add a new note and select it.
    NewNote,
    /// Delete the selected note.
    DeleteNote,
    /// Hide the selected note, or show it again if it is hidden.
    ToggleHideNote,
    /// Show or stop showing hidden notes in the list.
    ToggleShowHidden,
    /// Select the previous visible note.
    PrevNote,
    /// Select the next visible note.
    NextNote,
}

/// The model of the application state: the board, the selected note, whether
/// hidden notes are listed, and the edit buffers of the selected note.
#[verifier::ext_equal]
pub struct AppView {
    pub board: BoardView,
    pub selected: Option<u64>,
    pub show_hidden: bool,
    pub edit_title: Seq<char>,
    pub edit_content: Seq<char>,
}

/// One row of the note list: id, title and hidden flag.
pub open spec fn list_row(n: NoteView) -> (u64, Seq<char>, bool) {
    (n.id, n.title, n.hidden)
}

/// The rows the note list shows: the visible notes, in board order.
pub open spec fn list_rows(s: Seq<NoteView>, show_hidden: bool) -> Seq<(u64, Seq<char>, bool)> {
    s.filter(|n: NoteView| visible(n, show_hidden)).map_values(|n: NoteView| list_row(n))
}

impl AppView {
    /// The board after the edit buffers are written into the selected note
    /// (unchanged when nothing is selected or the note is gone).
    pub open spec fn saved_board(self) -> BoardView {
        match self.selected {
            Some(id) => self.board.edit(id, self.edit_title, self.edit_content),
            None => self.board,
        }
    }

    /// The state after `id` is selected: the edit buffers hold its title and
    /// content where the board has it, and keep their text otherwise.
    pub open spec fn select(self, id: u64) -> AppView {
        if has_id(self.board.notes, id) {
            let n = self.board.notes[position_of(self.board.notes, id)];
            AppView { selected: Some(id), edit_title: n.title, edit_content: n.content, ..self }
        } else {
            AppView { selected: Some(id), ..self }
        }
    }

    /// The state after the edit buffers are saved.
    pub open spec fn saved(self) -> AppView {
        AppView { board: self.saved_board(), ..self }
    }

    /// The state after a new note is added, selected and loaded.
    pub open spec fn after_new_note(self) -> AppView {
        AppView {
            board: self.board.add(new_note_title(), new_note_content()),
            selected: Some(self.board.next_id),
            show_hidden: self.show_hidden,
            edit_title: new_note_title(),
            edit_content: new_note_content(),
        }
    }

    /// The state after the selected note is deleted, and whether it was there.
    pub open spec fn after_delete(self) -> (AppView, bool) {
        match self.selected {
            None => (self, true),
            Some(id) => if has_id(self.board.notes, id) {
                (AppView { board: self.board.delete(id), selected: None, ..self }, true)
            } else {
                (self, false)
            },
        }
    }

    /// The state after the selected note is saved and hidden, and whether it was there.
    pub open spec fn after_hide(self) -> (AppView, bool) {
        match self.selected {
            None => (self, true),
            Some(id) => if has_id(self.board.notes, id) {
                (AppView {
                    board: self.saved_board().set_hidden(id, true),
                    selected: None,
                    show_hidden: false,
                    ..self
                }, true)
            } else {
                (self.saved(), false)
            },
        }
    }

    /// The state after the selected note is saved and shown again, and whether it was there.
    pub open spec fn after_unhide(self) -> (AppView, bool) {
        match self.selected {
            None => (self, true),
            Some(id) => if has_id(self.board.notes, id) {
                (AppView { board: self.saved_board().set_hidden(id, false), selected: None, ..self }, true)
            } else {
                (self.saved(), false)
            },
        }
    }

    /// Whether the selected note is on the board and hidden.
    pub open spec fn selected_hidden(self) -> bool {
        match self.selected {
            Some(id) => has_id(self.board.notes, id)
                && self.board.notes[position_of(self.board.notes, id)].hidden,
            None => false,
        }
    }

    /// The state after the selected note is hidden, or shown again if it is hidden.
    pub open spec fn after_toggle_hide(self) -> (AppView, bool) {
        if self.selected_hidden() {
            self.after_unhide()
        } else {
            self.after_hide()
        }
    }

    /// The state after a click on the list row of note `id`.
    pub open spec fn after_click(self, id: u64) -> AppView {
        if self.selected == Some(id) {
            AppView { selected: None, ..self.saved() }
        } else {
            self.saved().select(id)
        }
    }

    /// The state after the selection moves to a note found by `target`, or
    /// is cleared when there is none.
    pub open spec fn move_to(self, target: Option<u64>) -> AppView {
        match target {
            Some(n) => self.saved().select(n),
            None => AppView { selected: None, ..self.saved() },
        }
    }

    /// The state after the selection moves to the next visible note.
    pub open spec fn after_next(self) -> AppView {
        self.move_to(next_visible(self.saved_board().notes, self.selected, self.show_hidden))
    }

    /// The state after the selection moves to the previous visible note.
    pub open spec fn after_prev(self) -> AppView {
        self.move_to(prev_visible(self.saved_board().notes, self.selected, self.show_hidden))
    }

    /// The state after a keyboard command, and whether it succeeded.
    pub open spec fn after_action(self, action: Action) -> (AppView, bool) {
        match action {
            Action::NewNote => (self.after_new_note(), true),
            Action::DeleteNote => self.after_delete(),
            Action::ToggleHideNote => self.after_toggle_hide(),
            Action::ToggleShowHidden => (AppView { show_hidden: !self.show_hidden, ..self }, true),
            Action::PrevNote => (self.after_prev(), true),
            Action::NextNote => (self.after_next(), true),
        }
    }
}

/// The state of an application restored from a saved board.
pub open spec fn restored(board: BoardView) -> AppView {
    AppView {
        board,
        selected: None,
        show_hidden: false,
        edit_title: Seq::empty(),
        edit_content: Seq::empty(),
    }
}

/// The error of a command on the selected note, when it fails.
pub open spec fn command_error(before: AppView, result: Result<(), String>) -> bool {
    result matches Err(message) ==> before.selected matches Some(id)
        && message@ == crate::board::not_found_message(id)
}

/// The application state: the board, which note is selected, whether hidden
/// notes are listed, and the text being edited for the selected note.
pub struct SimpleNoteApp {
    board: Board,
    selected_id: Option<u64>,
    show_hidden: bool,
    edit_title: String,
    edit_content: String,
}

impl View for SimpleNoteApp {
    type V = AppView;

    closed spec fn view(&self) -> AppView {
        AppView {
            board: self.board@,
            selected: self.selected_id,
            show_hidden: self.show_hidden,
            edit_title: self.edit_title@,
            edit_content: self.edit_content@,
        }
    }
}

impl Default for SimpleNoteApp {
    /// An empty board, nothing selected, hidden notes not listed, empty buffers.
    fn default() -> (app: SimpleNoteApp)
        ensures
            app@ == (AppView {
                board: BoardView { notes: Seq::empty(), next_id: 0 },
                selected: None,
                show_hidden: false,
                edit_title: Seq::empty(),
                edit_content: Seq::empty(),
            }),
    {
        SimpleNoteApp {
            board: Board::new(),
            selected_id: None,
            show_hidden: false,
            edit_title: String::new(),
            edit_content: String::new(),
        }
    }
}

impl SimpleNoteApp {
    /// The state restored from a saved board: only the board is kept, the rest
    /// starts as in a fresh application.
    pub fn from_board(board: Board) -> (app: SimpleNoteApp)
        ensures
            app@ == restored(board@),
    {
        SimpleNoteApp {
            board,
            selected_id: None,
            show_hidden: false,
            edit_title: String::new(),
            edit_content: String::new(),
        }
    }

    /// The state restored from a saved board given by its notes and next id:
    /// the board as saved, nothing selected, hidden notes not listed, empty
    /// edit buffers.
    pub fn restore(notes: Vec<Note>, next_id: u64) -> (app: SimpleNoteApp)
        ensures
            app@ == restored(BoardView { notes: notes@.map_values(|n: Note| n@), next_id }),
    {
        SimpleNoteApp::from_board(Board::from_parts(notes, next_id))
    }

    /// Save the edit buffers into the selected note and give what is kept of
    /// the application: copies of the notes and the next id.
    pub fn save(&mut self) -> (parts: (Vec<Note>, u64))
        ensures
            final(self)@ == old(self)@.saved(),
            (BoardView { notes: parts.0@.map_values(|n: Note| n@), next_id: parts.1 })
                == old(self)@.saved_board(),
    {
        self.save_edits();
        self.board.to_parts()
    }

    /// The board.
    pub fn board(&self) -> (board: &Board)
        ensures
            board@ == self@.board,
    {
        &self.board
    }

    /// The selected note's id, if any.
    pub fn selected_id(&self) -> (id: Option<u64>)
        ensures
            id == self@.selected,
    {
        self.selected_id
    }

    /// Whether hidden notes are listed.
    pub fn show_hidden(&self) -> (shown: bool)
        ensures
            shown == self@.show_hidden,
    {
        self.show_hidden
    }

    /// List hidden notes or not.
    pub fn set_show_hidden(&mut self, show_hidden: bool)
        ensures
            final(self)@ == (AppView { show_hidden, ..old(self)@ }),
    {
        self.show_hidden = show_hidden;
    }

    /// The title being edited.
    pub fn edit_title(&self) -> (title: &String)
        ensures
            title@ == self@.edit_title,
    {
        &self.edit_title
    }

    /// The content being edited.
    pub fn edit_content(&self) -> (content: &String)
        ensures
            content@ == self@.edit_content,
    {
        &self.edit_content
    }

    /// Replace the edit buffers with what the user typed.
    pub fn set_edit_buffers(&mut self, title: String, content: String)
        ensures
            final(self)@ == (AppView { edit_title: title@, edit_content: content@, ..old(self)@ }),
    {
        self.edit_title = title;
        self.edit_content = content;
    }

    /// Whether a note is selected and still on the board, so that its editor
    /// is shown.
    pub fn selected_note_present(&self) -> (present: bool)
        ensures
            present == (self@.selected matches Some(id) && has_id(self@.board.notes, id)),
    {
        match self.selected_id {
            Some(id) => self.board.note_with_id(id).is_some(),
            None => false,
        }
    }

    /// Write the edit buffers into the selected note; nothing happens when no
    /// note is selected or the selected note is gone.
    pub fn save_edits(&mut self)
        ensures
            final(self)@ == old(self)@.saved(),
    {
        if let Some(id) = self.selected_id {
            let _ = self.board.edit_note(id, self.edit_title.clone(), self.edit_content.clone());
        }
    }

    /// Load the note with `id` into the edit buffers and select it.
    fn select_and_load(&mut self, id: u64)
        ensures
            final(self)@ == old(self)@.select(id),
    {
        self.selected_id = Some(id);
        if let Some(note) = self.board.note_with_id(id) {
            let title = note.title.clone();
            let content = note.content.clone();
            self.edit_title = title;
            self.edit_content = content;
        }
    }

    /// Add a new note with the default title and content, select it and load
    /// it into the edit buffers.
    pub fn new_note(&mut self)
        requires
            old(self)@.board.next_id < u64::MAX,
        ensures
            final(self)@ == old(self)@.after_new_note(),
    {
        let title = "新标签".to_string();
        let content = "新标签内容".to_string();
        proof {
            reveal_strlit("新标签");
            reveal_strlit("新标签内容");
        }
        let note = self.board.add_note(title, content);
        let id = note.id;
        let t = note.title.clone();
        let c = note.content.clone();
        self.selected_id = Some(id);
        self.edit_title = t;
        self.edit_content = c;
    }

    /// Delete the selected note and clear the selection.
    ///
    /// With nothing selected nothing happens. When the selected note is not
    /// on the board the board and the selection stay, and the error is returned.
    pub fn delete_selected(&mut self) -> (result: Result<(), String>)
        ensures
            final(self)@ == old(self)@.after_delete().0,
            result is Ok <==> old(self)@.after_delete().1,
            command_error(old(self)@, result),
    {
        match self.selected_id {
            Some(id) => {
                let result = self.board.delete_note(id);
                if result.is_ok() {
                    self.selected_id = None;
                }
                result
            },
            None => Ok(()),
        }
    }

    /// Save the edits, hide the selected note, stop listing hidden notes and
    /// clear the selection.
    ///
    /// With nothing selected nothing happens. When the selected note is not
    /// on the board only the edits are saved (which changes nothing) and the
    /// error is returned.
    pub fn hide_selected(&mut self) -> (result: Result<(), String>)
        ensures
            final(self)@ == old(self)@.after_hide().0,
            result is Ok <==> old(self)@.after_hide().1,
            command_error(old(self)@, result),
    {
        match self.selected_id {
            Some(id) => {
                self.save_edits();
                let result = self.board.hide_note(id);
                proof {
                    crate::board::lemma_position_of(old(self)@.board.notes, id);
                    crate::board::lemma_position_of_same_ids(
                        old(self)@.board.notes,
                        old(self)@.saved_board().notes,
                        id,
                    );
                }
                if result.is_ok() {
                    self.show_hidden = false;
                    self.selected_id = None;
                }
                result
            },
            None => Ok(()),
        }
    }

    /// Save the edits, show the selected note again and clear the selection.
    ///
    /// With nothing selected nothing happens. When the selected note is not
    /// on the board only the edits are saved (which changes nothing) and the
    /// error is returned.
    pub fn unhide_selected(&mut self) -> (result: Result<(), String>)
        ensures
            final(self)@ == old(self)@.after_unhide().0,
            result is Ok <==> old(self)@.after_unhide().1,
            command_error(old(self)@, result),
    {
        match self.selected_id {
            Some(id) => {
                self.save_edits();
                let result = self.board.unhide_note(id);
                proof {
                    crate::board::lemma_position_of(old(self)@.board.notes, id);
                    crate::board::lemma_position_of_same_ids(
                        old(self)@.board.notes,
                        old(self)@.saved_board().notes,
                        id,
                    );
                }
                if result.is_ok() {
                    self.selected_id = None;
                }
                result
            },
            None => Ok(()),
        }
    }

    /// A click on the list row of note `id`: the edits of the selected note
    /// are saved first; clicking the selected note clears the selection,
    /// clicking another selects it and loads it into the edit buffers.
    pub fn click_note(&mut self, id: u64)
        ensures
            final(self)@ == old(self)@.after_click(id),
    {
        let was_selected = match self.selected_id {
            Some(cur) => cur == id,
            None => false,
        };
        self.save_edits();
        if was_selected {
            self.selected_id = None;
        } else {
            self.select_and_load(id);
        }
    }

    /// Move the selection to the next visible note (wrapping around), saving
    /// the edits first and loading the note into the edit buffers; nothing
    /// is selected afterwards when no note is visible.
    pub fn select_next(&mut self)
        ensures
            final(self)@ == old(self)@.after_next(),
    {
        self.save_edits();
        match self.board.next_visible_note(self.selected_id, self.show_hidden) {
            Some(n) => self.select_and_load(n),
            None => {
                self.selected_id = None;
            },
        }
    }

    /// Move the selection to the previous visible note (wrapping around),
    /// saving the edits first and loading the note into the edit buffers;
    /// nothing is selected afterwards when no note is visible.
    pub fn select_prev(&mut self)
        ensures
            final(self)@ == old(self)@.after_prev(),
    {
        self.save_edits();
        match self.board.prev_visible_note(self.selected_id, self.show_hidden) {
            Some(n) => self.select_and_load(n),
            None => {
                self.selected_id = None;
            },
        }
    }

    /// The rows of the note list: id, title and hidden flag of each visible
    /// note, in board order.
    pub fn list_rows(&self) -> (rows: Vec<(u64, String, bool)>)
        ensures
            rows@.map_values(|r: (u64, String, bool)| (r.0, r.1@, r.2))
                == list_rows(self@.board.notes, self@.show_hidden),
    {
        let notes = self.board.notes();
        let ghost s = self@.board.notes;
        let ghost pred = |n: NoteView| visible(n, self.show_hidden);
        let mut rows: Vec<(u64, String, bool)> = Vec::new();
        let mut i: usize = 0;
        while i < notes.len()
            invariant
                i <= notes@.len(),
                notes@.map_values(|n: Note| n@) == s,
                pred == (|n: NoteView| visible(n, self.show_hidden)),
                rows@.map_values(|r: (u64, String, bool)| (r.0, r.1@, r.2))
                    == s.take(i as int).filter(pred).map_values(|n: NoteView| list_row(n)),
            decreases notes@.len() - i,
        {
            let ghost before = rows@;
            assert(s.take(i + 1).drop_last() =~= s.take(i as int));
            assert(s.take(i + 1).last() == s[i as int]);
            assert(s[i as int] == notes@[i as int]@);
            reveal_with_fuel(Seq::filter, 1);
            let note = &notes[i];
            if self.show_hidden || !note.hidden {
                let title = note.title.clone();
                rows.push((note.id, title, note.hidden));
                assert(pred(s[i as int]));
                assert(s.take(i + 1).filter(pred) == s.take(i as int).filter(pred).push(s[i as int]));
                assert(rows@ == before.push((note.id, title, note.hidden)));
                let ghost f = |r: (u64, String, bool)| (r.0, r.1@, r.2);
                let ghost g = |n: NoteView| list_row(n);
                assert(rows@.map_values(f) =~= before.map_values(f).push(g(s[i as int])));
                assert(s.take(i as int).filter(pred).push(s[i as int]).map_values(g)
                    =~= s.take(i as int).filter(pred).map_values(g).push(g(s[i as int])));
                assert(rows@.map_values(|r: (u64, String, bool)| (r.0, r.1@, r.2)) =~=
                    s.take(i + 1).filter(pred).map_values(|n: NoteView| list_row(n)));
            } else {
                assert(rows@.map_values(|r: (u64, String, bool)| (r.0, r.1@, r.2)) =~=
                    s.take(i + 1).filter(pred).map_values(|n: NoteView| list_row(n)));
            }
            i += 1;
        }
        assert(s.take(s.len() as int) =~= s);
        rows
    }

    /// Carry out a keyboard command: new note, delete, hide or unhide, show
    /// hidden notes or not, previous or next note. An error of the command is
    /// returned.
    pub fn apply(&mut self, action: Action) -> (result: Result<(), String>)
        requires
            action is NewNote ==> old(self)@.board.next_id < u64::MAX,
        ensures
            final(self)@ == old(self)@.after_action(action).0,
            result is Ok <==> old(self)@.after_action(action).1,
            command_error(old(self)@, result),
    {
        match action {
            Action::NewNote => {
                self.new_note();
                Ok(())
            },
            Action::DeleteNote => self.delete_selected(),
            Action::ToggleHideNote => {
                let hidden = match self.selected_id {
                    Some(id) => match self.board.note_with_id(id) {
                        Some(note) => note.hidden,
                        None => false,
                    },
                    None => false,
                };
                if hidden {
                    self.unhide_selected()
                } else {
                    self.hide_selected()
                }
            },
            Action::ToggleShowHidden => {
                self.show_hidden = !self.show_hidden;
                Ok(())
            },
            Action::PrevNote => {
                self.select_prev();
                Ok(())
            },
            Action::NextNote => {
                self.select_next();
                Ok(())
            },
        }
    }
}

} // verus!
