use vstd::prelude::*;

use crate::note::{Note, NoteView};

verus! {

// ---------------------------------------------------------------------------
// The model: a board is a sequence of notes and the id the next note gets.
// ---------------------------------------------------------------------------

/// The mathematical model of a board.
#[verifier::ext_equal]
pub struct BoardView {
    pub notes: Seq<NoteView>,
    pub next_id: u64,
}

/// Some note of `s` carries `id`.
pub open spec fn has_id(s: Seq<NoteView>, id: u64) -> bool {
    exists|i: int| 0 <= i < s.len() && s[i].id == id
}

/// `i` is the first position of `s` whose note carries `id`.
pub open spec fn is_first_with_id(s: Seq<NoteView>, id: u64, i: int) -> bool {
    &&& 0 <= i < s.len()
    &&& s[i].id == id
    &&& forall|j: int| 0 <= j < i ==> s[j].id != id
}

/// The first position of a note with `id`, or -1 where there is none.
pub open spec fn position_of(s: Seq<NoteView>, id: u64) -> int {
    if has_id(s, id) {
        choose|i: int| is_first_with_id(s, id, i)
    } else {
        -1
    }
}

/// A note is shown when hidden notes are shown, or when it is not hidden.
pub open spec fn visible(n: NoteView, show_hidden: bool) -> bool {
    show_hidden || !n.hidden
}

/// Some note at a position in `[lo, hi)` is visible.
pub open spec fn any_visible(s: Seq<NoteView>, lo: int, hi: int, show_hidden: bool) -> bool {
    exists|i: int| lo <= i < hi && 0 <= i < s.len() && visible(s[i], show_hidden)
}

/// `i` is the lowest position in `[lo, hi)` that holds a visible note.
pub open spec fn is_first_visible(s: Seq<NoteView>, lo: int, hi: int, show_hidden: bool, i: int) -> bool {
    &&& lo <= i < hi
    &&& 0 <= i < s.len()
    &&& visible(s[i], show_hidden)
    &&& forall|j: int| lo <= j < i ==> !visible(s[j], show_hidden)
}

/// `i` is the highest position in `[lo, hi)` that holds a visible note.
pub open spec fn is_last_visible(s: Seq<NoteView>, lo: int, hi: int, show_hidden: bool, i: int) -> bool {
    &&& lo <= i < hi
    &&& 0 <= i < s.len()
    &&& visible(s[i], show_hidden)
    &&& forall|j: int| i < j < hi ==> !visible(s[j], show_hidden)
}

/// The lowest visible position in `[lo, hi)`, if any.
pub open spec fn first_visible_in(s: Seq<NoteView>, lo: int, hi: int, show_hidden: bool) -> Option<int> {
    if any_visible(s, lo, hi, show_hidden) {
        Some(choose|i: int| is_first_visible(s, lo, hi, show_hidden, i))
    } else {
        None
    }
}

/// The highest visible position in `[lo, hi)`, if any.
pub open spec fn last_visible_in(s: Seq<NoteView>, lo: int, hi: int, show_hidden: bool) -> Option<int> {
    if any_visible(s, lo, hi, show_hidden) {
        Some(choose|i: int| is_last_visible(s, lo, hi, show_hidden, i))
    } else {
        None
    }
}

/// The id of the note at an optional position.
pub open spec fn id_at(s: Seq<NoteView>, pos: Option<int>) -> Option<u64> {
    match pos {
        Some(i) => Some(s[i].id),
        None => None,
    }
}

/// Where the forward search starts: just after the current note, or at the
/// first note when there is no current note on the board.
pub open spec fn next_search_start(s: Seq<NoteView>, current: Option<u64>) -> int {
    match current {
        Some(id) => position_of(s, id) + 1,
        None => 0,
    }
}

/// Where the backward search ends: at the current note, or past the last
/// note when there is no current note on the board.
pub open spec fn prev_search_end(s: Seq<NoteView>, current: Option<u64>) -> int {
    match current {
        Some(id) => if has_id(s, id) { position_of(s, id) } else { s.len() as int },
        None => s.len() as int,
    }
}

/// The next visible note after the current one, searching forward and
/// wrapping around to the start; without a current note (or with one that
/// is not on the board) the search starts at the first note.
pub open spec fn next_visible(s: Seq<NoteView>, current: Option<u64>, show_hidden: bool) -> Option<u64> {
    let start = next_search_start(s, current);
    match first_visible_in(s, start, s.len() as int, show_hidden) {
        Some(i) => Some(s[i].id),
        None => id_at(s, first_visible_in(s, 0, start, show_hidden)),
    }
}

/// The previous visible note before the current one, searching backward and
/// wrapping around to the end; without a current note (or with one that is
/// not on the board) the search starts at the last note.
pub open spec fn prev_visible(s: Seq<NoteView>, current: Option<u64>, show_hidden: bool) -> Option<u64> {
    let end = prev_search_end(s, current);
    match last_visible_in(s, 0, end, show_hidden) {
        Some(i) => Some(s[i].id),
        None => id_at(s, last_visible_in(s, end, s.len() as int, show_hidden)),
    }
}

/// The message of the error that an operation on a missing id returns.
pub open spec fn not_found_message(id: u64) -> Seq<char> {
    "没有找到 id 为 "@ + decimal(id as nat) + " 的便利贴"@
}

/// The character of a decimal digit.
pub open spec fn digit_char(d: nat) -> char {
    (48 + d) as char
}

/// The decimal representation of a natural number, without leading zeros.
pub open spec fn decimal(n: nat) -> Seq<char>
    decreases n,
{
    if n < 10 {
        seq![digit_char(n)]
    } else {
        decimal(n / 10).push(digit_char(n % 10))
    }
}

impl BoardView {
    /// The ids strictly increase along the board, and each is below `next_id`.
    pub open spec fn well_formed(self) -> bool {
        &&& forall|i: int, j: int| 0 <= i < j < self.notes.len() ==> self.notes[i].id < self.notes[j].id
        &&& forall|i: int| 0 <= i < self.notes.len() ==> self.notes[i].id < self.next_id
    }

    /// The board after a note with the given title and content is added.
    pub open spec fn add(self, title: Seq<char>, content: Seq<char>) -> BoardView {
        BoardView {
            notes: self.notes.push(NoteView { id: self.next_id, title, content, hidden: false }),
            next_id: (self.next_id + 1) as u64,
        }
    }

    /// The board after the note with `id` is deleted (unchanged if there is none).
    pub open spec fn delete(self, id: u64) -> BoardView {
        if has_id(self.notes, id) {
            BoardView { notes: self.notes.remove(position_of(self.notes, id)), next_id: self.next_id }
        } else {
            self
        }
    }

    /// The board after the note with `id` gets a new title and content.
    pub open spec fn edit(self, id: u64, title: Seq<char>, content: Seq<char>) -> BoardView {
        if has_id(self.notes, id) {
            let p = position_of(self.notes, id);
            BoardView {
                notes: self.notes.update(p, NoteView { title, content, ..self.notes[p] }),
                next_id: self.next_id,
            }
        } else {
            self
        }
    }

    /// The board after the note with `id` has its hidden flag set to `hidden`.
    pub open spec fn set_hidden(self, id: u64, hidden: bool) -> BoardView {
        if has_id(self.notes, id) {
            let p = position_of(self.notes, id);
            BoardView {
                notes: self.notes.update(p, NoteView { hidden, ..self.notes[p] }),
                next_id: self.next_id,
            }
        } else {
            self
        }
    }

    /// The board after the note with `id` has its hidden flag flipped.
    pub open spec fn toggle_hidden(self, id: u64) -> BoardView {
        if has_id(self.notes, id) {
            self.set_hidden(id, !self.notes[position_of(self.notes, id)].hidden)
        } else {
            self
        }
    }
}

// ---------------------------------------------------------------------------
// Facts about the search functions of the model.
// ---------------------------------------------------------------------------

/// A first position with `id` exists wherever some position carries it.
pub proof fn lemma_first_with_id_exists(s: Seq<NoteView>, id: u64, k: int)
    requires
        0 <= k < s.len(),
        s[k].id == id,
    ensures
        exists|i: int| is_first_with_id(s, id, i),
    decreases k,
{
    if exists|j: int| 0 <= j < k && s[j].id == id {
        let j = choose|j: int| 0 <= j < k && s[j].id == id;
        lemma_first_with_id_exists(s, id, j);
    } else {
        assert(is_first_with_id(s, id, k));
    }
}

/// `position_of` is the first position with the id, whenever there is one.
pub proof fn lemma_position_of(s: Seq<NoteView>, id: u64)
    ensures
        has_id(s, id) ==> is_first_with_id(s, id, position_of(s, id)),
        !has_id(s, id) ==> position_of(s, id) == -1,
{
    if has_id(s, id) {
        let k = choose|k: int| 0 <= k < s.len() && s[k].id == id;
        lemma_first_with_id_exists(s, id, k);
    }
}

/// A position that is first with its id is what `position_of` gives.
pub proof fn lemma_position_of_is(s: Seq<NoteView>, id: u64, i: int)
    requires
        is_first_with_id(s, id, i),
    ensures
        has_id(s, id),
        position_of(s, id) == i,
{
    lemma_position_of(s, id);
    let p = position_of(s, id);
    assert(!(p < i) && !(i < p)) by {
        if p < i {
            assert(s[p].id == id);
        }
        if i < p {
            assert(s[i].id == id);
        }
    }
}

/// With strictly increasing ids, the position of a note's id is that note's position.
pub proof fn lemma_position_of_increasing(s: Seq<NoteView>, q: int)
    requires
        0 <= q < s.len(),
        forall|i: int, j: int| 0 <= i < j < s.len() ==> s[i].id < s[j].id,
    ensures
        has_id(s, s[q].id),
        position_of(s, s[q].id) == q,
{
    assert forall|j: int| 0 <= j < q implies s[j].id != s[q].id by {
        assert(s[j].id < s[q].id);
    }
    lemma_position_of_is(s, s[q].id, q);
}

/// Rewriting notes without touching any id keeps every position.
pub proof fn lemma_position_of_same_ids(s: Seq<NoteView>, t: Seq<NoteView>, id: u64)
    requires
        s.len() == t.len(),
        forall|i: int| 0 <= i < s.len() ==> s[i].id == t[i].id,
    ensures
        has_id(s, id) == has_id(t, id),
        position_of(s, id) == position_of(t, id),
{
    lemma_position_of(s, id);
    if has_id(s, id) {
        let p = position_of(s, id);
        assert(t[p].id == id);
        assert(is_first_with_id(t, id, p));
        lemma_position_of_is(t, id, p);
    } else {
        assert(!has_id(t, id)) by {
            if has_id(t, id) {
                let k = choose|k: int| 0 <= k < t.len() && t[k].id == id;
                assert(s[k].id == id);
            }
        }
    }
}

/// A lowest visible position exists at or below any visible position.
pub proof fn lemma_first_visible_exists(s: Seq<NoteView>, lo: int, hi: int, show_hidden: bool, k: int)
    requires
        0 <= lo <= k < hi <= s.len(),
        visible(s[k], show_hidden),
    ensures
        exists|i: int| is_first_visible(s, lo, hi, show_hidden, i),
    decreases k - lo,
{
    if exists|j: int| lo <= j < k && visible(s[j], show_hidden) {
        let j = choose|j: int| lo <= j < k && visible(s[j], show_hidden);
        lemma_first_visible_exists(s, lo, hi, show_hidden, j);
    } else {
        assert(is_first_visible(s, lo, hi, show_hidden, k));
    }
}

/// A highest visible position exists at or above any visible position.
pub proof fn lemma_last_visible_exists(s: Seq<NoteView>, lo: int, hi: int, show_hidden: bool, k: int)
    requires
        0 <= lo <= k < hi <= s.len(),
        visible(s[k], show_hidden),
    ensures
        exists|i: int| is_last_visible(s, lo, hi, show_hidden, i),
    decreases hi - k,
{
    if exists|j: int| k < j < hi && 0 <= j < s.len() && visible(s[j], show_hidden) {
        let j = choose|j: int| k < j < hi && 0 <= j < s.len() && visible(s[j], show_hidden);
        lemma_last_visible_exists(s, lo, hi, show_hidden, j);
    } else {
        assert(is_last_visible(s, lo, hi, show_hidden, k));
    }
}

/// `first_visible_in` gives the lowest visible position, or nothing if there is none.
pub proof fn lemma_first_visible_in(s: Seq<NoteView>, lo: int, hi: int, show_hidden: bool)
    requires
        0 <= lo,
        hi <= s.len(),
    ensures
        match first_visible_in(s, lo, hi, show_hidden) {
            Some(i) => is_first_visible(s, lo, hi, show_hidden, i),
            None => !any_visible(s, lo, hi, show_hidden),
        },
{
    if any_visible(s, lo, hi, show_hidden) {
        let k = choose|k: int| lo <= k < hi && 0 <= k < s.len() && visible(s[k], show_hidden);
        lemma_first_visible_exists(s, lo, hi, show_hidden, k);
    }
}

/// `last_visible_in` gives the highest visible position, or nothing if there is none.
pub proof fn lemma_last_visible_in(s: Seq<NoteView>, lo: int, hi: int, show_hidden: bool)
    requires
        0 <= lo,
        hi <= s.len(),
    ensures
        match last_visible_in(s, lo, hi, show_hidden) {
            Some(i) => is_last_visible(s, lo, hi, show_hidden, i),
            None => !any_visible(s, lo, hi, show_hidden),
        },
{
    if any_visible(s, lo, hi, show_hidden) {
        let k = choose|k: int| lo <= k < hi && 0 <= k < s.len() && visible(s[k], show_hidden);
        lemma_last_visible_exists(s, lo, hi, show_hidden, k);
    }
}

/// A lowest visible position is what `first_visible_in` gives.
pub proof fn lemma_first_visible_is(s: Seq<NoteView>, lo: int, hi: int, show_hidden: bool, i: int)
    requires
        0 <= lo,
        hi <= s.len(),
        is_first_visible(s, lo, hi, show_hidden, i),
    ensures
        first_visible_in(s, lo, hi, show_hidden) == Some(i),
{
    lemma_first_visible_in(s, lo, hi, show_hidden);
    let p = first_visible_in(s, lo, hi, show_hidden).unwrap();
    assert(!(p < i) && !(i < p)) by {
        if p < i {
            assert(visible(s[p], show_hidden));
        }
        if i < p {
            assert(visible(s[i], show_hidden));
        }
    }
}

/// A highest visible position is what `last_visible_in` gives.
pub proof fn lemma_last_visible_is(s: Seq<NoteView>, lo: int, hi: int, show_hidden: bool, i: int)
    requires
        0 <= lo,
        hi <= s.len(),
        is_last_visible(s, lo, hi, show_hidden, i),
    ensures
        last_visible_in(s, lo, hi, show_hidden) == Some(i),
{
    lemma_last_visible_in(s, lo, hi, show_hidden);
    let p = last_visible_in(s, lo, hi, show_hidden).unwrap();
    assert(!(p < i) && !(i < p)) by {
        if p < i {
            assert(visible(s[i], show_hidden));
        }
        if i < p {
            assert(visible(s[p], show_hidden));
        }
    }
}

// ---------------------------------------------------------------------------
// The board.
// ---------------------------------------------------------------------------

/// The error that an operation on an id that no note carries returns.
///
/// The message is built with std's `format!`, which writes `id` through the
/// `Display` impl of `u64`. Trusted claim: that impl writes the decimal digits
/// of `id` without sign or leading zeros, so the message is the fixed prefix,
/// those digits, and the fixed suffix.
#[verifier::external_body]
fn not_found_error(id: u64) -> (message: String)
    ensures
        message@ == not_found_message(id),
{
    format!("没有找到 id 为 {id} 的便利贴")
}

/// A board of notes in the order they were added, and the id the next new
/// note will get.
pub struct Board {
    notes: Vec<Note>,
    next_id: u64,
}

impl View for Board {
    type V = BoardView;

    closed spec fn view(&self) -> BoardView {
        BoardView { notes: self.notes@.map_values(|n: Note| n@), next_id: self.next_id }
    }
}

impl Default for Board {
    /// An empty board whose first note will get id 0.
    fn default() -> (board: Board)
        ensures
            board@ == (BoardView { notes: Seq::empty(), next_id: 0 }),
    {
        Board::new()
    }
}

impl Board {
    /// An empty board whose first note will get id 0.
    pub fn new() -> (board: Board)
        ensures
            board@ == (BoardView { notes: Seq::empty(), next_id: 0 }),
    {
        let board = Board { notes: Vec::new(), next_id: 0 };
        assert(board@.notes =~= Seq::<NoteView>::empty());
        board
    }

    /// A board made of the given notes and next id, as a saved board is restored.
    pub fn from_parts(notes: Vec<Note>, next_id: u64) -> (board: Board)
        ensures
            board@ == (BoardView { notes: notes@.map_values(|n: Note| n@), next_id }),
    {
        Board { notes, next_id }
    }

    /// Copies of the notes, in board order, and the id the next new note will
    /// get: what is saved of a board, and what `from_parts` restores it from.
    pub fn to_parts(&self) -> (parts: (Vec<Note>, u64))
        ensures
            parts.0@.map_values(|n: Note| n@) == self@.notes,
            parts.1 == self@.next_id,
    {
        let mut copies: Vec<Note> = Vec::new();
        let mut i: usize = 0;
        while i < self.notes.len()
            invariant
                i <= self.notes@.len(),
                copies@.len() == i,
                forall|j: int| 0 <= j < i ==> #[trigger] copies@[j]@ == self.notes@[j]@,
            decreases self.notes@.len() - i,
        {
            let note = &self.notes[i];
            let copy = Note {
                id: note.id,
                title: note.title.clone(),
                content: note.content.clone(),
                hidden: note.hidden,
            };
            copies.push(copy);
            i += 1;
        }
        assert(copies@.map_values(|n: Note| n@) =~= self@.notes);
        (copies, self.next_id)
    }

    /// The id the next new note will get.
    pub fn next_id(&self) -> (id: u64)
        ensures
            id == self@.next_id,
    {
        self.next_id
    }

    /// The notes, in board order.
    pub fn notes(&self) -> (notes: &[Note])
        ensures
            notes@.map_values(|n: Note| n@) == self@.notes,
    {
        self.notes.as_slice()
    }

    /// The position of the first note with `id`.
    fn find_index(&self, id: u64) -> (pos: Option<usize>)
        ensures
            match pos {
                Some(i) => is_first_with_id(self@.notes, id, i as int) && has_id(self@.notes, id) && i == position_of(self@.notes, id),
                None => !has_id(self@.notes, id),
            },
    {
        let mut i: usize = 0;
        while i < self.notes.len()
            invariant
                0 <= i <= self.notes@.len(),
                self@.notes.len() == self.notes@.len(),
                forall|j: int| 0 <= j < i ==> self@.notes[j].id != id,
            decreases self.notes@.len() - i,
        {
            assert(self@.notes[i as int] == self.notes@[i as int]@);
            if self.notes[i].id == id {
                proof {
                    lemma_position_of_is(self@.notes, id, i as int);
                }
                return Some(i);
            }
            i += 1;
        }
        None
    }

    /// The first note with `id`, if any.
    pub fn note_with_id(&self, id: u64) -> (note: Option<&Note>)
        ensures
            match note {
                Some(n) => has_id(self@.notes, id) && n@ == self@.notes[position_of(self@.notes, id)],
                None => !has_id(self@.notes, id),
            },
    {
        match self.find_index(id) {
            Some(i) => {
                assert(self@.notes[i as int] == self.notes@[i as int]@);
                Some(&self.notes[i])
            },
            None => None,
        }
    }

    /// Add a note with the given title and content; it gets the next id and
    /// goes at the end of the board.
    pub fn add_note(&mut self, title: String, content: String) -> (note: &Note)
        requires
            old(self)@.next_id < u64::MAX,
        ensures
            final(self)@ == old(self)@.add(title@, content@),
            note@ == (NoteView { id: old(self)@.next_id, title: title@, content: content@, hidden: false }),
    {
        let ghost t = title@;
        let ghost c = content@;
        let note = Note::new(self.next_id, title, content);
        self.next_id += 1;
        self.notes.push(note);
        proof {
            assert(self@.notes =~= old(self)@.notes.push(NoteView { id: old(self)@.next_id, title: t, content: c, hidden: false }));
        }
        let last = self.notes.len() - 1;
        &self.notes[last]
    }
    /// Delete the note with `id`.
    ///
    /// Fails, leaving the board as it was, when no note carries `id`.
    pub fn delete_note(&mut self, id: u64) -> (result: Result<(), String>)
        ensures
            final(self)@ == old(self)@.delete(id),
            result is Ok <==> has_id(old(self)@.notes, id),
            result matches Err(message) ==> message@ == not_found_message(id),
    {
        match self.find_index(id) {
            Some(idx) => {
                self.notes.remove(idx);
                proof {
                    assert(self@.notes =~= old(self)@.notes.remove(idx as int));
                }
                Ok(())
            },
            None => Err(not_found_error(id)),
        }
    }

    /// Give the note with `id` a new title and content.
    ///
    /// Fails, leaving the board as it was, when no note carries `id`.
    pub fn edit_note(&mut self, id: u64, title: String, content: String) -> (result: Result<(), String>)
        ensures
            final(self)@ == old(self)@.edit(id, title@, content@),
            result is Ok <==> has_id(old(self)@.notes, id),
            result matches Err(message) ==> message@ == not_found_message(id),
    {
        match self.find_index(id) {
            Some(idx) => {
                let ghost t = title@;
                let ghost c = content@;
                self.notes[idx].title = title;
                self.notes[idx].content = content;
                proof {
                    let p = idx as int;
                    assert(self@.notes =~= old(self)@.notes.update(p, NoteView { title: t, content: c, ..old(self)@.notes[p] }));
                }
                Ok(())
            },
            None => Err(not_found_error(id)),
        }
    }

    /// Set the hidden flag of the note at position `idx`.
    fn set_hidden_at(&mut self, idx: usize, hidden: bool)
        requires
            idx < old(self)@.notes.len(),
        ensures
            final(self)@ == (BoardView {
                notes: old(self)@.notes.update(idx as int, NoteView { hidden, ..old(self)@.notes[idx as int] }),
                next_id: old(self)@.next_id,
            }),
    {
        self.notes[idx].hidden = hidden;
        proof {
            let p = idx as int;
            assert(self@.notes =~= old(self)@.notes.update(p, NoteView { hidden, ..old(self)@.notes[p] }));
        }
    }

    /// Hide the note with `id`.
    ///
    /// Fails, leaving the board as it was, when no note carries `id`.
    pub fn hide_note(&mut self, id: u64) -> (result: Result<(), String>)
        ensures
            final(self)@ == old(self)@.set_hidden(id, true),
            result is Ok <==> has_id(old(self)@.notes, id),
            result matches Err(message) ==> message@ == not_found_message(id),
    {
        match self.find_index(id) {
            Some(idx) => {
                self.set_hidden_at(idx, true);
                Ok(())
            },
            None => Err(not_found_error(id)),
        }
    }

    /// Show the note with `id` again.
    ///
    /// Fails, leaving the board as it was, when no note carries `id`.
    pub fn unhide_note(&mut self, id: u64) -> (result: Result<(), String>)
        ensures
            final(self)@ == old(self)@.set_hidden(id, false),
            result is Ok <==> has_id(old(self)@.notes, id),
            result matches Err(message) ==> message@ == not_found_message(id),
    {
        match self.find_index(id) {
            Some(idx) => {
                self.set_hidden_at(idx, false);
                Ok(())
            },
            None => Err(not_found_error(id)),
        }
    }

    /// Flip the hidden flag of the note with `id`; nothing happens when no
    /// note carries `id`.
    pub fn toggle_hide_note(&mut self, id: u64)
        ensures
            final(self)@ == old(self)@.toggle_hidden(id),
    {
        if let Some(idx) = self.find_index(id) {
            let hidden = self.notes[idx].hidden;
            self.set_hidden_at(idx, !hidden);
        }
    }

    /// Whether the note at position `i` is shown.
    fn is_visible_at(&self, i: usize, show_hidden: bool) -> (shown: bool)
        requires
            i < self@.notes.len(),
        ensures
            shown == visible(self@.notes[i as int], show_hidden),
    {
        show_hidden || !self.notes[i].hidden
    }

    /// The id of the next visible note after `current_id`, searching forward
    /// and wrapping around; `None` when no note is visible.
    pub fn next_visible_note(&self, current_id: Option<u64>, show_hidden: bool) -> (next: Option<u64>)
        ensures
            next == next_visible(self@.notes, current_id, show_hidden),
    {
        let ghost s = self@.notes;
        let len = self.notes.len();
        if len == 0 {
            proof {
                lemma_first_visible_in(s, 0, 0, show_hidden);
                if let Some(id) = current_id {
                    lemma_position_of(s, id);
                }
            }
            return None;
        }
        let pos = match current_id {
            Some(id) => self.find_index(id),
            None => None,
        };
        let start: usize = match pos {
            Some(p) => p + 1,
            None => 0,
        };
        proof {
            if let Some(id) = current_id {
                lemma_position_of(s, id);
            }
            assert(start as int == next_search_start(s, current_id));
        }
        let mut i: usize = start;
        while i < len
            invariant
                start <= i <= len,
                start as int == next_search_start(s, current_id),
                len == s.len(),
                s == self@.notes,
                forall|j: int| start <= j < i ==> !visible(s[j], show_hidden),
            decreases len - i,
        {
            if self.is_visible_at(i, show_hidden) {
                proof {
                    lemma_first_visible_is(s, start as int, len as int, show_hidden, i as int);
                }
                assert(s[i as int] == self.notes@[i as int]@);
                return Some(self.notes[i].id);
            }
            i += 1;
        }
        proof {
            lemma_first_visible_in(s, start as int, len as int, show_hidden);
        }
        let mut i: usize = 0;
        while i < start
            invariant
                i <= start <= len,
                start as int == next_search_start(s, current_id),
                len == s.len(),
                s == self@.notes,
                first_visible_in(s, start as int, len as int, show_hidden) is None,
                forall|j: int| 0 <= j < i ==> !visible(s[j], show_hidden),
            decreases start - i,
        {
            if self.is_visible_at(i, show_hidden) {
                proof {
                    lemma_first_visible_is(s, 0, start as int, show_hidden, i as int);
                }
                assert(s[i as int] == self.notes@[i as int]@);
                return Some(self.notes[i].id);
            }
            i += 1;
        }
        proof {
            lemma_first_visible_in(s, 0, start as int, show_hidden);
        }
        None
    }

    /// The id of the previous visible note before `current_id`, searching
    /// backward and wrapping around; `None` when no note is visible.
    pub fn prev_visible_note(&self, current_id: Option<u64>, show_hidden: bool) -> (prev: Option<u64>)
        ensures
            prev == prev_visible(self@.notes, current_id, show_hidden),
    {
        let ghost s = self@.notes;
        let len = self.notes.len();
        if len == 0 {
            proof {
                lemma_last_visible_in(s, 0, 0, show_hidden);
            }
            return None;
        }
        let pos = match current_id {
            Some(id) => self.find_index(id),
            None => None,
        };
        let end: usize = match pos {
            Some(p) => p,
            None => len,
        };
        proof {
            if let Some(id) = current_id {
                lemma_position_of(s, id);
            }
            assert(end as int == prev_search_end(s, current_id));
        }
        let mut i: usize = end;
        while i > 0
            invariant
                i <= end <= len,
                end as int == prev_search_end(s, current_id),
                len == s.len(),
                s == self@.notes,
                forall|j: int| i <= j < end ==> !visible(s[j], show_hidden),
            decreases i,
        {
            i -= 1;
            if self.is_visible_at(i, show_hidden) {
                proof {
                    lemma_last_visible_is(s, 0, end as int, show_hidden, i as int);
                }
                assert(s[i as int] == self.notes@[i as int]@);
                return Some(self.notes[i].id);
            }
        }
        proof {
            lemma_last_visible_in(s, 0, end as int, show_hidden);
        }
        let mut i: usize = len;
        while i > end
            invariant
                end <= i <= len,
                end as int == prev_search_end(s, current_id),
                len == s.len(),
                s == self@.notes,
                last_visible_in(s, 0, end as int, show_hidden) is None,
                forall|j: int| i <= j < len ==> !visible(s[j], show_hidden),
            decreases i,
        {
            i -= 1;
            if self.is_visible_at(i, show_hidden) {
                proof {
                    lemma_last_visible_is(s, end as int, len as int, show_hidden, i as int);
                }
                assert(s[i as int] == self.notes@[i as int]@);
                return Some(self.notes[i].id);
            }
        }
        proof {
            lemma_last_visible_in(s, end as int, len as int, show_hidden);
        }
        None
    }
}

} // verus!
