use vstd::prelude::*;

use crate::board::{
    any_visible, first_visible_in, has_id, is_first_visible, is_first_with_id, is_last_visible, last_visible_in,
    lemma_first_visible_exists, lemma_first_visible_in, lemma_first_visible_is,
    lemma_last_visible_exists, lemma_last_visible_in, lemma_last_visible_is, lemma_position_of,
    lemma_position_of_increasing, lemma_position_of_is, lemma_position_of_same_ids, next_search_start,
    next_visible, position_of, prev_search_end, prev_visible, visible, BoardView,
};
use crate::app::{list_row, list_rows, restored, Action, AppView};
use crate::note::NoteView;

verus! {

/// A new, empty board is well-formed.
pub proof fn law_empty_board_well_formed()
    ensures
        (BoardView { notes: Seq::empty(), next_id: 0 }).well_formed(),
{
}

/// Every operation of the board keeps it well-formed: ids stay strictly
/// increasing along the board and below the next id.
pub proof fn law_operations_keep_well_formed(
    v: BoardView,
    id: u64,
    title: Seq<char>,
    content: Seq<char>,
    hidden: bool,
)
    requires
        v.well_formed(),
    ensures
        v.next_id < u64::MAX ==> v.add(title, content).well_formed(),
        v.delete(id).well_formed(),
        v.edit(id, title, content).well_formed(),
        v.set_hidden(id, hidden).well_formed(),
        v.toggle_hidden(id).well_formed(),
{
    lemma_position_of(v.notes, id);
    if has_id(v.notes, id) {
        let p = position_of(v.notes, id);
        let d = v.delete(id);
        assert forall|i: int, j: int| 0 <= i < j < d.notes.len() implies d.notes[i].id < d.notes[j].id by {
            let oi = if i < p { i } else { i + 1 };
            let oj = if j < p { j } else { j + 1 };
            assert(d.notes[i] == v.notes[oi]);
            assert(d.notes[j] == v.notes[oj]);
        }
        assert forall|i: int| 0 <= i < d.notes.len() implies d.notes[i].id < d.next_id by {
            let oi = if i < p { i } else { i + 1 };
            assert(d.notes[i] == v.notes[oi]);
        }
        let h = !v.notes[p].hidden;
        assert(v.toggle_hidden(id) == v.set_hidden(id, h));
    }
}

/// A note that was just added carries an id that no earlier note carried, and
/// looking that id up finds exactly the added note.
pub proof fn law_added_note_is_found(v: BoardView, title: Seq<char>, content: Seq<char>)
    requires
        v.well_formed(),
        v.next_id < u64::MAX,
    ensures
        !has_id(v.notes, v.next_id),
        has_id(v.add(title, content).notes, v.next_id),
        position_of(v.add(title, content).notes, v.next_id) == v.notes.len(),
        v.add(title, content).notes[v.notes.len() as int]
            == (NoteView { id: v.next_id, title, content, hidden: false }),
{
    let w = v.add(title, content);
    let n = v.notes.len() as int;
    assert forall|j: int| 0 <= j < n implies w.notes[j].id != v.next_id by {
        assert(w.notes[j] == v.notes[j]);
    }
    lemma_position_of_is(w.notes, v.next_id, n);
}

/// Deleting the note that was just added gives back the notes the board had
/// before; only the next id has moved on.
pub proof fn law_delete_undoes_add(v: BoardView, title: Seq<char>, content: Seq<char>)
    requires
        v.well_formed(),
        v.next_id < u64::MAX,
    ensures
        v.add(title, content).delete(v.next_id) == (BoardView {
            notes: v.notes,
            next_id: (v.next_id + 1) as u64,
        }),
{
    law_added_note_is_found(v, title, content);
    let w = v.add(title, content);
    assert(w.notes.remove(v.notes.len() as int) =~= v.notes);
}

/// Editing a note keeps it where it was, and reading it back gives the new
/// title and content with its id and hidden flag unchanged.
pub proof fn law_edit_then_read(v: BoardView, id: u64, title: Seq<char>, content: Seq<char>)
    requires
        has_id(v.notes, id),
    ensures
        has_id(v.edit(id, title, content).notes, id),
        position_of(v.edit(id, title, content).notes, id) == position_of(v.notes, id),
        v.edit(id, title, content).notes[position_of(v.notes, id)] == (NoteView {
            id,
            title,
            content,
            hidden: v.notes[position_of(v.notes, id)].hidden,
        }),
{
    lemma_position_of(v.notes, id);
    let w = v.edit(id, title, content);
    lemma_position_of_same_ids(v.notes, w.notes, id);
}

/// Setting the hidden flag twice leaves the second value, and setting it to
/// the value it has changes nothing; so hiding then unhiding a shown note
/// gives back the board.
pub proof fn law_set_hidden(v: BoardView, id: u64, first: bool, second: bool)
    ensures
        v.set_hidden(id, first).set_hidden(id, second) == v.set_hidden(id, second),
        has_id(v.notes, id) ==> v.set_hidden(id, v.notes[position_of(v.notes, id)].hidden) == v,
        has_id(v.notes, id) && !v.notes[position_of(v.notes, id)].hidden
            ==> v.set_hidden(id, true).set_hidden(id, false) == v,
{
    lemma_position_of(v.notes, id);
    if has_id(v.notes, id) {
        let p = position_of(v.notes, id);
        let w = v.set_hidden(id, first);
        lemma_position_of_same_ids(v.notes, w.notes, id);
        assert(w.set_hidden(id, second).notes =~= v.set_hidden(id, second).notes);
        assert(v.set_hidden(id, v.notes[p].hidden).notes =~= v.notes);
        let h = v.set_hidden(id, true);
        lemma_position_of_same_ids(v.notes, h.notes, id);
        if !v.notes[p].hidden {
            assert(h.set_hidden(id, false).notes =~= v.notes);
        }
    }
}

/// Toggling the hidden flag of a note twice gives back the board.
pub proof fn law_toggle_twice(v: BoardView, id: u64)
    ensures
        v.toggle_hidden(id).toggle_hidden(id) == v,
{
    lemma_position_of(v.notes, id);
    if has_id(v.notes, id) {
        let p = position_of(v.notes, id);
        let h = v.notes[p].hidden;
        let w = v.toggle_hidden(id);
        lemma_position_of_same_ids(v.notes, w.notes, id);
        law_set_hidden(v, id, !h, h);
    }
}

/// The next visible note is a visible note of the board, and there is none
/// exactly when no note is visible.
pub proof fn law_next_visible_is_visible(s: Seq<NoteView>, current: Option<u64>, show_hidden: bool)
    ensures
        next_visible(s, current, show_hidden) is None <==> !any_visible(s, 0, s.len() as int, show_hidden),
        next_visible(s, current, show_hidden) matches Some(id) ==> exists|i: int|
            0 <= i < s.len() && #[trigger] s[i].id == id && visible(s[i], show_hidden),
{
    let start = next_search_start(s, current);
    if let Some(id) = current {
        lemma_position_of(s, id);
    }
    assert(0 <= start <= s.len());
    lemma_first_visible_in(s, start, s.len() as int, show_hidden);
    lemma_first_visible_in(s, 0, start, show_hidden);
    if any_visible(s, 0, s.len() as int, show_hidden) {
        let k = choose|k: int| 0 <= k < s.len() && visible(s[k], show_hidden);
        if k < start {
            assert(any_visible(s, 0, start, show_hidden));
        } else {
            assert(any_visible(s, start, s.len() as int, show_hidden));
        }
    }
}

/// The previous visible note is a visible note of the board, and there is
/// none exactly when no note is visible.
pub proof fn law_prev_visible_is_visible(s: Seq<NoteView>, current: Option<u64>, show_hidden: bool)
    ensures
        prev_visible(s, current, show_hidden) is None <==> !any_visible(s, 0, s.len() as int, show_hidden),
        prev_visible(s, current, show_hidden) matches Some(id) ==> exists|i: int|
            0 <= i < s.len() && #[trigger] s[i].id == id && visible(s[i], show_hidden),
{
    let end = prev_search_end(s, current);
    if let Some(id) = current {
        lemma_position_of(s, id);
    }
    assert(0 <= end <= s.len());
    lemma_last_visible_in(s, 0, end, show_hidden);
    lemma_last_visible_in(s, end, s.len() as int, show_hidden);
    if any_visible(s, 0, s.len() as int, show_hidden) {
        let k = choose|k: int| 0 <= k < s.len() && visible(s[k], show_hidden);
        if k < end {
            assert(any_visible(s, 0, end, show_hidden));
        } else {
            assert(any_visible(s, end, s.len() as int, show_hidden));
        }
    }
}

/// On a board with strictly increasing ids, stepping back from the next
/// visible note returns to the visible note one started from.
pub proof fn law_prev_undoes_next(s: Seq<NoteView>, p: int, show_hidden: bool)
    requires
        forall|i: int, j: int| 0 <= i < j < s.len() ==> s[i].id < s[j].id,
        0 <= p < s.len(),
        visible(s[p], show_hidden),
    ensures
        next_visible(s, Some(s[p].id), show_hidden) matches Some(n)
            && prev_visible(s, Some(n), show_hidden) == Some(s[p].id),
{
    let len = s.len() as int;
    lemma_position_of_increasing(s, p);
    assert(next_search_start(s, Some(s[p].id)) == p + 1);
    lemma_first_visible_in(s, p + 1, len, show_hidden);
    let q: int;
    if any_visible(s, p + 1, len, show_hidden) {
        q = first_visible_in(s, p + 1, len, show_hidden).unwrap();
        assert(next_visible(s, Some(s[p].id), show_hidden) == Some(s[q].id));
        lemma_position_of_increasing(s, q);
        assert(prev_search_end(s, Some(s[q].id)) == q);
        assert(is_last_visible(s, 0, q, show_hidden, p));
        lemma_last_visible_is(s, 0, q, show_hidden, p);
    } else {
        lemma_first_visible_exists(s, 0, p + 1, show_hidden, p);
        let hi = p + 1;
        q = choose|i: int| is_first_visible(s, 0, hi, show_hidden, i);
        lemma_first_visible_is(s, 0, p + 1, show_hidden, q);
        assert(next_visible(s, Some(s[p].id), show_hidden) == Some(s[q].id));
        lemma_position_of_increasing(s, q);
        assert(prev_search_end(s, Some(s[q].id)) == q);
        lemma_last_visible_in(s, 0, q, show_hidden);
        assert(!any_visible(s, 0, q, show_hidden));
        assert(is_last_visible(s, q, len, show_hidden, p));
        lemma_last_visible_is(s, q, len, show_hidden, p);
    }
}

/// On a board with strictly increasing ids, stepping forward from the previous
/// visible note returns to the visible note one started from.
pub proof fn law_next_undoes_prev(s: Seq<NoteView>, p: int, show_hidden: bool)
    requires
        forall|i: int, j: int| 0 <= i < j < s.len() ==> s[i].id < s[j].id,
        0 <= p < s.len(),
        visible(s[p], show_hidden),
    ensures
        prev_visible(s, Some(s[p].id), show_hidden) matches Some(n)
            && next_visible(s, Some(n), show_hidden) == Some(s[p].id),
{
    let len = s.len() as int;
    lemma_position_of_increasing(s, p);
    assert(prev_search_end(s, Some(s[p].id)) == p);
    lemma_last_visible_in(s, 0, p, show_hidden);
    let q: int;
    if any_visible(s, 0, p, show_hidden) {
        q = last_visible_in(s, 0, p, show_hidden).unwrap();
        assert(prev_visible(s, Some(s[p].id), show_hidden) == Some(s[q].id));
        lemma_position_of_increasing(s, q);
        assert(next_search_start(s, Some(s[q].id)) == q + 1);
        assert(is_first_visible(s, q + 1, len, show_hidden, p));
        lemma_first_visible_is(s, q + 1, len, show_hidden, p);
    } else {
        lemma_last_visible_exists(s, p, len, show_hidden, p);
        q = choose|i: int| is_last_visible(s, p, len, show_hidden, i);
        lemma_last_visible_is(s, p, len, show_hidden, q);
        assert(prev_visible(s, Some(s[p].id), show_hidden) == Some(s[q].id));
        lemma_position_of_increasing(s, q);
        assert(next_search_start(s, Some(s[q].id)) == q + 1);
        lemma_first_visible_in(s, q + 1, len, show_hidden);
        assert(!any_visible(s, q + 1, len, show_hidden));
        assert(is_first_visible(s, 0, q + 1, show_hidden, p));
        lemma_first_visible_is(s, 0, q + 1, show_hidden, p);
    }
}

/// Every command of the application keeps its board well-formed.
pub proof fn law_commands_keep_well_formed(a: AppView, action: Action, id: u64)
    requires
        a.board.well_formed(),
        action is NewNote ==> a.board.next_id < u64::MAX,
    ensures
        a.saved().board.well_formed(),
        a.after_action(action).0.board.well_formed(),
        a.after_click(id).board.well_formed(),
{
    let t = a.edit_title;
    let c = a.edit_content;
    law_operations_keep_well_formed(a.board, id, t, c, false);
    if let Some(sel) = a.selected {
        law_operations_keep_well_formed(a.board, sel, t, c, false);
        law_operations_keep_well_formed(a.saved_board(), sel, t, c, true);
        law_operations_keep_well_formed(a.saved_board(), sel, t, c, false);
    }
    if a.board.next_id < u64::MAX {
        law_operations_keep_well_formed(a.board, id, "新标签"@, "新标签内容"@, false);
    }
}

/// A new note added by the application is selected, present on the board,
/// and its title and content are what the edit buffers hold.
pub proof fn law_new_note_is_selected(a: AppView)
    requires
        a.board.well_formed(),
        a.board.next_id < u64::MAX,
    ensures
        ({
            let b = a.after_new_note();
            &&& b.selected == Some(a.board.next_id)
            &&& has_id(b.board.notes, a.board.next_id)
            &&& b.board.notes[position_of(b.board.notes, a.board.next_id)].title == b.edit_title
            &&& b.board.notes[position_of(b.board.notes, a.board.next_id)].content == b.edit_content
        }),
{
    law_added_note_is_found(a.board, crate::app::new_note_title(), crate::app::new_note_content());
}

/// Restoring what a save kept gives back the board as it was after the save
/// (the edit buffers written into the selected note; same notes, order, ids,
/// titles, contents, hidden flags and next id), with nothing selected, hidden
/// notes not listed and empty edit buffers.
pub proof fn law_restore_after_save(a: AppView, notes: Seq<NoteView>, next_id: u64)
    requires
        (BoardView { notes, next_id }) == a.saved().board,
    ensures
        restored(BoardView { notes, next_id }) == (AppView {
            board: a.saved_board(),
            selected: None,
            show_hidden: false,
            edit_title: Seq::empty(),
            edit_content: Seq::empty(),
        }),
        restored(BoardView { notes, next_id }).board.notes == a.saved_board().notes,
        restored(BoardView { notes, next_id }).board.next_id == a.saved_board().next_id,
{
}

/// `after` is `before` with the note at position `p` replaced by `n`, and
/// every other note left as it was.
pub open spec fn only_note_replaced(before: Seq<NoteView>, after: Seq<NoteView>, p: int, n: NoteView) -> bool {
    &&& 0 <= p < before.len()
    &&& after.len() == before.len()
    &&& after[p] == n
    &&& forall|j: int| 0 <= j < before.len() && j != p ==> after[j] == before[j]
}

/// Toggling the hidden flag of note `id` flips the flag of the first note
/// carrying `id` and changes nothing else; without such a note nothing changes.
pub proof fn law_toggle_flips_only_that_note(v: BoardView, id: u64)
    ensures
        v.toggle_hidden(id).next_id == v.next_id,
        !has_id(v.notes, id) ==> v.toggle_hidden(id) == v,
        has_id(v.notes, id) ==> {
            let p = position_of(v.notes, id);
            &&& is_first_with_id(v.notes, id, p)
            &&& only_note_replaced(
                v.notes,
                v.toggle_hidden(id).notes,
                p,
                NoteView { hidden: !v.notes[p].hidden, ..v.notes[p] },
            )
        },
{
    lemma_position_of(v.notes, id);
}

/// Saving the edits writes the edit buffers into the selected note (its id
/// and hidden flag kept) and changes nothing else; with no selected note on
/// the board the board stays as it is.
pub proof fn law_save_writes_buffers(a: AppView)
    ensures
        a.saved_board().next_id == a.board.next_id,
        a.saved().selected == a.selected,
        a.saved().show_hidden == a.show_hidden,
        a.saved().edit_title == a.edit_title,
        a.saved().edit_content == a.edit_content,
        a.selected matches Some(s) ==> has_id(a.board.notes, s) ==> {
            let p = position_of(a.board.notes, s);
            &&& is_first_with_id(a.board.notes, s, p)
            &&& only_note_replaced(
                a.board.notes,
                a.saved_board().notes,
                p,
                NoteView { title: a.edit_title, content: a.edit_content, ..a.board.notes[p] },
            )
        },
        !(a.selected matches Some(s) && has_id(a.board.notes, s)) ==> a.saved_board() == a.board,
{
    if let Some(s) = a.selected {
        lemma_position_of(a.board.notes, s);
    }
}

/// Unhiding the selected note first writes the edit buffers into it, then
/// shows it, and clears the selection; no other note changes. A selected id
/// that is not on the board fails and changes nothing; with nothing selected
/// nothing happens.
pub proof fn law_unhide_saves_then_shows(a: AppView)
    ensures
        a.selected is None ==> a.after_unhide() == (a, true),
        a.selected matches Some(s) ==> !has_id(a.board.notes, s) ==> a.after_unhide() == (a, false),
        a.selected matches Some(s) ==> has_id(a.board.notes, s) ==> {
            let p = position_of(a.board.notes, s);
            let b = a.after_unhide().0;
            &&& a.after_unhide().1
            &&& is_first_with_id(a.board.notes, s, p)
            &&& only_note_replaced(
                a.board.notes,
                b.board.notes,
                p,
                NoteView { title: a.edit_title, content: a.edit_content, hidden: false, ..a.board.notes[p] },
            )
            &&& b.board.next_id == a.board.next_id
            &&& b.selected is None
            &&& b.show_hidden == a.show_hidden
            &&& b.edit_title == a.edit_title
            &&& b.edit_content == a.edit_content
        },
{
    law_save_writes_buffers(a);
    if let Some(s) = a.selected {
        lemma_position_of(a.board.notes, s);
        if has_id(a.board.notes, s) {
            lemma_position_of_same_ids(a.board.notes, a.saved_board().notes, s);
        } else {
            assert(a.saved() == a);
        }
    }
}

/// Hiding the selected note first writes the edit buffers into it, then
/// hides it, stops listing hidden notes and clears the selection; no other
/// note changes. A selected id that is not on the board fails and changes
/// nothing; with nothing selected nothing happens.
pub proof fn law_hide_saves_then_hides(a: AppView)
    ensures
        a.selected is None ==> a.after_hide() == (a, true),
        a.selected matches Some(s) ==> !has_id(a.board.notes, s) ==> a.after_hide() == (a, false),
        a.selected matches Some(s) ==> has_id(a.board.notes, s) ==> {
            let p = position_of(a.board.notes, s);
            let b = a.after_hide().0;
            &&& a.after_hide().1
            &&& is_first_with_id(a.board.notes, s, p)
            &&& only_note_replaced(
                a.board.notes,
                b.board.notes,
                p,
                NoteView { title: a.edit_title, content: a.edit_content, hidden: true, ..a.board.notes[p] },
            )
            &&& b.board.next_id == a.board.next_id
            &&& b.selected is None
            &&& !b.show_hidden
            &&& b.edit_title == a.edit_title
            &&& b.edit_content == a.edit_content
        },
{
    law_save_writes_buffers(a);
    if let Some(s) = a.selected {
        lemma_position_of(a.board.notes, s);
        if has_id(a.board.notes, s) {
            lemma_position_of_same_ids(a.board.notes, a.saved_board().notes, s);
        } else {
            assert(a.saved() == a);
        }
    }
}

/// A click on a row first writes the edit buffers into the selected note,
/// whether the click selects or deselects. Clicking the selected note clears
/// the selection; clicking another selects it and loads its title and
/// content, as the board had them, into the edit buffers.
pub proof fn law_click_saves_then_selects(a: AppView, id: u64)
    ensures
        a.after_click(id).board == a.saved_board(),
        a.after_click(id).show_hidden == a.show_hidden,
        a.selected == Some(id) ==> {
            let b = a.after_click(id);
            &&& b.selected is None
            &&& b.edit_title == a.edit_title
            &&& b.edit_content == a.edit_content
        },
        a.selected != Some(id) ==> {
            let b = a.after_click(id);
            &&& b.selected == Some(id)
            &&& has_id(a.board.notes, id) ==> {
                &&& b.edit_title == a.board.notes[position_of(a.board.notes, id)].title
                &&& b.edit_content == a.board.notes[position_of(a.board.notes, id)].content
            }
            &&& !has_id(a.board.notes, id) ==> b.edit_title == a.edit_title && b.edit_content == a.edit_content
        },
{
    law_save_writes_buffers(a);
    let saved = a.saved_board().notes;
    lemma_position_of(a.board.notes, id);
    if let Some(s) = a.selected {
        lemma_position_of(a.board.notes, s);
    }
    if a.selected != Some(id) {
        if a.selected matches Some(s) && has_id(a.board.notes, s) {
            lemma_position_of_same_ids(a.board.notes, saved, id);
            if has_id(a.board.notes, id) {
                let q = position_of(a.board.notes, id);
                let p = position_of(a.board.notes, a.selected.unwrap());
                assert(a.board.notes[q].id != a.board.notes[p].id);
                assert(saved[q] == a.board.notes[q]);
            }
        }
    }
}

/// Moving to a note that is found is a move to a visible note of the board,
/// whose title and content the edit buffers then hold.
proof fn lemma_move_loads(a: AppView, target: Option<u64>)
    requires
        target matches Some(n) ==> exists|i: int|
            0 <= i < a.saved_board().notes.len() && #[trigger] a.saved_board().notes[i].id == n
                && visible(a.saved_board().notes[i], a.show_hidden),
    ensures
        a.move_to(target).board == a.saved_board(),
        a.move_to(target).show_hidden == a.show_hidden,
        a.move_to(target).selected == target,
        target matches Some(n) ==> {
            let b = a.move_to(target);
            let q = position_of(b.board.notes, n);
            &&& has_id(b.board.notes, n)
            &&& b.edit_title == b.board.notes[q].title
            &&& b.edit_content == b.board.notes[q].content
        },
{
}

/// Moving to the next note saves the edits, then selects a visible note of
/// the board and loads its title and content into the edit buffers; the
/// selection is cleared exactly when no note is visible.
pub proof fn law_select_next_loads_visible(a: AppView)
    ensures
        a.after_next().board == a.saved_board(),
        a.after_next().show_hidden == a.show_hidden,
        a.after_next().selected is None <==> !any_visible(
            a.saved_board().notes,
            0,
            a.saved_board().notes.len() as int,
            a.show_hidden,
        ),
        a.after_next().selected matches Some(n) ==> {
            let b = a.after_next();
            let q = position_of(b.board.notes, n);
            &&& exists|i: int| 0 <= i < b.board.notes.len() && #[trigger] b.board.notes[i].id == n
                && visible(b.board.notes[i], b.show_hidden)
            &&& b.edit_title == b.board.notes[q].title
            &&& b.edit_content == b.board.notes[q].content
        },
{
    let target = next_visible(a.saved_board().notes, a.selected, a.show_hidden);
    law_next_visible_is_visible(a.saved_board().notes, a.selected, a.show_hidden);
    lemma_move_loads(a, target);
}

/// Moving to the previous note saves the edits, then selects a visible note
/// of the board and loads its title and content into the edit buffers; the
/// selection is cleared exactly when no note is visible.
pub proof fn law_select_prev_loads_visible(a: AppView)
    ensures
        a.after_prev().board == a.saved_board(),
        a.after_prev().show_hidden == a.show_hidden,
        a.after_prev().selected is None <==> !any_visible(
            a.saved_board().notes,
            0,
            a.saved_board().notes.len() as int,
            a.show_hidden,
        ),
        a.after_prev().selected matches Some(n) ==> {
            let b = a.after_prev();
            let q = position_of(b.board.notes, n);
            &&& exists|i: int| 0 <= i < b.board.notes.len() && #[trigger] b.board.notes[i].id == n
                && visible(b.board.notes[i], b.show_hidden)
            &&& b.edit_title == b.board.notes[q].title
            &&& b.edit_content == b.board.notes[q].content
        },
{
    let target = prev_visible(a.saved_board().notes, a.selected, a.show_hidden);
    law_prev_visible_is_visible(a.saved_board().notes, a.selected, a.show_hidden);
    lemma_move_loads(a, target);
}

/// Filtering by a predicate that every element meets keeps the sequence.
proof fn lemma_filter_all(s: Seq<NoteView>, pred: spec_fn(NoteView) -> bool)
    requires
        forall|i: int| 0 <= i < s.len() ==> pred(#[trigger] s[i]),
    ensures
        s.filter(pred) == s,
    decreases s.len(),
{
    reveal_with_fuel(Seq::filter, 1);
    if s.len() > 0 {
        let r = s.drop_last();
        assert forall|i: int| 0 <= i < r.len() implies pred(#[trigger] r[i]) by {
            assert(r[i] == s[i]);
        }
        lemma_filter_all(r, pred);
        assert(s.drop_last().push(s.last()) =~= s);
    }
}

/// With hidden notes shown, the list has one row per note, in board order.
/// Without them, every row is a note of the board that is not hidden, and
/// every note that is not hidden has its row.
pub proof fn law_list_rows(s: Seq<NoteView>)
    ensures
        list_rows(s, true).len() == s.len(),
        forall|i: int| 0 <= i < s.len() ==> #[trigger] list_rows(s, true)[i] == list_row(s[i]),
        forall|k: int| 0 <= k < list_rows(s, false).len() ==> {
            &&& !(#[trigger] list_rows(s, false)[k]).2
            &&& exists|i: int| 0 <= i < s.len() && !s[i].hidden && list_row(s[i]) == list_rows(s, false)[k]
        },
        forall|i: int| 0 <= i < s.len() && !s[i].hidden ==> exists|k: int|
            0 <= k < list_rows(s, false).len() && list_rows(s, false)[k] == list_row(#[trigger] s[i]),
{
    let pf = |n: NoteView| visible(n, false);
    lemma_filter_all(s, |n: NoteView| visible(n, true));
    assert(s.filter(|n: NoteView| visible(n, true)) == s);
    let f = s.filter(pf);
    assert forall|k: int| 0 <= k < list_rows(s, false).len() implies {
        &&& !(#[trigger] list_rows(s, false)[k]).2
        &&& exists|i: int| 0 <= i < s.len() && !s[i].hidden && list_row(s[i]) == list_rows(s, false)[k]
    } by {
        s.lemma_filter_pred(pf, k);
        assert(f.contains(f[k]));
        s.lemma_filter_contains_rev(pf, f[k]);
        let i = choose|i: int| 0 <= i < s.len() && s[i] == f[k];
        assert(list_row(s[i]) == list_rows(s, false)[k]);
    }
    assert forall|i: int| 0 <= i < s.len() && !s[i].hidden implies exists|k: int|
        0 <= k < list_rows(s, false).len() && list_rows(s, false)[k] == list_row(#[trigger] s[i]) by {
        s.lemma_filter_contains(pf, i);
        let k = choose|k: int| 0 <= k < f.len() && f[k] == s[i];
        assert(list_rows(s, false)[k] == list_row(s[i]));
    }
}

} // verus!
