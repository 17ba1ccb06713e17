use simple_note::{Board, Note};

fn ids(board: &Board) -> Vec<u64> {
    board.notes().iter().map(|n| n.id).collect()
}

fn board_with(n: u64) -> Board {
    let mut board = Board::new();
    for i in 0..n {
        board.add_note(format!("title {i}"), format!("content {i}"));
    }
    board
}

#[test]
fn note_new_is_visible() {
    let note = Note::new(7, "t".to_string(), "c".to_string());
    assert_eq!(note.id, 7);
    assert_eq!(note.title, "t");
    assert_eq!(note.content, "c");
    assert!(!note.hidden);
}

#[test]
fn new_board_is_empty() {
    let board = Board::new();
    assert!(board.notes().is_empty());
    assert_eq!(board.next_id(), 0);
}

#[test]
fn add_note_assigns_increasing_ids() {
    let mut board = Board::new();
    let first = board.add_note("a".to_string(), "x".to_string());
    assert_eq!(first.id, 0);
    assert_eq!(first.title, "a");
    assert_eq!(first.content, "x");
    assert!(!first.hidden);
    let second = board.add_note("b".to_string(), "y".to_string());
    assert_eq!(second.id, 1);
    assert_eq!(ids(&board), vec![0, 1]);
    assert_eq!(board.next_id(), 2);
}

#[test]
fn delete_note_removes_it() {
    let mut board = board_with(3);
    assert_eq!(board.delete_note(1), Ok(()));
    assert_eq!(ids(&board), vec![0, 2]);
    assert_eq!(board.next_id(), 3);
    // ids are never reused
    let note = board.add_note("new".to_string(), String::new());
    assert_eq!(note.id, 3);
}

#[test]
fn delete_missing_note_fails() {
    let mut board = board_with(2);
    assert_eq!(board.delete_note(5), Err("没有找到 id 为 5 的便利贴".to_string()));
    assert_eq!(ids(&board), vec![0, 1]);
    assert_eq!(
        board.delete_note(1234567890),
        Err("没有找到 id 为 1234567890 的便利贴".to_string())
    );
}

#[test]
fn delete_undoes_add() {
    let mut board = board_with(2);
    let id = board.add_note("tmp".to_string(), "tmp".to_string()).id;
    board.delete_note(id).unwrap();
    assert_eq!(ids(&board), vec![0, 1]);
    assert_eq!(board.next_id(), 3);
}

#[test]
fn edit_note_changes_title_and_content() {
    let mut board = board_with(2);
    board.hide_note(1).unwrap();
    assert_eq!(board.edit_note(1, "T".to_string(), "C".to_string()), Ok(()));
    let note = &board.notes()[1];
    assert_eq!(note.id, 1);
    assert_eq!(note.title, "T");
    assert_eq!(note.content, "C");
    assert!(note.hidden);
    assert_eq!(board.notes()[0].title, "title 0");
}

#[test]
fn edit_missing_note_fails() {
    let mut board = board_with(1);
    assert_eq!(
        board.edit_note(9, "T".to_string(), "C".to_string()),
        Err("没有找到 id 为 9 的便利贴".to_string())
    );
    assert_eq!(board.notes()[0].title, "title 0");
}

#[test]
fn hide_and_unhide() {
    let mut board = board_with(2);
    assert_eq!(board.hide_note(0), Ok(()));
    assert!(board.notes()[0].hidden);
    assert!(!board.notes()[1].hidden);
    assert_eq!(board.hide_note(0), Ok(()));
    assert!(board.notes()[0].hidden);
    assert_eq!(board.unhide_note(0), Ok(()));
    assert!(!board.notes()[0].hidden);
    assert_eq!(board.hide_note(4), Err("没有找到 id 为 4 的便利贴".to_string()));
    assert_eq!(board.unhide_note(0), Ok(()));
    assert_eq!(board.unhide_note(4), Err("没有找到 id 为 4 的便利贴".to_string()));
}

#[test]
fn toggle_twice_restores() {
    let mut board = board_with(2);
    board.toggle_hide_note(1);
    assert!(board.notes()[1].hidden);
    board.toggle_hide_note(1);
    assert!(!board.notes()[1].hidden);
    // a missing id changes nothing
    board.toggle_hide_note(8);
    assert!(!board.notes()[0].hidden && !board.notes()[1].hidden);
}

#[test]
fn next_visible_on_empty_board() {
    let board = Board::new();
    assert_eq!(board.next_visible_note(None, false), None);
    assert_eq!(board.next_visible_note(Some(0), true), None);
    assert_eq!(board.prev_visible_note(None, false), None);
    assert_eq!(board.prev_visible_note(Some(0), true), None);
}

#[test]
fn next_visible_steps_and_wraps() {
    let board = board_with(3);
    assert_eq!(board.next_visible_note(None, false), Some(0));
    assert_eq!(board.next_visible_note(Some(0), false), Some(1));
    assert_eq!(board.next_visible_note(Some(1), false), Some(2));
    assert_eq!(board.next_visible_note(Some(2), false), Some(0));
    // an id not on the board starts from the first note
    assert_eq!(board.next_visible_note(Some(42), false), Some(0));
}

#[test]
fn prev_visible_steps_and_wraps() {
    let board = board_with(3);
    assert_eq!(board.prev_visible_note(None, false), Some(2));
    assert_eq!(board.prev_visible_note(Some(2), false), Some(1));
    assert_eq!(board.prev_visible_note(Some(1), false), Some(0));
    assert_eq!(board.prev_visible_note(Some(0), false), Some(2));
    assert_eq!(board.prev_visible_note(Some(42), false), Some(2));
}

#[test]
fn navigation_skips_hidden_notes() {
    let mut board = board_with(4);
    board.hide_note(1).unwrap();
    board.hide_note(2).unwrap();
    assert_eq!(board.next_visible_note(Some(0), false), Some(3));
    assert_eq!(board.prev_visible_note(Some(3), false), Some(0));
    assert_eq!(board.next_visible_note(Some(0), true), Some(1));
    assert_eq!(board.prev_visible_note(Some(3), true), Some(2));
    // from a hidden note the search goes on from its position
    assert_eq!(board.next_visible_note(Some(1), false), Some(3));
    assert_eq!(board.prev_visible_note(Some(2), false), Some(0));
}

#[test]
fn single_visible_note_is_its_own_neighbour() {
    let mut board = board_with(3);
    board.hide_note(0).unwrap();
    board.hide_note(2).unwrap();
    assert_eq!(board.next_visible_note(Some(1), false), Some(1));
    assert_eq!(board.prev_visible_note(Some(1), false), Some(1));
    assert_eq!(board.next_visible_note(Some(2), false), Some(1));
}

#[test]
fn no_visible_note_gives_none() {
    let mut board = board_with(2);
    board.hide_note(0).unwrap();
    board.hide_note(1).unwrap();
    assert_eq!(board.next_visible_note(Some(0), false), None);
    assert_eq!(board.prev_visible_note(None, false), None);
    assert_eq!(board.next_visible_note(None, true), Some(0));
}

#[test]
fn prev_undoes_next_on_concrete_board() {
    let mut board = board_with(6);
    board.hide_note(2).unwrap();
    board.hide_note(5).unwrap();
    for id in [0u64, 1, 3, 4] {
        let next = board.next_visible_note(Some(id), false).unwrap();
        assert_eq!(board.prev_visible_note(Some(next), false), Some(id));
        let prev = board.prev_visible_note(Some(id), false).unwrap();
        assert_eq!(board.next_visible_note(Some(prev), false), Some(id));
    }
}

#[test]
fn from_parts_keeps_notes_and_next_id() {
    let notes = vec![
        Note::new(4, "a".to_string(), "b".to_string()),
        Note::new(9, "c".to_string(), "d".to_string()),
    ];
    let mut board = Board::from_parts(notes, 10);
    assert_eq!(ids(&board), vec![4, 9]);
    assert_eq!(board.next_id(), 10);
    assert_eq!(board.add_note(String::new(), String::new()).id, 10);
}

#[test]
fn duplicate_ids_act_on_the_first() {
    let notes = vec![
        Note::new(1, "a".to_string(), String::new()),
        Note::new(1, "b".to_string(), String::new()),
    ];
    let mut board = Board::from_parts(notes, 2);
    board.hide_note(1).unwrap();
    assert!(board.notes()[0].hidden);
    assert!(!board.notes()[1].hidden);
    board.delete_note(1).unwrap();
    assert_eq!(board.notes()[0].title, "b");
}

#[test]
fn default_board_is_empty() {
    let board = Board::default();
    assert!(board.notes().is_empty());
    assert_eq!(board.next_id(), 0);
}

#[test]
fn board_rebuilt_from_its_parts_is_the_same() {
    let mut board = board_with(3);
    board.hide_note(1).unwrap();
    board.delete_note(0).unwrap();
    let copies: Vec<Note> = board
        .notes()
        .iter()
        .map(|n| Note {
            id: n.id,
            title: n.title.clone(),
            content: n.content.clone(),
            hidden: n.hidden,
        })
        .collect();
    let rebuilt = Board::from_parts(copies, board.next_id());
    assert_eq!(rebuilt.next_id(), 3);
    let a: Vec<(u64, String, String, bool)> = board
        .notes()
        .iter()
        .map(|n| (n.id, n.title.clone(), n.content.clone(), n.hidden))
        .collect();
    let b: Vec<(u64, String, String, bool)> = rebuilt
        .notes()
        .iter()
        .map(|n| (n.id, n.title.clone(), n.content.clone(), n.hidden))
        .collect();
    assert_eq!(a, b);
}

#[test]
fn to_parts_copies_notes_and_next_id() {
    let mut board = board_with(2);
    board.hide_note(0).unwrap();
    let (notes, next_id) = board.to_parts();
    assert_eq!(next_id, 2);
    assert_eq!(notes.len(), 2);
    assert_eq!(notes[0].id, 0);
    assert!(notes[0].hidden);
    assert_eq!(notes[1].title, "title 1");
    assert_eq!(notes[1].content, "content 1");
    let rebuilt = Board::from_parts(notes, next_id);
    assert_eq!(ids(&rebuilt), vec![0, 1]);
}
