use simple_note::{Action, SimpleNoteApp};

fn app_with(n: usize) -> SimpleNoteApp {
    let mut app = SimpleNoteApp::default();
    for _ in 0..n {
        app.new_note();
    }
    app
}

#[test]
fn default_app_is_empty() {
    let app = SimpleNoteApp::default();
    assert!(app.board().notes().is_empty());
    assert_eq!(app.selected_id(), None);
    assert!(!app.show_hidden());
    assert_eq!(app.edit_title(), "");
    assert_eq!(app.edit_content(), "");
    assert!(!app.selected_note_present());
    assert!(app.list_rows().is_empty());
}

#[test]
fn new_note_is_selected_and_loaded() {
    let mut app = SimpleNoteApp::default();
    app.new_note();
    assert_eq!(app.selected_id(), Some(0));
    assert_eq!(app.edit_title(), "新标签");
    assert_eq!(app.edit_content(), "新标签内容");
    assert!(app.selected_note_present());
    assert_eq!(app.board().notes()[0].title, "新标签");
}

#[test]
fn save_edits_writes_buffers_into_selected_note() {
    let mut app = app_with(2);
    app.set_edit_buffers("title".to_string(), "body".to_string());
    app.save_edits();
    let note = &app.board().notes()[1];
    assert_eq!(note.title, "title");
    assert_eq!(note.content, "body");
    assert_eq!(app.board().notes()[0].title, "新标签");
}

#[test]
fn click_saves_then_selects_and_loads() {
    let mut app = app_with(2);
    app.set_edit_buffers("second".to_string(), "2".to_string());
    app.click_note(0);
    assert_eq!(app.selected_id(), Some(0));
    assert_eq!(app.edit_title(), "新标签");
    assert_eq!(app.board().notes()[1].title, "second");
    // clicking the selected note again clears the selection
    app.click_note(0);
    assert_eq!(app.selected_id(), None);
    // clicking the other one loads its saved text
    app.click_note(1);
    assert_eq!(app.edit_title(), "second");
    assert_eq!(app.edit_content(), "2");
}

#[test]
fn delete_selected_clears_selection() {
    let mut app = app_with(2);
    assert_eq!(app.delete_selected(), Ok(()));
    assert_eq!(app.selected_id(), None);
    assert_eq!(app.board().notes().len(), 1);
    // nothing selected: nothing happens
    assert_eq!(app.delete_selected(), Ok(()));
    assert_eq!(app.board().notes().len(), 1);
}

#[test]
fn delete_selected_of_missing_note_fails() {
    let mut app = app_with(1);
    app.click_note(5);
    assert_eq!(app.selected_id(), Some(5));
    assert_eq!(app.delete_selected(), Err("没有找到 id 为 5 的便利贴".to_string()));
    assert_eq!(app.selected_id(), Some(5));
    assert!(!app.selected_note_present());
}

#[test]
fn hide_selected_saves_hides_and_deselects() {
    let mut app = app_with(2);
    app.set_show_hidden(true);
    app.set_edit_buffers("kept".to_string(), "text".to_string());
    assert_eq!(app.hide_selected(), Ok(()));
    assert_eq!(app.selected_id(), None);
    assert!(!app.show_hidden());
    let note = &app.board().notes()[1];
    assert!(note.hidden);
    assert_eq!(note.title, "kept");
    let rows = app.list_rows();
    assert_eq!(rows, vec![(0, "新标签".to_string(), false)]);
}

#[test]
fn unhide_selected_shows_and_deselects() {
    let mut app = app_with(1);
    app.hide_selected().unwrap();
    app.set_show_hidden(true);
    assert_eq!(app.list_rows(), vec![(0, "新标签".to_string(), true)]);
    app.click_note(0);
    assert_eq!(app.unhide_selected(), Ok(()));
    assert_eq!(app.selected_id(), None);
    assert!(!app.board().notes()[0].hidden);
    assert!(app.show_hidden());
}

#[test]
fn select_next_and_prev_wrap() {
    let mut app = app_with(3);
    assert_eq!(app.selected_id(), Some(2));
    app.select_next();
    assert_eq!(app.selected_id(), Some(0));
    app.select_next();
    assert_eq!(app.selected_id(), Some(1));
    app.select_prev();
    assert_eq!(app.selected_id(), Some(0));
    app.select_prev();
    assert_eq!(app.selected_id(), Some(2));
}

#[test]
fn select_next_with_nothing_visible_clears_selection() {
    let mut app = app_with(1);
    app.hide_selected().unwrap();
    app.select_next();
    assert_eq!(app.selected_id(), None);
    app.select_prev();
    assert_eq!(app.selected_id(), None);
}

#[test]
fn actions_follow_their_commands() {
    let mut app = SimpleNoteApp::default();
    assert_eq!(app.apply(Action::NewNote), Ok(()));
    assert_eq!(app.apply(Action::NewNote), Ok(()));
    assert_eq!(app.selected_id(), Some(1));
    assert_eq!(app.apply(Action::ToggleHideNote), Ok(()));
    assert!(app.board().notes()[1].hidden);
    assert_eq!(app.selected_id(), None);
    assert_eq!(app.apply(Action::ToggleShowHidden), Ok(()));
    assert!(app.show_hidden());
    assert_eq!(app.apply(Action::PrevNote), Ok(()));
    assert_eq!(app.selected_id(), Some(1));
    assert_eq!(app.apply(Action::ToggleHideNote), Ok(()));
    assert!(!app.board().notes()[1].hidden);
    assert_eq!(app.apply(Action::NextNote), Ok(()));
    assert_eq!(app.selected_id(), Some(0));
    assert_eq!(app.apply(Action::DeleteNote), Ok(()));
    assert_eq!(app.board().notes().len(), 1);
    assert_eq!(app.selected_id(), None);
}

#[test]
fn restore_after_save_gives_back_the_board() {
    let mut app = app_with(3);
    app.click_note(1);
    app.hide_selected().unwrap();
    app.click_note(2);
    app.set_edit_buffers("edited".to_string(), "body".to_string());
    let (notes, next_id) = app.save();
    assert_eq!(app.board().notes()[2].title, "edited");
    let restored = SimpleNoteApp::restore(notes, next_id);
    assert_eq!(restored.selected_id(), None);
    assert!(!restored.show_hidden());
    assert_eq!(restored.edit_title(), "");
    assert_eq!(restored.edit_content(), "");
    assert_eq!(restored.board().next_id(), 3);
    let rows = |a: &SimpleNoteApp| -> Vec<(u64, String, String, bool)> {
        a.board()
            .notes()
            .iter()
            .map(|n| (n.id, n.title.clone(), n.content.clone(), n.hidden))
            .collect()
    };
    assert_eq!(rows(&restored), rows(&app));
    assert_eq!(rows(&restored)[2], (2, "edited".to_string(), "body".to_string(), false));
    assert!(rows(&restored)[1].3);
}
