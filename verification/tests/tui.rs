use sticky::model::{Note, NoteType, Timestamp};
use sticky::tui::{action_for_key, label_color, list_title, short_id, status_area, type_label, type_tag, Action, App, Key, LabelColor, Rect};

fn note(id: &str) -> Note {
    Note::created_at(id.to_string(), format!("title {}", id), NoteType::Text, Timestamp { seconds: 0, nanos: 0, offset_seconds: 0 })
}

fn notes(ids: &[&str]) -> Vec<Note> {
    ids.iter().map(|i| note(i)).collect()
}

#[test]
fn new_app_selects_the_first_note() {
    let app = App::new(notes(&["a", "b"]));
    assert_eq!(app.selected, Some(0));
    assert!(!app.should_quit);
    assert!(app.status_message.is_none());
    assert_eq!(App::new(Vec::new()).selected, None);
}

#[test]
fn next_and_previous_wrap_around() {
    let mut app = App::new(notes(&["a", "b", "c"]));
    app.next();
    assert_eq!(app.selected, Some(1));
    app.next();
    app.next();
    assert_eq!(app.selected, Some(0));
    app.previous();
    assert_eq!(app.selected, Some(2));
    app.previous();
    assert_eq!(app.selected, Some(1));
    let mut empty = App::new(Vec::new());
    empty.next();
    empty.previous();
    assert_eq!(empty.selected, None);
}

#[test]
fn refresh_follows_the_selected_note() {
    let mut app = App::new(notes(&["a", "b", "c"]));
    app.next();
    assert!(app.refresh_notes(Ok(notes(&["x", "b", "a"]))));
    assert_eq!(app.selected, Some(1));
    assert!(app.refresh_notes(Ok(notes(&["x", "y"]))));
    assert_eq!(app.selected, Some(0));
    assert!(app.refresh_notes(Ok(Vec::new())));
    assert_eq!(app.selected, None);
    assert!(app.refresh_notes(Ok(notes(&["q"]))));
    assert_eq!(app.selected, Some(0));
}

#[test]
fn refresh_error_keeps_the_list() {
    let mut app = App::new(notes(&["a", "b"]));
    app.next();
    assert!(!app.refresh_notes(Err("disk gone".to_string())));
    assert_eq!(app.notes.len(), 2);
    assert_eq!(app.selected, Some(1));
    assert_eq!(app.status_message.as_deref(), Some("Refresh error: disk gone"));
}

#[test]
fn refresh_key_reports_success() {
    let mut app = App::new(notes(&["a"]));
    app.refresh_by_key(Ok(notes(&["a", "b"])));
    assert_eq!(app.status_message.as_deref(), Some("Refreshed"));
    app.refresh_by_key(Err("no".to_string()));
    assert_eq!(app.status_message.as_deref(), Some("Refresh error: no"));
}

#[test]
fn created_and_deleted_notes_are_reported() {
    let mut app = App::new(notes(&["a", "b"]));
    assert_eq!(app.note_created(Ok("abc".to_string())), Some("abc".to_string()));
    assert_eq!(app.status_message.as_deref(), Some("Created note: abc"));
    assert_eq!(app.note_created(Err("full".to_string())), None);
    assert_eq!(app.status_message.as_deref(), Some("Error: full"));

    app.next();
    let target = app.delete_target().unwrap();
    assert_eq!(target.id, "b");
    assert!(app.note_deleted(&target.title, Ok(())));
    assert_eq!(app.status_message.as_deref(), Some("Deleted: title b"));
    assert!(!app.note_deleted(&target.title, Err("busy".to_string())));
    assert_eq!(app.status_message.as_deref(), Some("Error: busy"));
    assert_eq!(app.open_target(), Some("b".to_string()));

    let empty = App::new(Vec::new());
    assert!(empty.delete_target().is_none());
    assert!(empty.open_target().is_none());
}

#[test]
fn quit_sets_the_flag() {
    let mut app = App::new(Vec::new());
    app.quit();
    assert!(app.should_quit);
}

#[test]
fn keys_map_to_actions() {
    assert_eq!(action_for_key(Key::Char('q'), true), Action::Quit);
    assert_eq!(action_for_key(Key::Esc, true), Action::Quit);
    assert_eq!(action_for_key(Key::Char('n'), true), Action::Create(NoteType::Text));
    assert_eq!(action_for_key(Key::Char('N'), true), Action::Create(NoteType::List));
    assert_eq!(action_for_key(Key::Char('M'), true), Action::Create(NoteType::Markdown));
    assert_eq!(action_for_key(Key::Char('d'), true), Action::DeleteSelected);
    assert_eq!(action_for_key(Key::Enter, true), Action::OpenSelected);
    assert_eq!(action_for_key(Key::Char('O'), true), Action::OpenSelected);
    assert_eq!(action_for_key(Key::Char('R'), true), Action::Refresh);
    assert_eq!(action_for_key(Key::Char('j'), true), Action::Next);
    assert_eq!(action_for_key(Key::Down, true), Action::Next);
    assert_eq!(action_for_key(Key::Char('k'), true), Action::Previous);
    assert_eq!(action_for_key(Key::Up, true), Action::Previous);
    assert_eq!(action_for_key(Key::Char('x'), true), Action::Nothing);
    assert_eq!(action_for_key(Key::Other, true), Action::Nothing);
    assert_eq!(action_for_key(Key::Char('q'), false), Action::Nothing);
}

#[test]
fn rows_show_type_and_short_id() {
    assert_eq!(type_label(NoteType::Text), "TEXT");
    assert_eq!(type_label(NoteType::Markdown), "MD ");
    assert_eq!(type_tag(NoteType::List), "[LIST] ");
    assert_eq!(label_color(NoteType::List), LabelColor::Blue);
    assert_eq!(short_id("0123456789abcdef"), " (01234567)");
    assert_eq!(short_id("abc"), " (abc)");
    assert_eq!(short_id("ééééééééé"), " (éééééééé)");
    assert_eq!(list_title(0), " Notes (0) ");
    assert_eq!(list_title(12), " Notes (12) ");
}

#[test]
fn status_box_sits_at_the_bottom_of_the_list() {
    let area = Rect { x: 0, y: 3, width: 80, height: 20 };
    assert_eq!(status_area(area, 9), Rect { x: 2, y: 20, width: 13, height: 3 });
    assert_eq!(status_area(area, 200), Rect { x: 2, y: 20, width: 76, height: 3 });
    let tiny = Rect { x: 1, y: 65534, width: 2, height: 2 };
    assert_eq!(status_area(tiny, 5), Rect { x: 3, y: 65534, width: 0, height: 3 });
}
