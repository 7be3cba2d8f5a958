use sticky::cli::{created_report, deleted_report, list_line, note_type_from_name, open_report, parse_note_type, Cli, CliError, Command};
use sticky::model::{Note, NoteType, Timestamp};

fn note(id: &str, title: &str, t: NoteType, body: &str) -> Note {
    let mut n = Note::created_at(id.to_string(), title.to_string(), t, Timestamp { seconds: 0, nanos: 0, offset_seconds: 0 });
    n.body = body.to_string();
    n
}

#[test]
fn note_types_are_named_in_any_case() {
    assert!(matches!(parse_note_type("text"), Ok(NoteType::Text)));
    assert!(matches!(parse_note_type("TEXT"), Ok(NoteType::Text)));
    assert!(matches!(parse_note_type("List"), Ok(NoteType::List)));
    assert!(matches!(parse_note_type("markdown"), Ok(NoteType::Markdown)));
    assert!(matches!(parse_note_type("MD"), Ok(NoteType::Markdown)));
}

#[test]
fn unknown_note_type_is_an_error() {
    match parse_note_type("Todo") {
        Err(CliError::UnknownNoteType(name)) => assert_eq!(name, "todo"),
        Ok(_) => panic!("accepted an unknown type"),
    }
    let err = parse_note_type("Memo").err().unwrap();
    assert_eq!(err.message(), "unknown note type 'memo'. Expected: text, list, or markdown");
    assert!(matches!(note_type_from_name("Text"), Err(CliError::UnknownNoteType(_))));
    assert!(matches!(note_type_from_name(""), Err(CliError::UnknownNoteType(_))));
}

#[test]
fn reports_print_the_note() {
    let n = note("0123456789abcdef0123456789abcdef", "Shopping", NoteType::List, "- [ ] Milk");
    assert_eq!(
        created_report(&n),
        vec!["Created note:", "  ID:    0123456789abcdef0123456789abcdef", "  Title: Shopping", "  Type:  List"]
    );
    assert_eq!(
        open_report(&n),
        vec!["Note:", "  ID:    0123456789abcdef0123456789abcdef", "  Title: Shopping", "  Type:  List", "", "- [ ] Milk"]
    );
    assert_eq!(deleted_report("Shopping"), "Deleted 'Shopping'.");
}

#[test]
fn list_lines_pad_the_title() {
    let n = note("id1", "Ideas", NoteType::Markdown, "");
    assert_eq!(list_line(&n), format!("{}  {:<20} {:?}", "id1", "Ideas", NoteType::Markdown));
    assert_eq!(list_line(&n), "id1  Ideas                Markdown");
    let long = note("id2", "A title longer than twenty", NoteType::Text, "");
    assert_eq!(list_line(&long), "id2  A title longer than twenty Text");
    let wide = note("id3", "héllo", NoteType::Text, "");
    assert_eq!(list_line(&wide), format!("{}  {:<20} {:?}", "id3", "héllo", NoteType::Text));
}

#[test]
fn cli_holds_its_command() {
    let cli = Cli::new(Some(Command::Open { id: "x".to_string() }));
    assert!(matches!(cli.command(), Some(Command::Open { id }) if id == "x"));
    assert!(Cli::new(None).command().is_none());
}
