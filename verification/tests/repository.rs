use sticky::frontmatter::{deserialize, serialize};
use sticky::model::{Note, NoteMeta, NoteType, Timestamp};
use sticky::repository::{default_notes_dir, join, new_note, sort_by_recent, NoteRepository};

fn at(seconds: i64) -> Timestamp {
    Timestamp { seconds, nanos: 0, offset_seconds: 3600 }
}

#[test]
/// A new note written in the note file format (with a hand-written
/// frontmatter) reads back with the same fields; the store itself is
/// disk I/O of the program.
fn new_note_reads_back_from_the_file_format() {
    let temp = tempfile::tempdir().unwrap();
    let notes_dir = temp.path().join("notes").to_string_lossy().to_string();
    let repo = NoteRepository::new(notes_dir.clone());
    assert_eq!(repo.notes_dir(), notes_dir);

    let mut note = new_note("Shopping".to_string(), NoteType::List);
    note.body = "- [ ] Milk\n- [ ] Eggs".to_string();

    let meta = NoteMeta::from(&note);
    let frontmatter = format!("id = \"{}\"\ntitle = \"{}\"\ntype = \"{}\"\n", meta.id, meta.title, meta.note_type.name());
    let file = serialize(&frontmatter, &note.body);
    let doc = deserialize(&file).unwrap();
    assert_eq!(doc.frontmatter, frontmatter.trim_end_matches('\n'));

    let loaded = Note::from_meta(meta, doc.body);
    assert_eq!(loaded.id, note.id);
    assert_eq!(loaded.title, "Shopping");
    assert_eq!(loaded.note_type, NoteType::List);
    assert_eq!(loaded.body, "- [ ] Milk\n- [ ] Eggs");
}

#[test]
/// Every file of a note lies in its directory, so removing that directory
/// removes the note.
fn a_note_directory_holds_all_its_files() {
    let temp = tempfile::tempdir().unwrap();
    let notes_dir = temp.path().join("notes").to_string_lossy().to_string();
    let repo = NoteRepository::new(notes_dir.clone());

    let note = new_note("Temporary".to_string(), NoteType::Text);

    // deleting a note removes its directory, which holds everything of the note
    let dir = repo.note_dir(&note.id);
    assert_eq!(dir, format!("{}/{}", notes_dir, note.id));
    assert!(repo.note_path(&note.id).starts_with(&format!("{}/", dir)));
    assert!(repo.images_dir(&note.id).starts_with(&format!("{}/", dir)));
    assert!(repo.temp_path(&note.id).starts_with(&format!("{}/", dir)));
}

#[test]
/// Listed notes come most recently updated first.
fn notes_are_listed_most_recent_first() {
    let mut a = new_note("Shopping".to_string(), NoteType::List);
    let mut b = new_note("Ideas".to_string(), NoteType::Markdown);
    let mut c = new_note("Random".to_string(), NoteType::Text);
    a.updated = at(10);
    b.updated = at(30);
    c.updated = at(20);

    let notes = sort_by_recent(vec![a, b, c]);

    assert_eq!(notes.len(), 3);
    let titles: Vec<&str> = notes.iter().map(|n| n.title.as_str()).collect();
    assert_eq!(titles, vec!["Ideas", "Random", "Shopping"]);
}

#[test]
fn sort_keeps_order_of_notes_updated_together() {
    let mut notes = Vec::new();
    for (title, seconds, offset) in [("a", 5, 0), ("b", 9, 0), ("c", 5, 7200), ("d", 9, -3600), ("e", 1, 0)] {
        let mut n = Note::created_at(title.to_string(), title.to_string(), NoteType::Text, at(0));
        n.updated = Timestamp { seconds, nanos: 0, offset_seconds: offset };
        notes.push(n);
    }
    let sorted = sort_by_recent(notes);
    let titles: Vec<&str> = sorted.iter().map(|n| n.title.as_str()).collect();
    assert_eq!(titles, vec!["b", "d", "a", "c", "e"]);
}

#[test]
fn sort_compares_nanoseconds() {
    let mut early = Note::created_at("x".into(), "early".into(), NoteType::Text, at(0));
    let mut late = Note::created_at("y".into(), "late".into(), NoteType::Text, at(0));
    early.updated = Timestamp { seconds: 100, nanos: 5, offset_seconds: 0 };
    late.updated = Timestamp { seconds: 100, nanos: 6, offset_seconds: 0 };
    let sorted = sort_by_recent(vec![early, late]);
    assert_eq!(sorted[0].title, "late");
    assert_eq!(sorted[1].title, "early");
}

#[test]
fn sort_of_nothing_is_nothing() {
    assert!(sort_by_recent(Vec::new()).is_empty());
}

#[test]
fn paths_follow_the_store_layout() {
    let repo = NoteRepository::new("/data/notes".to_string());
    assert_eq!(repo.note_dir("abc"), "/data/notes/abc");
    assert_eq!(repo.note_path("abc"), "/data/notes/abc/note.md");
    assert_eq!(repo.images_dir("abc"), "/data/notes/abc/images");
    assert_eq!(repo.temp_path("abc"), "/data/notes/abc/note.md.tmp");
    assert_eq!(
        std::path::Path::new(&repo.note_path("abc")).with_extension("md.tmp").to_string_lossy(),
        repo.temp_path("abc")
    );
}

#[test]
fn join_behaves_like_path_join() {
    for (base, p) in [("/a", "b"), ("/a/", "b"), ("", "b"), ("/a", "/c"), ("a", ""), ("/", "x"), ("a/b", "c/d")] {
        let expected = std::path::Path::new(base).join(p).to_string_lossy().to_string();
        assert_eq!(join(base, p), expected, "joining {:?} and {:?}", base, p);
    }
}

#[test]
fn default_location_is_under_sticky() {
    assert_eq!(default_notes_dir("/home/u/.local/share"), "/home/u/.local/share/sticky/notes");
    let repo = NoteRepository::default("/home/u/.local/share/");
    assert_eq!(repo.notes_dir(), "/home/u/.local/share/sticky/notes");
}

#[test]
fn new_notes_have_fresh_uuid_ids() {
    let a = new_note("One".to_string(), NoteType::Text);
    let b = new_note("Two".to_string(), NoteType::Text);
    assert_ne!(a.id, b.id);
    for id in [&a.id, &b.id] {
        assert_eq!(id.len(), 32);
        assert!(id.chars().all(|c| c.is_ascii_digit() || ('a'..='f').contains(&c)));
        assert_eq!(id.chars().nth(12), Some('4'));
        assert!(matches!(id.chars().nth(16), Some('8' | '9' | 'a' | 'b')));
    }
    assert_eq!(a.created, a.updated);
    assert!(a.body.is_empty());
    assert!(a.created.offset_seconds.abs() < 86_400);
    assert!(a.created.nanos < 2_000_000_000);
}
