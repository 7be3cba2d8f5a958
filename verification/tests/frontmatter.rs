use sticky::frontmatter::{deserialize, serialize, FrontmatterError};

#[test]
fn serialize_frames_the_frontmatter() {
    assert_eq!(serialize("id = \"1\"\n", "Body"), "---\nid = \"1\"\n---\n\nBody");
    assert_eq!(serialize("", ""), "---\n---\n\n");
}

#[test]
fn deserialize_takes_the_file_apart() {
    let doc = deserialize("---\na = 1\nb = 2\n---\n\nhello\nworld").unwrap();
    assert_eq!(doc.frontmatter, "a = 1\nb = 2");
    assert_eq!(doc.body, "hello\nworld");
}

#[test]
fn deserialize_strips_only_one_blank_line() {
    let doc = deserialize("---\na = 1\n---\n\n\nbody").unwrap();
    assert_eq!(doc.body, "\nbody");
    let doc = deserialize("---\na = 1\n---\nbody").unwrap();
    assert_eq!(doc.body, "body");
}

#[test]
fn deserialize_splits_at_the_first_closing_line() {
    let doc = deserialize("---\na\n---\nb\n---\nc").unwrap();
    assert_eq!(doc.frontmatter, "a");
    assert_eq!(doc.body, "b\n---\nc");
}

#[test]
fn missing_delimiters_are_reported() {
    assert!(matches!(deserialize("no frontmatter"), Err(FrontmatterError::MissingOpening)));
    assert!(matches!(deserialize(""), Err(FrontmatterError::MissingOpening)));
    assert!(matches!(deserialize("---\na = 1\n"), Err(FrontmatterError::MissingClosing)));
    assert_eq!(
        FrontmatterError::MissingOpening.message(),
        "note is missing frontmatter opening delimiter"
    );
    assert_eq!(
        FrontmatterError::MissingClosing.message(),
        "note is missing frontmatter closing delimiter"
    );
}

#[test]
fn round_trip_gives_back_frontmatter_and_body() {
    for body in ["", "plain", "\nstarts with a newline", "has\n---\ninside"] {
        let fm = "id = \"x\"\ntitle = \"T\"\n";
        let doc = deserialize(&serialize(fm, body)).unwrap();
        assert_eq!(doc.frontmatter, "id = \"x\"\ntitle = \"T\"");
        assert_eq!(doc.body, body);
    }
}
