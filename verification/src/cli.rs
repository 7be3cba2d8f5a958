//! The command line: the commands it offers, how a note type is named on
//! it, and the text it prints for each command.  Parsing the arguments,
//! touching the note store and printing are left to the program.
use vstd::prelude::*;
use crate::model::{Note, NoteType};
use crate::text::{chars_of, string_of, push_str, push_padded, pad_right, equals_str, concat2, concat3};

verus! {

/// A command given on the command line.
pub enum Command {
    /// Create a note with this title and type name.
    New { title: String, note_type: String },
    /// List all notes.
    List,
    /// Show a note.
    Open { id: String },
    /// Delete a note.
    Delete { id: String },
}

/// The parsed command line: a command, or none to start the manager.
pub struct Cli {
    command: Option<Command>,
}

impl Cli {
    /// The command line holding `command`.
    pub fn new(command: Option<Command>) -> (c: Cli)
        ensures
            c.spec_command() == command,
    {
        Cli { command }
    }

    /// The command given, if any.
    pub closed spec fn spec_command(&self) -> Option<Command> {
        self.command
    }

    /// The command given, if any.
    pub fn command(self) -> (c: Option<Command>)
        ensures
            c == self.spec_command(),
    {
        self.command
    }
}

/// The title a new note gets when none is given.
pub const DEFAULT_TITLE: &'static str = "Untitled";

/// The type name a new note gets when none is given.
pub const DEFAULT_NOTE_TYPE: &'static str = "text";

/// Why a command line could not be carried out.
pub enum CliError {
    /// The type name (lowercased) is none of `text`, `list`, `markdown`, `md`.
    UnknownNoteType(String),
}

impl CliError {
    /// The description printed for this error.
    pub open spec fn spec_message(&self) -> Seq<char> {
        match self {
            CliError::UnknownNoteType(name) => "unknown note type '"@ + name@
                + "'. Expected: text, list, or markdown"@,
        }
    }

    /// The description printed for this error.
    pub fn message(&self) -> (s: String)
        ensures
            s@ == self.spec_message(),
    {
        match self {
            CliError::UnknownNoteType(name) => concat3(
                "unknown note type '",
                name.as_str(),
                "'. Expected: text, list, or markdown",
            ),
        }
    }
}

/// The note type a lowercase name stands for.
pub open spec fn spec_note_type_named(name: Seq<char>) -> Option<NoteType> {
    if name == "text"@ {
        Some(NoteType::Text)
    } else if name == "list"@ {
        Some(NoteType::List)
    } else if name == "markdown"@ || name == "md"@ {
        Some(NoteType::Markdown)
    } else {
        None
    }
}

/// The note type a lowercase name stands for, or the error naming it.
pub fn note_type_from_name(name: &str) -> (r: Result<NoteType, CliError>)
    ensures
        match r {
            Ok(t) => spec_note_type_named(name@) == Some(t),
            Err(CliError::UnknownNoteType(n)) => spec_note_type_named(name@) == None::<NoteType>
                && n@ == name@,
        },
{
    let v = chars_of(name);
    if equals_str(&v, "text") {
        Ok(NoteType::Text)
    } else if equals_str(&v, "list") {
        Ok(NoteType::List)
    } else if equals_str(&v, "markdown") || equals_str(&v, "md") {
        Ok(NoteType::Markdown)
    } else {
        Err(CliError::UnknownNoteType(string_of(&v)))
    }
}

/// What std's `str::to_lowercase` returns for a string.
pub uninterp spec fn lowercase(s: Seq<char>) -> Seq<char>;

/// std's `str::to_lowercase`.  Its result is named by `lowercase`;
/// nothing more is stated of it.
#[verifier::external_body]
fn to_lowercase(s: &str) -> (r: String)
    ensures
        r@ == lowercase(s@),
{
    s.to_lowercase()
}

/// The note type named on the command line, in any letter case.
pub fn parse_note_type(value: &str) -> (r: Result<NoteType, CliError>)
    ensures
        match r {
            Ok(t) => spec_note_type_named(lowercase(value@)) == Some(t),
            Err(CliError::UnknownNoteType(n)) => spec_note_type_named(lowercase(value@))
                == None::<NoteType> && n@ == lowercase(value@),
        },
{
    let lower = to_lowercase(value);
    note_type_from_name(lower.as_str())
}

/// What `new` prints after creating a note.
pub open spec fn spec_created_report(note: Note) -> Seq<Seq<char>> {
    seq![
        "Created note:"@,
        "  ID:    "@ + note.id@,
        "  Title: "@ + note.title@,
        "  Type:  "@ + note.note_type.spec_debug_name(),
    ]
}

/// The lines `new` prints after creating `note`.
pub fn created_report(note: &Note) -> (r: Vec<String>)
    ensures
        r@.map_values(|l: String| l@) == spec_created_report(*note),
{
    let mut r: Vec<String> = Vec::new();
    r.push(string_of(&chars_of("Created note:")));
    r.push(concat2("  ID:    ", note.id.as_str()));
    r.push(concat2("  Title: ", note.title.as_str()));
    r.push(concat2("  Type:  ", note.note_type.debug_name()));
    assert(r@.map_values(|l: String| l@) =~= spec_created_report(*note));
    r
}

/// What `list` prints when there are no notes.
pub const NO_NOTES: &'static str = "No notes.";

/// The line `list` prints for a note: its id, its title padded to twenty
/// characters, and its type.
pub open spec fn spec_list_line(note: Note) -> Seq<char> {
    note.id@ + "  "@ + pad_right(note.title@, 20) + " "@ + note.note_type.spec_debug_name()
}

/// The line `list` prints for `note`.
pub fn list_line(note: &Note) -> (r: String)
    ensures
        r@ == spec_list_line(*note),
{
    let mut out = chars_of(note.id.as_str());
    push_str(&mut out, "  ");
    push_padded(&mut out, note.title.as_str(), 20);
    push_str(&mut out, " ");
    push_str(&mut out, note.note_type.debug_name());
    string_of(&out)
}

/// What `open` prints for a note.
pub open spec fn spec_open_report(note: Note) -> Seq<Seq<char>> {
    seq![
        "Note:"@,
        "  ID:    "@ + note.id@,
        "  Title: "@ + note.title@,
        "  Type:  "@ + note.note_type.spec_debug_name(),
        Seq::<char>::empty(),
        note.body@,
    ]
}

/// The lines `open` prints for `note`.
pub fn open_report(note: &Note) -> (r: Vec<String>)
    ensures
        r@.map_values(|l: String| l@) == spec_open_report(*note),
{
    let mut r: Vec<String> = Vec::new();
    r.push(string_of(&chars_of("Note:")));
    r.push(concat2("  ID:    ", note.id.as_str()));
    r.push(concat2("  Title: ", note.title.as_str()));
    r.push(concat2("  Type:  ", note.note_type.debug_name()));
    r.push(String::new());
    r.push(note.body.clone());
    assert(r@.map_values(|l: String| l@) =~= spec_open_report(*note));
    r
}

/// The line `delete` prints after deleting a note with this title.
pub fn deleted_report(title: &str) -> (r: String)
    ensures
        r@ == "Deleted '"@ + title@ + "'."@,
{
    concat3("Deleted '", title, "'.")
}

/// What is printed when no command is given.
pub const NO_COMMAND: &'static str = "Sticky manager coming soon.";

} // verus!
