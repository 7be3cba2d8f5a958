//! The note model: the kinds of note, the instants a note records, the note
//! itself and the metadata written in its frontmatter.
use vstd::prelude::*;

verus! {

/// The kind of a note, which decides how the editor presents its body.
#[derive(Debug, Clone, Copy, PartialEq, Eq, Structural)]
pub enum NoteType {
    Text,
    List,
    Markdown,
}

impl Default for NoteType {
    /// A note is plain text unless stated otherwise.
    fn default() -> (t: Self)
        ensures
            t == NoteType::Text,
    {
        NoteType::Text
    }
}

impl NoteType {
    /// The lowercase name the frontmatter stores for this kind.
    pub open spec fn spec_name(self) -> Seq<char> {
        match self {
            NoteType::Text => "text"@,
            NoteType::List => "list"@,
            NoteType::Markdown => "markdown"@,
        }
    }

    /// The lowercase name the frontmatter stores for this kind.
    pub fn name(&self) -> (s: &'static str)
        ensures
            s@ == self.spec_name(),
    {
        match self {
            NoteType::Text => "text",
            NoteType::List => "list",
            NoteType::Markdown => "markdown",
        }
    }

    /// The variant's name as `{:?}` prints it.
    pub open spec fn spec_debug_name(self) -> Seq<char> {
        match self {
            NoteType::Text => "Text"@,
            NoteType::List => "List"@,
            NoteType::Markdown => "Markdown"@,
        }
    }

    /// The variant's name as `{:?}` prints it.
    pub fn debug_name(&self) -> (s: &'static str)
        ensures
            s@ == self.spec_debug_name(),
    {
        match self {
            NoteType::Text => "Text",
            NoteType::List => "List",
            NoteType::Markdown => "Markdown",
        }
    }
}

/// An instant, as seconds and nanoseconds since the Unix epoch (UTC), with
/// the UTC offset in seconds that it was recorded in.  `nanos` may exceed
/// 999,999,999 during a leap second.
#[derive(Debug, Clone, Copy, PartialEq, Eq, Structural)]
pub struct Timestamp {
    pub seconds: i64,
    pub nanos: u32,
    pub offset_seconds: i32,
}

impl Timestamp {
    /// `self` is a strictly earlier instant than `other`; the offsets play
    /// no part, as in the ordering of `chrono::DateTime`.
    pub open spec fn before(self, other: Timestamp) -> bool {
        self.seconds < other.seconds || (self.seconds == other.seconds && self.nanos < other.nanos)
    }

    /// `self` and `other` are the same instant, whatever their offsets.
    pub open spec fn same_instant(self, other: Timestamp) -> bool {
        self.seconds == other.seconds && self.nanos == other.nanos
    }

    /// Whether `self` is a strictly earlier instant than `other`.
    pub fn is_before(&self, other: &Timestamp) -> (b: bool)
        ensures
            b == self.before(*other),
    {
        self.seconds < other.seconds || (self.seconds == other.seconds && self.nanos < other.nanos)
    }

    /// Timestamps are ordered as the instants they stand for: a later
    /// second is later whatever the nanoseconds, within one second more
    /// nanoseconds are later, and with sub-second parts below a second this
    /// is the order of nanoseconds since the epoch.  (A leap second's
    /// reading has a sub-second part of a second or more and still counts
    /// within its second, as in `chrono`.)
    pub proof fn lemma_before_is_chronological(a: Timestamp, b: Timestamp)
        ensures
            a.seconds < b.seconds ==> a.before(b),
            b.seconds < a.seconds ==> !a.before(b),
            a.seconds == b.seconds ==> (a.before(b) <==> a.nanos < b.nanos),
            a.nanos < 1_000_000_000 && b.nanos < 1_000_000_000 ==> (a.before(b) <==> a.seconds
                * 1_000_000_000 + a.nanos < b.seconds * 1_000_000_000 + b.nanos),
            !a.before(a),
            a.before(b) ==> !b.before(a),
    {
        if a.nanos < 1_000_000_000 && b.nanos < 1_000_000_000 {
            if a.seconds < b.seconds {
                assert((a.seconds + 1) * 1_000_000_000 <= b.seconds * 1_000_000_000) by (nonlinear_arith)
                    requires a.seconds + 1 <= b.seconds;
            } else if b.seconds < a.seconds {
                assert((b.seconds + 1) * 1_000_000_000 <= a.seconds * 1_000_000_000) by (nonlinear_arith)
                    requires b.seconds + 1 <= a.seconds;
            }
        }
    }

    /// The values that a clock reading can hold.
    pub open spec fn valid(self) -> bool {
        self.nanos < 2_000_000_000 && -86_400 < self.offset_seconds < 86_400
    }
}

/// The current local time as a fixed-offset time: `chrono::Local::now()`
/// followed by `fixed_offset()`, taken apart into its Unix seconds
/// (`timestamp`), sub-second nanoseconds (`timestamp_subsec_nanos`, below
/// two billion, above one billion only in a leap second) and UTC offset
/// (`local_minus_utc`, strictly between -86,400 and 86,400).  Nothing is
/// said of which instant it is.
#[verifier::external_body]
fn local_now() -> (t: Timestamp)
    ensures
        t.valid(),
{
    let now = chrono::Local::now().fixed_offset();
    Timestamp {
        seconds: now.timestamp(),
        nanos: now.timestamp_subsec_nanos(),
        offset_seconds: now.offset().local_minus_utc(),
    }
}

/// The current local time.
pub fn now() -> (t: Timestamp)
    ensures
        t.valid(),
{
    local_now()
}

/// A note: its identity, title, kind, when it was created and last
/// updated, and its body text.
pub struct Note {
    pub id: String,
    pub title: String,
    pub note_type: NoteType,
    pub created: Timestamp,
    pub updated: Timestamp,
    pub body: String,
}

impl Note {
    /// A fresh note with an empty body, created and updated at `at`.
    pub fn created_at(id: String, title: String, note_type: NoteType, at: Timestamp) -> (n: Note)
        ensures
            n.id == id,
            n.title == title,
            n.note_type == note_type,
            n.created == at,
            n.updated == at,
            n.body@ == Seq::<char>::empty(),
    {
        Note { id, title, note_type, created: at, updated: at, body: String::new() }
    }

    /// A fresh note with an empty body, created and updated now.
    pub fn new(id: String, title: String, note_type: NoteType) -> (n: Note)
        ensures
            n.id == id,
            n.title == title,
            n.note_type == note_type,
            n.created == n.updated,
            n.created.valid(),
            n.body@ == Seq::<char>::empty(),
    {
        Note::created_at(id, title, note_type, now())
    }

    /// An identical copy of the note.
    pub fn duplicate(&self) -> (n: Note)
        ensures
            n == *self,
    {
        Note {
            id: self.id.clone(),
            title: self.title.clone(),
            note_type: self.note_type,
            created: self.created,
            updated: self.updated,
            body: self.body.clone(),
        }
    }

    /// The note rebuilt from its frontmatter metadata and its body.
    pub fn from_meta(meta: NoteMeta, body: String) -> (n: Note)
        ensures
            n.id == meta.id,
            n.title == meta.title,
            n.note_type == meta.note_type,
            n.created == meta.created,
            n.updated == meta.updated,
            n.body == body,
    {
        Note {
            id: meta.id,
            title: meta.title,
            note_type: meta.note_type,
            created: meta.created,
            updated: meta.updated,
            body,
        }
    }
}

/// What a note's frontmatter records: everything but the body.
pub struct NoteMeta {
    pub id: String,
    pub title: String,
    pub note_type: NoteType,
    pub created: Timestamp,
    pub updated: Timestamp,
}

impl<'a> From<&'a Note> for NoteMeta {
    fn from(note: &'a Note) -> (m: NoteMeta) {
        NoteMeta {
            id: note.id.clone(),
            title: note.title.clone(),
            note_type: note.note_type,
            created: note.created,
            updated: note.updated,
        }
    }
}

impl<'a> vstd::std_specs::convert::FromSpecImpl<&'a Note> for NoteMeta {
    open spec fn obeys_from_spec() -> bool {
        true
    }

    open spec fn from_spec(note: &'a Note) -> NoteMeta {
        NoteMeta {
            id: note.id,
            title: note.title,
            note_type: note.note_type,
            created: note.created,
            updated: note.updated,
        }
    }
}

} // verus!
