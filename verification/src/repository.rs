//! Where the notes live and how they are listed: the on-disk layout of the
//! note store (`<notes_dir>/<id>/note.md` with an `images` directory
//! beside it), fresh note identities, and the most-recent-first order of
//! the note list.  Reading and writing the files is left to the program.
use vstd::prelude::*;
use crate::model::{Note, NoteType, Timestamp};
use crate::text::{chars_of, string_of, push_all};

verus! {

// ---------------------------------------------------------------------------
// Paths
// ---------------------------------------------------------------------------

/// `Path::join` on Unix: an absolute `p` replaces `base`; otherwise `p` is
/// appended, with a `/` between unless `base` is empty or already ends in one.
pub open spec fn join_path(base: Seq<char>, p: Seq<char>) -> Seq<char> {
    if p.len() > 0 && p[0] == '/' {
        p
    } else if base.len() == 0 || base.last() == '/' {
        base + p
    } else {
        base + seq!['/'] + p
    }
}

/// `base` joined with `p` (`Path::join` on Unix).
pub fn join(base: &str, p: &str) -> (r: String)
    ensures
        r@ == join_path(base@, p@),
{
    let b = chars_of(base);
    let q = chars_of(p);
    if q.len() > 0 && q[0] == '/' {
        return string_of(&q);
    }
    let mut out = b.clone();
    if !(b.len() == 0 || b[b.len() - 1] == '/') {
        out.push('/');
    }
    push_all(&mut out, &q);
    string_of(&out)
}

/// The directory of the note store under the user's data directory:
/// `<data_dir>/sticky/notes`.
pub open spec fn spec_default_notes_dir(data_dir: Seq<char>) -> Seq<char> {
    join_path(join_path(data_dir, "sticky"@), "notes"@)
}

/// The directory of the note store under the user's data directory.
pub fn default_notes_dir(data_dir: &str) -> (r: String)
    ensures
        r@ == spec_default_notes_dir(data_dir@),
{
    let sticky = join(data_dir, "sticky");
    join(sticky.as_str(), "notes")
}

/// The store of notes, one directory per note under `notes_dir`.
pub struct NoteRepository {
    notes_dir: String,
}

impl View for NoteRepository {
    type V = Seq<char>;

    /// The directory holding the notes.
    closed spec fn view(&self) -> Seq<char> {
        self.notes_dir@
    }
}

impl NoteRepository {
    /// The store rooted at `notes_dir`; the program creates the directory.
    pub fn new(notes_dir: String) -> (r: NoteRepository)
        ensures
            r@ == notes_dir@,
    {
        NoteRepository { notes_dir }
    }

    /// The store in its usual place under the user's data directory.
    pub fn default(data_dir: &str) -> (r: NoteRepository)
        ensures
            r@ == spec_default_notes_dir(data_dir@),
    {
        NoteRepository { notes_dir: default_notes_dir(data_dir) }
    }

    /// The directory holding the notes.
    pub fn notes_dir(&self) -> (r: &str)
        ensures
            r@ == self@,
    {
        self.notes_dir.as_str()
    }

    /// The directory of the note `id`.
    pub open spec fn spec_note_dir(&self, id: Seq<char>) -> Seq<char> {
        join_path(self@, id)
    }

    /// The directory of the note `id`.
    pub fn note_dir(&self, id: &str) -> (r: String)
        ensures
            r@ == self.spec_note_dir(id@),
    {
        join(self.notes_dir.as_str(), id)
    }

    /// The file holding the note `id`.
    pub open spec fn spec_note_path(&self, id: Seq<char>) -> Seq<char> {
        join_path(self.spec_note_dir(id), "note.md"@)
    }

    /// The file holding the note `id`.
    pub fn note_path(&self, id: &str) -> (r: String)
        ensures
            r@ == self.spec_note_path(id@),
    {
        let dir = self.note_dir(id);
        join(dir.as_str(), "note.md")
    }

    /// The directory of the images of the note `id`.
    pub fn images_dir(&self, id: &str) -> (r: String)
        ensures
            r@ == join_path(self.spec_note_dir(id@), "images"@),
    {
        let dir = self.note_dir(id);
        join(dir.as_str(), "images")
    }

    /// The file a note is first written to before it replaces `note.md`
    /// (the note file with the extension `md.tmp`).
    pub fn temp_path(&self, id: &str) -> (r: String)
        ensures
            r@ == join_path(self.spec_note_dir(id@), "note.md.tmp"@),
    {
        let dir = self.note_dir(id);
        join(dir.as_str(), "note.md.tmp")
    }
}

// ---------------------------------------------------------------------------
// Note identities
// ---------------------------------------------------------------------------

/// `c` is a lowercase hexadecimal digit.
pub open spec fn is_lower_hex(c: char) -> bool {
    ('0' <= c && c <= '9') || ('a' <= c && c <= 'f')
}

/// The shape of a note id: a version-4 UUID written as 32 lowercase
/// hexadecimal digits, with the version digit `4` and the variant digit
/// one of `8`, `9`, `a`, `b`.
pub open spec fn is_note_id(s: Seq<char>) -> bool {
    &&& s.len() == 32
    &&& forall|i: int| 0 <= i < 32 ==> is_lower_hex(#[trigger] s[i])
    &&& s[12] == '4'
    &&& (s[16] == '8' || s[16] == '9' || s[16] == 'a' || s[16] == 'b')
}

/// A fresh random id: `uuid::Uuid::new_v4()` written with `simple()` and
/// `to_string()`.  The uuid crate writes the 16 bytes as 32 lowercase
/// hexadecimal digits, and `new_v4` fixes the version nibble to 4 and the
/// variant bits to `10`; which id comes out is random and not stated.
#[verifier::external_body]
fn random_note_id() -> (id: String)
    ensures
        is_note_id(id@),
{
    uuid::Uuid::new_v4().simple().to_string()
}

/// A new note with a fresh random id, created now, with an empty body.
pub fn new_note(title: String, note_type: NoteType) -> (n: Note)
    ensures
        is_note_id(n.id@),
        n.title == title,
        n.note_type == note_type,
        n.created == n.updated,
        n.created.valid(),
        n.body@ == Seq::<char>::empty(),
{
    let id = random_note_id();
    Note::new(id, title, note_type)
}

// ---------------------------------------------------------------------------
// The order of the note list
// ---------------------------------------------------------------------------

/// The notes of `s` last updated at the same instant as `t`, in the order
/// they have in `s`.
pub open spec fn updated_together(s: Seq<Note>, t: Timestamp) -> Seq<Note> {
    s.filter(|n: Note| n.updated.same_instant(t))
}

/// Most recently updated first: no note is updated strictly earlier than
/// a note after it.
pub open spec fn recent_first(s: Seq<Note>) -> bool {
    forall|i: int, j: int| 0 <= i < j < s.len() ==> !(#[trigger] s[i]).updated.before((#[trigger] s[j]).updated)
}

/// In a list ordered most recent first (as `sort_by_recent` returns it), a
/// note never comes after one last updated at an earlier second; with
/// sub-second parts below a second, the instants of the notes never grow
/// along the list.
pub proof fn lemma_recent_first_newest_on_top(s: Seq<Note>, i: int, j: int)
    requires
        recent_first(s),
        0 <= i < j < s.len(),
    ensures
        s[j].updated.seconds <= s[i].updated.seconds,
        s[i].updated.nanos < 1_000_000_000 && s[j].updated.nanos < 1_000_000_000 ==> s[j].updated.seconds
            * 1_000_000_000 + s[j].updated.nanos <= s[i].updated.seconds * 1_000_000_000 + s[i].updated.nanos,
{
    assert(!s[i].updated.before(s[j].updated));
    Timestamp::lemma_before_is_chronological(s[i].updated, s[j].updated);
}

proof fn lemma_filter_push(s: Seq<Note>, x: Note, t: Timestamp)
    ensures
        updated_together(s.push(x), t) == if x.updated.same_instant(t) {
            updated_together(s, t).push(x)
        } else {
            updated_together(s, t)
        },
{
    reveal(Seq::filter);
    assert(s.push(x).drop_last() =~= s);
}

/// Inserting `x` in front of all notes updated strictly before it adds `x`
/// at the end of the notes updated together with it and changes no other
/// group.
proof fn lemma_insert_before_older(r: Seq<Note>, p: int, x: Note, t: Timestamp)
    requires
        0 <= p <= r.len(),
        forall|q: int| p <= q < r.len() ==> (#[trigger] r[q]).updated.before(x.updated),
    ensures
        updated_together(r.insert(p, x), t) == if x.updated.same_instant(t) {
            updated_together(r, t).push(x)
        } else {
            updated_together(r, t)
        },
{
    let f = |n: Note| n.updated.same_instant(t);
    let a = r.take(p);
    let b = r.skip(p);
    assert(r =~= a + b);
    assert(r.insert(p, x) =~= (a + seq![x]) + b);
    Seq::filter_distributes_over_add(a, b, f);
    Seq::filter_distributes_over_add(a + seq![x], b, f);
    assert(a + seq![x] =~= a.push(x));
    lemma_filter_push(a, x, t);
    if x.updated.same_instant(t) {
        assert(b.all(|n: Note| !f(n))) by {
            assert forall|q: int| 0 <= q < b.len() implies !f(#[trigger] b[q]) by {
                assert(b[q] == r[p + q]);
            }
        }
        b.lemma_all_neg_filter_empty(f);
        assert(b.filter(f) =~= Seq::<Note>::empty());
        assert(updated_together(r.insert(p, x), t) =~= updated_together(r, t).push(x));
    } else {
        assert(updated_together(r.insert(p, x), t) =~= updated_together(r, t));
    }
}

/// The notes ordered most recently updated first, keeping the given order
/// among notes updated at the same instant (the stable sort of
/// `NoteRepository::list`).
pub fn sort_by_recent(notes: Vec<Note>) -> (r: Vec<Note>)
    ensures
        r@.len() == notes@.len(),
        recent_first(r@),
        forall|t: Timestamp| #[trigger] updated_together(r@, t) == updated_together(notes@, t),
{
    let ghost given = notes@;
    let mut rest = notes;
    let mut r: Vec<Note> = Vec::new();
    let ghost mut done: Seq<Note> = Seq::empty();
    assert(given =~= done + rest@);
    assert forall|t: Timestamp| #[trigger] updated_together(r@, t) == updated_together(done, t) by {
        reveal(Seq::filter);
    }
    while rest.len() > 0
        invariant
            given == done + rest@,
            r@.len() == done.len(),
            recent_first(r@),
            forall|t: Timestamp| #[trigger] updated_together(r@, t) == updated_together(done, t),
        decreases rest.len(),
    {
        let x = rest.remove(0);
        let mut p: usize = 0;
        while p < r.len() && !r[p].updated.is_before(&x.updated)
            invariant
                p <= r.len(),
                forall|q: int| 0 <= q < p ==> !(#[trigger] r@[q]).updated.before(x.updated),
            decreases r.len() - p,
        {
            p += 1;
        }
        proof {
            assert forall|q: int| p <= q < r@.len() implies (#[trigger] r@[q]).updated.before(x.updated) by {
                assert(r@[p as int].updated.before(x.updated));
                if q > p {
                    assert(!r@[p as int].updated.before(r@[q].updated));
                }
            }
            assert forall|t: Timestamp| #[trigger] updated_together(r@.insert(p as int, x), t) == updated_together(done.push(x), t) by {
                lemma_insert_before_older(r@, p as int, x, t);
                lemma_filter_push(done, x, t);
            }
        }
        let ghost before = r@;
        r.insert(p, x);
        proof {
            assert(r@ == before.insert(p as int, x));
            assert forall|i: int, j: int| 0 <= i < j < r@.len() implies !(#[trigger] r@[i]).updated.before((#[trigger] r@[j]).updated) by {
                if j < p {
                    assert(r@[i] == before[i] && r@[j] == before[j]);
                } else if j == p {
                    assert(r@[i] == before[i]);
                } else if i < p {
                    assert(r@[i] == before[i] && r@[j] == before[j - 1]);
                    assert(!before[i].updated.before(before[p as int].updated) || i == p);
                } else if i == p {
                    assert(r@[j] == before[j - 1]);
                } else {
                    assert(r@[i] == before[i - 1] && r@[j] == before[j - 1]);
                }
            }
            assert(given =~= done.push(x) + rest@);
            done = done.push(x);
        }
    }
    assert(done =~= given);
    r
}

} // verus!
