//! The terminal note manager: the state it keeps (the listed notes, the
//! selection, the status line), how each key press and each answer from
//! the note store changes it, and the text and geometry of the screen.
//! Drawing, reading keys and touching the store are left to the program,
//! which hands the outcomes back here.
use vstd::prelude::*;
use crate::model::{Note, NoteType};
use crate::text::{chars_of, string_of, push_str, concat2, concat3};
use crate::number::{decimal, push_decimal};

verus! {

/// The state of the note manager.
pub struct App {
    /// The notes, most recently updated first.
    pub notes: Vec<Note>,
    /// The index of the highlighted note.
    pub selected: Option<usize>,
    /// Set when the user asked to leave.
    pub should_quit: bool,
    /// The message shown over the list.
    pub status_message: Option<String>,
}

/// `p` is the first position of a note with id `id`.
pub open spec fn is_first_with_id(notes: Seq<Note>, id: Seq<char>, p: int) -> bool {
    &&& 0 <= p < notes.len()
    &&& notes[p].id@ == id
    &&& forall|q: int| 0 <= q < p ==> notes[q].id@ != id
}

/// The selection after the list was replaced by `new_notes`: the same note
/// if it is still listed (its first position), else the first note, and
/// nothing when the list is empty.
pub open spec fn refreshed_selection(old_notes: Seq<Note>, old_selected: Option<usize>, new_notes: Seq<Note>) -> Option<usize> {
    if new_notes.len() == 0 {
        None
    } else {
        match old_selected {
            Some(i) => if i < old_notes.len() && exists|p: int| is_first_with_id(new_notes, old_notes[i as int].id@, p) {
                Some((choose|p: int| is_first_with_id(new_notes, old_notes[i as int].id@, p)) as usize)
            } else {
                Some(0)
            },
            None => Some(0),
        }
    }
}

/// The index `next` moves to from `i` in a list of `len` notes.
pub open spec fn next_index(i: int, len: int) -> int {
    if i >= len - 1 { 0 } else { i + 1 }
}

/// The index `previous` moves to from `i` in a list of `len` notes.
pub open spec fn previous_index(i: int, len: int) -> int {
    if i == 0 { len - 1 } else { i - 1 }
}

/// The first position of a note with id `id`.
fn position_of_id(notes: &Vec<Note>, id: &String) -> (r: Option<usize>)
    ensures
        match r {
            Some(p) => is_first_with_id(notes@, id@, p as int)
                && (choose|c: int| is_first_with_id(notes@, id@, c)) == p,
            None => !exists|c: int| is_first_with_id(notes@, id@, c),
        },
{
    let mut p: usize = 0;
    while p < notes.len()
        invariant
            p <= notes@.len(),
            forall|q: int| 0 <= q < p ==> notes@[q].id@ != id@,
        decreases notes@.len() - p,
    {
        if notes[p].id == *id {
            proof {
                assert(is_first_with_id(notes@, id@, p as int));
                let c = choose|c: int| is_first_with_id(notes@, id@, c);
                if c < p {
                    assert(notes@[c].id@ != id@);
                } else if c > p {
                    assert(notes@[p as int].id@ != id@);
                }
            }
            return Some(p);
        }
        p += 1;
    }
    None
}

impl App {
    /// The selection points into the list, and there is one exactly when
    /// the list is not empty.
    pub open spec fn wf(&self) -> bool {
        &&& (self.selected is None <==> self.notes@.len() == 0)
        &&& (self.selected matches Some(i) ==> i < self.notes@.len())
    }

    /// The manager showing `notes`, the first one selected.
    pub fn new(notes: Vec<Note>) -> (app: App)
        ensures
            app.notes@ == notes@,
            app.selected == (if notes@.len() == 0 { None } else { Some(0usize) }),
            !app.should_quit,
            app.status_message is None,
            app.wf(),
    {
        let selected = if notes.len() == 0 { None } else { Some(0) };
        App { notes, selected, should_quit: false, status_message: None }
    }

    /// Takes the answer of the note store to a listing: on success the list
    /// is replaced and the selection follows the selected note (see
    /// `refreshed_selection`); on failure the list stays and the status
    /// tells the error.  Returns whether the listing succeeded.
    pub fn refresh_notes(&mut self, listed: Result<Vec<Note>, String>) -> (ok: bool)
        ensures
            ok == listed is Ok,
            match listed {
                Ok(new_notes) => {
                    &&& final(self).notes@ == new_notes@
                    &&& final(self).selected == refreshed_selection(old(self).notes@, old(self).selected, new_notes@)
                    &&& final(self).status_message == old(self).status_message
                },
                Err(e) => {
                    &&& final(self).notes@ == old(self).notes@
                    &&& final(self).selected == old(self).selected
                    &&& final(self).status_message matches Some(m) && m@ == "Refresh error: "@ + e@
                },
            },
            final(self).should_quit == old(self).should_quit,
            old(self).wf() ==> final(self).wf(),
    {
        match listed {
            Ok(new_notes) => {
                let ghost old_notes = self.notes@;
                let selected_id: Option<String> = match self.selected {
                    Some(i) => if i < self.notes.len() { Some(self.notes[i].id.clone()) } else { None },
                    None => None,
                };
                self.notes = new_notes;
                if self.notes.len() == 0 {
                    self.selected = None;
                    return true;
                }
                if let Some(id) = selected_id {
                    if let Some(p) = position_of_id(&self.notes, &id) {
                        self.selected = Some(p);
                        return true;
                    }
                }
                self.selected = Some(0);
                true
            },
            Err(e) => {
                self.status_message = Some(concat2("Refresh error: ", e.as_str()));
                false
            },
        }
    }

    /// Takes the answer of the note store to creating a note: the status
    /// tells the new note's id or the error.  Returns the id of the note to
    /// open, after the program has listed the notes again.
    pub fn note_created(&mut self, created: Result<String, String>) -> (open: Option<String>)
        ensures
            match created {
                Ok(id) => {
                    &&& open == Some(id)
                    &&& final(self).status_message matches Some(m) && m@ == "Created note: "@ + id@
                },
                Err(e) => {
                    &&& open is None
                    &&& final(self).status_message matches Some(m) && m@ == "Error: "@ + e@
                },
            },
            final(self).notes == old(self).notes,
            final(self).selected == old(self).selected,
            final(self).should_quit == old(self).should_quit,
    {
        match created {
            Ok(id) => {
                self.status_message = Some(concat2("Created note: ", id.as_str()));
                Some(id)
            },
            Err(e) => {
                self.status_message = Some(concat2("Error: ", e.as_str()));
                None
            },
        }
    }

    /// The selected note, which `d` deletes; none when the selection does
    /// not point into the list.
    pub fn delete_target(&self) -> (n: Option<Note>)
        ensures
            match self.selected {
                Some(i) => if i < self.notes@.len() { n == Some(self.notes@[i as int]) } else { n is None },
                None => n is None,
            },
    {
        match self.selected {
            Some(i) => if i < self.notes.len() { Some(self.notes[i].duplicate()) } else { None },
            None => None,
        }
    }

    /// Takes the answer of the note store to deleting the note titled
    /// `title`: the status tells the deletion or the error.  Returns whether
    /// the program should list the notes again.
    pub fn note_deleted(&mut self, title: &str, deleted: Result<(), String>) -> (refresh: bool)
        ensures
            refresh == deleted is Ok,
            match deleted {
                Ok(_) => final(self).status_message matches Some(m) && m@ == "Deleted: "@ + title@,
                Err(e) => final(self).status_message matches Some(m) && m@ == "Error: "@ + e@,
            },
            final(self).notes == old(self).notes,
            final(self).selected == old(self).selected,
            final(self).should_quit == old(self).should_quit,
    {
        match deleted {
            Ok(_) => {
                self.status_message = Some(concat2("Deleted: ", title));
                true
            },
            Err(e) => {
                self.status_message = Some(concat2("Error: ", e.as_str()));
                false
            },
        }
    }

    /// The id of the selected note, which `o` opens in the editor.
    pub fn open_target(&self) -> (id: Option<String>)
        ensures
            match self.selected {
                Some(i) => if i < self.notes@.len() { id matches Some(s) && s == self.notes@[i as int].id } else { id is None },
                None => id is None,
            },
    {
        match self.selected {
            Some(i) => if i < self.notes.len() { Some(self.notes[i].id.clone()) } else { None },
            None => None,
        }
    }

    /// Moves the selection down, wrapping to the top.
    pub fn next(&mut self)
        ensures
            final(self).selected == (if old(self).notes@.len() == 0 { old(self).selected } else {
                Some(next_index(match old(self).selected { Some(i) => i as int, None => 0 }, old(self).notes@.len() as int) as usize)
            }),
            final(self).notes == old(self).notes,
            final(self).status_message == old(self).status_message,
            final(self).should_quit == old(self).should_quit,
            old(self).wf() ==> final(self).wf(),
    {
        if self.notes.len() == 0 {
            return;
        }
        let i = match self.selected { Some(i) => i, None => 0 };
        if i >= self.notes.len() - 1 {
            self.selected = Some(0);
        } else {
            self.selected = Some(i + 1);
        }
    }

    /// Moves the selection up, wrapping to the bottom.
    pub fn previous(&mut self)
        ensures
            final(self).selected == (if old(self).notes@.len() == 0 { old(self).selected } else {
                Some(previous_index(match old(self).selected { Some(i) => i as int, None => 0 }, old(self).notes@.len() as int) as usize)
            }),
            final(self).notes == old(self).notes,
            final(self).status_message == old(self).status_message,
            final(self).should_quit == old(self).should_quit,
            old(self).wf() ==> final(self).wf(),
    {
        if self.notes.len() == 0 {
            return;
        }
        let i = match self.selected { Some(i) => i, None => 0 };
        if i == 0 {
            self.selected = Some(self.notes.len() - 1);
        } else {
            self.selected = Some(i - 1);
        }
    }

    /// The user asked to leave.
    pub fn quit(&mut self)
        ensures
            final(self).should_quit,
            final(self).notes == old(self).notes,
            final(self).selected == old(self).selected,
            final(self).status_message == old(self).status_message,
    {
        self.should_quit = true;
    }

    /// The `r` key: takes a fresh listing, and says so in the status when
    /// it succeeded.
    pub fn refresh_by_key(&mut self, listed: Result<Vec<Note>, String>)
        ensures
            match listed {
                Ok(new_notes) => {
                    &&& final(self).notes@ == new_notes@
                    &&& final(self).selected == refreshed_selection(old(self).notes@, old(self).selected, new_notes@)
                    &&& final(self).status_message matches Some(m) && m@ == "Refreshed"@
                },
                Err(e) => {
                    &&& final(self).notes@ == old(self).notes@
                    &&& final(self).selected == old(self).selected
                    &&& final(self).status_message matches Some(m) && m@ == "Refresh error: "@ + e@
                },
            },
            final(self).should_quit == old(self).should_quit,
            old(self).wf() ==> final(self).wf(),
    {
        if self.refresh_notes(listed) {
            self.status_message = Some(string_of(&chars_of("Refreshed")));
        }
    }
}

/// A key as the manager tells keys apart.
#[derive(Debug, Clone, Copy, PartialEq, Eq, Structural)]
pub enum Key {
    Char(char),
    Esc,
    Enter,
    Up,
    Down,
    Other,
}

/// What a key press asks the manager to do.
#[derive(Debug, Clone, Copy, PartialEq, Eq, Structural)]
pub enum Action {
    Quit,
    Create(NoteType),
    DeleteSelected,
    OpenSelected,
    Refresh,
    Next,
    Previous,
    Nothing,
}

/// The title of notes made from the manager.
pub const NEW_NOTE_TITLE: &'static str = "Untitled";

/// What a key event asks for: only presses count; `q`/Esc quit, `n`, `N`
/// and `m`/`M` create a text, list or markdown note, `d`/`D` delete, `o`/`O`/
/// Enter open, `r`/`R` refresh, Down/`j` and Up/`k` move the selection.
pub open spec fn spec_action_for_key(key: Key, pressed: bool) -> Action {
    if !pressed {
        Action::Nothing
    } else {
        match key {
            Key::Char('q') | Key::Esc => Action::Quit,
            Key::Char('n') => Action::Create(NoteType::Text),
            Key::Char('N') => Action::Create(NoteType::List),
            Key::Char('m') | Key::Char('M') => Action::Create(NoteType::Markdown),
            Key::Char('d') | Key::Char('D') => Action::DeleteSelected,
            Key::Char('o') | Key::Char('O') | Key::Enter => Action::OpenSelected,
            Key::Char('r') | Key::Char('R') => Action::Refresh,
            Key::Down | Key::Char('j') => Action::Next,
            Key::Up | Key::Char('k') => Action::Previous,
            _ => Action::Nothing,
        }
    }
}

/// What a key event asks for.
pub fn action_for_key(key: Key, pressed: bool) -> (a: Action)
    ensures
        a == spec_action_for_key(key, pressed),
{
    if !pressed {
        return Action::Nothing;
    }
    match key {
        Key::Char('q') | Key::Esc => Action::Quit,
        Key::Char('n') => Action::Create(NoteType::Text),
        Key::Char('N') => Action::Create(NoteType::List),
        Key::Char('m') | Key::Char('M') => Action::Create(NoteType::Markdown),
        Key::Char('d') | Key::Char('D') => Action::DeleteSelected,
        Key::Char('o') | Key::Char('O') | Key::Enter => Action::OpenSelected,
        Key::Char('r') | Key::Char('R') => Action::Refresh,
        Key::Down | Key::Char('j') => Action::Next,
        Key::Up | Key::Char('k') => Action::Previous,
        _ => Action::Nothing,
    }
}

// ---------------------------------------------------------------------------
// The screen
// ---------------------------------------------------------------------------

/// The title bar of the manager.
pub const TITLE: &'static str = "Sticky Notes Manager";

/// The marker before the selected note.
pub const HIGHLIGHT_SYMBOL: &'static str = "► ";

/// A screen rectangle in terminal cells.
#[derive(Debug, Clone, Copy, PartialEq, Eq, Structural)]
pub struct Rect {
    pub x: u16,
    pub y: u16,
    pub width: u16,
    pub height: u16,
}

/// The colour a note type's label is drawn in.
#[derive(Debug, Clone, Copy, PartialEq, Eq, Structural)]
pub enum LabelColor {
    Green,
    Blue,
    Magenta,
}

/// The label shown for a note type.
pub open spec fn spec_type_label(t: NoteType) -> Seq<char> {
    match t {
        NoteType::Text => "TEXT"@,
        NoteType::List => "LIST"@,
        NoteType::Markdown => "MD "@,
    }
}

/// The label shown for a note type.
pub fn type_label(t: NoteType) -> (s: &'static str)
    ensures
        s@ == spec_type_label(t),
{
    match t {
        NoteType::Text => "TEXT",
        NoteType::List => "LIST",
        NoteType::Markdown => "MD ",
    }
}

/// The colour of a note type's label.
pub fn label_color(t: NoteType) -> (c: LabelColor)
    ensures
        c == match t {
            NoteType::Text => LabelColor::Green,
            NoteType::List => LabelColor::Blue,
            NoteType::Markdown => LabelColor::Magenta,
        },
{
    match t {
        NoteType::Text => LabelColor::Green,
        NoteType::List => LabelColor::Blue,
        NoteType::Markdown => LabelColor::Magenta,
    }
}

/// The bracketed type label that starts a note's row.
pub fn type_tag(t: NoteType) -> (s: String)
    ensures
        s@ == "["@ + spec_type_label(t) + "] "@,
{
    concat3("[", type_label(t), "] ")
}

/// The end of a note's row: the first eight characters of its id in
/// parentheses.
pub fn short_id(id: &str) -> (s: String)
    ensures
        s@ == " ("@ + (if id@.len() <= 8 { id@ } else { id@.take(8) }) + ")"@,
{
    let v = chars_of(id);
    let n = if v.len() <= 8 { v.len() } else { 8 };
    let head = crate::text::slice_of(&v, 0, n);
    let mut out = chars_of(" (");
    crate::text::push_all(&mut out, &head);
    push_str(&mut out, ")");
    proof {
        if id@.len() <= 8 {
            assert(head@ =~= id@);
        }
    }
    string_of(&out)
}

/// The title of the list box, with the number of notes.
pub fn list_title(count: usize) -> (s: String)
    ensures
        s@ == " Notes ("@ + decimal(count as nat) + ") "@,
{
    let mut out = chars_of(" Notes (");
    push_decimal(&mut out, count as u64);
    push_str(&mut out, ") ");
    string_of(&out)
}

/// Where the status message is drawn over the list area: two cells in,
/// three rows high at the bottom, and as wide as the message (its length
/// in bytes, taken modulo 2^16, as a cast to `u16` does) plus four,
/// but no wider than the area less four.
pub open spec fn spec_status_area(area: Rect, message_len: usize) -> Rect {
    let bottom = if area.height >= 3 { area.height - 3 } else { 0 };
    let y = if area.y + bottom > u16::MAX { u16::MAX as int } else { area.y + bottom };
    let room = if area.width >= 4 { area.width - 4 } else { 0 };
    let wanted = (message_len % 65536) + 4;
    Rect {
        x: (area.x + 2) as u16,
        y: y as u16,
        width: (if room <= wanted { room } else { wanted }) as u16,
        height: 3,
    }
}

/// Where the status message is drawn over the list area.
pub fn status_area(area: Rect, message_len: usize) -> (r: Rect)
    requires
        area.x + 2 <= u16::MAX,
        (message_len % 65536) + 4 <= u16::MAX,
    ensures
        r == spec_status_area(area, message_len),
{
    let bottom = area.height.saturating_sub(3);
    let y = area.y.saturating_add(bottom);
    let room = area.width.saturating_sub(4);
    let wanted = (message_len % 65536) as u16 + 4;
    let width = if room <= wanted { room } else { wanted };
    Rect { x: area.x + 2, y, width, height: 3 }
}

/// Every operation of the manager keeps the selection pointing into the
/// list, present exactly when the list is not empty.
pub proof fn lemma_operations_keep_selection_valid(app: App, listed: Seq<Note>)
    requires
        app.wf(),
    ensures
        refreshed_selection(app.notes@, app.selected, listed) is None <==> listed.len() == 0,
        refreshed_selection(app.notes@, app.selected, listed) matches Some(i) ==> i < listed.len(),
        app.notes@.len() > 0 ==> {
            let i = match app.selected { Some(i) => i as int, None => 0 };
            &&& 0 <= next_index(i, app.notes@.len() as int) < app.notes@.len()
            &&& 0 <= previous_index(i, app.notes@.len() as int) < app.notes@.len()
        },
{
    if listed.len() > 0 {
        if let Some(i) = app.selected {
            if i < app.notes@.len() && exists|p: int| is_first_with_id(listed, app.notes@[i as int].id@, p) {
                let p = choose|p: int| is_first_with_id(listed, app.notes@[i as int].id@, p);
                assert(0 <= p < listed.len());
            }
        }
    }
}

/// Moving down then up, or up then down, comes back to the same note.
pub proof fn lemma_next_previous_inverse(i: int, len: int)
    requires
        0 <= i < len,
    ensures
        previous_index(next_index(i, len), len) == i,
        next_index(previous_index(i, len), len) == i,
{
}

/// Refreshing with an unchanged list of distinct notes keeps the selection.
pub proof fn lemma_refresh_unchanged_keeps_selection(app: App)
    requires
        app.wf(),
        forall|a: int, b: int| 0 <= a < b < app.notes@.len() ==> app.notes@[a].id@ != app.notes@[b].id@,
    ensures
        refreshed_selection(app.notes@, app.selected, app.notes@) == app.selected,
{
    if let Some(i) = app.selected {
        let notes = app.notes@;
        assert(is_first_with_id(notes, notes[i as int].id@, i as int));
        let p = choose|p: int| is_first_with_id(notes, notes[i as int].id@, p);
        if p < i {
            assert(notes[p].id@ != notes[i as int].id@);
        } else if p > i {
            assert(notes[i as int].id@ != notes[p].id@);
        }
    }
}

/// After a successful listing the selection follows the selected note:
/// when a note with its id is listed again, the selection is the first
/// position of that id in the new list; otherwise it is the first note,
/// and nothing when the new list is empty.
pub proof fn lemma_refresh_follows_selected_note(old_notes: Seq<Note>, old_selected: Option<usize>, new_notes: Seq<Note>)
    requires
        new_notes.len() <= usize::MAX,
    ensures
        new_notes.len() == 0 ==> refreshed_selection(old_notes, old_selected, new_notes) is None,
        new_notes.len() > 0 ==> match old_selected {
            Some(i) => if i < old_notes.len() && exists|q: int|
                0 <= q < new_notes.len() && #[trigger] new_notes[q].id@ == old_notes[i as int].id@ {
                match refreshed_selection(old_notes, old_selected, new_notes) {
                    Some(p) => {
                        &&& p < new_notes.len()
                        &&& new_notes[p as int].id@ == old_notes[i as int].id@
                        &&& forall|q: int| 0 <= q < p ==> #[trigger] new_notes[q].id@ != old_notes[i as int].id@
                    },
                    None => false,
                }
            } else {
                refreshed_selection(old_notes, old_selected, new_notes) == Some(0usize)
            },
            None => refreshed_selection(old_notes, old_selected, new_notes) == Some(0usize),
        },
{
    if new_notes.len() > 0 {
        if let Some(i) = old_selected {
            if i < old_notes.len() {
                let id = old_notes[i as int].id@;
                if exists|q: int| 0 <= q < new_notes.len() && #[trigger] new_notes[q].id@ == id {
                    let q = choose|q: int| 0 <= q < new_notes.len() && #[trigger] new_notes[q].id@ == id;
                    lemma_first_position_exists(new_notes, id, q);
                    let p = choose|p: int| is_first_with_id(new_notes, id, p);
                    assert(is_first_with_id(new_notes, id, p));
                    assert(refreshed_selection(old_notes, old_selected, new_notes) == Some(p as usize));
                    assert((p as usize) as int == p);
                } else {
                    assert forall|p: int| !is_first_with_id(new_notes, id, p) by {
                        if is_first_with_id(new_notes, id, p) {
                            assert(new_notes[p].id@ == id);
                        }
                    }
                }
            }
        }
    }
}

/// A note that is listed has a first position in the list.
proof fn lemma_first_position_exists(notes: Seq<Note>, id: Seq<char>, q: int)
    requires
        0 <= q < notes.len(),
        notes[q].id@ == id,
    ensures
        exists|p: int| is_first_with_id(notes, id, p),
    decreases q,
{
    if exists|r: int| 0 <= r < q && #[trigger] notes[r].id@ == id {
        let r = choose|r: int| 0 <= r < q && #[trigger] notes[r].id@ == id;
        lemma_first_position_exists(notes, id, r);
    } else {
        assert(is_first_with_id(notes, id, q));
    }
}

/// The key table of the manager's help bar: each listed key, pressed, asks
/// for its action (letters listed in both cases give the same action in
/// both); any other key, and any key event that is not a press, asks for
/// nothing.
pub proof fn lemma_key_table(key: Key)
    ensures
        spec_action_for_key(Key::Char('q'), true) == Action::Quit,
        spec_action_for_key(Key::Esc, true) == Action::Quit,
        spec_action_for_key(Key::Char('n'), true) == Action::Create(NoteType::Text),
        spec_action_for_key(Key::Char('N'), true) == Action::Create(NoteType::List),
        spec_action_for_key(Key::Char('m'), true) == Action::Create(NoteType::Markdown),
        spec_action_for_key(Key::Char('M'), true) == Action::Create(NoteType::Markdown),
        spec_action_for_key(Key::Char('d'), true) == Action::DeleteSelected,
        spec_action_for_key(Key::Char('D'), true) == Action::DeleteSelected,
        spec_action_for_key(Key::Char('o'), true) == Action::OpenSelected,
        spec_action_for_key(Key::Char('O'), true) == Action::OpenSelected,
        spec_action_for_key(Key::Enter, true) == Action::OpenSelected,
        spec_action_for_key(Key::Char('r'), true) == Action::Refresh,
        spec_action_for_key(Key::Char('R'), true) == Action::Refresh,
        spec_action_for_key(Key::Down, true) == Action::Next,
        spec_action_for_key(Key::Char('j'), true) == Action::Next,
        spec_action_for_key(Key::Up, true) == Action::Previous,
        spec_action_for_key(Key::Char('k'), true) == Action::Previous,
        spec_action_for_key(key, false) == Action::Nothing,
        (match key {
            Key::Char(c) => !(c == 'q' || c == 'n' || c == 'N' || c == 'm' || c == 'M' || c == 'd' || c == 'D'
                || c == 'o' || c == 'O' || c == 'r' || c == 'R' || c == 'j' || c == 'k'),
            Key::Other => true,
            _ => false,
        }) ==> spec_action_for_key(key, true) == Action::Nothing,
{
}

} // verus!
