//! What the note editor decides about text: how a list note's body is
//! shown, what pressing Return continues a list or markdown line with, the
//! image markers stored in a body, image sizes, and the edits it saves.
//! The widgets themselves are left to the program.
use vstd::prelude::*;
use crate::model::{Note, Timestamp};
use crate::number::{lemma_parse_signed_decimal, lemma_decimal_digits, lemma_decimal_no_leading_zero, all_digits, digits_value, is_ascii_digit, parse_i32, parse_i32_exec, parse_usize, parse_usize_exec, push_decimal, push_signed_decimal,
    signed_decimal, decimal};
use crate::text::{occurs_at, is_first_occurrence, trim_start, trim_end, is_whitespace, lemma_first_occurrence_unique,
    strip_carriage_return, lemma_occurs_at_char, lemma_char_has_first_occurrence, lemma_lines_single, lemma_lines_ended,
    lemma_lines_append, lemma_trim_start, lemma_trim_end, lemma_trim_drop_last,
    chars_of, string_of, push_all, push_str, concat2, concat3, matches_at, slice_of, lines, lines_of, views,
    starts_with, ends_with, trim, trim_exec, split_char, split_on, replace_all, replace_all_exec};

verus! {

// ---------------------------------------------------------------------------
// List notes
// ---------------------------------------------------------------------------

/// How a line of a list note is shown: task items as boxes, bullets as
/// dots, and a first numbered item spaced out.
pub open spec fn spec_list_display_line(l: Seq<char>) -> Seq<char> {
    if starts_with(l, "- [ ] "@) {
        "☐  "@ + l.skip("- [ ] "@.len() as int)
    } else if starts_with(l, "- [x] "@) || starts_with(l, "- [X] "@) {
        "☑  "@ + l.skip("- [x] "@.len() as int)
    } else if starts_with(l, "- "@) {
        "•  "@ + l.skip("- "@.len() as int)
    } else if starts_with(l, "* "@) {
        "•  "@ + l.skip("* "@.len() as int)
    } else if starts_with(l, "1. "@) {
        "1.  "@ + l.skip("1. "@.len() as int)
    } else {
        l
    }
}

/// Lines joined with `\n` between them.
pub open spec fn join_lines(ls: Seq<Seq<char>>) -> Seq<char>
    decreases ls.len(),
{
    if ls.len() == 0 {
        Seq::empty()
    } else if ls.len() == 1 {
        ls[0]
    } else {
        join_lines(ls.drop_last()) + seq!['\n'] + ls.last()
    }
}

/// How a list note's body is shown: each of its lines as
/// `spec_list_display_line` shows it.
pub open spec fn spec_format_list_body(body: Seq<char>) -> Seq<char> {
    join_lines(lines(body).map_values(|l: Seq<char>| spec_list_display_line(l)))
}

/// Whether `s` begins with the literal `p`.
fn has_prefix(s: &Vec<char>, p: &str) -> (b: bool)
    ensures
        b == starts_with(s@, p@),
{
    let pv = chars_of(p);
    matches_at(s, &pv, 0)
}

/// `prefix` followed by `s` from index `from` on.
fn replaced_prefix(prefix: &str, s: &Vec<char>, from: usize) -> (r: Vec<char>)
    requires
        from <= s.len(),
    ensures
        r@ == prefix@ + s@.skip(from as int),
{
    let mut out = chars_of(prefix);
    let tail = slice_of(s, from, s.len());
    push_all(&mut out, &tail);
    assert(tail@ =~= s@.skip(from as int));
    out
}

/// How one line of a list note is shown.
pub fn list_display_line(l: &Vec<char>) -> (r: Vec<char>)
    ensures
        r@ == spec_list_display_line(l@),
{
    if has_prefix(l, "- [ ] ") {
        replaced_prefix("☐  ", l, chars_of("- [ ] ").len())
    } else if has_prefix(l, "- [x] ") || has_prefix(l, "- [X] ") {
        proof {
            reveal_strlit("- [x] ");
            reveal_strlit("- [X] ");
        }
        replaced_prefix("☑  ", l, chars_of("- [x] ").len())
    } else if has_prefix(l, "- ") {
        replaced_prefix("•  ", l, chars_of("- ").len())
    } else if has_prefix(l, "* ") {
        replaced_prefix("•  ", l, chars_of("* ").len())
    } else if has_prefix(l, "1. ") {
        replaced_prefix("1.  ", l, chars_of("1. ").len())
    } else {
        l.clone()
    }
}

/// How a list note's body is shown in the editor.
pub fn format_list_body(body: &str) -> (r: String)
    ensures
        r@ == spec_format_list_body(body@),
{
    let text = chars_of(body);
    let ls = lines_of(&text);
    let ghost shown = lines(body@).map_values(|l: Seq<char>| spec_list_display_line(l));
    let mut out: Vec<char> = Vec::new();
    let mut idx: usize = 0;
    assert(shown.take(0) =~= Seq::<Seq<char>>::empty());
    while idx < ls.len()
        invariant
            idx <= ls@.len(),
            views(ls@) == lines(body@),
            shown == lines(body@).map_values(|l: Seq<char>| spec_list_display_line(l)),
            out@ == join_lines(shown.take(idx as int)),
        decreases ls@.len() - idx,
    {
        if idx > 0 {
            out.push('\n');
        }
        let shown_line = list_display_line(&ls[idx]);
        push_all(&mut out, &shown_line);
        proof {
            assert(ls@[idx as int]@ == views(ls@)[idx as int]);
            assert(shown[idx as int] == shown_line@);
            assert(shown.take(idx + 1).drop_last() =~= shown.take(idx as int));
            if idx == 0 {
                assert(join_lines(shown.take(1)) == shown.take(1)[0]);
            }
        }
        idx += 1;
    }
    assert(shown.take(ls@.len() as int) =~= shown);
    string_of(&out)
}

/// What `spec_list_continuation` needs of the numbered-line pattern: a
/// name for the first capture group of the pattern in a line, as the
/// regex crate finds it.
pub uninterp spec fn regex_first_group(pattern: Seq<char>, line: Seq<char>) -> Option<Seq<char>>;

/// The pattern of a numbered list line: digits, a dot, then whitespace.
pub const NUMBERED_LINE_PATTERN: &'static str = r"^(\d+)\.\s+";

/// `regex::Regex::new(pattern)` then `captures(line)`, giving the text of
/// capture group 1 when the pattern matches.  The result is named by
/// `regex_first_group`; what the regex crate matches is not restated here.
/// Only the numbered-line pattern is admitted, which compiles, and whose
/// group 1 takes part in every match, so neither `unwrap` nor the group
/// index can panic.
#[verifier::external_body]
fn regex_captures_first_group(pattern: &str, line: &str) -> (r: Option<String>)
    requires
        pattern@ == NUMBERED_LINE_PATTERN@,
    ensures
        match r {
            Some(g) => regex_first_group(pattern@, line@) == Some(g@),
            None => regex_first_group(pattern@, line@) == None::<Seq<char>>,
        },
{
    let re = regex::Regex::new(pattern).unwrap();
    match re.captures(line) {
        Some(caps) => Some(caps[1].to_string()),
        None => None,
    }
}

/// What follows an item numbered by `group`, the digits the numbered-line
/// pattern captured (if it matched): a line break, the next number and its
/// dot; nothing without a match, when the digits do not read as a `usize`,
/// or when the number is `usize::MAX`, which has no next.
pub open spec fn spec_continuation_after_number(group: Option<Seq<char>>) -> Option<Seq<char>> {
    match group {
        Some(g) => match parse_usize(g) {
            Some(n) => if n < usize::MAX {
                Some("\n"@ + decimal((n + 1) as nat) + ".  "@)
            } else {
                None
            },
            None => None,
        },
        None => None,
    }
}

/// After an item whose captured digits read as `n`, Return starts the item
/// numbered `n + 1`: a line break, the digits of `n + 1` without leading
/// zeros (reading back as `n + 1`), a dot and two spaces.  Digits that do
/// not read as a number below `usize::MAX`, or no match, give nothing.
pub proof fn lemma_continuation_numbers_next(g: Seq<char>)
    ensures
        spec_continuation_after_number(None) is None,
        match parse_usize(g) {
            Some(n) => if n < usize::MAX {
                match spec_continuation_after_number(Some(g)) {
                    Some(s) => {
                        let d = s.subrange(1, s.len() - 3);
                        &&& s.len() >= 5
                        &&& s[0] == '\n'
                        &&& s.subrange(s.len() - 3, s.len() as int) == ".  "@
                        &&& d.len() > 0
                        &&& all_digits(d)
                        &&& d[0] != '0'
                        &&& digits_value(d) == n + 1
                        &&& parse_usize(d) == Some((n + 1) as usize)
                    },
                    None => false,
                }
            } else {
                spec_continuation_after_number(Some(g)) is None
            },
            None => spec_continuation_after_number(Some(g)) is None,
        },
{
    reveal_strlit("\n");
    reveal_strlit(".  ");
    if let Some(n) = parse_usize(g) {
        if n < usize::MAX {
            let m = (n + 1) as nat;
            lemma_decimal_digits(m);
            lemma_decimal_no_leading_zero(m);
            let d = decimal(m);
            let s = "\n"@ + d + ".  "@;
            assert(s.subrange(1, s.len() - 3) =~= d);
            assert(s.subrange(s.len() - 3, s.len() as int) =~= ".  "@);
            assert(is_ascii_digit(d[0]));
        }
    }
}

/// What follows an item numbered by the captured digits `group`.
pub fn continuation_after_number(group: Option<&str>) -> (r: Option<String>)
    ensures
        match group {
            Some(g) => match r {
                Some(s) => spec_continuation_after_number(Some(g@)) == Some(s@),
                None => spec_continuation_after_number(Some(g@)) == None::<Seq<char>>,
            },
            None => r is None,
        },
{
    match group {
        Some(g) => {
            let digits = chars_of(g);
            match parse_usize_exec(&digits) {
                Some(n) => {
                    if n < usize::MAX {
                        let mut out = chars_of("\n");
                        push_decimal(&mut out, (n + 1) as u64);
                        push_str(&mut out, ".  ");
                        Some(string_of(&out))
                    } else {
                        None
                    }
                },
                None => None,
            }
        },
        None => None,
    }
}

/// What Return inserts at the end of a list note whose current line (up to
/// the cursor) is `line`: a new unchecked box after a box, a new bullet
/// after a bullet, the next number after a numbered item; nothing when the
/// line is none of these, or its number is `usize::MAX`, which has no next.
pub open spec fn spec_list_continuation(line: Seq<char>) -> Option<Seq<char>> {
    if starts_with(line, "☐  "@) || starts_with(line, "☑  "@) {
        Some("\n☐  "@)
    } else if starts_with(line, "•  "@) {
        Some("\n•  "@)
    } else if starts_with(line, "1.  "@) {
        Some("\n2.  "@)
    } else {
        spec_continuation_after_number(regex_first_group(NUMBERED_LINE_PATTERN@, line))
    }
}

/// What Return inserts at the end of a list note after `line`.
pub fn list_continuation(line: &str) -> (r: Option<String>)
    ensures
        match r {
            Some(s) => spec_list_continuation(line@) == Some(s@),
            None => spec_list_continuation(line@) == None::<Seq<char>>,
        },
{
    let l = chars_of(line);
    if has_prefix(&l, "☐  ") || has_prefix(&l, "☑  ") {
        return Some(string_of(&chars_of("\n☐  ")));
    }
    if has_prefix(&l, "•  ") {
        return Some(string_of(&chars_of("\n•  ")));
    }
    if has_prefix(&l, "1.  ") {
        return Some(string_of(&chars_of("\n2.  ")));
    }
    let group = regex_captures_first_group(NUMBERED_LINE_PATTERN, line);
    match group {
        Some(g) => continuation_after_number(Some(g.as_str())),
        None => continuation_after_number(None),
    }
}

/// Whether Return after `line` in a markdown note inserts a plain newline
/// itself: after headings of levels one to three, bullets and a first
/// numbered item.
pub open spec fn spec_markdown_continues(line: Seq<char>) -> bool {
    starts_with(line, "# "@) || starts_with(line, "## "@) || starts_with(line, "### "@)
        || starts_with(line, "- "@) || starts_with(line, "* "@) || starts_with(line, "1. "@)
}

/// Whether Return after `line` in a markdown note inserts a newline itself.
pub fn markdown_continues(line: &str) -> (b: bool)
    ensures
        b == spec_markdown_continues(line@),
{
    let l = chars_of(line);
    has_prefix(&l, "# ") || has_prefix(&l, "## ") || has_prefix(&l, "### ")
        || has_prefix(&l, "- ") || has_prefix(&l, "* ") || has_prefix(&l, "1. ")
}

/// The text the list button puts at the start of the current line.
pub const LIST_ITEM_PREFIX: &'static str = "- [ ] ";

// ---------------------------------------------------------------------------
// Images
// ---------------------------------------------------------------------------

/// An image placed in a note: its file name and its size in pixels.
pub struct NoteImage {
    pub path: String,
    pub width: i32,
    pub height: i32,
}

impl View for NoteImage {
    type V = (Seq<char>, i32, i32);

    open spec fn view(&self) -> (Seq<char>, i32, i32) {
        (self.path@, self.width, self.height)
    }
}

/// The size an inserted image starts with.
pub const DEFAULT_IMAGE_WIDTH: i32 = 300;

/// The size an inserted image starts with.
pub const DEFAULT_IMAGE_HEIGHT: i32 = 200;

/// The smallest side an image can be resized to.
pub const MIN_IMAGE_SIZE: i32 = 50;

/// The largest side an image can be resized to.
pub const MAX_IMAGE_SIZE: i32 = 600;

/// The marker a body holds for an image: `[IMAGE:<name>|<width>x<height>]`.
pub open spec fn spec_image_marker(name: Seq<char>, width: i32, height: i32) -> Seq<char> {
    "[IMAGE:"@ + name + "|"@ + signed_decimal(width as int) + "x"@ + signed_decimal(height as int) + "]"@
}

/// The marker a body holds for an image.
pub fn image_marker(name: &str, width: i32, height: i32) -> (r: String)
    ensures
        r@ == spec_image_marker(name@, width, height),
{
    let mut out = chars_of("[IMAGE:");
    push_str(&mut out, name);
    push_str(&mut out, "|");
    push_signed_decimal(&mut out, width);
    push_str(&mut out, "x");
    push_signed_decimal(&mut out, height);
    push_str(&mut out, "]");
    string_of(&out)
}

/// What the editor appends to the body when an image is inserted: the
/// marker at the default size on a line of its own.
pub fn inserted_image_text(name: &str) -> (r: String)
    ensures
        r@ == "\n"@ + spec_image_marker(name@, DEFAULT_IMAGE_WIDTH, DEFAULT_IMAGE_HEIGHT) + "\n"@,
{
    let marker = image_marker(name, DEFAULT_IMAGE_WIDTH, DEFAULT_IMAGE_HEIGHT);
    concat3("\n", marker.as_str(), "\n")
}

/// The image a line holds: once trimmed, `[IMAGE:` and `]` around exactly
/// one `|`, after which exactly one `x` parts a width and a height that
/// read as `i32`.
pub open spec fn spec_image_of_line(line: Seq<char>) -> Option<(Seq<char>, i32, i32)> {
    let t = trim(line);
    if starts_with(t, "[IMAGE:"@) && ends_with(t, "]"@) {
        let parts = split_char(t.subrange("[IMAGE:"@.len() as int, t.len() - 1), '|');
        if parts.len() == 2 {
            let size = split_char(parts[1], 'x');
            if size.len() == 2 {
                match (parse_i32(size[0]), parse_i32(size[1])) {
                    (Some(w), Some(h)) => Some((parts[0], w, h)),
                    _ => None,
                }
            } else {
                None
            }
        } else {
            None
        }
    } else {
        None
    }
}

/// The image a line holds, if it is an image marker.
pub fn image_of_line(line: &Vec<char>) -> (r: Option<NoteImage>)
    ensures
        match r {
            Some(img) => spec_image_of_line(line@) == Some(img@),
            None => spec_image_of_line(line@) == None::<(Seq<char>, i32, i32)>,
        },
{
    let t = trim_exec(line);
    let open = chars_of("[IMAGE:");
    let close = chars_of("]");
    if !(matches_at(&t, &open, 0) && close.len() <= t.len() && matches_at(&t, &close, t.len() - close.len())) {
        return None;
    }
    proof {
        reveal_strlit("[IMAGE:");
        reveal_strlit("]");
        assert(t@.subrange(0, 7) =~= "[IMAGE:"@);
        assert("[IMAGE:"@[6] == ':');
        assert(t@[6] == t@.subrange(0, 7)[6]);
        assert(t@.subrange(t@.len() - 1, t@.len() as int)[0] == ']');
    }
    let content = slice_of(&t, open.len(), t.len() - close.len());
    let parts = split_on(&content, '|');
    if parts.len() != 2 {
        return None;
    }
    proof { assert(parts@[1]@ == views(parts@)[1]); assert(parts@[0]@ == views(parts@)[0]); }
    let size = split_on(&parts[1], 'x');
    if size.len() != 2 {
        return None;
    }
    proof { assert(size@[1]@ == views(size@)[1]); assert(size@[0]@ == views(size@)[0]); }
    match (parse_i32_exec(&size[0]), parse_i32_exec(&size[1])) {
        (Some(w), Some(h)) => Some(NoteImage { path: string_of(&parts[0]), width: w, height: h }),
        _ => None,
    }
}

/// The images a body holds, one per marker line, in order.
pub open spec fn spec_images_in(text: Seq<char>) -> Seq<(Seq<char>, i32, i32)> {
    lines(text).filter_map(|l: Seq<char>| spec_image_of_line(l))
}

/// The images a body holds, in order (what the editor saves with a note).
pub fn extract_images_from_text(text: &str) -> (r: Vec<NoteImage>)
    ensures
        r@.map_values(|i: NoteImage| i@) == spec_images_in(text@),
{
    let chars = chars_of(text);
    let ls = lines_of(&chars);
    let ghost f = |l: Seq<char>| spec_image_of_line(l);
    let mut out: Vec<NoteImage> = Vec::new();
    let mut idx: usize = 0;
    assert(lines(text@).take(0) =~= Seq::<Seq<char>>::empty());
    assert(out@.map_values(|i: NoteImage| i@) =~= Seq::<(Seq<char>, i32, i32)>::empty());
    while idx < ls.len()
        invariant
            idx <= ls@.len(),
            views(ls@) == lines(text@),
            f == (|l: Seq<char>| spec_image_of_line(l)),
            out@.map_values(|i: NoteImage| i@) == lines(text@).take(idx as int).filter_map(f),
        decreases ls@.len() - idx,
    {
        let found = image_of_line(&ls[idx]);
        proof {
            assert(ls@[idx as int]@ == lines(text@)[idx as int]);
            assert(lines(text@).take(idx + 1).drop_last() =~= lines(text@).take(idx as int));
            assert(lines(text@).take(idx + 1).last() == lines(text@)[idx as int]);
        }
        match found {
            Some(img) => {
                let ghost before = out@;
                out.push(img);
                assert(out@.map_values(|i: NoteImage| i@) =~= before.map_values(|i: NoteImage| i@) + seq![img@]);
            },
            None => {},
        }
        idx += 1;
    }
    assert(lines(text@).take(ls@.len() as int) =~= lines(text@));
    out
}

/// An image marker found on a line of a body.
pub struct ImageAt {
    /// The index of the line, counting from zero.
    pub line: usize,
    pub image: NoteImage,
}

/// The image markers of a body with the indices of their lines, in order.
pub open spec fn spec_image_lines(text: Seq<char>) -> Seq<(int, (Seq<char>, i32, i32))> {
    lines(text).map(|i: int, l: Seq<char>| (i, l)).filter_map(
        |p: (int, Seq<char>)| match spec_image_of_line(p.1) {
            Some(img) => Some((p.0, img)),
            None => None,
        },
    )
}

/// The image markers of a body with the indices of their lines (where the
/// editor puts the pictures when it opens a note).
pub fn image_lines(text: &str) -> (r: Vec<ImageAt>)
    ensures
        r@.map_values(|a: ImageAt| (a.line as int, a.image@)) == spec_image_lines(text@),
{
    let chars = chars_of(text);
    let ls = lines_of(&chars);
    let ghost indexed = lines(text@).map(|i: int, l: Seq<char>| (i, l));
    let ghost f = |p: (int, Seq<char>)| match spec_image_of_line(p.1) {
        Some(img) => Some((p.0, img)),
        None => None,
    };
    let mut out: Vec<ImageAt> = Vec::new();
    let mut idx: usize = 0;
    assert(indexed.take(0) =~= Seq::<(int, Seq<char>)>::empty());
    assert(out@.map_values(|a: ImageAt| (a.line as int, a.image@)) =~= Seq::<(int, (Seq<char>, i32, i32))>::empty());
    while idx < ls.len()
        invariant
            idx <= ls@.len(),
            views(ls@) == lines(text@),
            indexed == lines(text@).map(|i: int, l: Seq<char>| (i, l)),
            f == (|p: (int, Seq<char>)| match spec_image_of_line(p.1) {
                Some(img) => Some((p.0, img)),
                None => None,
            }),
            out@.map_values(|a: ImageAt| (a.line as int, a.image@)) == indexed.take(idx as int).filter_map(f),
        decreases ls@.len() - idx,
    {
        let found = image_of_line(&ls[idx]);
        proof {
            assert(ls@[idx as int]@ == lines(text@)[idx as int]);
            assert(indexed[idx as int] == (idx as int, lines(text@)[idx as int]));
            assert(indexed.take(idx + 1).drop_last() =~= indexed.take(idx as int));
            assert(indexed.take(idx + 1).last() == indexed[idx as int]);
        }
        match found {
            Some(img) => {
                let ghost before = out@;
                let ghost v = img@;
                out.push(ImageAt { line: idx, image: img });
                assert(out@.map_values(|a: ImageAt| (a.line as int, a.image@)) =~= before.map_values(
                    |a: ImageAt| (a.line as int, a.image@),
                ) + seq![(idx as int, v)]);
            },
            None => {},
        }
        idx += 1;
    }
    assert(indexed.take(ls@.len() as int) =~= indexed);
    out
}

/// Splitting `a`, `c`, `b` at `c` gives `a` and `b` when neither holds `c`.
proof fn lemma_split_in_two(a: Seq<char>, b: Seq<char>, c: char)
    requires
        forall|i: int| 0 <= i < a.len() ==> a[i] != c,
        forall|i: int| 0 <= i < b.len() ==> b[i] != c,
    ensures
        split_char(a + seq![c] + b, c) == seq![a, b],
{
    let s = a + seq![c] + b;
    let k = a.len() as int;
    assert(s.subrange(k, k + 1) =~= seq![c]);
    assert forall|j: int| 0 <= j < k implies !occurs_at(s, seq![c], j) by {
        if occurs_at(s, seq![c], j) {
            assert(s.subrange(j, j + 1)[0] == s[j]);
        }
    }
    assert(is_first_occurrence(s, seq![c], k));
    let w = choose|w: int| is_first_occurrence(s, seq![c], w);
    lemma_first_occurrence_unique(s, seq![c], k, w);
    assert(s.take(k) =~= a);
    assert(s.skip(k + 1) =~= b);
    assert forall|j: int| !is_first_occurrence(b, seq![c], j) by {
        if is_first_occurrence(b, seq![c], j) {
            assert(b.subrange(j, j + 1)[0] == b[j]);
        }
    }
    assert(split_char(b, c) == seq![b]);
    assert(split_char(s, c) =~= seq![a, b]);
}

/// The decimal text of an `i32` holds only digits and `-`.
proof fn lemma_signed_decimal_chars(n: i32)
    ensures
        forall|i: int| 0 <= i < signed_decimal(n as int).len() ==>
            (is_ascii_digit(#[trigger] signed_decimal(n as int)[i]) || signed_decimal(n as int)[i] == '-'),
{
    let m: nat = if n < 0 { (-n) as nat } else { n as nat };
    lemma_decimal_digits(m);
    let d = signed_decimal(n as int);
    assert forall|i: int| 0 <= i < d.len() implies (is_ascii_digit(#[trigger] d[i]) || d[i] == '-') by {
        if n < 0 && i > 0 {
            assert(d[i] == decimal(m)[i - 1]);
        } else if n >= 0 {
            assert(d[i] == decimal(m)[i]);
        }
    }
}

/// An image written into a body as a marker is read back from that line
/// with the same file name and size, whenever the name holds no `|`.
pub proof fn lemma_image_marker_roundtrip(name: Seq<char>, width: i32, height: i32)
    requires
        forall|i: int| 0 <= i < name.len() ==> name[i] != '|',
    ensures
        spec_image_of_line(spec_image_marker(name, width, height)) == Some((name, width, height)),
{
    reveal_strlit("[IMAGE:");
    reveal_strlit("]");
    reveal_strlit("|");
    reveal_strlit("x");
    let m = spec_image_marker(name, width, height);
    let dw = signed_decimal(width as int);
    let dh = signed_decimal(height as int);
    assert(m =~= seq!['[', 'I', 'M', 'A', 'G', 'E', ':'] + (name + seq!['|'] + (dw + seq!['x'] + dh)) + seq![']']);
    // the marker is its own trimmed form
    assert(!is_whitespace(m[0]));
    assert(trim_start(m) == m);
    assert(!is_whitespace(m.last()));
    assert(trim_end(m) == m);
    assert(trim(m) == m);
    assert(m.subrange(0, 7) =~= "[IMAGE:"@);
    assert(m.subrange(m.len() - 1, m.len() as int) =~= "]"@);
    let content = m.subrange(7, m.len() - 1);
    assert(content =~= name + seq!['|'] + (dw + seq!['x'] + dh));
    lemma_signed_decimal_chars(width);
    lemma_signed_decimal_chars(height);
    let size = dw + seq!['x'] + dh;
    assert forall|i: int| 0 <= i < size.len() implies size[i] != '|' by {
        if i < dw.len() {
            assert(size[i] == dw[i]);
        } else if i > dw.len() {
            assert(size[i] == dh[i - dw.len() - 1]);
        }
    }
    lemma_split_in_two(name, size, '|');
    assert forall|i: int| 0 <= i < dw.len() implies dw[i] != 'x' by {
        assert(is_ascii_digit(dw[i]) || dw[i] == '-');
    }
    assert forall|i: int| 0 <= i < dh.len() implies dh[i] != 'x' by {
        assert(is_ascii_digit(dh[i]) || dh[i] == '-');
    }
    lemma_split_in_two(dw, dh, 'x');
    lemma_parse_signed_decimal(width);
    lemma_parse_signed_decimal(height);
}

proof fn lemma_filter_map_append<A, B>(a: Seq<A>, b: Seq<A>, f: spec_fn(A) -> Option<B>)
    ensures
        (a + b).filter_map(f) == a.filter_map(f) + b.filter_map(f),
    decreases b.len(),
{
    if b.len() == 0 {
        assert(a + b =~= a);
        assert(a.filter_map(f) + b.filter_map(f) =~= a.filter_map(f));
    } else {
        lemma_filter_map_append(a, b.drop_last(), f);
        assert((a + b).drop_last() =~= a + b.drop_last());
        assert((a + b).last() == b.last());
        match f(b.last()) {
            Some(x) => {
                assert(a.filter_map(f) + b.drop_last().filter_map(f) + seq![x] =~= a.filter_map(f) + (
                b.drop_last().filter_map(f) + seq![x]));
            },
            None => {},
        }
    }
}

/// A line reads as the same image with or without the `\r` of a `\r\n`.
proof fn lemma_image_of_stripped_line(l: Seq<char>)
    ensures
        spec_image_of_line(strip_carriage_return(l)) == spec_image_of_line(l),
{
    if l.len() > 0 && l.last() == '\r' {
        lemma_trim_drop_last(l);
    }
}

/// The images of a body that ends in a line break, followed by more text,
/// are the images of the first part followed by those of the second.
pub proof fn lemma_images_in_append(x: Seq<char>, y: Seq<char>)
    requires
        x.len() > 0,
        x.last() == '\n',
    ensures
        spec_images_in(x + y) == spec_images_in(x) + spec_images_in(y),
{
    lemma_lines_append(x, y);
    lemma_filter_map_append(lines(x), lines(y), |l: Seq<char>| spec_image_of_line(l));
}

/// Ending a body with a line break adds no image and loses none.
pub proof fn lemma_images_in_line_break_end(a: Seq<char>)
    ensures
        spec_images_in(a + seq!['\n']) == spec_images_in(a),
    decreases a.len(),
{
    let nl = seq!['\n'];
    let f = |l: Seq<char>| spec_image_of_line(l);
    if exists|i: int| is_first_occurrence(a, nl, i) {
        let i = choose|i: int| is_first_occurrence(a, nl, i);
        let x = a.take(i + 1);
        let r = a.skip(i + 1);
        lemma_occurs_at_char(a, '\n', i);
        assert(x.last() == a[i]);
        assert(a =~= x + r);
        assert(a + nl =~= x + (r + nl));
        lemma_images_in_append(x, r);
        lemma_images_in_append(x, r + nl);
        lemma_images_in_line_break_end(r);
    } else {
        assert forall|k: int| 0 <= k < a.len() implies a[k] != '\n' by {
            if a[k] == '\n' {
                lemma_char_has_first_occurrence(a, '\n', k);
            }
        }
        lemma_lines_ended(a);
        lemma_image_of_stripped_line(a);
        Seq::lemma_filter_map_singleton(strip_carriage_return(a), f);
        if a.len() == 0 {
            reveal_strlit("[IMAGE:");
            assert(trim_start(a) == a);
            assert(trim_end(a) == a);
            assert(spec_image_of_line(a) == None::<(Seq<char>, i32, i32)>);
            assert(lines(a) == Seq::<Seq<char>>::empty());
        } else {
            lemma_lines_single(a);
            Seq::lemma_filter_map_singleton(a, f);
        }
    }
}

/// A marker holds no line break when the file name holds none.
proof fn lemma_marker_one_line(name: Seq<char>, width: i32, height: i32)
    requires
        forall|i: int| 0 <= i < name.len() ==> name[i] != '\n',
    ensures
        forall|i: int| 0 <= i < spec_image_marker(name, width, height).len()
            ==> #[trigger] spec_image_marker(name, width, height)[i] != '\n',
{
    reveal_strlit("[IMAGE:");
    reveal_strlit("]");
    reveal_strlit("|");
    reveal_strlit("x");
    let dw = signed_decimal(width as int);
    let dh = signed_decimal(height as int);
    let m = spec_image_marker(name, width, height);
    lemma_signed_decimal_chars(width);
    lemma_signed_decimal_chars(height);
    let head = seq!['[', 'I', 'M', 'A', 'G', 'E', ':'];
    assert(m =~= head + name + seq!['|'] + dw + seq!['x'] + dh + seq![']']);
    assert forall|i: int| 0 <= i < m.len() implies #[trigger] m[i] != '\n' by {
        let a = head.len() + name.len();
        let b = a + 1 + dw.len();
        if i < 7 {
            assert(m[i] == head[i]);
        } else if i < a {
            assert(m[i] == name[i - 7]);
        } else if i == a {
        } else if i < b {
            assert(m[i] == dw[i - a - 1]);
            assert(is_ascii_digit(dw[i - a - 1]) || dw[i - a - 1] == '-');
        } else if i == b {
        } else if i < m.len() - 1 {
            assert(m[i] == dh[i - b - 1]);
            assert(is_ascii_digit(dh[i - b - 1]) || dh[i - b - 1] == '-');
        }
    }
}

/// A marker line is read back with whitespace around the marker.
pub proof fn lemma_padded_marker(name: Seq<char>, width: i32, height: i32, before: Seq<char>, after: Seq<char>)
    requires
        forall|i: int| 0 <= i < name.len() ==> name[i] != '|',
        forall|i: int| 0 <= i < before.len() ==> is_whitespace(#[trigger] before[i]),
        forall|i: int| 0 <= i < after.len() ==> is_whitespace(#[trigger] after[i]),
    ensures
        spec_image_of_line(before + spec_image_marker(name, width, height) + after) == Some((name, width, height)),
{
    reveal_strlit("[IMAGE:");
    reveal_strlit("]");
    let m = spec_image_marker(name, width, height);
    lemma_image_marker_roundtrip(name, width, height);
    let rest = "|"@ + signed_decimal(width as int) + "x"@ + signed_decimal(height as int);
    assert(m =~= "[IMAGE:"@ + (name + rest) + "]"@);
    assert(m[0] == '[');
    assert(m[m.len() - 1] == ']');
    let s = before + m + after;
    assert forall|k: int| 0 <= k < before.len() implies is_whitespace(#[trigger] s[k]) by {
        assert(s[k] == before[k]);
    }
    assert(s[before.len() as int] == m[0]);
    lemma_trim_start(s, before.len() as int);
    let t = m + after;
    assert(s.skip(before.len() as int) =~= t);
    assert forall|k: int| m.len() <= k < t.len() implies is_whitespace(#[trigger] t[k]) by {
        assert(t[k] == after[k - m.len()]);
    }
    assert(t[m.len() - 1] == m[m.len() - 1]);
    lemma_trim_end(t, m.len() as int);
    assert(t.take(m.len() as int) =~= m);
    lemma_trim_start(m, 0);
    assert(m.skip(0) =~= m);
    lemma_trim_end(m, m.len() as int);
    assert(m.take(m.len() as int) =~= m);
    assert(trim(s) == trim(m));
}

/// A marker on a line of its own, with whitespace around it, is read back
/// as one image in its place among the images of the lines above and
/// below it, whatever those lines hold.
pub proof fn lemma_marker_line_among_lines(
    above: Seq<char>,
    before: Seq<char>,
    name: Seq<char>,
    width: i32,
    height: i32,
    after: Seq<char>,
    below: Seq<char>,
)
    requires
        forall|i: int| 0 <= i < name.len() ==> name[i] != '|' && name[i] != '\n',
        forall|i: int| 0 <= i < before.len() ==> is_whitespace(#[trigger] before[i]) && before[i] != '\n',
        forall|i: int| 0 <= i < after.len() ==> is_whitespace(#[trigger] after[i]) && after[i] != '\n',
    ensures
        spec_images_in(above + "\n"@ + (before + spec_image_marker(name, width, height) + after) + "\n"@ + below)
            == spec_images_in(above) + seq![(name, width, height)] + spec_images_in(below),
{
    reveal_strlit("\n");
    let nl = seq!['\n'];
    let m = spec_image_marker(name, width, height);
    let line = before + m + after;
    lemma_marker_one_line(name, width, height);
    assert forall|k: int| 0 <= k < line.len() implies line[k] != '\n' by {
        if k < before.len() {
            assert(line[k] == before[k]);
        } else if k < before.len() + m.len() {
            assert(line[k] == m[k - before.len()]);
        } else {
            assert(line[k] == after[k - before.len() - m.len()]);
        }
    }
    lemma_padded_marker(name, width, height, before, after);
    let x = above + nl;
    let x2 = line + nl;
    assert(above + "\n"@ + line + "\n"@ + below =~= x + (x2 + below));
    lemma_images_in_append(x, x2 + below);
    lemma_images_in_append(x2, below);
    lemma_images_in_line_break_end(above);
    lemma_lines_ended(line);
    lemma_image_of_stripped_line(line);
    Seq::lemma_filter_map_singleton(strip_carriage_return(line), |l: Seq<char>| spec_image_of_line(l));
    assert(spec_images_in(x2) =~= seq![(name, width, height)]);
}

/// An image inserted where the cursor stands is read back from the body,
/// in its place among the images already there, at the size it starts
/// with.
pub proof fn lemma_inserted_image_found(above: Seq<char>, name: Seq<char>, below: Seq<char>)
    requires
        forall|i: int| 0 <= i < name.len() ==> name[i] != '|' && name[i] != '\n',
    ensures
        spec_images_in(above + ("\n"@ + spec_image_marker(name, DEFAULT_IMAGE_WIDTH, DEFAULT_IMAGE_HEIGHT) + "\n"@) + below)
            == spec_images_in(above) + seq![(name, DEFAULT_IMAGE_WIDTH, DEFAULT_IMAGE_HEIGHT)] + spec_images_in(below),
{
    let e = Seq::<char>::empty();
    let m = spec_image_marker(name, DEFAULT_IMAGE_WIDTH, DEFAULT_IMAGE_HEIGHT);
    lemma_marker_line_among_lines(above, e, name, DEFAULT_IMAGE_WIDTH, DEFAULT_IMAGE_HEIGHT, e, below);
    assert(e + m + e =~= m);
    assert(above + ("\n"@ + m + "\n"@) + below =~= above + "\n"@ + (e + m + e) + "\n"@ + below);
}

/// The body with the marker of the image `name` at its old size replaced,
/// wherever it stands, by the marker at its new size (what resizing an
/// image does to the body).
pub fn resize_marker(text: &str, name: &str, old_width: i32, old_height: i32, new_width: i32, new_height: i32) -> (r: String)
    ensures
        r@ == replace_all(text@, spec_image_marker(name@, old_width, old_height),
            spec_image_marker(name@, new_width, new_height)),
{
    let from = chars_of(image_marker(name, old_width, old_height).as_str());
    let to = chars_of(image_marker(name, new_width, new_height).as_str());
    let t = chars_of(text);
    string_of(&replace_all_exec(&t, &from, &to))
}

/// `v` kept within the image size limits.
pub open spec fn spec_clamp_image_size(v: i32) -> i32 {
    if v < MIN_IMAGE_SIZE { MIN_IMAGE_SIZE } else if v > MAX_IMAGE_SIZE { MAX_IMAGE_SIZE } else { v }
}

/// A requested image side kept within the limits (`i32::clamp`).
pub fn clamp_image_size(v: i32) -> (r: i32)
    ensures
        r == spec_clamp_image_size(v),
        MIN_IMAGE_SIZE <= r <= MAX_IMAGE_SIZE,
{
    if v < MIN_IMAGE_SIZE {
        MIN_IMAGE_SIZE
    } else if v > MAX_IMAGE_SIZE {
        MAX_IMAGE_SIZE
    } else {
        v
    }
}

// ---------------------------------------------------------------------------
// Edits
// ---------------------------------------------------------------------------

/// The title of a note's window.
pub fn window_title(title: &str) -> (r: String)
    ensures
        r@ == "Sticky — "@ + title@,
{
    concat2("Sticky — ", title)
}

/// The note after an autosave of the editor's text at `at`.
pub fn save_body(note: &mut Note, text: String, at: Timestamp)
    ensures
        final(note).body == text,
        final(note).updated == at,
        final(note).id == old(note).id,
        final(note).title == old(note).title,
        final(note).note_type == old(note).note_type,
        final(note).created == old(note).created,
{
    note.body = text;
    note.updated = at;
}

/// The note after its title was edited in the header at `at`.
pub fn save_title(note: &mut Note, title: String, at: Timestamp)
    ensures
        final(note).title == title,
        final(note).updated == at,
        final(note).id == old(note).id,
        final(note).body == old(note).body,
        final(note).note_type == old(note).note_type,
        final(note).created == old(note).created,
{
    note.title = title;
    note.updated = at;
}

} // verus!
