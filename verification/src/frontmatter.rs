//! The note file format: a frontmatter block between `---` delimiter lines,
//! a blank line, then the body.
//!
//! ```text
//! ---
//! <frontmatter>
//! ---
//!
//! <body>
//! ```
//!
//! The frontmatter text itself (TOML of the note's metadata) is produced
//! and read by the program; this module frames it and takes it apart.
use vstd::prelude::*;
use crate::text::{chars_of, string_of, push_str, find_from, slice_of, occurs_at, contains, find,
    is_first_occurrence, starts_with, lemma_find_first};

verus! {

/// Why a file could not be taken apart into frontmatter and body.
#[derive(Debug, Clone, Copy, PartialEq, Eq, Structural)]
pub enum FrontmatterError {
    /// The file does not begin with the `---` line.
    MissingOpening,
    /// No `---` line closes the frontmatter.
    MissingClosing,
}

impl FrontmatterError {
    /// The description the program reports for this error.
    pub open spec fn spec_message(self) -> Seq<char> {
        match self {
            FrontmatterError::MissingOpening => "note is missing frontmatter opening delimiter"@,
            FrontmatterError::MissingClosing => "note is missing frontmatter closing delimiter"@,
        }
    }

    /// The description the program reports for this error.
    pub fn message(&self) -> (s: &'static str)
        ensures
            s@ == self.spec_message(),
    {
        match self {
            FrontmatterError::MissingOpening => "note is missing frontmatter opening delimiter",
            FrontmatterError::MissingClosing => "note is missing frontmatter closing delimiter",
        }
    }
}

/// A note file taken apart: the frontmatter text and the body.
pub struct Document {
    pub frontmatter: String,
    pub body: String,
}

/// The file for a frontmatter text (ending in its own newline) and a body.
pub open spec fn spec_serialize(frontmatter: Seq<char>, body: Seq<char>) -> Seq<char> {
    "---\n"@ + frontmatter + "---\n\n"@ + body
}

/// The file for a frontmatter text and a body.
pub fn serialize(frontmatter: &str, body: &str) -> (r: String)
    ensures
        r@ == spec_serialize(frontmatter@, body@),
{
    let mut out = chars_of("---\n");
    push_str(&mut out, frontmatter);
    push_str(&mut out, "---\n\n");
    push_str(&mut out, body);
    string_of(&out)
}

/// `s` without one leading newline, if it has one.
pub open spec fn strip_leading_newline(s: Seq<char>) -> Seq<char> {
    if s.len() > 0 && s[0] == '\n' {
        s.skip(1)
    } else {
        s
    }
}

/// A file taken apart: after the opening `---\n`, the frontmatter runs up to
/// the first `\n---\n`, and the body is what follows it, less one leading
/// newline.
pub open spec fn spec_deserialize(content: Seq<char>) -> Result<(Seq<char>, Seq<char>), FrontmatterError> {
    if !starts_with(content, "---\n"@) {
        Err(FrontmatterError::MissingOpening)
    } else {
        let rest = content.skip("---\n"@.len() as int);
        match find(rest, "\n---\n"@) {
            None => Err(FrontmatterError::MissingClosing),
            Some(i) => Ok((rest.take(i), strip_leading_newline(rest.skip(i + "\n---\n"@.len())))),
        }
    }
}

/// A file taken apart into its frontmatter text and its body.
pub fn deserialize(content: &str) -> (r: Result<Document, FrontmatterError>)
    ensures
        match (r, spec_deserialize(content@)) {
            (Ok(d), Ok((f, b))) => d.frontmatter@ == f && d.body@ == b,
            (Err(e), Err(e2)) => e == e2,
            _ => false,
        },
{
    let c = chars_of(content);
    let opening = chars_of("---\n");
    if !crate::text::matches_at(&c, &opening, 0) {
        return Err(FrontmatterError::MissingOpening);
    }
    let closing = chars_of("\n---\n");
    let start = opening.len();
    let ghost rest = c@.skip(start as int);
    match find_from(&c, &closing, start) {
        None => {
            proof { crate::text::lemma_find_none(rest, closing@); }
            Err(FrontmatterError::MissingClosing)
        },
        Some(j) => {
            proof { lemma_find_first(rest, closing@, j - start); }
            let frontmatter = slice_of(&c, start, j);
            let after = j + closing.len();
            let body_start = if after < c.len() && c[after] == '\n' { after + 1 } else { after };
            let body = slice_of(&c, body_start, c.len());
            proof {
                let i = j - start;
                assert(rest.take(i) =~= c@.subrange(start as int, j as int));
                let tail = rest.skip(i + closing@.len());
                assert(tail =~= c@.skip(after as int));
                assert(strip_leading_newline(tail) =~= c@.subrange(body_start as int, c@.len() as int));
            }
            Ok(Document { frontmatter: string_of(&frontmatter), body: string_of(&body) })
        },
    }
}

/// Taking apart the file written for a frontmatter text and a body gives
/// back the frontmatter (without its final newline) and the body, whenever
/// the frontmatter text ends in a newline and holds no `---` line of its
/// own.
pub proof fn lemma_deserialize_serialize(frontmatter: Seq<char>, body: Seq<char>)
    requires
        frontmatter.len() > 0,
        frontmatter.last() == '\n',
        !contains(frontmatter, "\n---\n"@),
    ensures
        spec_deserialize(spec_serialize(frontmatter, body)) == Ok::<(Seq<char>, Seq<char>), FrontmatterError>(
            (frontmatter.drop_last(), body),
        ),
{
    reveal_strlit("---\n");
    reveal_strlit("\n---\n");
    reveal_strlit("---\n\n");
    let content = spec_serialize(frontmatter, body);
    let m = frontmatter;
    let pat = "\n---\n"@;
    assert(content.subrange(0, 4) =~= "---\n"@);
    let rest = content.skip(4);
    assert(rest =~= m + "---\n\n"@ + body);
    let i = m.len() - 1;
    assert(rest.subrange(i, i + 5) =~= pat);
    assert forall|j: int| 0 <= j < i implies !occurs_at(rest, pat, j) by {
        if j + 5 <= m.len() {
            assert(rest.subrange(j, j + 5) =~= m.subrange(j, j + 5));
            if occurs_at(rest, pat, j) {
                assert(occurs_at(m, pat, j));
            }
        } else {
            // the candidate ends in the delimiter after `m`: its character at
            // `m.len() - 1` is the newline ending `m`, where `pat` has a `-`
            let k = m.len() - 1 - j;
            assert(1 <= k <= 3);
            assert(rest[m.len() - 1] == '\n');
            if occurs_at(rest, pat, j) {
                assert(rest.subrange(j, j + 5)[k] == pat[k]);
            }
        }
    }
    assert(is_first_occurrence(rest, pat, i));
    lemma_find_first(rest, pat, i);
    assert(rest.take(i) =~= m.drop_last());
    assert(rest.skip(i + 5) =~= seq!['\n'] + body);
    assert(strip_leading_newline(rest.skip(i + 5)) =~= body);
}

} // verus!
