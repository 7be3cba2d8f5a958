//! Character-level text primitives shared by the note formats: the
//! specifications of the string operations the library relies on, and
//! verified implementations of them over `Vec<char>`.
use vstd::prelude::*;

verus! {

// ---------------------------------------------------------------------------
// Specifications
// ---------------------------------------------------------------------------

/// `p` occurs in `s` starting at index `i`.
pub open spec fn occurs_at(s: Seq<char>, p: Seq<char>, i: int) -> bool {
    0 <= i && i + p.len() <= s.len() && s.subrange(i, i + p.len()) == p
}

/// `s` begins with `p`.
pub open spec fn starts_with(s: Seq<char>, p: Seq<char>) -> bool {
    occurs_at(s, p, 0)
}

/// `s` ends with `p`.
pub open spec fn ends_with(s: Seq<char>, p: Seq<char>) -> bool {
    p.len() <= s.len() && occurs_at(s, p, s.len() - p.len())
}

/// `i` is the index of the first occurrence of `p` in `s`.
pub open spec fn is_first_occurrence(s: Seq<char>, p: Seq<char>, i: int) -> bool {
    &&& occurs_at(s, p, i)
    &&& forall|j: int| 0 <= j < i ==> !occurs_at(s, p, j)
}

/// `p` occurs somewhere in `s`.
pub open spec fn contains(s: Seq<char>, p: Seq<char>) -> bool {
    exists|i: int| occurs_at(s, p, i)
}

/// The index of the first occurrence of `p` in `s`, as `str::find` reports it.
pub open spec fn find(s: Seq<char>, p: Seq<char>) -> Option<int> {
    if exists|i: int| is_first_occurrence(s, p, i) {
        Some(choose|i: int| is_first_occurrence(s, p, i))
    } else {
        None
    }
}

/// Every left-to-right, non-overlapping occurrence of the non-empty pattern
/// `p` in `s` replaced by `r`, as `str::replace` does it.  With an empty
/// pattern nothing is replaced.
pub open spec fn replace_all(s: Seq<char>, p: Seq<char>, r: Seq<char>) -> Seq<char>
    decreases s.len(),
{
    if p.len() == 0 || s.len() < p.len() {
        s
    } else if s.subrange(0, p.len() as int) == p {
        r + replace_all(s.skip(p.len() as int), p, r)
    } else {
        seq![s[0]] + replace_all(s.skip(1), p, r)
    }
}

/// The pieces of `s` between occurrences of the character `c`, as
/// `str::split` with a `char` pattern yields them.
pub open spec fn split_char(s: Seq<char>, c: char) -> Seq<Seq<char>>
    decreases s.len(),
{
    if exists|i: int| is_first_occurrence(s, seq![c], i) {
        let i = choose|i: int| is_first_occurrence(s, seq![c], i);
        seq![s.take(i)] + split_char(s.skip(i + 1), c)
    } else {
        seq![s]
    }
}

/// A line with its `\r` removed when it ended in `\r\n`.
pub open spec fn strip_carriage_return(l: Seq<char>) -> Seq<char> {
    if l.len() > 0 && l.last() == '\r' {
        l.drop_last()
    } else {
        l
    }
}

/// The lines of `s`, as `str::lines` yields them: split at `\n`, a `\r`
/// before the `\n` removed, and no empty line after a final `\n`.
pub open spec fn lines(s: Seq<char>) -> Seq<Seq<char>>
    decreases s.len(),
{
    if s.len() == 0 {
        seq![]
    } else if exists|i: int| is_first_occurrence(s, seq!['\n'], i) {
        let i = choose|i: int| is_first_occurrence(s, seq!['\n'], i);
        seq![strip_carriage_return(s.take(i))] + lines(s.skip(i + 1))
    } else {
        seq![s]
    }
}

/// The characters with the Unicode `White_Space` property, which is what
/// `char::is_whitespace` tests.
pub open spec fn is_whitespace(c: char) -> bool {
    ||| c == '\t' || c == '\n' || c == '\u{0B}' || c == '\u{0C}' || c == '\r' || c == ' '
    ||| c == '\u{85}' || c == '\u{A0}' || c == '\u{1680}'
    ||| ('\u{2000}' <= c && c <= '\u{200A}')
    ||| c == '\u{2028}' || c == '\u{2029}' || c == '\u{202F}' || c == '\u{205F}'
    ||| c == '\u{3000}'
}

/// `s` without its leading whitespace (`str::trim_start`).
pub open spec fn trim_start(s: Seq<char>) -> Seq<char>
    decreases s.len(),
{
    if s.len() > 0 && is_whitespace(s[0]) {
        trim_start(s.skip(1))
    } else {
        s
    }
}

/// `s` without its trailing whitespace (`str::trim_end`).
pub open spec fn trim_end(s: Seq<char>) -> Seq<char>
    decreases s.len(),
{
    if s.len() > 0 && is_whitespace(s.last()) {
        trim_end(s.drop_last())
    } else {
        s
    }
}

/// `s` without leading and trailing whitespace (`str::trim`).
pub open spec fn trim(s: Seq<char>) -> Seq<char> {
    trim_end(trim_start(s))
}


// ---------------------------------------------------------------------------
// Lemmas
// ---------------------------------------------------------------------------

/// An occurrence in a suffix of `s` is an occurrence in `s`, shifted.
pub proof fn lemma_occurs_in_suffix(s: Seq<char>, p: Seq<char>, start: int, k: int)
    requires
        0 <= start <= s.len(),
        0 <= k,
    ensures
        occurs_at(s.skip(start), p, k) <==> occurs_at(s, p, start + k),
{
    if start + k + p.len() <= s.len() {
        assert(s.skip(start).subrange(k, k + p.len()) =~= s.subrange(start + k, start + k + p.len()));
    }
}

/// The first occurrence of a pattern is unique.
pub proof fn lemma_first_occurrence_unique(s: Seq<char>, p: Seq<char>, i: int, j: int)
    requires
        is_first_occurrence(s, p, i),
        is_first_occurrence(s, p, j),
    ensures
        i == j,
{
}

/// `find` names the first occurrence when there is one.
pub proof fn lemma_find_first(s: Seq<char>, p: Seq<char>, i: int)
    requires
        is_first_occurrence(s, p, i),
    ensures
        find(s, p) == Some(i),
{
    let k = choose|k: int| is_first_occurrence(s, p, k);
    lemma_first_occurrence_unique(s, p, i, k);
}

/// What `find` reports is the first occurrence, if any.
pub proof fn lemma_find_reports_first(s: Seq<char>, p: Seq<char>)
    ensures
        match find(s, p) {
            Some(i) => is_first_occurrence(s, p, i),
            None => !exists|i: int| is_first_occurrence(s, p, i),
        },
{
}

/// Without any occurrence, `find` reports none.
pub proof fn lemma_find_none(s: Seq<char>, p: Seq<char>)
    requires
        !contains(s, p),
    ensures
        find(s, p) == None::<int>,
{
}

/// A single character occurs at `j` exactly when `s[j]` is that character.
pub proof fn lemma_occurs_at_char(s: Seq<char>, c: char, j: int)
    ensures
        occurs_at(s, seq![c], j) <==> (0 <= j < s.len() && s[j] == c),
{
    if 0 <= j < s.len() {
        assert(s.subrange(j, j + 1)[0] == s[j]);
        if s[j] == c {
            assert(s.subrange(j, j + 1) =~= seq![c]);
        }
    }
}

/// A character that occurs in `s` has a first occurrence.
pub proof fn lemma_char_has_first_occurrence(s: Seq<char>, c: char, k: int)
    requires
        0 <= k < s.len(),
        s[k] == c,
    ensures
        exists|i: int| is_first_occurrence(s, seq![c], i),
    decreases k,
{
    if exists|j: int| 0 <= j < k && s[j] == c {
        let j = choose|j: int| 0 <= j < k && s[j] == c;
        lemma_char_has_first_occurrence(s, c, j);
    } else {
        lemma_occurs_at_char(s, c, k);
        assert forall|j: int| 0 <= j < k implies !occurs_at(s, seq![c], j) by {
            lemma_occurs_at_char(s, c, j);
        }
        assert(is_first_occurrence(s, seq![c], k));
    }
}

/// A text without line breaks is one line.
pub proof fn lemma_lines_single(l: Seq<char>)
    requires
        l.len() > 0,
        forall|k: int| 0 <= k < l.len() ==> l[k] != '\n',
    ensures
        lines(l) == seq![l],
{
    assert forall|i: int| !is_first_occurrence(l, seq!['\n'], i) by {
        lemma_occurs_at_char(l, '\n', i);
    }
}

/// A line without line breaks, ended by one, is one line (its `\r` before
/// the break removed).
pub proof fn lemma_lines_ended(l: Seq<char>)
    requires
        forall|k: int| 0 <= k < l.len() ==> l[k] != '\n',
    ensures
        lines(l + seq!['\n']) == seq![strip_carriage_return(l)],
{
    let s = l + seq!['\n'];
    let n = l.len() as int;
    lemma_occurs_at_char(s, '\n', n);
    assert forall|j: int| 0 <= j < n implies !occurs_at(s, seq!['\n'], j) by {
        lemma_occurs_at_char(s, '\n', j);
    }
    assert(is_first_occurrence(s, seq!['\n'], n));
    let k = choose|k: int| is_first_occurrence(s, seq!['\n'], k);
    lemma_first_occurrence_unique(s, seq!['\n'], n, k);
    assert(s.take(n) =~= l);
    let rest = s.skip(n + 1);
    assert(rest.len() == 0);
    assert(lines(rest) == Seq::<Seq<char>>::empty());
    assert(lines(s) == seq![strip_carriage_return(s.take(k))] + lines(rest));
    assert(lines(s) =~= seq![strip_carriage_return(l)]);
}

/// The lines of a text that ends in a line break, followed by more text,
/// are the lines of the first part followed by the lines of the second.
pub proof fn lemma_lines_append(x: Seq<char>, y: Seq<char>)
    requires
        x.len() > 0,
        x.last() == '\n',
    ensures
        lines(x + y) == lines(x) + lines(y),
    decreases x.len(),
{
    let nl = seq!['\n'];
    lemma_char_has_first_occurrence(x, '\n', x.len() - 1);
    let i = choose|i: int| is_first_occurrence(x, nl, i);
    let s = x + y;
    assert(s.subrange(i, i + 1) =~= x.subrange(i, i + 1));
    assert forall|j: int| 0 <= j < i implies !occurs_at(s, nl, j) by {
        lemma_occurs_at_char(s, '\n', j);
        lemma_occurs_at_char(x, '\n', j);
    }
    assert(is_first_occurrence(s, nl, i));
    let k = choose|k: int| is_first_occurrence(s, nl, k);
    lemma_first_occurrence_unique(s, nl, i, k);
    assert(s.take(i) =~= x.take(i));
    assert(s.skip(i + 1) =~= x.skip(i + 1) + y);
    if i + 1 == x.len() {
        assert(x.skip(i + 1) =~= Seq::<char>::empty());
        assert(x.skip(i + 1) + y =~= y);
        assert(lines(x.skip(i + 1)) == Seq::<Seq<char>>::empty());
        assert(lines(x) =~= seq![strip_carriage_return(x.take(i))]);
        assert(lines(s) =~= lines(x) + lines(y));
    } else {
        let r = x.skip(i + 1);
        assert(r.last() == x.last());
        lemma_lines_append(r, y);
        assert(lines(s) =~= lines(x) + lines(y));
    }
}

// ---------------------------------------------------------------------------
// Conversions between strings and character vectors
// ---------------------------------------------------------------------------

/// Appends one character to a `String` (`String::push`).
#[verifier::external_body]
fn push_char(s: &mut String, c: char)
    ensures
        final(s)@ == old(s)@.push(c),
{
    s.push(c);
}

/// The characters of `s`, in order.
pub fn chars_of(s: &str) -> (v: Vec<char>)
    ensures
        v@ == s@,
{
    let mut v: Vec<char> = Vec::new();
    for c in it: s.chars()
        invariant
            v@ == it.seq().take(it.index()),
    {
        v.push(c);
    }
    v
}

/// The string made of the characters of `v`, in order.
pub fn string_of(v: &Vec<char>) -> (s: String)
    ensures
        s@ == v@,
{
    let mut s = String::new();
    let mut i: usize = 0;
    while i < v.len()
        invariant
            i <= v.len(),
            s@ == v@.take(i as int),
        decreases v.len() - i,
    {
        push_char(&mut s, v[i]);
        i += 1;
        assert(s@ =~= v@.take(i as int));
    }
    assert(v@.take(i as int) =~= v@);
    s
}

/// Appends the characters of `r` to `out`.
pub fn push_all(out: &mut Vec<char>, r: &Vec<char>)
    ensures
        final(out)@ == old(out)@ + r@,
{
    let mut i: usize = 0;
    while i < r.len()
        invariant
            i <= r.len(),
            out@ == old(out)@ + r@.take(i as int),
        decreases r.len() - i,
    {
        out.push(r[i]);
        i += 1;
        assert(out@ =~= old(out)@ + r@.take(i as int));
    }
    assert(r@.take(i as int) =~= r@);
}

/// Appends the characters of `s` to `out`.
pub fn push_str(out: &mut Vec<char>, s: &str)
    ensures
        final(out)@ == old(out)@ + s@,
{
    let v = chars_of(s);
    push_all(out, &v);
}

// ---------------------------------------------------------------------------
// Searching
// ---------------------------------------------------------------------------

/// Whether `p` occurs in `s` at index `i`.
pub fn matches_at(s: &Vec<char>, p: &Vec<char>, i: usize) -> (b: bool)
    ensures
        b == occurs_at(s@, p@, i as int),
{
    if i > s.len() || p.len() > s.len() - i {
        return false;
    }
    let mut k: usize = 0;
    while k < p.len()
        invariant
            k <= p.len(),
            i + p.len() <= s.len(),
            forall|j: int| 0 <= j < k ==> s@[i + j] == p@[j],
        decreases p.len() - k,
    {
        if s[i + k] != p[k] {
            assert(s@.subrange(i as int, i + p.len())[k as int] != p@[k as int]);
            return false;
        }
        k += 1;
    }
    assert(s@.subrange(i as int, i + p.len()) =~= p@);
    true
}

/// The first occurrence of `p` in `s` at or after `start`.
pub fn find_from(s: &Vec<char>, p: &Vec<char>, start: usize) -> (r: Option<usize>)
    requires
        start <= s.len(),
    ensures
        match r {
            Some(i) => start <= i && is_first_occurrence(s@.skip(start as int), p@, i - start),
            None => !contains(s@.skip(start as int), p@),
        },
{
    let mut i = start;
    loop
        invariant
            start <= i <= s.len(),
            forall|k: int| start <= k < i ==> !occurs_at(s@, p@, k),
        ensures
            forall|k: int| start <= k ==> !occurs_at(s@, p@, k),
        decreases s.len() - i,
    {
        if matches_at(s, p, i) {
            proof {
                lemma_occurs_in_suffix(s@, p@, start as int, i - start);
                assert forall|j: int| 0 <= j < i - start implies !occurs_at(s@.skip(start as int), p@, j) by {
                    lemma_occurs_in_suffix(s@, p@, start as int, j);
                }
            }
            return Some(i);
        }
        if i == s.len() {
            break;
        }
        i += 1;
    }
    proof {
        assert forall|j: int| !occurs_at(s@.skip(start as int), p@, j) by {
            if 0 <= j {
                lemma_occurs_in_suffix(s@, p@, start as int, j);
            }
        }
    }
    None
}

/// Whether `p` occurs anywhere in `s` (`str::contains`).
pub fn contains_exec(s: &Vec<char>, p: &Vec<char>) -> (b: bool)
    ensures
        b == contains(s@, p@),
{
    let r = find_from(s, p, 0);
    assert(s@.skip(0) =~= s@);
    r.is_some()
}

// ---------------------------------------------------------------------------
// Replacing
// ---------------------------------------------------------------------------

/// `s` with every non-overlapping occurrence of `p` replaced by `r`.
pub fn replace_all_exec(s: &Vec<char>, p: &Vec<char>, r: &Vec<char>) -> (out: Vec<char>)
    ensures
        out@ == replace_all(s@, p@, r@),
{
    let mut out: Vec<char> = Vec::new();
    let mut i: usize = 0;
    assert(s@.skip(0) =~= s@);
    while i < s.len()
        invariant
            i <= s.len(),
            replace_all(s@, p@, r@) == out@ + replace_all(s@.skip(i as int), p@, r@),
        decreases s.len() - i,
    {
        let ghost rest = s@.skip(i as int);
        if p.len() == 0 || p.len() > s.len() - i {
            let ghost before = out@;
            let mut k = i;
            while k < s.len()
                invariant
                    i <= k <= s.len(),
                    out@ == before + s@.subrange(i as int, k as int),
                decreases s.len() - k,
            {
                out.push(s[k]);
                k += 1;
                assert(out@ =~= before + s@.subrange(i as int, k as int));
            }
            assert(s@.subrange(i as int, k as int) =~= rest);
            i = s.len();
        } else if matches_at(s, p, i) {
            assert(rest.subrange(0, p@.len() as int) =~= s@.subrange(i as int, i + p@.len()));
            assert(rest.skip(p@.len() as int) =~= s@.skip(i + p@.len()));
            push_all(&mut out, r);
            i += p.len();
        } else {
            assert(rest.subrange(0, p@.len() as int) =~= s@.subrange(i as int, i + p@.len()));
            assert(rest.skip(1) =~= s@.skip(i + 1));
            out.push(s[i]);
            i += 1;
        }
    }
    assert(s@.skip(i as int) =~= Seq::<char>::empty());
    out
}


// ---------------------------------------------------------------------------
// Slicing, lines, pieces and trimming
// ---------------------------------------------------------------------------

/// The views of a sequence of character vectors.
pub open spec fn views(v: Seq<Vec<char>>) -> Seq<Seq<char>> {
    v.map_values(|l: Vec<char>| l@)
}

/// A copy of the characters of `s` from index `a` up to `b`.
pub fn slice_of(s: &Vec<char>, a: usize, b: usize) -> (r: Vec<char>)
    requires
        a <= b <= s.len(),
    ensures
        r@ == s@.subrange(a as int, b as int),
{
    let mut r: Vec<char> = Vec::new();
    let mut k = a;
    while k < b
        invariant
            a <= k <= b <= s.len(),
            r@ == s@.subrange(a as int, k as int),
        decreases b - k,
    {
        r.push(s[k]);
        k += 1;
        assert(r@ =~= s@.subrange(a as int, k as int));
    }
    r
}

proof fn lemma_views_push(v: Seq<Vec<char>>, x: Vec<char>)
    ensures
        views(v.push(x)) == views(v).push(x@),
{
    assert(views(v.push(x)) =~= views(v).push(x@));
}

/// A one-character pattern.
pub fn char_pattern(c: char) -> (p: Vec<char>)
    ensures
        p@ == seq![c],
{
    let mut p: Vec<char> = Vec::new();
    p.push(c);
    assert(p@ =~= seq![c]);
    p
}

/// The lines of `s` (`str::lines`).
pub fn lines_of(s: &Vec<char>) -> (out: Vec<Vec<char>>)
    ensures
        views(out@) == lines(s@),
{
    let nl = char_pattern('\n');
    let mut out: Vec<Vec<char>> = Vec::new();
    let mut i: usize = 0;
    assert(s@.skip(0) =~= s@);
    assert(views(out@) =~= Seq::<Seq<char>>::empty());
    while i < s.len()
        invariant
            i <= s.len(),
            nl@ == seq!['\n'],
            views(out@) + lines(s@.skip(i as int)) == lines(s@),
        decreases s.len() - i,
    {
        let ghost rest = s@.skip(i as int);
        match find_from(s, &nl, i) {
            Some(j) => {
                let mut line = slice_of(s, i, j);
                if line.len() > 0 && line[line.len() - 1] == '\r' {
                    line.pop();
                }
                proof {
                    let k = j - i;
                    let c = choose|c: int| is_first_occurrence(rest, seq!['\n'], c);
                    lemma_first_occurrence_unique(rest, seq!['\n'], k, c);
                    assert(rest.take(k) =~= s@.subrange(i as int, j as int));
                    assert(rest.skip(k + 1) =~= s@.skip(j + 1));
                    lemma_views_push(out@, line);
                    assert(line@ == strip_carriage_return(rest.take(k)));
                }
                let ghost before = views(out@);
                out.push(line);
                i = j + 1;
                proof {
                    assert(views(out@) + lines(s@.skip(i as int)) =~= before + seq![line@] + lines(s@.skip(i as int)));
                }
            },
            None => {
                let line = slice_of(s, i, s.len());
                proof {
                    assert(rest =~= s@.subrange(i as int, s@.len() as int));
                    assert(!exists|c: int| is_first_occurrence(rest, seq!['\n'], c));
                    lemma_views_push(out@, line);
                }
                out.push(line);
                i = s.len();
                assert(s@.skip(i as int) =~= Seq::<char>::empty());
            },
        }
    }
    assert(s@.skip(i as int) =~= Seq::<char>::empty());
    out
}

/// The pieces of `s` between occurrences of `c` (`str::split` on a char).
pub fn split_on(s: &Vec<char>, c: char) -> (out: Vec<Vec<char>>)
    ensures
        views(out@) == split_char(s@, c),
{
    let pat = char_pattern(c);
    let mut out: Vec<Vec<char>> = Vec::new();
    let mut i: usize = 0;
    assert(s@.skip(0) =~= s@);
    assert(views(out@) =~= Seq::<Seq<char>>::empty());
    loop
        invariant_except_break
            views(out@) + split_char(s@.skip(i as int), c) == split_char(s@, c),
        invariant
            i <= s.len(),
            pat@ == seq![c],
        ensures
            views(out@) == split_char(s@, c),
        decreases s.len() - i,
    {
        let ghost rest = s@.skip(i as int);
        match find_from(s, &pat, i) {
            Some(j) => {
                let piece = slice_of(s, i, j);
                proof {
                    let k = j - i;
                    let w = choose|w: int| is_first_occurrence(rest, seq![c], w);
                    lemma_first_occurrence_unique(rest, seq![c], k, w);
                    assert(rest.take(k) =~= s@.subrange(i as int, j as int));
                    assert(rest.skip(k + 1) =~= s@.skip(j + 1));
                    lemma_views_push(out@, piece);
                }
                let ghost before = views(out@);
                out.push(piece);
                i = j + 1;
                proof {
                    assert(views(out@) + split_char(s@.skip(i as int), c) =~= before + seq![piece@] + split_char(s@.skip(i as int), c));
                }
            },
            None => {
                let piece = slice_of(s, i, s.len());
                proof {
                    assert(rest =~= s@.subrange(i as int, s@.len() as int));
                    assert(!exists|w: int| is_first_occurrence(rest, seq![c], w));
                    lemma_views_push(out@, piece);
                }
                out.push(piece);
                assert(views(out@) =~= split_char(s@, c));
                break;
            },
        }
    }
    out
}

/// Whether `c` is Unicode whitespace (`char::is_whitespace`).
pub fn is_whitespace_exec(c: char) -> (b: bool)
    ensures
        b == is_whitespace(c),
{
    c == '\t' || c == '\n' || c == '\u{0B}' || c == '\u{0C}' || c == '\r' || c == ' '
        || c == '\u{85}' || c == '\u{A0}' || c == '\u{1680}'
        || ('\u{2000}' <= c && c <= '\u{200A}')
        || c == '\u{2028}' || c == '\u{2029}' || c == '\u{202F}' || c == '\u{205F}'
        || c == '\u{3000}'
}

/// `trim_start` drops exactly the leading run of whitespace.
pub proof fn lemma_trim_start(s: Seq<char>, a: int)
    requires
        0 <= a <= s.len(),
        forall|k: int| 0 <= k < a ==> is_whitespace(#[trigger] s[k]),
        a == s.len() || !is_whitespace(s[a]),
    ensures
        trim_start(s) == s.skip(a),
    decreases a,
{
    if a == 0 {
        assert(s.skip(0) =~= s);
    } else {
        assert(is_whitespace(s[0]));
        let t = s.skip(1);
        assert forall|k: int| 0 <= k < a - 1 implies is_whitespace(#[trigger] t[k]) by {
            assert(t[k] == s[k + 1]);
        }
        lemma_trim_start(t, a - 1);
        assert(t.skip(a - 1) =~= s.skip(a));
    }
}

/// `trim_end` drops exactly the trailing run of whitespace.
pub proof fn lemma_trim_end(s: Seq<char>, b: int)
    requires
        0 <= b <= s.len(),
        forall|k: int| b <= k < s.len() ==> is_whitespace(#[trigger] s[k]),
        b == 0 || !is_whitespace(s[b - 1]),
    ensures
        trim_end(s) == s.take(b),
    decreases s.len() - b,
{
    if b == s.len() {
        assert(s.take(b) =~= s);
    } else {
        assert(is_whitespace(s.last()));
        let t = s.drop_last();
        assert forall|k: int| b <= k < t.len() implies is_whitespace(#[trigger] t[k]) by {
            assert(t[k] == s[k]);
        }
        lemma_trim_end(t, b);
        assert(t.take(b) =~= s.take(b));
    }
}

proof fn lemma_trim_start_drop_last(s: Seq<char>)
    requires
        s.len() > 0,
        is_whitespace(s.last()),
    ensures
        trim_start(s).len() > 0 ==> trim_start(s).last() == s.last(),
        trim_start(s.drop_last()) == (if trim_start(s).len() == 0 {
            trim_start(s)
        } else {
            trim_start(s).drop_last()
        }),
    decreases s.len(),
{
    let t = s.skip(1);
    let d = s.drop_last();
    if is_whitespace(s[0]) {
        assert(trim_start(s) == trim_start(t));
        if s.len() == 1 {
            assert(trim_start(t) == t);
            assert(trim_start(d) == d);
            assert(d =~= t);
        } else {
            assert(t.last() == s.last());
            lemma_trim_start_drop_last(t);
            assert(d[0] == s[0]);
            assert(d.skip(1) =~= t.drop_last());
            assert(trim_start(d) == trim_start(d.skip(1)));
        }
    } else {
        assert(trim_start(s) == s);
        assert(d[0] == s[0]);
        assert(trim_start(d) == d);
    }
}

/// Removing trailing whitespace character by character leaves the trimmed
/// text unchanged.
pub proof fn lemma_trim_drop_last(s: Seq<char>)
    requires
        s.len() > 0,
        is_whitespace(s.last()),
    ensures
        trim(s.drop_last()) == trim(s),
{
    lemma_trim_start_drop_last(s);
}

/// `s` without leading and trailing whitespace (`str::trim`).
pub fn trim_exec(s: &Vec<char>) -> (r: Vec<char>)
    ensures
        r@ == trim(s@),
{
    let mut a: usize = 0;
    while a < s.len() && is_whitespace_exec(s[a])
        invariant
            a <= s.len(),
            forall|k: int| 0 <= k < a ==> is_whitespace(#[trigger] s@[k]),
        decreases s.len() - a,
    {
        a += 1;
    }
    proof { lemma_trim_start(s@, a as int); }
    let mut b: usize = s.len();
    while b > a && is_whitespace_exec(s[b - 1])
        invariant
            a <= b <= s.len(),
            forall|k: int| b <= k < s.len() ==> is_whitespace(#[trigger] s@[k]),
        decreases b,
    {
        b -= 1;
    }
    let r = slice_of(s, a, b);
    proof {
        let t = s@.skip(a as int);
        assert forall|k: int| b - a <= k < t.len() implies is_whitespace(#[trigger] t[k]) by {
            assert(t[k] == s@[a + k]);
        }
        lemma_trim_end(t, b - a);
        assert(t.take(b - a) =~= s@.subrange(a as int, b as int));
    }
    r
}

/// Whether the characters of `v` spell `s`.
pub fn equals_str(v: &Vec<char>, s: &str) -> (b: bool)
    ensures
        b == (v@ == s@),
{
    let w = chars_of(s);
    if v.len() != w.len() {
        return false;
    }
    let mut i: usize = 0;
    while i < v.len()
        invariant
            i <= v.len(),
            v.len() == w.len(),
            w@ == s@,
            forall|k: int| 0 <= k < i ==> v@[k] == w@[k],
        decreases v.len() - i,
    {
        if v[i] != w[i] {
            assert(v@[i as int] != w@[i as int]);
            return false;
        }
        i += 1;
    }
    assert(v@ =~= w@);
    true
}

/// `s` followed by spaces up to `width` characters (`{:<width}`).
pub open spec fn pad_right(s: Seq<char>, width: nat) -> Seq<char> {
    if s.len() >= width {
        s
    } else {
        s + Seq::new((width - s.len()) as nat, |i: int| ' ')
    }
}

/// Appends `s` padded with spaces to `width` characters.
pub fn push_padded(out: &mut Vec<char>, s: &str, width: usize)
    ensures
        final(out)@ == old(out)@ + pad_right(s@, width as nat),
{
    let v = chars_of(s);
    push_all(out, &v);
    let mut n = v.len();
    let ghost base = out@;
    while n < width
        invariant
            v.len() <= n <= width || (n == v.len() && n >= width),
            out@ == base + Seq::new((n - v.len()) as nat, |i: int| ' '),
        decreases width - n,
    {
        out.push(' ');
        n += 1;
        assert(out@ =~= base + Seq::new((n - v.len()) as nat, |i: int| ' '));
    }
    if v.len() >= width {
        assert(out@ =~= old(out)@ + v@);
    } else {
        assert(out@ =~= old(out)@ + pad_right(s@, width as nat));
    }
}

/// `a` followed by `b`.
pub fn concat2(a: &str, b: &str) -> (r: String)
    ensures
        r@ == a@ + b@,
{
    let mut out = chars_of(a);
    push_str(&mut out, b);
    string_of(&out)
}

/// `a`, `b` and `c` one after another.
pub fn concat3(a: &str, b: &str, c: &str) -> (r: String)
    ensures
        r@ == a@ + b@ + c@,
{
    let mut out = chars_of(a);
    push_str(&mut out, b);
    push_str(&mut out, c);
    string_of(&out)
}

} // verus!
