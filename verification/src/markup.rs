//! The markdown preview of the editor: markdown is turned into HTML by the
//! `markdown` crate, and that HTML into the Pango markup the text view
//! shows, line by line.
use vstd::prelude::*;
use crate::number::digit_char;
use crate::text::{chars_of, string_of, push_all, push_str, find_from, find, contains, contains_exec, replace_all,
    replace_all_exec, slice_of, lines, lines_of, views, trim, trim_exec, occurs_at, is_first_occurrence,
    lemma_find_first, lemma_find_none, lemma_occurs_in_suffix, lemma_find_reports_first, lemma_trim_start,
    lemma_trim_end, lemma_lines_single, is_whitespace, lemma_trim_drop_last, trim_start};

verus! {

/// `s` with every `p` replaced by `r`, for literal `p` and `r`.
fn replace_lit(s: &Vec<char>, p: &str, r: &str) -> (out: Vec<char>)
    ensures
        out@ == replace_all(s@, p@, r@),
{
    let pv = chars_of(p);
    let rv = chars_of(r);
    replace_all_exec(s, &pv, &rv)
}

/// HTML headings as Pango spans of decreasing size, in bold.
pub open spec fn swap_headings(s: Seq<char>) -> Seq<char> {
    let s = replace_all(s, "<h1>"@, "<span size=\"xx-large\" weight=\"bold\">"@);
    let s = replace_all(s, "</h1>"@, "</span>"@);
    let s = replace_all(s, "<h2>"@, "<span size=\"x-large\" weight=\"bold\">"@);
    let s = replace_all(s, "</h2>"@, "</span>"@);
    let s = replace_all(s, "<h3>"@, "<span size=\"large\" weight=\"bold\">"@);
    let s = replace_all(s, "</h3>"@, "</span>"@);
    let s = replace_all(s, "<h4>"@, "<span size=\"medium\" weight=\"bold\">"@);
    let s = replace_all(s, "</h4>"@, "</span>"@);
    let s = replace_all(s, "<h5>"@, "<span size=\"small\" weight=\"bold\">"@);
    let s = replace_all(s, "</h5>"@, "</span>"@);
    let s = replace_all(s, "<h6>"@, "<span size=\"x-small\" weight=\"bold\">"@);
    replace_all(s, "</h6>"@, "</span>"@)
}

fn swap_headings_exec(s: &Vec<char>) -> (r: Vec<char>)
    ensures
        r@ == swap_headings(s@),
{
    let s = replace_lit(s, "<h1>", "<span size=\"xx-large\" weight=\"bold\">");
    let s = replace_lit(&s, "</h1>", "</span>");
    let s = replace_lit(&s, "<h2>", "<span size=\"x-large\" weight=\"bold\">");
    let s = replace_lit(&s, "</h2>", "</span>");
    let s = replace_lit(&s, "<h3>", "<span size=\"large\" weight=\"bold\">");
    let s = replace_lit(&s, "</h3>", "</span>");
    let s = replace_lit(&s, "<h4>", "<span size=\"medium\" weight=\"bold\">");
    let s = replace_lit(&s, "</h4>", "</span>");
    let s = replace_lit(&s, "<h5>", "<span size=\"small\" weight=\"bold\">");
    let s = replace_lit(&s, "</h5>", "</span>");
    let s = replace_lit(&s, "<h6>", "<span size=\"x-small\" weight=\"bold\">");
    replace_lit(&s, "</h6>", "</span>")
}

/// Strong, emphasis, underline and code in Pango's tags.
pub open spec fn swap_emphasis(s: Seq<char>) -> Seq<char> {
    let s = replace_all(s, "<strong>"@, "<b>"@);
    let s = replace_all(s, "</strong>"@, "</b>"@);
    let s = replace_all(s, "<b>"@, "<b>"@);
    let s = replace_all(s, "</b>"@, "</b>"@);
    let s = replace_all(s, "<em>"@, "<i>"@);
    let s = replace_all(s, "</em>"@, "</i>"@);
    let s = replace_all(s, "<i>"@, "<i>"@);
    let s = replace_all(s, "</i>"@, "</i>"@);
    let s = replace_all(s, "<u>"@, "<u>"@);
    let s = replace_all(s, "</u>"@, "</u>"@);
    let s = replace_all(s, "<code>"@, "<tt>"@);
    let s = replace_all(s, "</code>"@, "</tt>"@);
    let s = replace_all(s, "<pre>"@, "<tt>"@);
    replace_all(s, "</pre>"@, "</tt>"@)
}

fn swap_emphasis_exec(s: &Vec<char>) -> (r: Vec<char>)
    ensures
        r@ == swap_emphasis(s@),
{
    let s = replace_lit(s, "<strong>", "<b>");
    let s = replace_lit(&s, "</strong>", "</b>");
    let s = replace_lit(&s, "<b>", "<b>");
    let s = replace_lit(&s, "</b>", "</b>");
    let s = replace_lit(&s, "<em>", "<i>");
    let s = replace_lit(&s, "</em>", "</i>");
    let s = replace_lit(&s, "<i>", "<i>");
    let s = replace_lit(&s, "</i>", "</i>");
    let s = replace_lit(&s, "<u>", "<u>");
    let s = replace_lit(&s, "</u>", "</u>");
    let s = replace_lit(&s, "<code>", "<tt>");
    let s = replace_lit(&s, "</code>", "</tt>");
    let s = replace_lit(&s, "<pre>", "<tt>");
    replace_lit(&s, "</pre>", "</tt>")
}

/// Links reduced to their text.  At the first `<a href=` the opening tag,
/// up to its first `>`, is dropped, and so is the first `</a>` after the
/// tag's start; the text between them is kept (none when that `</a>` ends
/// the tag itself).  Without a `</a>` only the opening tag is dropped.
/// The shortened text is then searched again from its start, so an opening
/// tag inside a link's text is reduced too.  The first opening tag without
/// a `>` ends the reduction.
pub open spec fn strip_links(s: Seq<char>) -> Seq<char>
    decreases s.len(),
{
    match find(s, "<a href="@) {
        None => s,
        Some(start) => {
            let tag = s.skip(start);
            match find(tag, ">"@) {
                None => s,
                Some(end) => {
                    proof {
                        reveal_strlit(">");
                        reveal_strlit("</a>");
                        lemma_find_reports_first(s, "<a href="@);
                        lemma_find_reports_first(tag, ">"@);
                        lemma_find_reports_first(tag, "</a>"@);
                    }
                    match find(tag, "</a>"@) {
                        Some(close) => strip_links(
                            s.take(start) + (if end < close {
                                tag.subrange(end + 1, close)
                            } else {
                                Seq::empty()
                            }) + tag.skip(close + "</a>"@.len()),
                        ),
                        None => strip_links(s.take(start) + tag.skip(end + ">"@.len())),
                    }
                },
            }
        },
    }
}

fn strip_links_exec(s: &Vec<char>) -> (r: Vec<char>)
    ensures
        r@ == strip_links(s@),
{
    let open = chars_of("<a href=");
    let gt = chars_of(">");
    let close = chars_of("</a>");
    proof {
        reveal_strlit(">");
        reveal_strlit("</a>");
    }
    let mut cur = slice_of(s, 0, s.len());
    assert(cur@ =~= s@);
    loop
        invariant
            strip_links(s@) == strip_links(cur@),
            open@ == "<a href="@,
            gt@ == ">"@,
            close@ == "</a>"@,
            ">"@.len() == 1,
            "</a>"@.len() == 4,
        decreases cur.len(),
    {
        assert(cur@.skip(0) =~= cur@);
        let start = match find_from(&cur, &open, 0) {
            None => {
                proof { lemma_find_none(cur@, open@); }
                return cur;
            },
            Some(at) => at,
        };
        let ghost tag = cur@.skip(start as int);
        proof { lemma_find_first(cur@, open@, start as int); }
        let gt_at = match find_from(&cur, &gt, start) {
            None => {
                proof { lemma_find_none(tag, gt@); }
                return cur;
            },
            Some(at) => at,
        };
        proof { lemma_find_first(tag, gt@, gt_at - start); }
        let mut next = slice_of(&cur, 0, start);
        match find_from(&cur, &close, start) {
            Some(c) => {
                proof { lemma_find_first(tag, close@, c - start); }
                if gt_at < c {
                    let inner = slice_of(&cur, gt_at + 1, c);
                    push_all(&mut next, &inner);
                    assert(inner@ =~= tag.subrange(gt_at - start + 1, c - start));
                } else {
                    assert(next@ =~= next@ + Seq::<char>::empty());
                }
                let tail = slice_of(&cur, c + 4, cur.len());
                push_all(&mut next, &tail);
                assert(tail@ =~= tag.skip(c - start + 4));
            },
            None => {
                proof { lemma_find_none(tag, close@); }
                let tail = slice_of(&cur, gt_at + 1, cur.len());
                push_all(&mut next, &tail);
                assert(tail@ =~= tag.skip(gt_at - start + 1));
            },
        }
        assert(strip_links(cur@) == strip_links(next@));
        cur = next;
    }
}

/// A pattern whose first character occurs nowhere else in it, placed right
/// after text that does not hold it, first occurs where it was placed.
proof fn lemma_first_after(a: Seq<char>, p: Seq<char>, b: Seq<char>)
    requires
        p.len() > 0,
        forall|k: int| 1 <= k < p.len() ==> #[trigger] p[k] != p[0],
        !contains(a, p),
    ensures
        is_first_occurrence(a + p + b, p, a.len() as int),
{
    let s = a + p + b;
    let n = a.len() as int;
    assert(s.subrange(n, n + p.len()) =~= p);
    assert forall|j: int| 0 <= j < n implies !occurs_at(s, p, j) by {
        if occurs_at(s, p, j) {
            if j + p.len() <= n {
                assert(a.subrange(j, j + p.len()) =~= s.subrange(j, j + p.len()));
                assert(occurs_at(a, p, j));
            } else {
                assert(s.subrange(j, j + p.len())[n - j] == s[n]);
                assert(s[n] == p[0]);
            }
        }
    }
}

/// Where a first pattern placed after text that does not hold it is found.
proof fn lemma_find_after(a: Seq<char>, p: Seq<char>, b: Seq<char>)
    requires
        p.len() > 0,
        forall|k: int| 1 <= k < p.len() ==> #[trigger] p[k] != p[0],
        !contains(a, p),
    ensures
        find(a + p + b, p) == Some(a.len() as int),
{
    lemma_first_after(a, p, b);
    lemma_find_first(a + p + b, p, a.len() as int);
}

/// The `>` that ends an opening tag whose attributes hold none.
proof fn lemma_find_tag_end(attrs: Seq<char>, rest: Seq<char>)
    requires
        forall|k: int| 0 <= k < attrs.len() ==> attrs[k] != '>',
    ensures
        find("<a href="@ + attrs + ">"@ + rest, ">"@) == Some(8 + attrs.len() as int),
{
    reveal_strlit("<a href=");
    reveal_strlit(">");
    let a = "<a href="@ + attrs;
    assert forall|j: int| 0 <= j < a.len() implies !occurs_at(a, ">"@, j) by {
        if occurs_at(a, ">"@, j) {
            assert(a.subrange(j, j + 1)[0] == a[j]);
            if j >= 8 {
                assert(a[j] == attrs[j - 8]);
            }
        }
    }
    lemma_find_after(a, ">"@, rest);
}

/// An opening tag adds no `</a>` in front of text that holds none.
proof fn lemma_no_close_after_open(q: Seq<char>)
    requires
        !contains(q, "</a>"@),
    ensures
        !contains("<a href="@ + q, "</a>"@),
{
    reveal_strlit("<a href=");
    reveal_strlit("</a>");
    let a = "<a href="@ + q;
    let c = "</a>"@;
    assert forall|j: int| !occurs_at(a, c, j) by {
        if occurs_at(a, c, j) {
            if j >= 8 {
                assert(q.subrange(j - 8, j - 8 + 4) =~= a.subrange(j, j + 4));
                assert(occurs_at(q, c, j - 8));
            } else {
                assert(a.subrange(j, j + 4)[0] == a[j]);
                assert(a.subrange(j, j + 4)[1] == a[j + 1]);
                assert(a[j] == "<a href="@[j]);
                if j == 0 {
                    assert(a[1] == 'a');
                }
            }
        }
    }
}

/// Text without an opening link tag is left as it is.
pub proof fn lemma_no_link_unchanged(s: Seq<char>)
    requires
        !contains(s, "<a href="@),
    ensures
        strip_links(s) == s,
{
    lemma_find_none(s, "<a href="@);
}

/// A link is shown as its text: the opening tag, up to its `>`, and the
/// `</a>` that closes the link are dropped, and what is left is reduced in
/// the same way.
pub proof fn lemma_link_becomes_its_text(pre: Seq<char>, attrs: Seq<char>, text: Seq<char>, post: Seq<char>)
    requires
        !contains(pre, "<a href="@),
        forall|k: int| 0 <= k < attrs.len() ==> attrs[k] != '>',
        !contains(attrs + ">"@ + text, "</a>"@),
    ensures
        strip_links(pre + "<a href="@ + attrs + ">"@ + text + "</a>"@ + post) == strip_links(pre + text + post),
{
    reveal_strlit("<a href=");
    reveal_strlit(">");
    reveal_strlit("</a>");
    let open = "<a href="@;
    let gt = ">"@;
    let close = "</a>"@;
    let s = pre + open + attrs + gt + text + close + post;
    let start = pre.len() as int;
    let tail = attrs + gt + text + close + post;
    assert(s =~= pre + open + tail);
    lemma_find_after(pre, open, tail);
    let tag = s.skip(start);
    assert(tag =~= open + attrs + gt + (text + close + post));
    lemma_find_tag_end(attrs, text + close + post);
    let end = 8 + attrs.len() as int;
    lemma_no_close_after_open(attrs + gt + text);
    let a = open + (attrs + gt + text);
    assert(tag =~= a + close + post);
    lemma_find_after(a, close, post);
    let c = a.len() as int;
    assert(tag.subrange(end + 1, c) =~= text);
    assert(tag.skip(c + 4) =~= post);
    assert(s.take(start) =~= pre);
    assert(s.take(start) + tag.subrange(end + 1, c) + tag.skip(c + 4) =~= pre + text + post);
}

/// Line breaks as newlines.
pub open spec fn swap_breaks(s: Seq<char>) -> Seq<char> {
    let s = replace_all(s, "<br>"@, "\n"@);
    let s = replace_all(s, "<br/>"@, "\n"@);
    replace_all(s, "<br />"@, "\n"@)
}

/// List items as bullets on their own lines; the list tags dropped.
pub open spec fn swap_lists(s: Seq<char>) -> Seq<char> {
    let s = replace_all(s, "<li>"@, "\n• "@);
    let s = replace_all(s, "</li>"@, ""@);
    let s = replace_all(s, "<ul>"@, ""@);
    let s = replace_all(s, "</ul>"@, ""@);
    let s = replace_all(s, "<ol>"@, ""@);
    replace_all(s, "</ol>"@, ""@)
}

/// Paragraphs ended by a blank line.
pub open spec fn swap_paragraphs(s: Seq<char>) -> Seq<char> {
    let s = replace_all(s, "<p>"@, ""@);
    replace_all(s, "</p>"@, "\n\n"@)
}

fn swap_rest_exec(s: &Vec<char>) -> (r: Vec<char>)
    ensures
        r@ == swap_paragraphs(swap_lists(swap_breaks(s@))),
{
    let s = replace_lit(s, "<br>", "\n");
    let s = replace_lit(&s, "<br/>", "\n");
    let s = replace_lit(&s, "<br />", "\n");
    let s = replace_lit(&s, "<li>", "\n• ");
    let s = replace_lit(&s, "</li>", "");
    let s = replace_lit(&s, "<ul>", "");
    let s = replace_lit(&s, "</ul>", "");
    let s = replace_lit(&s, "<ol>", "");
    let s = replace_lit(&s, "</ol>", "");
    let s = replace_lit(&s, "<p>", "");
    replace_lit(&s, "</p>", "\n\n")
}

/// One trimmed, non-empty line of HTML as Pango markup.
pub open spec fn convert_line(t: Seq<char>) -> Seq<char> {
    swap_paragraphs(swap_lists(swap_breaks(strip_links(swap_emphasis(swap_headings(t))))))
}

/// One trimmed, non-empty line of HTML as Pango markup.
pub fn convert_line_exec(t: &Vec<char>) -> (r: Vec<char>)
    ensures
        r@ == convert_line(t@),
{
    let a = swap_headings_exec(t);
    let b = swap_emphasis_exec(&a);
    let c = strip_links_exec(&b);
    swap_rest_exec(&c)
}

/// The markup of the lines `ls`: each trimmed line converted, and a blank
/// line, once some line gave markup, as a paragraph break.
pub open spec fn markup_lines(ls: Seq<Seq<char>>, in_paragraph: bool) -> Seq<char>
    decreases ls.len(),
{
    if ls.len() == 0 {
        Seq::empty()
    } else {
        let t = trim(ls[0]);
        if t.len() == 0 {
            (if in_paragraph { "\n\n"@ } else { Seq::<char>::empty() }) + markup_lines(ls.skip(1), in_paragraph)
        } else {
            let p = convert_line(t);
            p + markup_lines(ls.skip(1), in_paragraph || p.len() > 0)
        }
    }
}

/// Replacing a pattern by something shorter never lengthens the text, and
/// shortens it when the pattern occurs.
pub proof fn lemma_replace_shortens(s: Seq<char>, p: Seq<char>, r: Seq<char>)
    requires
        p.len() > r.len(),
    ensures
        replace_all(s, p, r).len() <= s.len(),
        contains(s, p) ==> replace_all(s, p, r).len() < s.len(),
    decreases s.len(),
{
    if s.len() < p.len() {
        if contains(s, p) {
            let i = choose|i: int| occurs_at(s, p, i);
        }
    } else if s.subrange(0, p.len() as int) == p {
        lemma_replace_shortens(s.skip(p.len() as int), p, r);
    } else {
        lemma_replace_shortens(s.skip(1), p, r);
        if contains(s, p) {
            let i = choose|i: int| occurs_at(s, p, i);
            if i == 0 {
                assert(occurs_at(s, p, 0));
            } else {
                lemma_occurs_in_suffix(s, p, 1, i - 1);
            }
        }
    }
}

/// Runs of three or more newlines cut down to two, by replacing `\n\n\n`
/// with `\n\n` for as long as it occurs.
pub open spec fn collapse_blank_lines(s: Seq<char>) -> Seq<char>
    decreases s.len(),
{
    if contains(s, "\n\n\n"@) {
        proof {
            reveal_strlit("\n\n\n");
            reveal_strlit("\n\n");
            lemma_replace_shortens(s, "\n\n\n"@, "\n\n"@);
        }
        collapse_blank_lines(replace_all(s, "\n\n\n"@, "\n\n"@))
    } else {
        s
    }
}

fn collapse_blank_lines_exec(s: &Vec<char>) -> (r: Vec<char>)
    ensures
        r@ == collapse_blank_lines(s@),
{
    let three = chars_of("\n\n\n");
    let two = chars_of("\n\n");
    let mut cur = s.clone();
    while contains_exec(&cur, &three)
        invariant
            three@ == "\n\n\n"@,
            two@ == "\n\n"@,
            collapse_blank_lines(cur@) == collapse_blank_lines(s@),
        decreases cur@.len(),
    {
        proof {
            reveal_strlit("\n\n\n");
            reveal_strlit("\n\n");
            lemma_replace_shortens(cur@, three@, two@);
        }
        cur = replace_all_exec(&cur, &three, &two);
    }
    cur
}

/// The Pango markup shown for a piece of HTML: its lines converted one by
/// one, blank-line runs collapsed, and the whole trimmed.
pub open spec fn spec_html_to_pango_markup(html: Seq<char>) -> Seq<char> {
    trim(collapse_blank_lines(markup_lines(lines(html), false)))
}

/// The Pango markup shown for a piece of HTML.
pub fn html_to_pango_markup(html: &str) -> (r: String)
    ensures
        r@ == spec_html_to_pango_markup(html@),
{
    let h = chars_of(html);
    let ls = lines_of(&h);
    let ghost all = lines(html@);
    let mut result: Vec<char> = Vec::new();
    let mut in_paragraph = false;
    let mut idx: usize = 0;
    assert(all.skip(0) =~= all);
    while idx < ls.len()
        invariant
            idx <= ls@.len(),
            views(ls@) == all,
            all == lines(html@),
            markup_lines(all, false) == result@ + markup_lines(all.skip(idx as int), in_paragraph),
        decreases ls@.len() - idx,
    {
        let ghost rest = all.skip(idx as int);
        assert(ls@[idx as int]@ == all[idx as int]);
        assert(rest[0] == all[idx as int]);
        assert(rest.skip(1) =~= all.skip(idx + 1));
        let ghost before = result@;
        let ghost was_in = in_paragraph;
        let t = trim_exec(&ls[idx]);
        if t.len() == 0 {
            if in_paragraph {
                push_str(&mut result, "\n\n");
            }
            assert(before + markup_lines(rest, was_in) =~= result@ + markup_lines(all.skip(idx + 1), in_paragraph));
        } else {
            let p = convert_line_exec(&t);
            if !in_paragraph && p.len() > 0 {
                in_paragraph = true;
            }
            push_all(&mut result, &p);
            assert(before + markup_lines(rest, was_in) =~= result@ + markup_lines(all.skip(idx + 1), in_paragraph));
        }
        idx += 1;
    }
    assert(all.skip(idx as int) =~= Seq::<Seq<char>>::empty());
    let collapsed = collapse_blank_lines_exec(&result);
    let trimmed = trim_exec(&collapsed);
    string_of(&trimmed)
}

/// What the markdown crate's `to_html` makes of a text.
pub uninterp spec fn markdown_html(text: Seq<char>) -> Seq<char>;

/// `markdown::to_html`: the text compiled to HTML by CommonMark with the
/// default options.  Its `unwrap` cannot fail there: parse errors come
/// only from the MDX constructs, which the default options leave off.  The
/// HTML is named by `markdown_html`, not restated.
#[verifier::external_body]
fn markdown_to_html(text: &str) -> (r: String)
    ensures
        r@ == markdown_html(text@),
{
    markdown::to_html(text)
}

/// The markup the preview of a markdown note shows: the text as HTML, then
/// that HTML as Pango markup.
pub fn markdown_preview(text: &str) -> (r: String)
    ensures
        r@ == spec_html_to_pango_markup(markdown_html(text@)),
{
    let html = markdown_to_html(text);
    html_to_pango_markup(html.as_str())
}

// ---------------------------------------------------------------------------
// Tags and the text between them
// ---------------------------------------------------------------------------

/// Text that is one tag (`<` first, `>` last and neither elsewhere) or
/// that holds no `<` at all.
spec fn is_piece(x: Seq<char>) -> bool {
    &&& forall|i: int| 0 < i < x.len() ==> #[trigger] x[i] != '<'
    &&& (x.len() > 0 && x[0] == '<') ==> (x.len() > 1 && x[x.len() - 1] == '>' && forall|i: int|
        0 <= i < x.len() - 1 ==> #[trigger] x[i] != '>')
}

/// `x` and `p` differ in length or in one of their first characters after
/// the `<`.
spec fn differs_early(x: Seq<char>, p: Seq<char>) -> bool {
    ||| x.len() != p.len()
    ||| (x.len() > 1 && x[1] != p[1])
    ||| (x.len() > 2 && x[2] != p[2])
    ||| (x.len() > 3 && x[3] != p[3])
}

/// A pattern that is one whole tag.
spec fn is_tag_pattern(p: Seq<char>) -> bool {
    p.len() > 1 && p[0] == '<' && is_piece(p)
}

proof fn lemma_replace_absent(s: Seq<char>, p: Seq<char>, r: Seq<char>)
    requires
        p.len() > 0,
        forall|i: int| 0 <= i < s.len() ==> #[trigger] s[i] != p[0],
    ensures
        replace_all(s, p, r) == s,
    decreases s.len(),
{
    if s.len() >= p.len() {
        assert(s.subrange(0, p.len() as int)[0] == s[0]);
        let t = s.skip(1);
        assert forall|i: int| 0 <= i < t.len() implies #[trigger] t[i] != p[0] by {
            assert(t[i] == s[i + 1]);
        }
        lemma_replace_absent(t, p, r);
        assert(seq![s[0]] + t =~= s);
    }
}

proof fn lemma_replace_no_start(a: Seq<char>, b: Seq<char>, p: Seq<char>, r: Seq<char>)
    requires
        p.len() > 0,
        forall|i: int| 0 <= i < a.len() ==> #[trigger] a[i] != p[0],
    ensures
        replace_all(a + b, p, r) == a + replace_all(b, p, r),
    decreases a.len(),
{
    let s = a + b;
    if a.len() == 0 {
        assert(s =~= b);
        assert(a + replace_all(b, p, r) =~= replace_all(b, p, r));
    } else if s.len() < p.len() {
        assert(a + b =~= a + replace_all(b, p, r));
    } else {
        assert(s.subrange(0, p.len() as int)[0] == a[0]);
        let a1 = a.skip(1);
        assert forall|i: int| 0 <= i < a1.len() implies #[trigger] a1[i] != p[0] by {
            assert(a1[i] == a[i + 1]);
        }
        lemma_replace_no_start(a1, b, p, r);
        assert(s.skip(1) =~= a1 + b);
        assert(seq![s[0]] + (a1 + replace_all(b, p, r)) =~= a + replace_all(b, p, r));
    }
}

/// A tag pattern is replaced in a piece exactly when the piece is it.
proof fn lemma_replace_piece(x: Seq<char>, p: Seq<char>, r: Seq<char>)
    requires
        is_piece(x),
        is_tag_pattern(p),
    ensures
        replace_all(x, p, r) == (if x == p { r } else { x }),
        differs_early(x, p) ==> replace_all(x, p, r) == x,
{
    if x == p {
        assert(x.subrange(0, p.len() as int) =~= p);
        let e = x.skip(p.len() as int);
        assert(e.len() == 0);
        assert(replace_all(e, p, r) == e);
        assert(replace_all(x, p, r) == r + replace_all(e, p, r));
        assert(r + e =~= r);
    } else if x.len() == 0 {
    } else if x[0] != '<' {
        lemma_replace_absent(x, p, r);
    } else if x.len() >= p.len() {
        if x.subrange(0, p.len() as int) == p {
            assert(x[p.len() - 1] == x.subrange(0, p.len() as int)[p.len() - 1]);
            assert(p[p.len() - 1] == '>');
            assert(p.len() == x.len());
            assert(x.subrange(0, p.len() as int) =~= x);
            assert(false);
        }
        assert(x.subrange(0, p.len() as int) != p);
        let x1 = x.skip(1);
        assert forall|i: int| 0 <= i < x1.len() implies #[trigger] x1[i] != p[0] by {
            assert(x1[i] == x[i + 1]);
        }
        lemma_replace_absent(x1, p, r);
        assert(seq![x[0]] + x1 =~= x);
    }
}

/// `lemma_replace_piece`, for every piece and tag pattern at once.
broadcast proof fn lemma_replace_piece_auto(x: Seq<char>, p: Seq<char>, r: Seq<char>)
    requires
        is_piece(x),
        is_tag_pattern(p),
    ensures
        differs_early(x, p) ==> #[trigger] replace_all(x, p, r) == x,
        x == p ==> replace_all(x, p, r) == r,
{
    lemma_replace_piece(x, p, r);
}

/// Replacing a tag pattern in a piece followed by more text works on the
/// two separately.
proof fn lemma_replace_split(x: Seq<char>, b: Seq<char>, p: Seq<char>, r: Seq<char>)
    requires
        is_piece(x),
        is_tag_pattern(p),
    ensures
        replace_all(x + b, p, r) == replace_all(x, p, r) + replace_all(b, p, r),
{
    lemma_replace_piece(x, p, r);
    let s = x + b;
    if x.len() == 0 {
        assert(s =~= b);
    } else if x[0] != '<' {
        lemma_replace_no_start(x, b, p, r);
    } else if x == p {
        assert(s.subrange(0, p.len() as int) =~= p);
        assert(s.skip(p.len() as int) =~= b);
    } else if s.len() < p.len() {
        assert(replace_all(b, p, r) == b);
    } else {
        if s.subrange(0, p.len() as int) == p {
            if p.len() <= x.len() {
                assert(x.subrange(0, p.len() as int) =~= s.subrange(0, p.len() as int));
                assert(x[p.len() - 1] == p[p.len() - 1]);
                assert(x.subrange(0, p.len() as int) =~= x);
            } else {
                assert(s[x.len() - 1] == s.subrange(0, p.len() as int)[x.len() - 1]);
                assert(p[x.len() - 1] == '>');
            }
        }
        let x1 = x.skip(1);
        assert forall|i: int| 0 <= i < x1.len() implies #[trigger] x1[i] != p[0] by {
            assert(x1[i] == x[i + 1]);
        }
        lemma_replace_no_start(x1, b, p, r);
        assert(s.skip(1) =~= x1 + b);
        assert(seq![x[0]] + (x1 + replace_all(b, p, r)) =~= x + replace_all(b, p, r));
    }
}

/// Replacing a tag pattern in tag, text, tag works on each part.
proof fn lemma_replace_three(x: Seq<char>, t: Seq<char>, y: Seq<char>, p: Seq<char>, r: Seq<char>)
    requires
        is_piece(x),
        is_piece(y),
        is_piece(r),
        forall|i: int| 0 <= i < t.len() ==> #[trigger] t[i] != '<',
        is_tag_pattern(p),
    ensures
        replace_all(x + t + y, p, r) == replace_all(x, p, r) + t + replace_all(y, p, r),
        is_piece(replace_all(x, p, r)),
        is_piece(replace_all(y, p, r)),
{
    lemma_replace_piece(x, p, r);
    lemma_replace_piece(y, p, r);
    assert(x + t + y =~= x + (t + y));
    lemma_replace_split(x, t + y, p, r);
    assert(is_piece(t));
    lemma_replace_split(t, y, p, r);
    lemma_replace_absent(t, p, r);
    assert(replace_all(x, p, r) + (t + replace_all(y, p, r)) =~= replace_all(x, p, r) + t + replace_all(y, p, r));
}

/// The level tags of a heading, its opening and closing tag and the span
/// that shows it.
spec fn heading_open(k: int) -> Seq<char> {
    "<h"@ + seq![digit_char(k)] + ">"@
}

spec fn heading_close(k: int) -> Seq<char> {
    "</h"@ + seq![digit_char(k)] + ">"@
}

spec fn heading_span(k: int) -> Seq<char> {
    "<span size=\""@ + heading_size(k) + "\" weight=\"bold\">"@
}

/// The Pango size a heading of level `k` is shown in.
pub open spec fn heading_size(k: int) -> Seq<char> {
    if k == 1 {
        "xx-large"@
    } else if k == 2 {
        "x-large"@
    } else if k == 3 {
        "large"@
    } else if k == 4 {
        "medium"@
    } else if k == 5 {
        "small"@
    } else {
        "x-small"@
    }
}

/// The heading stage works on tag, text and tag separately.
#[verifier::rlimit(50)]
proof fn lemma_swap_headings_three(x: Seq<char>, t: Seq<char>, y: Seq<char>)
    requires
        is_piece(x),
        is_piece(y),
        forall|i: int| 0 <= i < t.len() ==> #[trigger] t[i] != '<',
    ensures
        swap_headings(x + t + y) == swap_headings(x) + t + swap_headings(y),
        is_piece(swap_headings(x)),
        is_piece(swap_headings(y)),
{
    reveal_strlit("<h1>");
    reveal_strlit("<span size=\"xx-large\" weight=\"bold\">");
    reveal_strlit("</h1>");
    reveal_strlit("</span>");
    reveal_strlit("<h2>");
    reveal_strlit("<span size=\"x-large\" weight=\"bold\">");
    reveal_strlit("</h2>");
    reveal_strlit("<h3>");
    reveal_strlit("<span size=\"large\" weight=\"bold\">");
    reveal_strlit("</h3>");
    reveal_strlit("<h4>");
    reveal_strlit("<span size=\"medium\" weight=\"bold\">");
    reveal_strlit("</h4>");
    reveal_strlit("<h5>");
    reveal_strlit("<span size=\"small\" weight=\"bold\">");
    reveal_strlit("</h5>");
    reveal_strlit("<h6>");
    reveal_strlit("<span size=\"x-small\" weight=\"bold\">");
    reveal_strlit("</h6>");
    let x0 = x;
    let y0 = y;
    lemma_replace_three(x0, t, y0, "<h1>"@, "<span size=\"xx-large\" weight=\"bold\">"@);
    let x1 = replace_all(x0, "<h1>"@, "<span size=\"xx-large\" weight=\"bold\">"@);
    let y1 = replace_all(y0, "<h1>"@, "<span size=\"xx-large\" weight=\"bold\">"@);
    lemma_replace_three(x1, t, y1, "</h1>"@, "</span>"@);
    let x2 = replace_all(x1, "</h1>"@, "</span>"@);
    let y2 = replace_all(y1, "</h1>"@, "</span>"@);
    lemma_replace_three(x2, t, y2, "<h2>"@, "<span size=\"x-large\" weight=\"bold\">"@);
    let x3 = replace_all(x2, "<h2>"@, "<span size=\"x-large\" weight=\"bold\">"@);
    let y3 = replace_all(y2, "<h2>"@, "<span size=\"x-large\" weight=\"bold\">"@);
    lemma_replace_three(x3, t, y3, "</h2>"@, "</span>"@);
    let x4 = replace_all(x3, "</h2>"@, "</span>"@);
    let y4 = replace_all(y3, "</h2>"@, "</span>"@);
    lemma_replace_three(x4, t, y4, "<h3>"@, "<span size=\"large\" weight=\"bold\">"@);
    let x5 = replace_all(x4, "<h3>"@, "<span size=\"large\" weight=\"bold\">"@);
    let y5 = replace_all(y4, "<h3>"@, "<span size=\"large\" weight=\"bold\">"@);
    lemma_replace_three(x5, t, y5, "</h3>"@, "</span>"@);
    let x6 = replace_all(x5, "</h3>"@, "</span>"@);
    let y6 = replace_all(y5, "</h3>"@, "</span>"@);
    lemma_replace_three(x6, t, y6, "<h4>"@, "<span size=\"medium\" weight=\"bold\">"@);
    let x7 = replace_all(x6, "<h4>"@, "<span size=\"medium\" weight=\"bold\">"@);
    let y7 = replace_all(y6, "<h4>"@, "<span size=\"medium\" weight=\"bold\">"@);
    lemma_replace_three(x7, t, y7, "</h4>"@, "</span>"@);
    let x8 = replace_all(x7, "</h4>"@, "</span>"@);
    let y8 = replace_all(y7, "</h4>"@, "</span>"@);
    lemma_replace_three(x8, t, y8, "<h5>"@, "<span size=\"small\" weight=\"bold\">"@);
    let x9 = replace_all(x8, "<h5>"@, "<span size=\"small\" weight=\"bold\">"@);
    let y9 = replace_all(y8, "<h5>"@, "<span size=\"small\" weight=\"bold\">"@);
    lemma_replace_three(x9, t, y9, "</h5>"@, "</span>"@);
    let x10 = replace_all(x9, "</h5>"@, "</span>"@);
    let y10 = replace_all(y9, "</h5>"@, "</span>"@);
    lemma_replace_three(x10, t, y10, "<h6>"@, "<span size=\"x-small\" weight=\"bold\">"@);
    let x11 = replace_all(x10, "<h6>"@, "<span size=\"x-small\" weight=\"bold\">"@);
    let y11 = replace_all(y10, "<h6>"@, "<span size=\"x-small\" weight=\"bold\">"@);
    lemma_replace_three(x11, t, y11, "</h6>"@, "</span>"@);
    let x12 = replace_all(x11, "</h6>"@, "</span>"@);
    let y12 = replace_all(y11, "</h6>"@, "</span>"@);
}

/// The emphasis stage works on tag, text and tag separately.
#[verifier::rlimit(50)]
proof fn lemma_swap_emphasis_three(x: Seq<char>, t: Seq<char>, y: Seq<char>)
    requires
        is_piece(x),
        is_piece(y),
        forall|i: int| 0 <= i < t.len() ==> #[trigger] t[i] != '<',
    ensures
        swap_emphasis(x + t + y) == swap_emphasis(x) + t + swap_emphasis(y),
        is_piece(swap_emphasis(x)),
        is_piece(swap_emphasis(y)),
{
    reveal_strlit("<strong>");
    reveal_strlit("<b>");
    reveal_strlit("</strong>");
    reveal_strlit("</b>");
    reveal_strlit("<em>");
    reveal_strlit("<i>");
    reveal_strlit("</em>");
    reveal_strlit("</i>");
    reveal_strlit("<u>");
    reveal_strlit("</u>");
    reveal_strlit("<code>");
    reveal_strlit("<tt>");
    reveal_strlit("</code>");
    reveal_strlit("</tt>");
    reveal_strlit("<pre>");
    reveal_strlit("</pre>");
    let x0 = x;
    let y0 = y;
    lemma_replace_three(x0, t, y0, "<strong>"@, "<b>"@);
    let x1 = replace_all(x0, "<strong>"@, "<b>"@);
    let y1 = replace_all(y0, "<strong>"@, "<b>"@);
    lemma_replace_three(x1, t, y1, "</strong>"@, "</b>"@);
    let x2 = replace_all(x1, "</strong>"@, "</b>"@);
    let y2 = replace_all(y1, "</strong>"@, "</b>"@);
    lemma_replace_three(x2, t, y2, "<b>"@, "<b>"@);
    let x3 = replace_all(x2, "<b>"@, "<b>"@);
    let y3 = replace_all(y2, "<b>"@, "<b>"@);
    lemma_replace_three(x3, t, y3, "</b>"@, "</b>"@);
    let x4 = replace_all(x3, "</b>"@, "</b>"@);
    let y4 = replace_all(y3, "</b>"@, "</b>"@);
    lemma_replace_three(x4, t, y4, "<em>"@, "<i>"@);
    let x5 = replace_all(x4, "<em>"@, "<i>"@);
    let y5 = replace_all(y4, "<em>"@, "<i>"@);
    lemma_replace_three(x5, t, y5, "</em>"@, "</i>"@);
    let x6 = replace_all(x5, "</em>"@, "</i>"@);
    let y6 = replace_all(y5, "</em>"@, "</i>"@);
    lemma_replace_three(x6, t, y6, "<i>"@, "<i>"@);
    let x7 = replace_all(x6, "<i>"@, "<i>"@);
    let y7 = replace_all(y6, "<i>"@, "<i>"@);
    lemma_replace_three(x7, t, y7, "</i>"@, "</i>"@);
    let x8 = replace_all(x7, "</i>"@, "</i>"@);
    let y8 = replace_all(y7, "</i>"@, "</i>"@);
    lemma_replace_three(x8, t, y8, "<u>"@, "<u>"@);
    let x9 = replace_all(x8, "<u>"@, "<u>"@);
    let y9 = replace_all(y8, "<u>"@, "<u>"@);
    lemma_replace_three(x9, t, y9, "</u>"@, "</u>"@);
    let x10 = replace_all(x9, "</u>"@, "</u>"@);
    let y10 = replace_all(y9, "</u>"@, "</u>"@);
    lemma_replace_three(x10, t, y10, "<code>"@, "<tt>"@);
    let x11 = replace_all(x10, "<code>"@, "<tt>"@);
    let y11 = replace_all(y10, "<code>"@, "<tt>"@);
    lemma_replace_three(x11, t, y11, "</code>"@, "</tt>"@);
    let x12 = replace_all(x11, "</code>"@, "</tt>"@);
    let y12 = replace_all(y11, "</code>"@, "</tt>"@);
    lemma_replace_three(x12, t, y12, "<pre>"@, "<tt>"@);
    let x13 = replace_all(x12, "<pre>"@, "<tt>"@);
    let y13 = replace_all(y12, "<pre>"@, "<tt>"@);
    lemma_replace_three(x13, t, y13, "</pre>"@, "</tt>"@);
    let x14 = replace_all(x13, "</pre>"@, "</tt>"@);
    let y14 = replace_all(y13, "</pre>"@, "</tt>"@);
}

/// The break, list and paragraph stages work on tag, text and tag separately.
#[verifier::rlimit(50)]
proof fn lemma_swap_rest_three(x: Seq<char>, t: Seq<char>, y: Seq<char>)
    requires
        is_piece(x),
        is_piece(y),
        forall|i: int| 0 <= i < t.len() ==> #[trigger] t[i] != '<',
    ensures
        swap_paragraphs(swap_lists(swap_breaks(x + t + y))) == swap_paragraphs(swap_lists(swap_breaks(x))) + t + swap_paragraphs(swap_lists(swap_breaks(y))),
        is_piece(swap_paragraphs(swap_lists(swap_breaks(x)))),
        is_piece(swap_paragraphs(swap_lists(swap_breaks(y)))),
{
    reveal_strlit("<br>");
    reveal_strlit("\n");
    reveal_strlit("<br/>");
    reveal_strlit("<br />");
    reveal_strlit("<li>");
    reveal_strlit("\n• ");
    reveal_strlit("</li>");
    reveal_strlit("");
    reveal_strlit("<ul>");
    reveal_strlit("</ul>");
    reveal_strlit("<ol>");
    reveal_strlit("</ol>");
    reveal_strlit("<p>");
    reveal_strlit("</p>");
    reveal_strlit("\n\n");
    let x0 = x;
    let y0 = y;
    lemma_replace_three(x0, t, y0, "<br>"@, "\n"@);
    let x1 = replace_all(x0, "<br>"@, "\n"@);
    let y1 = replace_all(y0, "<br>"@, "\n"@);
    lemma_replace_three(x1, t, y1, "<br/>"@, "\n"@);
    let x2 = replace_all(x1, "<br/>"@, "\n"@);
    let y2 = replace_all(y1, "<br/>"@, "\n"@);
    lemma_replace_three(x2, t, y2, "<br />"@, "\n"@);
    let x3 = replace_all(x2, "<br />"@, "\n"@);
    let y3 = replace_all(y2, "<br />"@, "\n"@);
    lemma_replace_three(x3, t, y3, "<li>"@, "\n• "@);
    let x4 = replace_all(x3, "<li>"@, "\n• "@);
    let y4 = replace_all(y3, "<li>"@, "\n• "@);
    lemma_replace_three(x4, t, y4, "</li>"@, ""@);
    let x5 = replace_all(x4, "</li>"@, ""@);
    let y5 = replace_all(y4, "</li>"@, ""@);
    lemma_replace_three(x5, t, y5, "<ul>"@, ""@);
    let x6 = replace_all(x5, "<ul>"@, ""@);
    let y6 = replace_all(y5, "<ul>"@, ""@);
    lemma_replace_three(x6, t, y6, "</ul>"@, ""@);
    let x7 = replace_all(x6, "</ul>"@, ""@);
    let y7 = replace_all(y6, "</ul>"@, ""@);
    lemma_replace_three(x7, t, y7, "<ol>"@, ""@);
    let x8 = replace_all(x7, "<ol>"@, ""@);
    let y8 = replace_all(y7, "<ol>"@, ""@);
    lemma_replace_three(x8, t, y8, "</ol>"@, ""@);
    let x9 = replace_all(x8, "</ol>"@, ""@);
    let y9 = replace_all(y8, "</ol>"@, ""@);
    lemma_replace_three(x9, t, y9, "<p>"@, ""@);
    let x10 = replace_all(x9, "<p>"@, ""@);
    let y10 = replace_all(y9, "<p>"@, ""@);
    lemma_replace_three(x10, t, y10, "</p>"@, "\n\n"@);
    let x11 = replace_all(x10, "</p>"@, "\n\n"@);
    let y11 = replace_all(y10, "</p>"@, "\n\n"@);
}

/// A tag that is none of the emphasis tags passes the emphasis stage unchanged.
#[verifier::rlimit(50)]
proof fn lemma_swap_emphasis_keeps(x: Seq<char>)
    requires
        is_piece(x),
        differs_early(x, "<strong>"@),
        differs_early(x, "</strong>"@),
        differs_early(x, "<b>"@),
        differs_early(x, "</b>"@),
        differs_early(x, "<em>"@),
        differs_early(x, "</em>"@),
        differs_early(x, "<i>"@),
        differs_early(x, "</i>"@),
        differs_early(x, "<u>"@),
        differs_early(x, "</u>"@),
        differs_early(x, "<code>"@),
        differs_early(x, "</code>"@),
        differs_early(x, "<pre>"@),
        differs_early(x, "</pre>"@),
    ensures
        swap_emphasis(x) == x,
{
    reveal_strlit("<strong>");
    reveal_strlit("<b>");
    reveal_strlit("</strong>");
    reveal_strlit("</b>");
    reveal_strlit("<em>");
    reveal_strlit("<i>");
    reveal_strlit("</em>");
    reveal_strlit("</i>");
    reveal_strlit("<u>");
    reveal_strlit("</u>");
    reveal_strlit("<code>");
    reveal_strlit("<tt>");
    reveal_strlit("</code>");
    reveal_strlit("</tt>");
    reveal_strlit("<pre>");
    reveal_strlit("</pre>");
    lemma_replace_piece(x, "<strong>"@, "<b>"@);
    lemma_replace_piece(x, "</strong>"@, "</b>"@);
    lemma_replace_piece(x, "<b>"@, "<b>"@);
    lemma_replace_piece(x, "</b>"@, "</b>"@);
    lemma_replace_piece(x, "<em>"@, "<i>"@);
    lemma_replace_piece(x, "</em>"@, "</i>"@);
    lemma_replace_piece(x, "<i>"@, "<i>"@);
    lemma_replace_piece(x, "</i>"@, "</i>"@);
    lemma_replace_piece(x, "<u>"@, "<u>"@);
    lemma_replace_piece(x, "</u>"@, "</u>"@);
    lemma_replace_piece(x, "<code>"@, "<tt>"@);
    lemma_replace_piece(x, "</code>"@, "</tt>"@);
    lemma_replace_piece(x, "<pre>"@, "<tt>"@);
    lemma_replace_piece(x, "</pre>"@, "</tt>"@);
}

/// A tag that is none of the break, list and paragraph tags passes those stages unchanged.
#[verifier::rlimit(50)]
proof fn lemma_swap_rest_keeps(x: Seq<char>)
    requires
        is_piece(x),
        differs_early(x, "<br>"@),
        differs_early(x, "<br/>"@),
        differs_early(x, "<br />"@),
        differs_early(x, "<li>"@),
        differs_early(x, "</li>"@),
        differs_early(x, "<ul>"@),
        differs_early(x, "</ul>"@),
        differs_early(x, "<ol>"@),
        differs_early(x, "</ol>"@),
        differs_early(x, "<p>"@),
        differs_early(x, "</p>"@),
    ensures
        swap_paragraphs(swap_lists(swap_breaks(x))) == x,
{
    reveal_strlit("<br>");
    reveal_strlit("\n");
    reveal_strlit("<br/>");
    reveal_strlit("<br />");
    reveal_strlit("<li>");
    reveal_strlit("\n• ");
    reveal_strlit("</li>");
    reveal_strlit("");
    reveal_strlit("<ul>");
    reveal_strlit("</ul>");
    reveal_strlit("<ol>");
    reveal_strlit("</ol>");
    reveal_strlit("<p>");
    reveal_strlit("</p>");
    reveal_strlit("\n\n");
    lemma_replace_piece(x, "<br>"@, "\n"@);
    lemma_replace_piece(x, "<br/>"@, "\n"@);
    lemma_replace_piece(x, "<br />"@, "\n"@);
    lemma_replace_piece(x, "<li>"@, "\n• "@);
    lemma_replace_piece(x, "</li>"@, ""@);
    lemma_replace_piece(x, "<ul>"@, ""@);
    lemma_replace_piece(x, "</ul>"@, ""@);
    lemma_replace_piece(x, "<ol>"@, ""@);
    lemma_replace_piece(x, "</ol>"@, ""@);
    lemma_replace_piece(x, "<p>"@, ""@);
    lemma_replace_piece(x, "</p>"@, "\n\n"@);
}

/// The heading stage turns the tags of a heading into those of its span.
#[verifier::spinoff_prover]
#[verifier::rlimit(50)]
proof fn lemma_swap_headings_tags(k: int)
    requires
        1 <= k <= 6,
    ensures
        swap_headings(heading_open(k)) == heading_span(k),
        swap_headings(heading_close(k)) == "</span>"@,
{
    broadcast use lemma_replace_piece_auto;
    reveal_strlit("<h");
    reveal_strlit("</h");
    reveal_strlit(">");
    reveal_strlit("<span size=\"");
    reveal_strlit("\" weight=\"bold\">");
    reveal_strlit("xx-large");
    reveal_strlit("x-large");
    reveal_strlit("large");
    reveal_strlit("medium");
    reveal_strlit("small");
    reveal_strlit("x-small");
    reveal_strlit("<h1>");
    reveal_strlit("<span size=\"xx-large\" weight=\"bold\">");
    reveal_strlit("</h1>");
    reveal_strlit("</span>");
    reveal_strlit("<h2>");
    reveal_strlit("<span size=\"x-large\" weight=\"bold\">");
    reveal_strlit("</h2>");
    reveal_strlit("<h3>");
    reveal_strlit("<span size=\"large\" weight=\"bold\">");
    reveal_strlit("</h3>");
    reveal_strlit("<h4>");
    reveal_strlit("<span size=\"medium\" weight=\"bold\">");
    reveal_strlit("</h4>");
    reveal_strlit("<h5>");
    reveal_strlit("<span size=\"small\" weight=\"bold\">");
    reveal_strlit("</h5>");
    reveal_strlit("<h6>");
    reveal_strlit("<span size=\"x-small\" weight=\"bold\">");
    reveal_strlit("</h6>");
    if k == 1 {
        assert(digit_char(1) == '1');
        assert(heading_open(k) =~= "<h1>"@);
        assert(heading_close(k) =~= "</h1>"@);
        assert(heading_span(k) =~= "<span size=\"xx-large\" weight=\"bold\">"@);
        assert(swap_headings("<h1>"@) == "<span size=\"xx-large\" weight=\"bold\">"@);
        assert(swap_headings("</h1>"@) == "</span>"@);
    } else if k == 2 {
        assert(digit_char(2) == '2');
        assert(heading_open(k) =~= "<h2>"@);
        assert(heading_close(k) =~= "</h2>"@);
        assert(heading_span(k) =~= "<span size=\"x-large\" weight=\"bold\">"@);
        assert(swap_headings("<h2>"@) == "<span size=\"x-large\" weight=\"bold\">"@);
        assert(swap_headings("</h2>"@) == "</span>"@);
    } else if k == 3 {
        assert(digit_char(3) == '3');
        assert(heading_open(k) =~= "<h3>"@);
        assert(heading_close(k) =~= "</h3>"@);
        assert(heading_span(k) =~= "<span size=\"large\" weight=\"bold\">"@);
        assert(swap_headings("<h3>"@) == "<span size=\"large\" weight=\"bold\">"@);
        assert(swap_headings("</h3>"@) == "</span>"@);
    } else if k == 4 {
        assert(digit_char(4) == '4');
        assert(heading_open(k) =~= "<h4>"@);
        assert(heading_close(k) =~= "</h4>"@);
        assert(heading_span(k) =~= "<span size=\"medium\" weight=\"bold\">"@);
        assert(swap_headings("<h4>"@) == "<span size=\"medium\" weight=\"bold\">"@);
        assert(swap_headings("</h4>"@) == "</span>"@);
    } else if k == 5 {
        assert(digit_char(5) == '5');
        assert(heading_open(k) =~= "<h5>"@);
        assert(heading_close(k) =~= "</h5>"@);
        assert(heading_span(k) =~= "<span size=\"small\" weight=\"bold\">"@);
        assert(swap_headings("<h5>"@) == "<span size=\"small\" weight=\"bold\">"@);
        assert(swap_headings("</h5>"@) == "</span>"@);
    } else if k == 6 {
        assert(digit_char(6) == '6');
        assert(heading_open(k) =~= "<h6>"@);
        assert(heading_close(k) =~= "</h6>"@);
        assert(heading_span(k) =~= "<span size=\"x-small\" weight=\"bold\">"@);
        assert(swap_headings("<h6>"@) == "<span size=\"x-small\" weight=\"bold\">"@);
        assert(swap_headings("</h6>"@) == "</span>"@);
    }
}

/// Tag, text, tag holds no opening link tag when neither tag is one.
proof fn lemma_no_link_in_three(x: Seq<char>, t: Seq<char>, y: Seq<char>)
    requires
        is_piece(x),
        is_piece(y),
        x.len() > 0 && x[0] == '<' ==> x[1] != 'a',
        y.len() > 0 && y[0] == '<' ==> y[1] != 'a',
        forall|i: int| 0 <= i < t.len() ==> #[trigger] t[i] != '<',
    ensures
        !contains(x + t + y, "<a href="@),
{
    reveal_strlit("<a href=");
    let s = x + t + y;
    let o = "<a href="@;
    assert forall|j: int| !occurs_at(s, o, j) by {
        if occurs_at(s, o, j) {
            assert(s.subrange(j, j + 8)[0] == s[j]);
            assert(s.subrange(j, j + 8)[1] == s[j + 1]);
            if j < x.len() {
                assert(s[j] == x[j]);
                assert(s[j + 1] == x[1]);
            } else if j < x.len() + t.len() {
                assert(s[j] == t[j - x.len()]);
            } else {
                assert(s[j] == y[j - x.len() - t.len()]);
                assert(s[j + 1] == y[1]);
            }
        }
    }
}

/// What the stages of the conversion make of a single tag.
spec fn tag_markup(x: Seq<char>) -> Seq<char> {
    swap_paragraphs(swap_lists(swap_breaks(swap_emphasis(swap_headings(x)))))
}

/// The markup of one line made of a tag, text and a tag: the tags are
/// converted on their own and the text is kept; then blank-line runs are
/// collapsed and the whole trimmed.
#[verifier::rlimit(50)]
proof fn lemma_line_of_tags(o: Seq<char>, t: Seq<char>, c: Seq<char>)
    requires
        is_piece(o),
        is_piece(c),
        o.len() > 0 && o[0] == '<',
        c.len() > 0 && c[0] == '<',
        forall|i: int| 0 <= i < t.len() ==> #[trigger] t[i] != '<' && t[i] != '\n',
        forall|i: int| 0 <= i < o.len() ==> #[trigger] o[i] != '\n',
        forall|i: int| 0 <= i < c.len() ==> #[trigger] c[i] != '\n',
        swap_emphasis(swap_headings(o)).len() > 0 && swap_emphasis(swap_headings(o))[0] == '<'
            ==> swap_emphasis(swap_headings(o))[1] != 'a',
        swap_emphasis(swap_headings(c)).len() > 0 && swap_emphasis(swap_headings(c))[0] == '<'
            ==> swap_emphasis(swap_headings(c))[1] != 'a',
    ensures
        spec_html_to_pango_markup(o + t + c) == trim(collapse_blank_lines(tag_markup(o) + t + tag_markup(c))),
{
    let line = o + t + c;
    assert forall|k: int| 0 <= k < line.len() implies line[k] != '\n' by {
        if k < o.len() {
            assert(line[k] == o[k]);
        } else if k < o.len() + t.len() {
            assert(line[k] == t[k - o.len()]);
        } else {
            assert(line[k] == c[k - o.len() - t.len()]);
        }
    }
    lemma_lines_single(line);
    assert(line[0] == '<');
    assert(line[line.len() - 1] == c[c.len() - 1]);
    lemma_trim_start(line, 0);
    assert(line.skip(0) =~= line);
    lemma_trim_end(line, line.len() as int);
    assert(line.take(line.len() as int) =~= line);
    let ls = seq![line];
    assert(ls.skip(1) =~= Seq::<Seq<char>>::empty());
    assert(markup_lines(ls.skip(1), true) == Seq::<char>::empty());
    assert(markup_lines(ls.skip(1), false) == Seq::<char>::empty());
    assert(markup_lines(ls, false) =~= convert_line(line));
    lemma_swap_headings_three(o, t, c);
    let ho = swap_headings(o);
    let hc = swap_headings(c);
    lemma_swap_emphasis_three(ho, t, hc);
    let eo = swap_emphasis(ho);
    let ec = swap_emphasis(hc);
    lemma_no_link_in_three(eo, t, ec);
    lemma_no_link_unchanged(eo + t + ec);
    lemma_swap_rest_three(eo, t, ec);
}

/// Markup without line breaks that begins with `<` and ends with `>` is
/// left as it is by the collapsing of blank lines and the final trim.
proof fn lemma_plain_markup(res: Seq<char>)
    requires
        res.len() > 0,
        res[0] == '<',
        res[res.len() - 1] == '>',
        forall|k: int| 0 <= k < res.len() ==> #[trigger] res[k] != '\n',
    ensures
        trim(collapse_blank_lines(res)) == res,
{
    reveal_strlit("\n\n\n");
    assert forall|j: int| !occurs_at(res, "\n\n\n"@, j) by {
        if occurs_at(res, "\n\n\n"@, j) {
            assert(res.subrange(j, j + 3)[0] == res[j]);
        }
    }
    assert(collapse_blank_lines(res) == res);
    lemma_trim_start(res, 0);
    assert(res.skip(0) =~= res);
    lemma_trim_end(res, res.len() as int);
    assert(res.take(res.len() as int) =~= res);
}

/// Tag, text and tag without line breaks have none.
proof fn lemma_three_one_line(x: Seq<char>, t: Seq<char>, y: Seq<char>)
    requires
        forall|i: int| 0 <= i < x.len() ==> #[trigger] x[i] != '\n',
        forall|i: int| 0 <= i < t.len() ==> #[trigger] t[i] != '\n',
        forall|i: int| 0 <= i < y.len() ==> #[trigger] y[i] != '\n',
    ensures
        forall|k: int| 0 <= k < (x + t + y).len() ==> #[trigger] (x + t + y)[k] != '\n',
{
    let s = x + t + y;
    assert forall|k: int| 0 <= k < s.len() implies #[trigger] s[k] != '\n' by {
        if k < x.len() {
            assert(s[k] == x[k]);
        } else if k < x.len() + t.len() {
            assert(s[k] == t[k - x.len()]);
        } else {
            assert(s[k] == y[k - x.len() - t.len()]);
        }
    }
}

/// The tags of a heading of level `k` and the span that replaces it pass
/// the stages of the conversion as a heading line needs.
#[verifier::spinoff_prover]
#[verifier::rlimit(50)]
proof fn lemma_heading_parts(k: int)
    requires
        1 <= k <= 6,
    ensures
        is_piece(heading_open(k)),
        is_piece(heading_close(k)),
        is_piece(heading_span(k)),
        heading_open(k).len() > 0 && heading_open(k)[0] == '<',
        heading_close(k).len() > 0 && heading_close(k)[0] == '<',
        heading_span(k).len() > 0 && heading_span(k)[0] == '<' && heading_span(k)[1] != 'a',
        forall|i: int| 0 <= i < heading_open(k).len() ==> #[trigger] heading_open(k)[i] != '\n',
        forall|i: int| 0 <= i < heading_close(k).len() ==> #[trigger] heading_close(k)[i] != '\n',
        forall|i: int| 0 <= i < heading_span(k).len() ==> #[trigger] heading_span(k)[i] != '\n',
        swap_headings(heading_open(k)) == heading_span(k),
        swap_headings(heading_close(k)) == "</span>"@,
        swap_emphasis(heading_span(k)) == heading_span(k),
        swap_emphasis("</span>"@) == "</span>"@,
        swap_paragraphs(swap_lists(swap_breaks(heading_span(k)))) == heading_span(k),
        swap_paragraphs(swap_lists(swap_breaks("</span>"@))) == "</span>"@,
{
    reveal_strlit("<h");
    reveal_strlit("</h");
    reveal_strlit(">");
    reveal_strlit("</span>");
    reveal_strlit("<span size=\"");
    reveal_strlit("\" weight=\"bold\">");
    reveal_strlit("xx-large");
    reveal_strlit("x-large");
    reveal_strlit("large");
    reveal_strlit("medium");
    reveal_strlit("small");
    reveal_strlit("x-small");
    reveal_strlit("<strong>");
    reveal_strlit("</strong>");
    reveal_strlit("<b>");
    reveal_strlit("</b>");
    reveal_strlit("<em>");
    reveal_strlit("</em>");
    reveal_strlit("<i>");
    reveal_strlit("</i>");
    reveal_strlit("<u>");
    reveal_strlit("</u>");
    reveal_strlit("<code>");
    reveal_strlit("</code>");
    reveal_strlit("<pre>");
    reveal_strlit("</pre>");
    reveal_strlit("<br>");
    reveal_strlit("<br/>");
    reveal_strlit("<br />");
    reveal_strlit("<li>");
    reveal_strlit("</li>");
    reveal_strlit("<ul>");
    reveal_strlit("</ul>");
    reveal_strlit("<ol>");
    reveal_strlit("</ol>");
    reveal_strlit("<p>");
    reveal_strlit("</p>");
    reveal_strlit("<h1>");
    reveal_strlit("</h1>");
    reveal_strlit("<h2>");
    reveal_strlit("</h2>");
    reveal_strlit("<h3>");
    reveal_strlit("</h3>");
    reveal_strlit("<h4>");
    reveal_strlit("</h4>");
    reveal_strlit("<h5>");
    reveal_strlit("</h5>");
    reveal_strlit("<h6>");
    reveal_strlit("</h6>");
    reveal_strlit("<span size=\"xx-large\" weight=\"bold\">");
    reveal_strlit("<span size=\"x-large\" weight=\"bold\">");
    reveal_strlit("<span size=\"large\" weight=\"bold\">");
    reveal_strlit("<span size=\"medium\" weight=\"bold\">");
    reveal_strlit("<span size=\"small\" weight=\"bold\">");
    reveal_strlit("<span size=\"x-small\" weight=\"bold\">");
    let o = heading_open(k);
    let c = heading_close(k);
    let sp = heading_span(k);
    lemma_swap_headings_tags(k);
    lemma_swap_emphasis_keeps("</span>"@);
    lemma_swap_rest_keeps("</span>"@);
    if k == 1 {
        assert(digit_char(1) == '1');
        assert(o =~= "<h1>"@);
        assert(c =~= "</h1>"@);
        assert(sp =~= "<span size=\"xx-large\" weight=\"bold\">"@);
        lemma_swap_emphasis_keeps("<span size=\"xx-large\" weight=\"bold\">"@);
        lemma_swap_rest_keeps("<span size=\"xx-large\" weight=\"bold\">"@);
    } else if k == 2 {
        assert(digit_char(2) == '2');
        assert(o =~= "<h2>"@);
        assert(c =~= "</h2>"@);
        assert(sp =~= "<span size=\"x-large\" weight=\"bold\">"@);
        lemma_swap_emphasis_keeps("<span size=\"x-large\" weight=\"bold\">"@);
        lemma_swap_rest_keeps("<span size=\"x-large\" weight=\"bold\">"@);
    } else if k == 3 {
        assert(digit_char(3) == '3');
        assert(o =~= "<h3>"@);
        assert(c =~= "</h3>"@);
        assert(sp =~= "<span size=\"large\" weight=\"bold\">"@);
        lemma_swap_emphasis_keeps("<span size=\"large\" weight=\"bold\">"@);
        lemma_swap_rest_keeps("<span size=\"large\" weight=\"bold\">"@);
    } else if k == 4 {
        assert(digit_char(4) == '4');
        assert(o =~= "<h4>"@);
        assert(c =~= "</h4>"@);
        assert(sp =~= "<span size=\"medium\" weight=\"bold\">"@);
        lemma_swap_emphasis_keeps("<span size=\"medium\" weight=\"bold\">"@);
        lemma_swap_rest_keeps("<span size=\"medium\" weight=\"bold\">"@);
    } else if k == 5 {
        assert(digit_char(5) == '5');
        assert(o =~= "<h5>"@);
        assert(c =~= "</h5>"@);
        assert(sp =~= "<span size=\"small\" weight=\"bold\">"@);
        lemma_swap_emphasis_keeps("<span size=\"small\" weight=\"bold\">"@);
        lemma_swap_rest_keeps("<span size=\"small\" weight=\"bold\">"@);
    } else if k == 6 {
        assert(digit_char(6) == '6');
        assert(o =~= "<h6>"@);
        assert(c =~= "</h6>"@);
        assert(sp =~= "<span size=\"x-small\" weight=\"bold\">"@);
        lemma_swap_emphasis_keeps("<span size=\"x-small\" weight=\"bold\">"@);
        lemma_swap_rest_keeps("<span size=\"x-small\" weight=\"bold\">"@);
    }
}

/// A heading of level `k` (one to six) on a line of its own is shown as
/// its text in a bold span of that level's size: `<h2>Hi</h2>` becomes
/// `<span size="x-large" weight="bold">Hi</span>`, for any text without
/// tags or line breaks.
#[verifier::rlimit(50)]
pub proof fn lemma_heading_becomes_span(k: int, t: Seq<char>)
    requires
        1 <= k <= 6,
        forall|i: int| 0 <= i < t.len() ==> #[trigger] t[i] != '<' && t[i] != '\n',
    ensures
        spec_html_to_pango_markup("<h"@ + seq![digit_char(k)] + ">"@ + t + "</h"@ + seq![digit_char(k)] + ">"@)
            == "<span size=\""@ + heading_size(k) + "\" weight=\"bold\">"@ + t + "</span>"@,
{
    let o = heading_open(k);
    let c = heading_close(k);
    let sp = heading_span(k);
    assert("<h"@ + seq![digit_char(k)] + ">"@ + t + "</h"@ + seq![digit_char(k)] + ">"@ =~= o + t + c);
    lemma_heading_parts(k);
    reveal_strlit("</span>");
    let e = "</span>"@;
    assert(e[1] == '/');
    lemma_line_of_tags(o, t, c);
    lemma_three_one_line(sp, t, e);
    assert((sp + t + e)[0] == sp[0]);
    assert((sp + t + e)[(sp + t + e).len() - 1] == e[6]);
    lemma_plain_markup(sp + t + e);
}

/// The Pango tag an inline HTML element is shown with: `strong` and `b`
/// in bold, `em` and `i` in italics, `u` underlined, `code` and `pre` in
/// monospace.
pub open spec fn inline_pango_tag(name: Seq<char>) -> Option<Seq<char>> {
    if name == "strong"@ || name == "b"@ {
        Some("b"@)
    } else if name == "em"@ || name == "i"@ {
        Some("i"@)
    } else if name == "u"@ {
        Some("u"@)
    } else if name == "code"@ || name == "pre"@ {
        Some("tt"@)
    } else {
        None
    }
}

/// The tags of an inline element pass the stages of the conversion as
/// its line needs.
#[verifier::spinoff_prover]
#[verifier::rlimit(50)]
proof fn lemma_inline_parts(name: Seq<char>)
    requires
        inline_pango_tag(name) is Some,
    ensures
        ({
            let o = "<"@ + name + ">"@;
            let c = "</"@ + name + ">"@;
            let p = inline_pango_tag(name)->0;
            &&& is_piece(o)
            &&& is_piece(c)
            &&& o.len() > 0 && o[0] == '<'
            &&& c.len() > 0 && c[0] == '<'
            &&& forall|i: int| 0 <= i < o.len() ==> #[trigger] o[i] != '\n'
            &&& forall|i: int| 0 <= i < c.len() ==> #[trigger] c[i] != '\n'
            &&& swap_emphasis(swap_headings(o)) == "<"@ + p + ">"@
            &&& swap_emphasis(swap_headings(c)) == "</"@ + p + ">"@
            &&& tag_markup(o) == "<"@ + p + ">"@
            &&& tag_markup(c) == "</"@ + p + ">"@
            &&& p.len() > 0 && p[0] != 'a'
            &&& forall|i: int| 0 <= i < p.len() ==> #[trigger] p[i] != '\n'
        }),
{
    broadcast use lemma_replace_piece_auto;
    reveal_strlit("<");
    reveal_strlit("</");
    reveal_strlit(">");
    reveal_strlit("</b>");
    reveal_strlit("</code>");
    reveal_strlit("</em>");
    reveal_strlit("</i>");
    reveal_strlit("</pre>");
    reveal_strlit("</strong>");
    reveal_strlit("</tt>");
    reveal_strlit("</u>");
    reveal_strlit("<b>");
    reveal_strlit("<code>");
    reveal_strlit("<em>");
    reveal_strlit("<i>");
    reveal_strlit("<pre>");
    reveal_strlit("<strong>");
    reveal_strlit("<tt>");
    reveal_strlit("<u>");
    reveal_strlit("b");
    reveal_strlit("code");
    reveal_strlit("em");
    reveal_strlit("i");
    reveal_strlit("pre");
    reveal_strlit("strong");
    reveal_strlit("tt");
    reveal_strlit("u");
    reveal_strlit("<h1>");
    reveal_strlit("<span size=\"xx-large\" weight=\"bold\">");
    reveal_strlit("</h1>");
    reveal_strlit("</span>");
    reveal_strlit("<h2>");
    reveal_strlit("<span size=\"x-large\" weight=\"bold\">");
    reveal_strlit("</h2>");
    reveal_strlit("<h3>");
    reveal_strlit("<span size=\"large\" weight=\"bold\">");
    reveal_strlit("</h3>");
    reveal_strlit("<h4>");
    reveal_strlit("<span size=\"medium\" weight=\"bold\">");
    reveal_strlit("</h4>");
    reveal_strlit("<h5>");
    reveal_strlit("<span size=\"small\" weight=\"bold\">");
    reveal_strlit("</h5>");
    reveal_strlit("<h6>");
    reveal_strlit("<span size=\"x-small\" weight=\"bold\">");
    reveal_strlit("</h6>");
    reveal_strlit("<strong>");
    reveal_strlit("<b>");
    reveal_strlit("</strong>");
    reveal_strlit("</b>");
    reveal_strlit("<em>");
    reveal_strlit("<i>");
    reveal_strlit("</em>");
    reveal_strlit("</i>");
    reveal_strlit("<u>");
    reveal_strlit("</u>");
    reveal_strlit("<code>");
    reveal_strlit("<tt>");
    reveal_strlit("</code>");
    reveal_strlit("</tt>");
    reveal_strlit("<pre>");
    reveal_strlit("</pre>");
    reveal_strlit("<br>");
    reveal_strlit("\n");
    reveal_strlit("<br/>");
    reveal_strlit("<br />");
    reveal_strlit("<li>");
    reveal_strlit("\n• ");
    reveal_strlit("</li>");
    reveal_strlit("");
    reveal_strlit("<ul>");
    reveal_strlit("</ul>");
    reveal_strlit("<ol>");
    reveal_strlit("</ol>");
    reveal_strlit("<p>");
    reveal_strlit("</p>");
    reveal_strlit("\n\n");
    let o = "<"@ + name + ">"@;
    let c = "</"@ + name + ">"@;
    if name == "strong"@ {
        assert(o =~= "<strong>"@);
        assert(c =~= "</strong>"@);
        assert("<"@ + "b"@ + ">"@ =~= "<b>"@);
        assert("</"@ + "b"@ + ">"@ =~= "</b>"@);
        assert(swap_headings("<strong>"@) == "<strong>"@);
        assert(swap_headings("</strong>"@) == "</strong>"@);
        assert(swap_emphasis("<strong>"@) == "<b>"@);
        assert(swap_emphasis("</strong>"@) == "</b>"@);
        assert(tag_markup("<strong>"@) == "<b>"@);
        assert(tag_markup("</strong>"@) == "</b>"@);
    } else if name == "b"@ {
        assert(o =~= "<b>"@);
        assert(c =~= "</b>"@);
        assert("<"@ + "b"@ + ">"@ =~= "<b>"@);
        assert("</"@ + "b"@ + ">"@ =~= "</b>"@);
        assert(swap_headings("<b>"@) == "<b>"@);
        assert(swap_headings("</b>"@) == "</b>"@);
        assert(swap_emphasis("<b>"@) == "<b>"@);
        assert(swap_emphasis("</b>"@) == "</b>"@);
        assert(tag_markup("<b>"@) == "<b>"@);
        assert(tag_markup("</b>"@) == "</b>"@);
    } else if name == "em"@ {
        assert(o =~= "<em>"@);
        assert(c =~= "</em>"@);
        assert("<"@ + "i"@ + ">"@ =~= "<i>"@);
        assert("</"@ + "i"@ + ">"@ =~= "</i>"@);
        assert(swap_headings("<em>"@) == "<em>"@);
        assert(swap_headings("</em>"@) == "</em>"@);
        assert(swap_emphasis("<em>"@) == "<i>"@);
        assert(swap_emphasis("</em>"@) == "</i>"@);
        assert(tag_markup("<em>"@) == "<i>"@);
        assert(tag_markup("</em>"@) == "</i>"@);
    } else if name == "i"@ {
        assert(o =~= "<i>"@);
        assert(c =~= "</i>"@);
        assert("<"@ + "i"@ + ">"@ =~= "<i>"@);
        assert("</"@ + "i"@ + ">"@ =~= "</i>"@);
        assert(swap_headings("<i>"@) == "<i>"@);
        assert(swap_headings("</i>"@) == "</i>"@);
        assert(swap_emphasis("<i>"@) == "<i>"@);
        assert(swap_emphasis("</i>"@) == "</i>"@);
        assert(tag_markup("<i>"@) == "<i>"@);
        assert(tag_markup("</i>"@) == "</i>"@);
    } else if name == "u"@ {
        assert(o =~= "<u>"@);
        assert(c =~= "</u>"@);
        assert("<"@ + "u"@ + ">"@ =~= "<u>"@);
        assert("</"@ + "u"@ + ">"@ =~= "</u>"@);
        assert(swap_headings("<u>"@) == "<u>"@);
        assert(swap_headings("</u>"@) == "</u>"@);
        assert(swap_emphasis("<u>"@) == "<u>"@);
        assert(swap_emphasis("</u>"@) == "</u>"@);
        assert(tag_markup("<u>"@) == "<u>"@);
        assert(tag_markup("</u>"@) == "</u>"@);
    } else if name == "code"@ {
        assert(o =~= "<code>"@);
        assert(c =~= "</code>"@);
        assert("<"@ + "tt"@ + ">"@ =~= "<tt>"@);
        assert("</"@ + "tt"@ + ">"@ =~= "</tt>"@);
        assert(swap_headings("<code>"@) == "<code>"@);
        assert(swap_headings("</code>"@) == "</code>"@);
        assert(swap_emphasis("<code>"@) == "<tt>"@);
        assert(swap_emphasis("</code>"@) == "</tt>"@);
        assert(tag_markup("<code>"@) == "<tt>"@);
        assert(tag_markup("</code>"@) == "</tt>"@);
    } else if name == "pre"@ {
        assert(o =~= "<pre>"@);
        assert(c =~= "</pre>"@);
        assert("<"@ + "tt"@ + ">"@ =~= "<tt>"@);
        assert("</"@ + "tt"@ + ">"@ =~= "</tt>"@);
        assert(swap_headings("<pre>"@) == "<pre>"@);
        assert(swap_headings("</pre>"@) == "</pre>"@);
        assert(swap_emphasis("<pre>"@) == "<tt>"@);
        assert(swap_emphasis("</pre>"@) == "</tt>"@);
        assert(tag_markup("<pre>"@) == "<tt>"@);
        assert(tag_markup("</pre>"@) == "</tt>"@);
    }
}

/// An inline element on a line of its own is shown as its text between
/// the Pango tags of its kind: `<strong>x</strong>` becomes `<b>x</b>`,
/// `<em>x</em>` becomes `<i>x</i>`, `<code>x</code>` becomes `<tt>x</tt>`,
/// for any text without tags or line breaks.
#[verifier::rlimit(50)]
pub proof fn lemma_inline_element_becomes_pango(name: Seq<char>, t: Seq<char>)
    requires
        inline_pango_tag(name) is Some,
        forall|i: int| 0 <= i < t.len() ==> #[trigger] t[i] != '<' && t[i] != '\n',
    ensures
        spec_html_to_pango_markup("<"@ + name + ">"@ + t + "</"@ + name + ">"@) == "<"@ + inline_pango_tag(name)->0
            + ">"@ + t + "</"@ + inline_pango_tag(name)->0 + ">"@,
{
    reveal_strlit("<");
    reveal_strlit("</");
    reveal_strlit(">");
    let o = "<"@ + name + ">"@;
    let c = "</"@ + name + ">"@;
    let p = inline_pango_tag(name)->0;
    let po = "<"@ + p + ">"@;
    let pc = "</"@ + p + ">"@;
    assert("<"@ + name + ">"@ + t + "</"@ + name + ">"@ =~= o + t + c);
    lemma_inline_parts(name);
    assert(po[1] == p[0]);
    assert(pc[1] == '/');
    lemma_line_of_tags(o, t, c);
    assert forall|i: int| 0 <= i < po.len() implies #[trigger] po[i] != '\n' by {
        if 0 < i < po.len() - 1 {
            assert(po[i] == p[i - 1]);
        }
    }
    assert forall|i: int| 0 <= i < pc.len() implies #[trigger] pc[i] != '\n' by {
        if 1 < i < pc.len() - 1 {
            assert(pc[i] == p[i - 2]);
        }
    }
    lemma_three_one_line(po, t, pc);
    assert((po + t + pc)[0] == po[0]);
    assert((po + t + pc)[(po + t + pc).len() - 1] == pc[pc.len() - 1]);
    lemma_plain_markup(po + t + pc);
    assert(po + t + pc =~= "<"@ + p + ">"@ + t + "</"@ + p + ">"@);
}

/// A paragraph on a line of its own is shown as its text, trimmed, for
/// any text without tags or line breaks.
#[verifier::rlimit(50)]
pub proof fn lemma_paragraph_shows_its_text(t: Seq<char>)
    requires
        forall|i: int| 0 <= i < t.len() ==> #[trigger] t[i] != '<' && t[i] != '\n',
    ensures
        spec_html_to_pango_markup("<p>"@ + t + "</p>"@) == trim(t),
{
    broadcast use lemma_replace_piece_auto;
    reveal_strlit("<h1>");
    reveal_strlit("<span size=\"xx-large\" weight=\"bold\">");
    reveal_strlit("</h1>");
    reveal_strlit("</span>");
    reveal_strlit("<h2>");
    reveal_strlit("<span size=\"x-large\" weight=\"bold\">");
    reveal_strlit("</h2>");
    reveal_strlit("<h3>");
    reveal_strlit("<span size=\"large\" weight=\"bold\">");
    reveal_strlit("</h3>");
    reveal_strlit("<h4>");
    reveal_strlit("<span size=\"medium\" weight=\"bold\">");
    reveal_strlit("</h4>");
    reveal_strlit("<h5>");
    reveal_strlit("<span size=\"small\" weight=\"bold\">");
    reveal_strlit("</h5>");
    reveal_strlit("<h6>");
    reveal_strlit("<span size=\"x-small\" weight=\"bold\">");
    reveal_strlit("</h6>");
    reveal_strlit("<strong>");
    reveal_strlit("<b>");
    reveal_strlit("</strong>");
    reveal_strlit("</b>");
    reveal_strlit("<em>");
    reveal_strlit("<i>");
    reveal_strlit("</em>");
    reveal_strlit("</i>");
    reveal_strlit("<u>");
    reveal_strlit("</u>");
    reveal_strlit("<code>");
    reveal_strlit("<tt>");
    reveal_strlit("</code>");
    reveal_strlit("</tt>");
    reveal_strlit("<pre>");
    reveal_strlit("</pre>");
    reveal_strlit("<br>");
    reveal_strlit("\n");
    reveal_strlit("<br/>");
    reveal_strlit("<br />");
    reveal_strlit("<li>");
    reveal_strlit("\n• ");
    reveal_strlit("</li>");
    reveal_strlit("");
    reveal_strlit("<ul>");
    reveal_strlit("</ul>");
    reveal_strlit("<ol>");
    reveal_strlit("</ol>");
    reveal_strlit("<p>");
    reveal_strlit("</p>");
    reveal_strlit("\n\n");
    reveal_strlit("\n\n\n");
    let o = "<p>"@;
    let c = "</p>"@;
    assert(swap_emphasis(swap_headings(o)) == o);
    assert(swap_emphasis(swap_headings(c)) == c);
    assert(tag_markup(o) == Seq::<char>::empty());
    assert(tag_markup(c) == "\n\n"@);
    lemma_line_of_tags(o, t, c);
    let s = Seq::<char>::empty() + t + "\n\n"@;
    assert(s =~= t + seq!['\n', '\n']);
    assert forall|j: int| !occurs_at(s, "\n\n\n"@, j) by {
        if occurs_at(s, "\n\n\n"@, j) {
            assert(s.subrange(j, j + 3)[0] == s[j]);
            assert(s[j] == t[j]);
        }
    }
    assert(collapse_blank_lines(s) == s);
    lemma_trim_drop_last(s);
    let s1 = s.drop_last();
    assert(s1 =~= t + seq!['\n']);
    lemma_trim_drop_last(s1);
    assert(s1.drop_last() =~= t);
}

/// A list item on a line of its own is shown as a bullet before its text,
/// the whole trimmed, for any text without tags or line breaks.
#[verifier::rlimit(50)]
pub proof fn lemma_list_item_becomes_bullet(t: Seq<char>)
    requires
        forall|i: int| 0 <= i < t.len() ==> #[trigger] t[i] != '<' && t[i] != '\n',
    ensures
        spec_html_to_pango_markup("<li>"@ + t + "</li>"@) == trim("• "@ + t),
{
    broadcast use lemma_replace_piece_auto;
    reveal_strlit("<h1>");
    reveal_strlit("<span size=\"xx-large\" weight=\"bold\">");
    reveal_strlit("</h1>");
    reveal_strlit("</span>");
    reveal_strlit("<h2>");
    reveal_strlit("<span size=\"x-large\" weight=\"bold\">");
    reveal_strlit("</h2>");
    reveal_strlit("<h3>");
    reveal_strlit("<span size=\"large\" weight=\"bold\">");
    reveal_strlit("</h3>");
    reveal_strlit("<h4>");
    reveal_strlit("<span size=\"medium\" weight=\"bold\">");
    reveal_strlit("</h4>");
    reveal_strlit("<h5>");
    reveal_strlit("<span size=\"small\" weight=\"bold\">");
    reveal_strlit("</h5>");
    reveal_strlit("<h6>");
    reveal_strlit("<span size=\"x-small\" weight=\"bold\">");
    reveal_strlit("</h6>");
    reveal_strlit("<strong>");
    reveal_strlit("<b>");
    reveal_strlit("</strong>");
    reveal_strlit("</b>");
    reveal_strlit("<em>");
    reveal_strlit("<i>");
    reveal_strlit("</em>");
    reveal_strlit("</i>");
    reveal_strlit("<u>");
    reveal_strlit("</u>");
    reveal_strlit("<code>");
    reveal_strlit("<tt>");
    reveal_strlit("</code>");
    reveal_strlit("</tt>");
    reveal_strlit("<pre>");
    reveal_strlit("</pre>");
    reveal_strlit("<br>");
    reveal_strlit("\n");
    reveal_strlit("<br/>");
    reveal_strlit("<br />");
    reveal_strlit("<li>");
    reveal_strlit("\n• ");
    reveal_strlit("</li>");
    reveal_strlit("");
    reveal_strlit("<ul>");
    reveal_strlit("</ul>");
    reveal_strlit("<ol>");
    reveal_strlit("</ol>");
    reveal_strlit("<p>");
    reveal_strlit("</p>");
    reveal_strlit("\n\n");
    reveal_strlit("\n\n\n");
    reveal_strlit("• ");
    let o = "<li>"@;
    let c = "</li>"@;
    assert(swap_emphasis(swap_headings(o)) == o);
    assert(swap_emphasis(swap_headings(c)) == c);
    assert(tag_markup(o) == "\n• "@);
    assert(tag_markup(c) == Seq::<char>::empty());
    lemma_line_of_tags(o, t, c);
    let s = "\n• "@ + t + Seq::<char>::empty();
    assert(s =~= seq!['\n'] + ("• "@ + t));
    assert forall|j: int| !occurs_at(s, "\n\n\n"@, j) by {
        if occurs_at(s, "\n\n\n"@, j) {
            assert(s.subrange(j, j + 3)[1] == s[j + 1]);
            if j + 1 >= 3 {
                assert(s[j + 1] == t[j + 1 - 3]);
            }
        }
    }
    assert(collapse_blank_lines(s) == s);
    assert(s.skip(1) =~= "• "@ + t);
    assert(trim_start(s) == trim_start(s.skip(1)));
}

} // verus!
