use sticky::markup::{html_to_pango_markup, markdown_preview};

#[test]
fn headings_become_spans() {
    assert_eq!(html_to_pango_markup("<h1>Hi</h1>"), "<span size=\"xx-large\" weight=\"bold\">Hi</span>");
    assert_eq!(html_to_pango_markup("<h3>Three</h3>"), "<span size=\"large\" weight=\"bold\">Three</span>");
}

#[test]
fn paragraphs_and_lists() {
    let html = "<p>Hello <strong>world</strong></p>\n<ul>\n<li>one</li>\n</ul>";
    assert_eq!(html_to_pango_markup(html), "Hello <b>world</b>\n\n• one");
}

#[test]
fn blank_lines_separate_paragraphs_once_text_started() {
    assert_eq!(html_to_pango_markup("\n\n<p>a</p>\n\n\n<p>b</p>\n"), "a\n\nb");
    assert_eq!(html_to_pango_markup(""), "");
    assert_eq!(html_to_pango_markup("   \n  "), "");
}

#[test]
fn links_keep_their_text() {
    assert_eq!(html_to_pango_markup("<p><a href=\"https://x.org\">site</a> end</p>"), "site end");
    assert_eq!(html_to_pango_markup("<p>See <a href=\"https://x.org\">site</a> now</p>"), "See site now");
    assert_eq!(
        html_to_pango_markup("<p><a href=\"a\">one</a> and <a href=\"b\">two</a></p>"),
        "one and two"
    );
    assert_eq!(html_to_pango_markup("<a href=\"x\" title=\"y\">t</a>"), "t");
    assert_eq!(html_to_pango_markup("<a href=\"u\">a<a href=\"v\">b</a>"), "ab");
    assert_eq!(html_to_pango_markup("<a href=\"x\">open <a href=\"y\">inner</a>"), "open inner");
    assert_eq!(html_to_pango_markup("<a href=\"x</a>tail"), "tail");
    assert_eq!(html_to_pango_markup("<a href=\"unterminated"), "<a href=\"unterminated");
}

#[test]
fn emphasis_and_code() {
    assert_eq!(
        html_to_pango_markup("<p><em>a</em> <code>b</code> <u>c</u><br />d</p>"),
        "<i>a</i> <tt>b</tt> <u>c</u>\nd"
    );
}

#[test]
fn markdown_goes_through_html() {
    assert_eq!(markdown_preview("# Hi"), "<span size=\"xx-large\" weight=\"bold\">Hi</span>");
    assert_eq!(markdown_preview("Some *text*"), "Some <i>text</i>");
    assert_eq!(markdown_preview("- a\n- b"), "• a\n• b");
}
