use sticky::editor::{
    clamp_image_size, extract_images_from_text, format_list_body, image_lines, image_marker, inserted_image_text,
    continuation_after_number, list_continuation, markdown_continues, resize_marker, save_body, save_title, window_title,
};
use sticky::model::{Note, NoteType, Timestamp};

#[test]
fn list_bodies_show_boxes_and_bullets() {
    let body = "- [ ] Milk\n- [x] Eggs\n- [X] Bread\n- Plain\n* Star\n1. First\n2. Second\nText";
    assert_eq!(
        format_list_body(body),
        "☐  Milk\n☑  Eggs\n☑  Bread\n•  Plain\n•  Star\n1.  First\n2. Second\nText"
    );
    assert_eq!(format_list_body(""), "");
    assert_eq!(format_list_body("a\n"), "a");
    assert_eq!(format_list_body("a\r\nb"), "a\nb");
    assert_eq!(format_list_body("\n\n- x"), "\n\n•  x");
}

#[test]
fn return_continues_lists() {
    assert_eq!(list_continuation("☐  milk").as_deref(), Some("\n☐  "));
    assert_eq!(list_continuation("☑  eggs").as_deref(), Some("\n☐  "));
    assert_eq!(list_continuation("•  bread").as_deref(), Some("\n•  "));
    assert_eq!(list_continuation("1.  one").as_deref(), Some("\n2.  "));
    assert_eq!(list_continuation("12. twelve").as_deref(), Some("\n13.  "));
    assert_eq!(list_continuation("7.\tseven").as_deref(), Some("\n8.  "));
    assert_eq!(list_continuation("7.seven"), None);
    assert_eq!(list_continuation("plain"), None);
    assert_eq!(list_continuation("18446744073709551615. max"), None);
    assert_eq!(list_continuation("99999999999999999999999. huge"), None);
}

#[test]
fn the_next_number_follows_the_captured_digits() {
    assert_eq!(continuation_after_number(Some("12")).as_deref(), Some("\n13.  "));
    assert_eq!(continuation_after_number(Some("0")).as_deref(), Some("\n1.  "));
    assert_eq!(continuation_after_number(Some("007")).as_deref(), Some("\n8.  "));
    assert_eq!(continuation_after_number(Some(&usize::MAX.to_string())), None);
    assert_eq!(continuation_after_number(Some("99999999999999999999999")), None);
    assert_eq!(continuation_after_number(Some("")), None);
    assert_eq!(continuation_after_number(Some("١٢")), None);
    assert_eq!(continuation_after_number(None), None);
}

#[test]
fn return_in_markdown_after_structure() {
    for line in ["# h", "## h", "### h", "- a", "* a", "1. a"] {
        assert!(markdown_continues(line), "{:?}", line);
    }
    for line in ["#h", "#### h", "text", "2. b", ""] {
        assert!(!markdown_continues(line), "{:?}", line);
    }
}

#[test]
fn image_markers_are_written_and_read_back() {
    assert_eq!(image_marker("cat.png", 300, 200), "[IMAGE:cat.png|300x200]");
    assert_eq!(image_marker("x", -5, 0), "[IMAGE:x|-5x0]");
    assert_eq!(inserted_image_text("cat.png"), "\n[IMAGE:cat.png|300x200]\n");

    let text = format!("intro{}  [IMAGE:dog.jpg|50x60]  \n[IMAGE:bad|1x2x3]\n[IMAGE:a|b|1x2]\n[IMAGE:n|+7x-8]\n[IMAGE:big|3000000000x1]", inserted_image_text("cat.png"));
    let images = extract_images_from_text(&text);
    let found: Vec<(String, i32, i32)> = images.into_iter().map(|i| (i.path, i.width, i.height)).collect();
    assert_eq!(
        found,
        vec![
            ("cat.png".to_string(), 300, 200),
            ("dog.jpg".to_string(), 50, 60),
            ("n".to_string(), 7, -8),
        ]
    );
    let at: Vec<(usize, String)> = image_lines(&text).into_iter().map(|a| (a.line, a.image.path)).collect();
    assert_eq!(at, vec![(1, "cat.png".to_string()), (2, "dog.jpg".to_string()), (5, "n".to_string())]);
}

#[test]
fn a_marker_among_other_lines_is_the_only_image() {
    let name = "photo one.png";
    for (w, h) in [(300, 200), (-1, 0), (i32::MAX, i32::MIN)] {
        let text = format!("intro\n  [IMAGE:{}|{}x{}]  \n[IMAGE:x.png|big]\nend", name, w, h);
        let images = extract_images_from_text(&text);
        let found: Vec<(String, i32, i32)> = images.into_iter().map(|i| (i.path, i.width, i.height)).collect();
        assert_eq!(found, vec![(name.to_string(), w, h)]);
    }
}

#[test]
fn inserting_an_image_adds_it_in_place() {
    let above = "[IMAGE:a.png|10x20]\nsome text";
    let below = "more\r\n\t[IMAGE:b.png|30x40]\r\n";
    let text = format!("{}{}{}", above, inserted_image_text("new.png"), below);
    let found: Vec<(String, i32, i32)> =
        extract_images_from_text(&text).into_iter().map(|i| (i.path, i.width, i.height)).collect();
    assert_eq!(
        found,
        vec![("a.png".to_string(), 10, 20), ("new.png".to_string(), 300, 200), ("b.png".to_string(), 30, 40)]
    );
}

#[test]
fn a_trailing_line_break_changes_no_image() {
    for body in ["", "x", "[IMAGE:a|1x2]", "[IMAGE:a|1x2]\r", "a\n[IMAGE:b|3x4] "] {
        let with_break = format!("{}\n", body);
        let a: Vec<(String, i32, i32)> =
            extract_images_from_text(body).into_iter().map(|i| (i.path, i.width, i.height)).collect();
        let b: Vec<(String, i32, i32)> =
            extract_images_from_text(&with_break).into_iter().map(|i| (i.path, i.width, i.height)).collect();
        assert_eq!(a, b);
    }
}

#[test]
fn resizing_rewrites_the_marker() {
    let text = "a\n[IMAGE:cat.png|300x200]\nb [IMAGE:cat.png|300x200]";
    assert_eq!(
        resize_marker(text, "cat.png", 300, 200, 120, 80),
        "a\n[IMAGE:cat.png|120x80]\nb [IMAGE:cat.png|120x80]"
    );
    assert_eq!(resize_marker(text, "dog.png", 300, 200, 120, 80), text);
}

#[test]
fn image_sizes_are_clamped() {
    assert_eq!(clamp_image_size(10), 50);
    assert_eq!(clamp_image_size(50), 50);
    assert_eq!(clamp_image_size(333), 333);
    assert_eq!(clamp_image_size(601), 600);
    assert_eq!(clamp_image_size(i32::MIN), 50);
}

#[test]
fn edits_touch_only_their_field() {
    let t0 = Timestamp { seconds: 1, nanos: 0, offset_seconds: 0 };
    let t1 = Timestamp { seconds: 2, nanos: 3, offset_seconds: 60 };
    let mut n = Note::created_at("id".into(), "Old".into(), NoteType::Markdown, t0);
    save_body(&mut n, "new body".into(), t1);
    assert_eq!(n.body, "new body");
    assert_eq!(n.updated, t1);
    assert_eq!(n.created, t0);
    save_title(&mut n, "New".into(), t0);
    assert_eq!(n.title, "New");
    assert_eq!(n.body, "new body");
    assert_eq!(n.updated, t0);
    assert_eq!(window_title("New"), "Sticky — New");
}
