use arc_ledger::wrap::{as_list_item, line_marker, make_spaces, wrap_authored_list, wrap_words};

#[test]
fn bare_bodies_become_list_items_and_authored_markers_survive() {
    assert_eq!(as_list_item("Did a thing.\n"), "- Did a thing.");
    // An author who already formatted a list keeps their exact markers.
    assert_eq!(as_list_item("- Did a thing.\n"), "- Did a thing.");
    assert_eq!(as_list_item("* Did a thing."), "* Did a thing.");
    // An explicitly multi-line body stays one item with indented continuations.
    assert_eq!(
        as_list_item("Did a thing,\nacross lines.\n"),
        "- Did a thing,\n  across lines."
    );
    assert_eq!(as_list_item("   "), "");
}

#[test]
fn authored_markers_keep_their_nesting_and_still_wrap() {
    let rendered = as_list_item(
        "- A top-level item whose text is long enough that the renderer has to wrap it somewhere.\n  - A nested item, also long enough that it cannot fit on one line of the file.",
    );
    assert_eq!(
        rendered,
        "- A top-level item whose text is long enough that the renderer has to wrap\n  it somewhere.\n  - A nested item, also long enough that it cannot fit on one line of the\n    file."
    );
    assert!(rendered.lines().all(|line| line.chars().count() <= 75));
}

#[test]
fn long_bare_bodies_wrap_with_two_space_continuations() {
    let rendered = as_list_item(
        "This release entry contains enough words to prove that the renderer wraps a long line at the configured width.",
    );
    assert_eq!(
        rendered,
        "- This release entry contains enough words to prove that the renderer wraps\n  a long line at the configured width."
    );
    assert_eq!(rendered.lines().next().unwrap().chars().count(), 75);
    assert!(rendered.lines().nth(1).unwrap().starts_with("  "));
}

#[test]
fn overlong_tokens_are_not_split() {
    let token = format!("https://example.com/{}", "x".repeat(70));
    let rendered = as_list_item(&format!("See {token} now."));
    assert_eq!(rendered, format!("- See\n  {token}\n  now."));
    assert!(rendered.lines().any(|line| line.chars().count() > 75));
}

#[test]
fn blank_lines_remain_paragraph_breaks_within_an_item() {
    assert_eq!(
        as_list_item("First paragraph.\n\nSecond paragraph."),
        "- First paragraph.\n\n  Second paragraph."
    );
}

#[test]
fn wrapped_words_come_back_in_order() {
    let line = "one two  three\tfour five";
    let wrapped = wrap_words(line, 9);
    assert_eq!(wrapped, vec!["one two", "three", "four five"]);
    let words: Vec<&str> = wrapped.iter().flat_map(|part| part.split(' ')).collect();
    assert_eq!(words, line.split_whitespace().collect::<Vec<_>>());
    assert!(wrap_words("   ", 10).is_empty());
}

#[test]
fn markers_carry_their_indentation() {
    assert_eq!(line_marker("- item"), Some("- ".to_string()));
    assert_eq!(line_marker("  * item"), Some("  * ".to_string()));
    assert_eq!(line_marker("-item"), None);
    assert_eq!(line_marker("plain"), None);
    assert_eq!(make_spaces(3), "   ");
}

#[test]
fn lists_wrap_item_by_item() {
    assert_eq!(wrap_authored_list("- a\n- b"), "- a\n- b");
}

#[test]
fn items_are_the_same_when_made_twice() {
    let long = "word ".repeat(40);
    let token = "x".repeat(90);
    for body in [
        "Did a thing.".to_string(),
        format!("- {long}\n  - nested {long}\n\n+ last"),
        format!("First {long}\n\nSecond - {long} - {token} - end"),
        format!("See {token} now."),
        "-\tx\n\u{a0}y\n - \nz".to_string(),
        "-".to_string(),
        "- \n- kept".to_string(),
        "   ".to_string(),
    ] {
        let item = as_list_item(&body);
        assert_eq!(as_list_item(&item), item);
        for line in item.lines() {
            let said = match line_marker(line) {
                Some(marker) => line[marker.len()..].to_string(),
                None => line.to_string(),
            };
            assert!(line.chars().count() <= 75 || said.split_whitespace().count() == 1);
        }
    }
    assert!(line_marker(as_list_item("plain").lines().next().unwrap()).is_some());
    // A blank first line is kept, and what begins with no marker gets one.
    assert_eq!(as_list_item("\nx"), "\n\n- x");
    assert_eq!(as_list_item("\n\n- x"), "\n\n\n- - x");
    assert_eq!(as_list_item("- \nfoo"), "foo");
}

#[test]
fn an_indent_keeps_its_width() {
    // A wide space and a plain one are one column each.
    assert_eq!(as_list_item("- a\n\u{3000}\u{a0}b"), "- a\n  b");
    assert_eq!(as_list_item("- a\n    b"), "- a\n    b");
}
