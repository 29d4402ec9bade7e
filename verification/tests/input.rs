use steward::input::SearchInput;

fn input(query: &str) -> SearchInput {
    SearchInput {
        query: query.to_string(),
        cursor: query.chars().count(),
        marked: None,
        selection: None,
    }
}

#[test]
fn ime_commit_appends_at_caret() {
    let mut input = input("你好");
    input.replace_utf16(None, "说话");
    assert_eq!(input.query, "你好说话");
    assert_eq!(input.cursor, 4);
    assert!(input.marked.is_none());
}

#[test]
fn ime_composition_replaces_only_the_marked_text() {
    let mut input = input("你好");
    // The IME starts composing "说话" after the existing text.
    input.replace_and_mark_utf16(None, "说话", Some(0..2));
    assert_eq!(input.query, "你好说话");
    assert_eq!(input.marked, Some(2..4));

    // The commit replaces just the marked range, keeping the prefix.
    input.replace_utf16(None, "说话");
    assert_eq!(input.query, "你好说话");
    assert_eq!(input.cursor, 4);
    assert!(input.marked.is_none());
}

#[test]
fn ime_commit_inserts_at_caret_in_the_middle() {
    let mut input = input("你好世界");
    input.cursor = 2;
    input.replace_utf16(None, "呀");
    assert_eq!(input.query, "你好呀世界");
    assert_eq!(input.cursor, 3);
}

#[test]
fn ime_cancel_clears_only_the_composition() {
    let mut input = input("你好");
    input.replace_and_mark_utf16(None, "ni", None);
    assert_eq!(input.query, "你好ni");
    assert_eq!(input.marked, Some(2..4));

    // lparam == 0 cancels the composition with an empty replacement.
    input.replace_utf16(None, "");
    assert_eq!(input.query, "你好");
    assert!(input.marked.is_none());
}

#[test]
fn ascii_replacement_at_caret() {
    let mut input = input("abc");
    input.replace_utf16(None, "d");
    assert_eq!(input.query, "abcd");
    assert_eq!(input.cursor, 4);
}

#[test]
fn select_all_selects_the_whole_query() {
    let mut input = input("你好世界");
    input.select_all();
    assert_eq!(input.selection, Some(0..4));
    assert_eq!(input.cursor, 4);
    assert_eq!(input.selected_text().as_deref(), Some("你好世界"));
}

#[test]
fn typing_replaces_the_selection() {
    let mut input = input("abcdef");
    input.select_anchor_to(2, 5);
    assert_eq!(input.selection, Some(2..5));
    assert_eq!(input.cursor, 5);
    input.insert_char('X');
    assert_eq!(input.query, "abXf");
    assert_eq!(input.cursor, 3);
    assert!(input.selection.is_none());
}

#[test]
fn mouse_drag_normalizes_an_inverted_range() {
    let mut input = input("abcdef");
    // Dragging from index 5 back to index 2: the range is normalized and
    // the caret (head) follows the drag point.
    input.select_anchor_to(5, 2);
    assert_eq!(input.selection, Some(2..5));
    assert_eq!(input.cursor, 2);
    assert_eq!(input.selected_text().as_deref(), Some("cde"));
}

#[test]
fn drag_collapsing_to_a_caret_clears_the_selection() {
    let mut input = input("abc");
    input.select_anchor_to(0, 2);
    input.select_anchor_to(0, 0);
    assert!(input.selection.is_none());
    assert_eq!(input.cursor, 0);
}

#[test]
fn backspace_deletes_the_selection() {
    let mut input = input("abcdef");
    input.set_selection(1..4);
    input.backspace();
    assert_eq!(input.query, "aef");
    assert_eq!(input.cursor, 1);
    assert!(input.selection.is_none());
}

#[test]
fn delete_deletes_the_selection() {
    let mut input = input("abcdef");
    input.set_selection(1..4);
    input.delete();
    assert_eq!(input.query, "aef");
    assert_eq!(input.cursor, 1);
}

#[test]
fn paste_replaces_the_selection() {
    let mut input = input("abcdef");
    input.set_selection(2..4);
    input.insert_str("XY");
    assert_eq!(input.query, "abXYef");
    assert_eq!(input.cursor, 4);
}

#[test]
fn cut_via_delete_selection_leaves_no_selection() {
    let mut input = input("你好世界");
    input.select_all();
    assert_eq!(input.selected_text().as_deref(), Some("你好世界"));
    input.delete_selection();
    assert!(input.query.is_empty());
    assert_eq!(input.cursor, 0);
    assert!(input.selection.is_none());
}

#[test]
fn navigating_collapses_the_selection() {
    let mut input = input("abc");
    input.select_all();
    input.move_cursor(-1);
    assert!(input.selection.is_none());
    assert_eq!(input.cursor, 2);

    input.select_all();
    input.set_cursor(0);
    assert!(input.selection.is_none());
    assert_eq!(input.cursor, 0);
}

#[test]
fn ime_commit_replaces_the_selection() {
    let mut input = input("你好世界");
    input.select_anchor_to(1, 3);
    input.replace_utf16(None, "呀");
    assert_eq!(input.query, "你呀界");
    assert_eq!(input.cursor, 2);
    assert!(input.selection.is_none());
}

#[test]
fn utf16_to_char_index_maps_offsets() {
    let input = input("你好ab");
    assert_eq!(input.utf16_to_char_index(0), Some(0));
    assert_eq!(input.utf16_to_char_index(1), Some(1));
    assert_eq!(input.utf16_to_char_index(2), Some(2));
    assert_eq!(input.utf16_to_char_index(4), Some(4));
    assert_eq!(input.utf16_to_char_index(5), None);
}

#[test]
fn utf16_to_char_index_handles_astral_characters() {
    // An astral character (emoji) occupies two UTF-16 units.
    let input = input("你🙂");
    assert_eq!(input.utf16_to_char_index(0), Some(0));
    assert_eq!(input.utf16_to_char_index(1), Some(1));
    // Offsets inside a surrogate pair have no valid character boundary.
    assert_eq!(input.utf16_to_char_index(2), None);
    assert_eq!(input.utf16_to_char_index(3), Some(2));
}

#[test]
fn backspace_takes_back_what_was_typed() {
    let mut edited = input("héllo");
    edited.set_cursor(2);
    edited.insert_char('x');
    assert_eq!(edited.query, "héxllo");
    edited.backspace();
    assert_eq!(edited.query, "héllo");
    assert_eq!(edited.cursor, 2);
}

#[test]
fn deleting_all_that_is_selected_empties_the_query() {
    let mut edited = input("héllo");
    edited.select_all();
    assert!(edited.delete_selection());
    assert_eq!(edited.query, "");
    assert_eq!(edited.cursor, 0);
    assert!(!edited.delete_selection());
}

#[test]
fn platform_sees_utf16_ranges() {
    let mut edited = input("a😀b");
    assert_eq!(edited.utf16_len(), 4);
    assert_eq!(edited.byte_index(), 6);
    assert_eq!(edited.byte_at_char(1), 1);
    assert_eq!(edited.selected_text_range(), (4..4, false));
    assert_eq!(edited.text_for_range(1..2), Some(("😀".to_string(), 1..3)));
    edited.set_selected_text_range(1..3);
    assert_eq!(edited.selected_text().as_deref(), Some("😀"));
    assert_eq!(edited.selected_text_range().0, 1..3);
    edited.set_selected_text_range(3..3);
    assert_eq!(edited.cursor, 2);
    assert_eq!(edited.selection, None);
    // An offset within a character is none of the query's.
    edited.set_selected_text_range(2..2);
    assert_eq!(edited.cursor, 2);
    edited.replace_and_mark_utf16(None, "ni", None);
    assert_eq!(edited.marked_text_range(), Some(3..5));
}

#[test]
fn empty_selection_is_no_text() {
    let mut edited = input("abc");
    edited.cursor = 1;
    edited.selection = Some(1..1);
    assert_eq!(edited.selected_text(), None);
    assert!(!edited.delete_selection());
    assert_eq!(edited.query, "abc");
    assert_eq!(edited.cursor, 1);
    edited.selection = Some(1..1);
    edited.backspace();
    assert_eq!(edited.query, "bc");
    edited.selection = Some(0..0);
    edited.delete();
    assert_eq!(edited.query, "c");
}

#[test]
fn selecting_all_of_nothing_selects_nothing() {
    let mut edited = input("");
    edited.select_all();
    assert_eq!(edited.selection, None);
    assert_eq!(edited.cursor, 0);
}

#[test]
fn empty_range_is_an_insertion() {
    let mut edited = input("abc");
    edited.replace_utf16(Some(0..0), "X");
    assert_eq!(edited.query, "Xabc");
    assert_eq!(edited.cursor, 1);
    edited.replace_utf16(Some(4..4), "Y");
    assert_eq!(edited.query, "XabcY");
    edited.replace_utf16(Some(2..2), "Z");
    assert_eq!(edited.query, "XaZbcY");
    assert_eq!(edited.utf16_to_chars(1..1), Some(1..1));
    assert_eq!(edited.utf16_to_chars(7..7), None);
    assert_eq!(edited.text_for_range(2..2), Some((String::new(), 2..2)));
    // Within a character no character is lost.
    let mut astral = input("😀");
    astral.replace_utf16(Some(1..1), "x");
    assert_eq!(astral.query, "x😀");
}
