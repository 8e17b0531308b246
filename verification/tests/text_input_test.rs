use rustfw_apps::framework::text_input::TextInputState;

fn field(text: &str) -> TextInputState {
    let mut input = TextInputState::new();
    input.set_value(text);
    input
}

#[test]
fn builders_set_placeholder_lines_and_rows() {
    let input = TextInputState::new().placeholder("Title").multi_line(true).rows(0);
    assert_eq!(input.placeholder_text(), "Title");
    assert!(input.is_multi_line());
    assert_eq!(input.min_rows(), 1);
    assert_eq!(TextInputState::new().rows(10).min_rows(), 10);
}

#[test]
fn set_value_puts_the_cursor_at_the_start() {
    let mut input = field("hello");
    assert_eq!(input.value(), "hello");
    assert_eq!(input.selected_range(), 0..0);
    input.select_all();
    assert_eq!(input.selected_range(), 0..5);
    input.set_value("x");
    assert_eq!(input.selected_range(), 0..0);
}

#[test]
fn typing_replaces_the_selection() {
    let mut input = field("hello world");
    input.move_to(6);
    input.select_to(11);
    input.replace_text_in_range(None, "there");
    assert_eq!(input.value(), "hello there");
    assert_eq!(input.selected_range(), 11..11);
}

#[test]
fn backspace_and_delete_remove_whole_characters() {
    let mut input = field("héllo");
    input.move_to(3); // after "hé" (é is two bytes)
    input.backspace();
    assert_eq!(input.value(), "hllo");
    assert_eq!(input.cursor_offset(), 1);
    input.delete();
    assert_eq!(input.value(), "hlo");
    assert_eq!(input.cursor_offset(), 1);
}

#[test]
fn backspace_removes_a_whole_grapheme_cluster() {
    // "e" followed by a combining acute accent is one grapheme
    let mut input = field("ae\u{301}b");
    input.move_to(4);
    input.backspace();
    assert_eq!(input.value(), "ab");
    assert_eq!(input.cursor_offset(), 1);
}

#[test]
fn arrows_move_by_grapheme_and_collapse_selections() {
    let mut input = field("añb");
    input.move_to(0);
    input.right();
    assert_eq!(input.cursor_offset(), 1);
    input.right();
    assert_eq!(input.cursor_offset(), 3);
    input.left();
    assert_eq!(input.cursor_offset(), 1);
    input.select_right();
    assert_eq!(input.selected_range(), 1..3);
    input.left();
    assert_eq!(input.selected_range(), 1..1);
    input.select_left();
    assert_eq!(input.selected_range(), 0..1);
    assert!(input.selection_reversed());
    input.right();
    assert_eq!(input.selected_range(), 1..1);
}

#[test]
fn selecting_back_past_the_anchor_flips_the_selection() {
    let mut input = field("abcdef");
    input.move_to(3);
    input.select_to(5);
    assert_eq!(input.selected_range(), 3..5);
    assert!(!input.selection_reversed());
    input.select_to(1);
    assert_eq!(input.selected_range(), 1..3);
    assert!(input.selection_reversed());
    assert_eq!(input.cursor_offset(), 1);
}

#[test]
fn home_and_end_stay_on_the_cursor_line() {
    let mut input = TextInputState::new().multi_line(true);
    input.set_value("first\nsecond\nthird");
    input.move_to(9);
    input.home();
    assert_eq!(input.cursor_offset(), 6);
    input.end();
    assert_eq!(input.cursor_offset(), 12);
    assert_eq!(input.line_start(3), 0);
    assert_eq!(input.line_end(14), 18);
}

#[test]
fn newline_only_in_multi_line_fields() {
    let mut single = field("ab");
    single.move_to(1);
    single.newline();
    assert_eq!(single.value(), "ab");
    let mut multi = TextInputState::new().multi_line(true);
    multi.set_value("ab");
    multi.move_to(1);
    multi.newline();
    assert_eq!(multi.value(), "a\nb");
    assert_eq!(multi.cursor_offset(), 2);
}

#[test]
fn paste_flattens_line_breaks_in_single_line_fields() {
    let mut input = field("");
    input.paste("one\ntwo");
    assert_eq!(input.value(), "one two");
    let mut multi = TextInputState::new().multi_line(true);
    multi.paste("one\ntwo");
    assert_eq!(multi.value(), "one\ntwo");
}

#[test]
fn copy_and_cut_take_the_selection() {
    let mut input = field("copy this");
    assert_eq!(input.copy(), None);
    input.move_to(5);
    input.select_to(9);
    assert_eq!(input.copy(), Some(String::from("this")));
    assert_eq!(input.cut(), Some(String::from("this")));
    assert_eq!(input.value(), "copy ");
    assert_eq!(input.cut(), None);
}

#[test]
fn utf16_offsets_count_surrogate_pairs() {
    let input = field("a😀b");
    assert_eq!(input.offset_to_utf16(1), 1);
    assert_eq!(input.offset_to_utf16(5), 3);
    assert_eq!(input.offset_from_utf16(3), 5);
    assert_eq!(input.offset_from_utf16(2), 5);
    assert_eq!(input.offset_from_utf16(100), 6);
    for boundary in [0usize, 1, 5, 6] {
        assert_eq!(input.offset_from_utf16(input.offset_to_utf16(boundary)), boundary);
    }
    let (text, actual) = input.text_for_range(&(1..3));
    assert_eq!(text, "😀");
    assert_eq!(actual, 1..3);
}

#[test]
fn composition_marks_and_commits_text() {
    let mut input = field("ab");
    input.move_to(1);
    input.replace_and_mark_text_in_range(None, "xy", None);
    assert_eq!(input.value(), "axyb");
    assert_eq!(input.marked_range(), Some(1..3));
    assert_eq!(input.marked_text_range(), Some(1..3));
    assert_eq!(input.selected_range(), 3..3);
    // committing replaces the composition
    input.replace_text_in_range(None, "Z");
    assert_eq!(input.value(), "aZb");
    assert_eq!(input.marked_range(), None);
    assert_eq!(input.selected_text_range(), (2..2, false));
    input.replace_and_mark_text_in_range(Some(0..1), "q", Some(1..1));
    assert_eq!(input.value(), "qZb");
    assert_eq!(input.selected_range(), 1..2);
    input.unmark_text();
    assert_eq!(input.marked_range(), None);
}

#[test]
fn layout_lines_rows_and_selection_spans() {
    let mut input = TextInputState::new().multi_line(true).rows(2).placeholder("Write");
    assert_eq!(input.display_lines(), vec![String::from("Write")]);
    assert_eq!(input.line_starts(), vec![0]);
    assert_eq!(input.visible_rows(), 2);
    input.set_value("ab\ncde\n\nf");
    assert_eq!(input.display_lines(), vec!["ab", "cde", "", "f"]);
    assert_eq!(input.line_starts(), vec![0, 3, 7, 8]);
    assert_eq!(input.visible_rows(), 4);
    assert_eq!(input.row_of_offset(5), 1);
    input.move_to(1);
    input.select_to(8);
    assert_eq!(input.selection_spans(), vec![(0, 1, 2), (1, 0, 3)]);
}

#[test]
fn boundary_and_well_formed_checks() {
    let mut input = field("aé");
    assert!(input.is_char_boundary(0));
    assert!(input.is_char_boundary(1));
    assert!(!input.is_char_boundary(2));
    assert!(input.is_char_boundary(3));
    assert!(!input.is_char_boundary(4));
    assert!(input.is_well_formed());
    input.move_to(2);
    assert!(!input.is_well_formed());
    input.move_to(3);
    assert!(input.is_well_formed());
    input.select_to(1);
    assert_eq!(input.selected_range(), 1..3);
    assert!(input.is_well_formed());
}

#[test]
fn replace_checks_follow_the_edit_range() {
    let mut input = field("aé");
    assert!(input.can_replace(&None, "xyz"));
    assert!(input.can_replace(&Some(0..2), "q"));
    input.move_to(2);
    assert!(!input.can_replace(&None, "x"));
    assert!(!input.can_paste("x"));
    input.move_to(1);
    assert!(input.can_paste("line\nbreak"));
    assert!(input.can_replace_and_mark(&None, "ka", &Some(0..1)));
    assert!(input.can_replace_and_mark(&None, "ka", &None));
}

#[test]
fn replaced_text_reads_back_and_its_surroundings_stay() {
    let mut input = field("añb");
    input.move_to(1);
    input.select_to(3);
    input.replace_text_in_range(None, "😀x");
    assert_eq!(input.value(), "a😀xb");
    let (text, actual) = input.text_for_range(&(1..4));
    assert_eq!(text, "😀x");
    assert_eq!(actual, 1..4);
    assert_eq!(input.text_for_range(&(0..1)).0, "a");
    assert_eq!(input.text_for_range(&(4..5)).0, "b");
}
