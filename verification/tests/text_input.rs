use sqlly_datatable::text_input::{byte_index_for_char, floor_char_boundary, TextInput};

fn input_with(text: &str, cursor: usize) -> TextInput {
    let mut p = TextInput::new(text.to_owned());
    p.cursor_chars = cursor;
    p
}

#[test]
fn text_input_new_cursors_at_char_count_not_bytes() {
    // "hé🙂" is 3 chars but 7 bytes (h=1, é=2, 🙂=4).
    let p = TextInput::new("hé🙂".into());
    assert_eq!(p.cursor_chars, 3);
    assert_eq!(p.value.len(), 7);
}

#[test]
fn text_input_insert_emoji_at_start_does_not_panic() {
    let mut p = input_with("ab", 0);
    p.insert_char('\u{1F600}');
    assert_eq!(p.value, "\u{1F600}ab");
    assert_eq!(p.cursor_chars, 1);
}

#[test]
fn text_input_insert_in_middle_keeps_cursor_at_char_position() {
    let mut p = input_with("helloworld", 5);
    p.insert_char(' ');
    assert_eq!(p.value, "hello world");
    assert_eq!(p.cursor_chars, 6);
}

#[test]
fn text_input_backspace_at_zero_is_noop() {
    let mut p = input_with("abc", 0);
    p.backspace();
    assert_eq!(p.value, "abc");
    assert_eq!(p.cursor_chars, 0);
}

#[test]
fn text_input_backspace_removes_one_char_value() {
    // Cursor sits after "hé" (2 chars); backspace should delete "é" only.
    let mut p = input_with("héx", 2);
    p.backspace();
    assert_eq!(p.value, "hx");
    assert_eq!(p.cursor_chars, 1);
}

#[test]
fn text_input_clamp_cursor_pulls_back_past_end() {
    let mut p = input_with("abc", 99);
    p.clamp_cursor();
    assert_eq!(p.cursor_chars, 3);
}

#[test]
fn text_input_move_left_and_right_respect_bounds() {
    let mut p = input_with("ab", 2);
    p.move_right();
    assert_eq!(p.cursor_chars, 2);
    p.move_left();
    p.move_left();
    p.move_left();
    assert_eq!(p.cursor_chars, 0);
}

#[test]
fn floor_char_boundary_handles_multibyte_input() {
    let s = "a👍字م"; // ASCII, emoji (4 bytes), CJK (3), Arabic (2)
    for idx in 0..=s.len() + 2 {
        let b = floor_char_boundary(s, idx);
        assert!(b <= s.len());
        assert!(s.is_char_boundary(b), "idx {idx} floored to non-boundary {b}");
        // Never floors past the char containing `idx`.
        assert!(idx.min(s.len()) - b < 4);
    }
    assert_eq!(floor_char_boundary(s, 0), 0);
    assert_eq!(floor_char_boundary(s, s.len()), s.len());
    assert_eq!(floor_char_boundary("", 5), 0);
    // Slicing at the floored index never panics.
    let _ = &s[..floor_char_boundary(s, 3)];
    let _ = &s[..floor_char_boundary(s, 6)];
}

#[test]
fn byte_index_for_char_counts_utf8_widths() {
    let s = "a👍字م";
    assert_eq!(byte_index_for_char(s, 0), 0);
    assert_eq!(byte_index_for_char(s, 1), 1);
    assert_eq!(byte_index_for_char(s, 2), 5);
    assert_eq!(byte_index_for_char(s, 3), 8);
    assert_eq!(byte_index_for_char(s, 4), 10);
    // Past the end clamps to the byte length.
    assert_eq!(byte_index_for_char(s, 9), 10);
}

#[test]
fn typing_then_backspace_restores_the_text() {
    let mut p = input_with("héllo", 2);
    p.insert_char('\u{1F600}');
    assert_eq!(p.value, "hé\u{1F600}llo");
    p.backspace();
    assert_eq!(p.value, "héllo");
    assert_eq!(p.cursor_chars, 2);
}

#[test]
fn insert_past_end_appends() {
    let mut p = input_with("ab", 10);
    p.insert_char('c');
    assert_eq!(p.value, "abc");
    assert_eq!(p.cursor_chars, 11);
}
