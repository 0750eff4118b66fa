use cframe_player::text::{normalize_frame_text, truncate_to_width, TextLines};

#[test]
fn text_without_newline_gets_exactly_one() {
    assert_eq!(normalize_frame_text("ab\ncd".to_string()), "ab\ncd\n");
}

#[test]
fn text_with_one_newline_is_unchanged() {
    assert_eq!(normalize_frame_text("ab\ncd\n".to_string()), "ab\ncd\n");
    assert_eq!(normalize_frame_text("\n".to_string()), "\n");
}

#[test]
fn surplus_newlines_at_the_end_are_taken_away() {
    assert_eq!(normalize_frame_text("ab\n\n".to_string()), "ab\n");
    assert_eq!(normalize_frame_text("x\n\n".to_string()), "x\n");
    assert_eq!(normalize_frame_text("a\n\nb\n\n\n".to_string()), "a\n\nb\n");
    assert_eq!(normalize_frame_text("\n\n\n".to_string()), "\n");
    assert_eq!(normalize_frame_text("a\r\n\n".to_string()), "a\r\n");
}

#[test]
fn empty_text_becomes_one_newline() {
    assert_eq!(normalize_frame_text(String::new()), "\n");
}

#[test]
fn normalizing_keeps_wide_characters() {
    assert_eq!(normalize_frame_text("←→".to_string()), "←→\n");
}

#[test]
fn truncation_counts_characters() {
    assert_eq!(truncate_to_width("hello", 3), "hel");
    assert_eq!(truncate_to_width("hello", 5), "hello");
    assert_eq!(truncate_to_width("hello", 9), "hello");
    assert_eq!(truncate_to_width("hello", 0), "");
    assert_eq!(truncate_to_width("[←/→] step", 4), "[←/→");
}

#[test]
fn lines_end_at_line_feeds() {
    let bytes = b"ab\ncde\r\n\nf\r";
    let lines = TextLines::split(bytes);
    assert_eq!(lines.height(), 4);
    assert_eq!(lines.width(), 3);
    assert_eq!(lines.byte_at(0, 1), Some(b'b'));
    assert_eq!(lines.byte_at(0, 2), None);
    assert_eq!(lines.byte_at(1, 2), Some(b'e'));
    assert_eq!(lines.byte_at(1, 3), None); // the carriage return is gone
    assert_eq!(lines.byte_at(2, 0), None);
    assert_eq!(lines.byte_at(3, 1), Some(b'\r')); // no line feed behind it
    assert_eq!(lines.byte_at(4, 0), None);
    assert_eq!(TextLines::split(b"").height(), 0);
    assert_eq!(TextLines::split(b"\n").height(), 1);
    assert_eq!(TextLines::split(b"x\n").height(), 1);
}
