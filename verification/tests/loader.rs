use cframe_player::codec::FormatError;
use cframe_player::frame::{any_color, Frame};
use cframe_player::loader::{load_binary_frame, load_frames, load_text_frame, LoadError, TextSource};

fn binary(ch: u8) -> Vec<u8> {
    vec![1, 0, 0, 0, 1, 0, 0, 0, ch, 10, 20, 30]
}

fn text(content: &str, color: Option<Vec<u8>>) -> TextSource {
    TextSource { content: content.to_string(), color }
}

#[test]
fn an_empty_directory_has_no_frames() {
    assert_eq!(load_frames(&Vec::new(), &Vec::new()).err(), Some(LoadError::NoFrames));
}

#[test]
fn binary_files_make_the_whole_sequence() {
    let frames = load_frames(&vec![binary(b'a'), binary(b'b')], &vec![text("ignored", None)]).unwrap();
    assert_eq!(frames.len(), 2);
    assert_eq!(frames[0].content, "a\n");
    assert_eq!(frames[1].content, "b\n");
    assert!(frames[0].has_color());
    assert_eq!(frames[1].cframe.as_ref().unwrap().char_at(0, 0), Some(b'b'));
    assert_eq!(frames[1].cframe.as_ref().unwrap().rgb_at(0, 0), Some((10, 20, 30)));
}

#[test]
fn text_files_are_normalized_and_paired() {
    let frames = load_frames(
        &Vec::new(),
        &vec![text("one", None), text("two\n", Some(binary(b'x'))), text("three\n\n", None)],
    )
    .unwrap();
    assert_eq!(frames.len(), 3);
    assert_eq!(frames[2].content, "three\n");
    assert_eq!(frames[0].content, "one\n");
    assert!(!frames[0].has_color());
    assert_eq!(frames[1].content, "two\n");
    assert_eq!(frames[1].cframe.as_ref().unwrap().char_at(0, 0), Some(b'x'));
}

#[test]
fn loading_stops_at_the_first_bad_binary_file() {
    let bad_dims = vec![0, 0, 0, 0, 1, 0, 0, 0];
    let r = load_frames(&vec![binary(b'a'), vec![1, 2], bad_dims], &Vec::new());
    assert_eq!(r.err(), Some(LoadError::Format { file: 1, error: FormatError::Truncated { expected: 8, actual: 2 } }));
}

#[test]
fn loading_stops_at_the_first_bad_companion() {
    let short = vec![2, 0, 0, 0, 1, 0, 0, 0, b'a', 0, 0, 0];
    let r = load_frames(&Vec::new(), &vec![text("a", None), text("b", Some(short))]);
    assert_eq!(r.err(), Some(LoadError::Format { file: 1, error: FormatError::SizeMismatch { expected: 16, actual: 12 } }));
}

#[test]
fn single_frames_load_alone() {
    let frame = load_binary_frame(&binary(b'q')).unwrap();
    assert_eq!(frame.content, "q\n");
    assert!(frame.has_color());
    assert_eq!(load_binary_frame(&[]).err(), Some(FormatError::Truncated { expected: 8, actual: 0 }));
    let plain = load_text_frame(&text("hi", None)).unwrap();
    assert_eq!(plain.content, "hi\n");
    assert!(plain.cframe.is_none());
}

#[test]
fn color_is_present_iff_a_grid_is() {
    let plain = Frame::text_only("x\n".to_string());
    assert!(!plain.has_color());
    assert_eq!(plain.content, "x\n");
    let colored = load_binary_frame(&binary(b'c')).unwrap();
    assert!(!any_color(&vec![Frame::text_only(String::new())]));
    assert!(any_color(&vec![plain, colored]));
    assert!(!any_color(&Vec::new()));
}
