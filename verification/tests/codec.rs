use cframe_player::codec::{parse_cframe, parse_cframe_text, FormatError};

fn sample() -> Vec<u8> {
    vec![
        2, 0, 0, 0, // width
        2, 0, 0, 0, // height
        b'A', 255, 0, 0,
        b'B', 0, 255, 0,
        b' ', 0, 0, 255,
        b'D', 1, 2, 3,
    ]
}

#[test]
fn decodes_cells_in_row_major_order() {
    let frame = parse_cframe(&sample()).unwrap();
    assert_eq!(frame.width(), 2);
    assert_eq!(frame.height(), 2);
    assert_eq!(frame.char_at(0, 0), Some(b'A'));
    assert_eq!(frame.char_at(0, 1), Some(b'B'));
    assert_eq!(frame.char_at(1, 0), Some(b' '));
    assert_eq!(frame.char_at(1, 1), Some(b'D'));
    assert_eq!(frame.rgb_at(0, 0), Some((255, 0, 0)));
    assert_eq!(frame.rgb_at(0, 1), Some((0, 255, 0)));
    assert_eq!(frame.rgb_at(1, 0), Some((0, 0, 255)));
    assert_eq!(frame.rgb_at(1, 1), Some((1, 2, 3)));
}

#[test]
fn outside_the_grid_is_absent() {
    let frame = parse_cframe(&sample()).unwrap();
    assert_eq!(frame.char_at(2, 0), None);
    assert_eq!(frame.char_at(0, 2), None);
    assert_eq!(frame.rgb_at(2, 0), None);
    assert_eq!(frame.rgb_at(0, 2), None);
    assert!(frame.should_skip(2, 0));
    assert!(frame.should_skip(0, 2));
}

#[test]
fn blank_and_dark_cells_are_skipped() {
    let frame = parse_cframe(&sample()).unwrap();
    assert!(!frame.should_skip(0, 0));
    assert!(!frame.should_skip(0, 1));
    assert!(frame.should_skip(1, 0)); // a space
    assert!(frame.should_skip(1, 1)); // nearly black
}

#[test]
fn extracts_text_rows() {
    assert_eq!(parse_cframe_text(&sample()).unwrap(), "AB\n D\n");
}

#[test]
fn short_header_is_truncated() {
    let three = FormatError::Truncated { expected: 8, actual: 3 };
    assert_eq!(parse_cframe(&[1, 2, 3]).err(), Some(three));
    assert_eq!(parse_cframe_text(&[1, 2, 3]).err(), Some(three));
    assert_eq!(parse_cframe(&[]).err(), Some(FormatError::Truncated { expected: 8, actual: 0 }));
    let seven = [1, 0, 0, 0, 1, 0, 0];
    assert_eq!(parse_cframe(&seven).err(), Some(FormatError::Truncated { expected: 8, actual: 7 }));
}

#[test]
fn a_zero_dimension_counts_before_missing_cells() {
    // a width of 0 beside a height that no buffer could hold
    let bytes = [0, 0, 0, 0, 255, 255, 255, 255];
    let e = FormatError::InvalidDimensions { width: 0, height: 0xffff_ffff };
    assert_eq!(parse_cframe(&bytes).err(), Some(e));
    assert_eq!(parse_cframe_text(&bytes).err(), Some(e));
}

#[test]
fn zero_dimension_is_invalid() {
    let zero_width = [0, 0, 0, 0, 1, 0, 0, 0];
    let zero_height = [1, 0, 0, 0, 0, 0, 0, 0];
    let no_width = FormatError::InvalidDimensions { width: 0, height: 1 };
    let no_height = FormatError::InvalidDimensions { width: 1, height: 0 };
    assert_eq!(parse_cframe(&zero_width).err(), Some(no_width));
    assert_eq!(parse_cframe(&zero_height).err(), Some(no_height));
    assert_eq!(parse_cframe_text(&zero_width).err(), Some(no_width));
    assert_eq!(parse_cframe_text(&zero_height).err(), Some(no_height));
}

#[test]
fn missing_cells_are_a_size_mismatch() {
    let bytes = [2, 0, 0, 0, 2, 0, 0, 0, b'A', 255, 0, 0];
    let short = FormatError::SizeMismatch { expected: 24, actual: 12 };
    assert_eq!(parse_cframe(&bytes).err(), Some(short));
    assert_eq!(parse_cframe_text(&bytes).err(), Some(short));
}

#[test]
fn huge_declared_grid_is_a_size_mismatch() {
    let bytes = [255, 255, 255, 255, 255, 255, 255, 255, b'A', 1, 2, 3];
    let side: u128 = 0xffff_ffff;
    let huge = FormatError::SizeMismatch { expected: 8 + 4 * side * side, actual: 12 };
    assert_eq!(parse_cframe(&bytes).err(), Some(huge));
    assert_eq!(parse_cframe_text(&bytes).err(), Some(huge));
}

#[test]
fn decoding_twice_gives_identical_grids() {
    let bytes = sample();
    let first = parse_cframe(&bytes).unwrap();
    let second = parse_cframe(&bytes).unwrap();
    assert_eq!(first.width(), second.width());
    assert_eq!(first.height(), second.height());
    for row in 0..2 {
        for col in 0..2 {
            assert_eq!(first.char_at(row, col), second.char_at(row, col));
            assert_eq!(first.rgb_at(row, col), second.rgb_at(row, col));
            assert_eq!(first.should_skip(row, col), second.should_skip(row, col));
        }
    }
    assert_eq!(parse_cframe_text(&bytes), parse_cframe_text(&bytes));
}

#[test]
fn text_shows_the_grid_characters() {
    let bytes = vec![
        3, 0, 0, 0, 2, 0, 0, 0, //
        b'A', 0, 0, 0, b'B', 0, 0, 0, b'C', 0, 0, 0, //
        b'D', 0, 0, 0, b'E', 0, 0, 0, b'F', 0, 0, 0,
    ];
    let frame = parse_cframe(&bytes).unwrap();
    let text: Vec<char> = parse_cframe_text(&bytes).unwrap().chars().collect();
    assert_eq!(text.len(), 2 * 4);
    for row in 0..2usize {
        for col in 0..3usize {
            assert_eq!(Some(text[row * 4 + col]), frame.char_at(row, col).map(|b| b as char));
        }
        assert_eq!(text[row * 4 + 3], '\n');
    }
}

#[test]
fn high_bytes_become_the_characters_of_their_code() {
    let bytes = vec![1, 0, 0, 0, 1, 0, 0, 0, 0xE9, 9, 9, 9];
    assert_eq!(parse_cframe_text(&bytes).unwrap(), "\u{e9}\n");
    assert_eq!(parse_cframe(&bytes).unwrap().char_at(0, 0), Some(0xE9));
}

#[test]
fn trailing_bytes_that_are_no_background_are_ignored() {
    let mut bytes = sample();
    bytes.extend_from_slice(&[7, 7, 7]);
    let frame = parse_cframe(&bytes).unwrap();
    assert_eq!(frame.char_at(1, 1), Some(b'D'));
    assert!(frame.should_skip(1, 0));
    assert_eq!(parse_cframe_text(&bytes).unwrap(), "AB\n D\n");
}

#[test]
fn a_flagged_background_plane_makes_every_cell_drawn() {
    let mut bytes = sample();
    bytes.push(1);
    bytes.extend_from_slice(&[9; 12]);
    let frame = parse_cframe(&bytes).unwrap();
    assert!(!frame.should_skip(1, 0));
    assert!(!frame.should_skip(1, 1));
    assert_eq!(frame.rgb_at(1, 1), Some((1, 2, 3)));
}

#[test]
fn an_unflagged_plane_of_exact_size_is_a_background() {
    let mut bytes = sample();
    bytes.extend_from_slice(&[0; 12]);
    let frame = parse_cframe(&bytes).unwrap();
    assert!(!frame.should_skip(1, 0));
}

#[test]
fn a_cleared_flag_means_no_background() {
    let mut bytes = sample();
    bytes.push(0);
    bytes.extend_from_slice(&[9; 12]);
    let frame = parse_cframe(&bytes).unwrap();
    assert!(frame.should_skip(1, 0));
}
