use cframe_player::frame::Frame;
use cframe_player::grid::CFrame;
use cframe_player::layout::{color_runs, frame_runs, text_runs, Drawing, Run};

const RED: (u8, u8, u8) = (255, 0, 0);
const BLUE: (u8, u8, u8) = (0, 0, 255);

fn grid(width: u32, height: u32, cells: &[(u8, (u8, u8, u8))]) -> CFrame {
    let chars: Vec<u8> = cells.iter().map(|c| c.0).collect();
    let mut rgb = Vec::new();
    for c in cells {
        rgb.extend_from_slice(&[c.1 .0, c.1 .1, c.1 .2]);
    }
    CFrame::from_planes(width, height, chars, rgb, None).unwrap()
}

fn flat<P: Copy>(runs: &[Run<P>]) -> Vec<(u16, u16, P, String)> {
    runs.iter()
        .map(|r| (r.x, r.y, r.paint, String::from_utf8_lossy(&r.glyphs).into_owned()))
        .collect()
}

#[test]
fn runs_break_where_the_color_changes() {
    let g = grid(4, 1, &[(b'a', RED), (b'b', RED), (b'c', BLUE), (b'd', RED)]);
    // terminal 4 x 2: one drawable row, no offset
    assert_eq!(
        flat(&color_runs(&g, 4, 2)),
        vec![(0, 0, RED, "ab".to_string()), (2, 0, BLUE, "c".to_string()), (3, 0, RED, "d".to_string())]
    );
}

#[test]
fn skipped_cells_are_left_out() {
    let g = grid(5, 1, &[(b' ', RED), (b'a', RED), (b' ', RED), (b'b', RED), (b'x', (0, 0, 0))]);
    assert_eq!(
        flat(&color_runs(&g, 5, 2)),
        vec![(1, 0, RED, "a".to_string()), (3, 0, RED, "b".to_string())]
    );
}

#[test]
fn the_frame_is_centered_above_the_status_line() {
    let g = grid(2, 2, &[(b'a', RED), (b'b', RED), (b'c', BLUE), (b'd', BLUE)]);
    // terminal 10 x 7: six drawable rows; offsets (10-2)/2 = 4 and (6-2)/2 = 2
    assert_eq!(
        flat(&color_runs(&g, 10, 7)),
        vec![(4, 2, RED, "ab".to_string()), (4, 3, BLUE, "cd".to_string())]
    );
    // odd room rounds down
    assert_eq!(flat(&color_runs(&g, 5, 6))[0].0, 1);
    assert_eq!(flat(&color_runs(&g, 5, 6))[0].1, 1);
}

#[test]
fn the_frame_is_cut_to_the_terminal() {
    let g = grid(3, 2, &[(b'a', RED), (b'b', RED), (b'c', RED), (b'd', RED), (b'e', RED), (b'f', RED)]);
    assert_eq!(flat(&color_runs(&g, 2, 2)), vec![(0, 0, RED, "ab".to_string())]);
    assert!(color_runs(&g, 0, 5).is_empty());
    assert!(color_runs(&g, 5, 1).is_empty());
    assert!(color_runs(&g, 5, 0).is_empty());
}

#[test]
fn runs_do_not_cross_rows() {
    let g = grid(2, 2, &[(b'a', RED), (b'b', RED), (b'c', RED), (b'd', RED)]);
    assert_eq!(
        flat(&color_runs(&g, 2, 3)),
        vec![(0, 0, RED, "ab".to_string()), (0, 1, RED, "cd".to_string())]
    );
}

#[test]
fn text_runs_break_at_blanks() {
    assert_eq!(
        flat(&text_runs("ab  cd\n e\n", 6, 3)),
        vec![(0, 0, (), "ab".to_string()), (4, 0, (), "cd".to_string()), (1, 1, (), "e".to_string())]
    );
}

#[test]
fn text_is_centered_by_its_longest_line() {
    // width 4, height 4 on a 10 x 8 terminal: offsets 3 and (7-4)/2 = 1
    assert_eq!(
        flat(&text_runs("ab\nabcd\n\nx", 10, 8)),
        vec![
            (3, 1, (), "ab".to_string()),
            (3, 2, (), "abcd".to_string()),
            (3, 4, (), "x".to_string())
        ]
    );
}

#[test]
fn text_is_cut_to_the_terminal() {
    assert_eq!(flat(&text_runs("abcdef\nxy\nz\n", 3, 3)), vec![(0, 0, (), "abc".to_string()), (0, 1, (), "xy".to_string())]);
    assert!(text_runs("", 10, 10).is_empty());
}

#[test]
fn carriage_returns_before_line_feeds_are_dropped() {
    assert_eq!(
        flat(&text_runs("ab\r\ncd\n", 2, 3)),
        vec![(0, 0, (), "ab".to_string()), (0, 1, (), "cd".to_string())]
    );
}

#[test]
fn a_frame_is_drawn_by_its_grid_if_it_has_one() {
    let colored = Frame::with_color("zz\n".to_string(), grid(1, 1, &[(b'a', RED)]));
    match frame_runs(&colored, 1, 2) {
        Drawing::Color(runs) => assert_eq!(flat(&runs), vec![(0, 0, RED, "a".to_string())]),
        Drawing::Text(_) => panic!("color expected"),
    }
    let plain = Frame::text_only("zz\n".to_string());
    match frame_runs(&plain, 2, 2) {
        Drawing::Text(runs) => assert_eq!(flat(&runs), vec![(0, 0, (), "zz".to_string())]),
        Drawing::Color(_) => panic!("text expected"),
    }
}
