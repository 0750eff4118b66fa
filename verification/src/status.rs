//! The status line under the frame.

use crate::controller::{AnimationController, AnimationState, ControllerModel, LoopMode};
use crate::text::truncate_to_width;
use vstd::prelude::*;
use vstd::string::*;

verus! {

/// The character of a decimal digit.
pub open spec fn digit_char(d: nat) -> char {
    if d == 0 {
        '0'
    } else if d == 1 {
        '1'
    } else if d == 2 {
        '2'
    } else if d == 3 {
        '3'
    } else if d == 4 {
        '4'
    } else if d == 5 {
        '5'
    } else if d == 6 {
        '6'
    } else if d == 7 {
        '7'
    } else if d == 8 {
        '8'
    } else {
        '9'
    }
}

/// A number written in decimal, without leading zeros.
pub open spec fn decimal(n: nat) -> Seq<char>
    decreases n,
{
    if n < 10 {
        seq![digit_char(n)]
    } else {
        decimal(n / 10).push(digit_char(n % 10))
    }
}

/// The name of a playback state on the status line.
pub open spec fn state_name(state: AnimationState) -> Seq<char> {
    match state {
        AnimationState::Playing => "playing"@,
        AnimationState::Paused => "paused"@,
        AnimationState::Finished => "finished"@,
    }
}

/// The name of a loop mode on the status line.
pub open spec fn mode_name(mode: LoopMode) -> Seq<char> {
    match mode {
        LoopMode::Loop => "loop"@,
        LoopMode::Once => "once"@,
    }
}

/// Whether color is on, as the status line says it.
pub open spec fn color_name(has_color: bool) -> Seq<char> {
    if has_color {
        "on"@
    } else {
        "off"@
    }
}

/// The status text in full: the frame shown, counted from 1, of how many;
/// the playback state; the rate; the loop mode; whether any frame has
/// color; and the keys.
pub open spec fn status_of(m: ControllerModel, has_color: bool) -> Seq<char> {
    "frame "@ + decimal(m.current_frame + 1) + "/"@ + decimal(m.frame_count) + " | "@
        + state_name(m.state) + " | "@ + decimal(m.fps) + " fps | "@ + mode_name(m.loop_mode)
        + " | color:"@ + color_name(has_color)
        + " | [space] play/pause [←/→] step [+/-] fps [l] loop [q] quit"@
}

/// A line of `width` blanks.
pub open spec fn blanks(width: nat) -> Seq<char> {
    Seq::new(width, |i: int| ' ')
}

/// The status line as it is handed to the terminal.
pub struct StatusLine {
    /// Terminal row of the line: the last one.
    pub y: u16,
    /// Blanks over the terminal's whole width, to wipe the row.
    pub wipe: String,
    /// The status text, cut to the terminal's width.
    pub text: String,
}

/// One decimal digit as a string.
fn digit_str(d: usize) -> (s: &'static str)
    requires
        d < 10,
    ensures
        s@ == seq![digit_char(d as nat)],
{
    proof {
        reveal_strlit("0");
        reveal_strlit("1");
        reveal_strlit("2");
        reveal_strlit("3");
        reveal_strlit("4");
        reveal_strlit("5");
        reveal_strlit("6");
        reveal_strlit("7");
        reveal_strlit("8");
        reveal_strlit("9");
    }
    let s: &'static str = if d == 0 {
        "0"
    } else if d == 1 {
        "1"
    } else if d == 2 {
        "2"
    } else if d == 3 {
        "3"
    } else if d == 4 {
        "4"
    } else if d == 5 {
        "5"
    } else if d == 6 {
        "6"
    } else if d == 7 {
        "7"
    } else if d == 8 {
        "8"
    } else {
        "9"
    };
    assert(s@ =~= seq![digit_char(d as nat)]);
    s
}

/// Writes a number in decimal.
pub fn decimal_string(n: usize) -> (s: String)
    ensures
        s@ == decimal(n as nat),
    decreases n,
{
    if n < 10 {
        String::from_str(digit_str(n))
    } else {
        let head = decimal_string(n / 10);
        let s = head.concat(digit_str(n % 10));
        assert(s@ =~= decimal((n / 10) as nat).push(digit_char((n % 10) as nat)));
        s
    }
}

/// The status text in full.
pub fn status_text(controller: &AnimationController, has_any_color: bool) -> (s: String)
    ensures
        s@ == status_of(controller@, has_any_color),
{
    let shown: usize = controller.current_frame();
    let count: usize = controller.frame_count();
    let state: &'static str = match controller.state() {
        AnimationState::Playing => "playing",
        AnimationState::Paused => "paused",
        AnimationState::Finished => "finished",
    };
    let mode: &'static str = match controller.loop_mode() {
        LoopMode::Loop => "loop",
        LoopMode::Once => "once",
    };
    let color: &'static str = if has_any_color {
        "on"
    } else {
        "off"
    };
    let s = String::from_str("frame ");
    let s = s.concat(decimal_string(shown + 1).as_str());
    let s = s.concat("/");
    let s = s.concat(decimal_string(count).as_str());
    let s = s.concat(" | ");
    let s = s.concat(state);
    let s = s.concat(" | ");
    let s = s.concat(decimal_string(controller.fps() as usize).as_str());
    let s = s.concat(" fps | ");
    let s = s.concat(mode);
    let s = s.concat(" | color:");
    let s = s.concat(color);
    let s = s.concat(" | [space] play/pause [←/→] step [+/-] fps [l] loop [q] quit");
    s
}

/// A line of `width` blanks.
pub fn blank_line(width: u16) -> (s: String)
    ensures
        s@ == blanks(width as nat),
{
    proof {
        reveal_strlit(" ");
    }
    let mut s = String::new();
    let mut i: u16 = 0;
    while i < width
        invariant
            i <= width,
            s@ == blanks(i as nat),
            " "@ == seq![' '],
        decreases width - i,
    {
        s.append(" ");
        i = i + 1;
        assert(s@ =~= blanks(i as nat));
    }
    s
}

/// The status line for a terminal of `term_width` columns and `term_height`
/// rows: on the last row, the status text as far as it fits.
pub fn status_line(
    controller: &AnimationController,
    has_any_color: bool,
    term_width: u16,
    term_height: u16,
) -> (line: StatusLine)
    ensures
        line.y == (if term_height == 0 {
            0
        } else {
            term_height - 1
        }),
        line.wipe@ == blanks(term_width as nat),
        line.text@ == status_of(controller@, has_any_color).take(
            if term_width < status_of(controller@, has_any_color).len() {
                term_width as int
            } else {
                status_of(controller@, has_any_color).len() as int
            },
        ),
{
    let status = status_text(controller, has_any_color);
    StatusLine {
        y: if term_height == 0 {
            0
        } else {
            term_height - 1
        },
        wipe: blank_line(term_width),
        text: truncate_to_width(status.as_str(), term_width as usize),
    }
}

} // verus!
