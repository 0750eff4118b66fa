//! Where a frame is drawn on the terminal, and in which pieces.
//!
//! A frame is centered in the terminal, above the status line, and cut to
//! what fits. It is drawn as runs: stretches of visible characters that
//! stand side by side in one row and share one paint.

use crate::frame::Frame;
use crate::grid::{CFrame, Grid};
use crate::text::{lines_of, widest, TextLines};
use vstd::prelude::*;
use vstd::string::*;

verus! {

/// The part of a frame that is drawn, and where on the terminal it starts.
pub struct Placement {
    /// Terminal column of the frame's first column.
    pub x_offset: nat,
    /// Terminal row of the frame's first row.
    pub y_offset: nat,
    /// Number of columns that are drawn.
    pub width: nat,
    /// Number of rows that are drawn.
    pub height: nat,
}

/// Rows of the terminal above the status line.
pub open spec fn drawable_height(term_height: nat) -> nat {
    if term_height == 0 {
        0
    } else {
        (term_height - 1) as nat
    }
}

/// The smaller of two numbers.
pub open spec fn least(a: nat, b: nat) -> nat {
    if a < b {
        a
    } else {
        b
    }
}

/// Placement of a frame of the given size on a terminal of the given size:
/// as much of the frame as fits, centered in the room above the status
/// line.
pub open spec fn placement(frame_width: nat, frame_height: nat, term_width: nat, term_height: nat) -> Placement {
    let width = least(frame_width, term_width);
    let height = least(frame_height, drawable_height(term_height));
    Placement {
        x_offset: ((term_width - width) / 2) as nat,
        y_offset: ((drawable_height(term_height) - height) / 2) as nat,
        width,
        height,
    }
}

/// Mathematical model of a run: where it starts on the terminal, its paint
/// and its characters from left to right.
pub struct RunModel<P> {
    pub x: int,
    pub y: int,
    pub paint: P,
    pub glyphs: Seq<u8>,
}

impl<P> RunModel<P> {
    /// The terminal column behind the run's last character.
    pub open spec fn end(self) -> int {
        self.x + self.glyphs.len()
    }

    /// Whether the run lies on the terminal cell that shows the frame's
    /// `(row, col)`.
    pub open spec fn covers(self, area: Placement, row: int, col: int) -> bool {
        self.y == area.y_offset + row && self.x <= area.x_offset + col < self.end()
    }

    /// Whether the run is drawn wholly before `next` in reading order.
    pub open spec fn precedes(self, next: RunModel<P>) -> bool {
        self.y < next.y || (self.y == next.y && self.end() <= next.x)
    }

    /// Whether `next` starts right where the run ends.
    pub open spec fn touches(self, next: RunModel<P>) -> bool {
        self.y == next.y && self.end() == next.x
    }

    /// Whether the run shows the picture: it is not empty, lies in the drawn
    /// part, and each of its characters is the visible character of the
    /// picture at that place, in the run's paint.
    pub open spec fn shows(self, picture: spec_fn(int, int) -> Option<(u8, P)>, area: Placement) -> bool {
        &&& self.glyphs.len() > 0
        &&& area.y_offset <= self.y < area.y_offset + area.height
        &&& area.x_offset <= self.x
        &&& self.end() <= area.x_offset + area.width
        &&& forall|k: int|
            0 <= k < self.glyphs.len() ==> picture(self.y - area.y_offset, self.x - area.x_offset + k)
                == Some((#[trigger] self.glyphs[k], self.paint))
    }
}

/// Whether `runs` draw exactly the visible characters of `picture` in the
/// drawn part: every run shows the picture, the runs come in reading order
/// without overlap, every visible character is on a run, and no run could
/// be longer, for where two runs touch their paints differ.
pub open spec fn paints<P>(
    runs: Seq<RunModel<P>>,
    picture: spec_fn(int, int) -> Option<(u8, P)>,
    area: Placement,
) -> bool {
    &&& forall|i: int| 0 <= i < runs.len() ==> (#[trigger] runs[i]).shows(picture, area)
    &&& forall|i: int, j: int|
        0 <= i < j < runs.len() ==> (#[trigger] runs[i]).precedes(#[trigger] runs[j])
    &&& forall|row: int, col: int|
        0 <= row < area.height && 0 <= col < area.width && (#[trigger] picture(row, col)) is Some
            ==> exists|i: int| 0 <= i < runs.len() && (#[trigger] runs[i]).covers(area, row, col)
    &&& forall|i: int|
        0 <= i && i + 1 < runs.len() && (#[trigger] runs[i]).touches(runs[i + 1]) ==> runs[i].paint
            != runs[i + 1].paint
}

/// A run as it is handed to the terminal.
pub struct Run<P> {
    /// Terminal column of the first character.
    pub x: u16,
    /// Terminal row.
    pub y: u16,
    /// The paint of all its characters.
    pub paint: P,
    /// The characters, from left to right.
    pub glyphs: Vec<u8>,
}

impl<P> View for Run<P> {
    type V = RunModel<P>;

    open spec fn view(&self) -> RunModel<P> {
        RunModel { x: self.x as int, y: self.y as int, paint: self.paint, glyphs: self.glyphs@ }
    }
}

/// The models of a list of runs.
pub open spec fn run_models<P>(runs: Seq<Run<P>>) -> Seq<RunModel<P>> {
    Seq::new(runs.len(), |i: int| runs[i]@)
}

/// Something that shows a character in some paint at some of its places.
pub(crate) trait Picture {
    /// What tells one stretch of characters from the next.
    type Paint;

    /// The visible character at `(row, col)` and its paint, if there is one.
    spec fn ink(&self, row: int, col: int) -> Option<(u8, Self::Paint)>;

    /// The visible character at `(row, col)` and its paint, if there is one.
    fn ink_at(&self, row: usize, col: usize) -> (ink: Option<(u8, Self::Paint)>)
        ensures
            ink == self.ink(row as int, col as int),
    ;

    /// Whether two paints are the same.
    fn same_paint(a: &Self::Paint, b: &Self::Paint) -> (same: bool)
        ensures
            same == (*a == *b),
    ;
}

/// The picture as a function of the place.
pub(crate) open spec fn ink_of<Pic: Picture>(picture: &Pic) -> spec_fn(int, int) -> Option<
    (u8, Pic::Paint),
> {
    |row: int, col: int| picture.ink(row, col)
}

/// Whether `(row, col)` comes before `(to_row, to_col)` in reading order.
pub open spec fn reads_before(row: int, col: int, to_row: int, to_col: int) -> bool {
    row < to_row || (row == to_row && col < to_col)
}

/// Whether `runs` draw what is visible of `picture` before `(row, col)` in
/// reading order, and nothing from there on. This is what planning has
/// reached when it stands at `(row, col)`.
spec fn painted_before<P>(
    runs: Seq<RunModel<P>>,
    picture: spec_fn(int, int) -> Option<(u8, P)>,
    area: Placement,
    row: int,
    col: int,
) -> bool {
    &&& forall|i: int| 0 <= i < runs.len() ==> (#[trigger] runs[i]).shows(picture, area)
    &&& forall|i: int, j: int|
        0 <= i < j < runs.len() ==> (#[trigger] runs[i]).precedes(#[trigger] runs[j])
    &&& forall|r: int, c: int|
        0 <= r < area.height && 0 <= c < area.width && reads_before(r, c, row, col) && (
        #[trigger] picture(r, c)) is Some ==> exists|i: int|
            0 <= i < runs.len() && (#[trigger] runs[i]).covers(area, r, c)
    &&& forall|i: int|
        0 <= i && i + 1 < runs.len() && (#[trigger] runs[i]).touches(runs[i + 1]) ==> runs[i].paint
            != runs[i + 1].paint
    &&& forall|i: int|
        0 <= i < runs.len() ==> (#[trigger] runs[i]).y < area.y_offset + row || (runs[i].y
            == area.y_offset + row && runs[i].end() <= area.x_offset + col)
    &&& runs.len() > 0 && col < area.width && runs.last().y == area.y_offset + row
        && runs.last().end() == area.x_offset + col ==> match picture(row, col) {
        Some((_, paint)) => paint != runs.last().paint,
        None => true,
    }
}

/// Planning may pass over a place where nothing is visible.
proof fn lemma_pass_blank<P>(
    runs: Seq<RunModel<P>>,
    picture: spec_fn(int, int) -> Option<(u8, P)>,
    area: Placement,
    row: int,
    col: int,
)
    requires
        painted_before(runs, picture, area, row, col),
        picture(row, col) is None,
    ensures
        painted_before(runs, picture, area, row, col + 1),
{
    assert forall|r: int, c: int|
        0 <= r < area.height && 0 <= c < area.width && reads_before(r, c, row, col + 1) && (
        #[trigger] picture(r, c)) is Some implies exists|i: int|
        0 <= i < runs.len() && (#[trigger] runs[i]).covers(area, r, c) by {
        assert(reads_before(r, c, row, col));
    }
}

/// Planning goes on to the next row once a row is done.
proof fn lemma_next_row<P>(
    runs: Seq<RunModel<P>>,
    picture: spec_fn(int, int) -> Option<(u8, P)>,
    area: Placement,
    row: int,
    col: int,
)
    requires
        painted_before(runs, picture, area, row, col),
        col >= area.width,
    ensures
        painted_before(runs, picture, area, row + 1, 0),
{
    assert forall|r: int, c: int|
        0 <= r < area.height && 0 <= c < area.width && reads_before(r, c, row + 1, 0) && (
        #[trigger] picture(r, c)) is Some implies exists|i: int|
        0 <= i < runs.len() && (#[trigger] runs[i]).covers(area, r, c) by {
        assert(reads_before(r, c, row, col));
    }
}

/// Planning takes up a run that starts where it stands and ends where the
/// paint changes or nothing is visible, and goes on behind it.
proof fn lemma_take_run<P>(
    runs: Seq<RunModel<P>>,
    picture: spec_fn(int, int) -> Option<(u8, P)>,
    area: Placement,
    row: int,
    start: int,
    run: RunModel<P>,
)
    requires
        painted_before(runs, picture, area, row, start),
        0 <= row < area.height,
        0 <= start < area.width,
        run.x == area.x_offset + start,
        run.y == area.y_offset + row,
        run.shows(picture, area),
        start + run.glyphs.len() < area.width ==> match picture(row, start + run.glyphs.len()) {
            Some((_, paint)) => paint != run.paint,
            None => true,
        },
    ensures
        painted_before(runs.push(run), picture, area, row, start + run.glyphs.len()),
{
    let after = runs.push(run);
    let col = start + run.glyphs.len();
    assert forall|i: int| 0 <= i < after.len() implies (#[trigger] after[i]).shows(
        picture,
        area,
    ) by {
        if i < runs.len() {
            assert(after[i] == runs[i]);
        }
    }
    assert forall|i: int, j: int| 0 <= i < j < after.len() implies (#[trigger] after[i]).precedes(
        #[trigger] after[j],
    ) by {
        assert(after[i] == runs[i]);
        if j < runs.len() {
            assert(after[j] == runs[j]);
        }
    }
    assert forall|r: int, c: int|
        0 <= r < area.height && 0 <= c < area.width && reads_before(r, c, row, col) && (
        #[trigger] picture(r, c)) is Some implies exists|i: int|
        0 <= i < after.len() && (#[trigger] after[i]).covers(area, r, c) by {
        if reads_before(r, c, row, start) {
            let i = choose|i: int| 0 <= i < runs.len() && (#[trigger] runs[i]).covers(area, r, c);
            assert(after[i] == runs[i]);
            assert(after[i].covers(area, r, c));
        } else {
            assert(after[runs.len() as int] == run);
            assert(after[runs.len() as int].covers(area, r, c));
        }
    }
    assert forall|i: int|
        0 <= i && i + 1 < after.len() && (#[trigger] after[i]).touches(
            after[i + 1],
        ) implies after[i].paint != after[i + 1].paint by {
        assert(after[i] == runs[i]);
        if i + 1 < runs.len() {
            assert(after[i + 1] == runs[i + 1]);
        } else {
            assert(after[i + 1] == run);
            assert(runs[i] == runs.last());
            assert(picture(row, start) == Some((run.glyphs[0], run.paint)));
        }
    }
    assert forall|i: int| 0 <= i < after.len() implies (#[trigger] after[i]).y < area.y_offset
        + row || (after[i].y == area.y_offset + row && after[i].end() <= area.x_offset + col) by {
        if i < runs.len() {
            assert(after[i] == runs[i]);
        }
    }
    assert(after.last() == run);
}

/// What planning has reached at the end of the drawn part is the whole
/// drawing.
proof fn lemma_painted_all<P>(
    runs: Seq<RunModel<P>>,
    picture: spec_fn(int, int) -> Option<(u8, P)>,
    area: Placement,
)
    requires
        painted_before(runs, picture, area, area.height as int, 0),
    ensures
        paints(runs, picture, area),
{
    assert forall|row: int, col: int|
        0 <= row < area.height && 0 <= col < area.width && (#[trigger] picture(
            row,
            col,
        )) is Some implies exists|i: int|
        0 <= i < runs.len() && (#[trigger] runs[i]).covers(area, row, col) by {
        assert(reads_before(row, col, area.height as int, 0));
    }
}

/// Plans the runs that draw the first `rows` rows and `cols` columns of
/// `picture`, moved by the two offsets.
fn plan_runs<Pic: Picture>(
    picture: &Pic,
    rows: usize,
    cols: usize,
    x_offset: usize,
    y_offset: usize,
) -> (runs: Vec<Run<Pic::Paint>>)
    requires
        x_offset + cols <= u16::MAX,
        y_offset + rows <= u16::MAX,
    ensures
        paints(
            run_models(runs@),
            ink_of(picture),
            Placement {
                x_offset: x_offset as nat,
                y_offset: y_offset as nat,
                width: cols as nat,
                height: rows as nat,
            },
        ),
{
    let ghost area = Placement {
        x_offset: x_offset as nat,
        y_offset: y_offset as nat,
        width: cols as nat,
        height: rows as nat,
    };
    let ghost ink = ink_of(picture);
    let mut runs: Vec<Run<Pic::Paint>> = Vec::new();
    let mut row: usize = 0;
    while row < rows
        invariant
            row <= rows,
            x_offset + cols <= u16::MAX,
            y_offset + rows <= u16::MAX,
            area == (Placement {
                x_offset: x_offset as nat,
                y_offset: y_offset as nat,
                width: cols as nat,
                height: rows as nat,
            }),
            ink == ink_of(picture),
            painted_before(run_models(runs@), ink, area, row as int, 0),
        decreases rows - row,
    {
        let mut col: usize = 0;
        while col < cols
            invariant
                row < rows,
                col <= cols,
                x_offset + cols <= u16::MAX,
                y_offset + rows <= u16::MAX,
                area == (Placement {
                    x_offset: x_offset as nat,
                    y_offset: y_offset as nat,
                    width: cols as nat,
                    height: rows as nat,
                }),
                ink == ink_of(picture),
                painted_before(run_models(runs@), ink, area, row as int, col as int),
            decreases cols - col,
        {
            match picture.ink_at(row, col) {
                None => {
                    proof {
                        lemma_pass_blank(run_models(runs@), ink, area, row as int, col as int);
                    }
                    col = col + 1;
                },
                Some((glyph, paint)) => {
                    let start: usize = col;
                    let mut glyphs: Vec<u8> = Vec::new();
                    glyphs.push(glyph);
                    col = col + 1;
                    let mut open: bool = true;
                    while open && col < cols
                        invariant
                            row < rows,
                            start < col <= cols,
                            ink == ink_of(picture),
                            glyphs@.len() == col - start,
                            forall|k: int|
                                0 <= k < glyphs@.len() ==> ink(row as int, start + k) == Some(
                                    (#[trigger] glyphs@[k], paint),
                                ),
                            !open && col < cols ==> match ink(row as int, col as int) {
                                Some((_, other)) => other != paint,
                                None => true,
                            },
                        decreases cols - col + if open { 1int } else { 0int },
                    {
                        match picture.ink_at(row, col) {
                            Some((next, other)) => {
                                if Pic::same_paint(&paint, &other) {
                                    glyphs.push(next);
                                    col = col + 1;
                                } else {
                                    open = false;
                                }
                            },
                            None => {
                                open = false;
                            },
                        }
                    }
                    let run = Run {
                        x: (x_offset + start) as u16,
                        y: (y_offset + row) as u16,
                        paint,
                        glyphs,
                    };
                    proof {
                        lemma_take_run(run_models(runs@), ink, area, row as int, start as int, run@);
                        assert(run_models(runs@.push(run)) =~= run_models(runs@).push(run@));
                    }
                    runs.push(run);
                },
            }
        }
        proof {
            lemma_next_row(run_models(runs@), ink, area, row as int, col as int);
        }
        row = row + 1;
    }
    proof {
        lemma_painted_all(run_models(runs@), ink, area);
    }
    runs
}

/// A foreground color as red, green, blue.
pub type Rgb = (u8, u8, u8);

/// What is visible of a grid: the character and the color of every cell
/// that is not a skip cell.
pub open spec fn grid_ink(grid: Grid) -> spec_fn(int, int) -> Option<(u8, Rgb)> {
    |row: int, col: int|
        if grid.in_range(row, col) && !grid.cell(row, col).skip() {
            Some((grid.cell(row, col).ch, grid.cell(row, col).rgb))
        } else {
            None
        }
}

impl Picture for CFrame {
    type Paint = Rgb;

    open spec fn ink(&self, row: int, col: int) -> Option<(u8, Rgb)> {
        grid_ink(self@)(row, col)
    }

    fn ink_at(&self, row: usize, col: usize) -> (ink: Option<(u8, Rgb)>) {
        if self.should_skip(row, col) {
            return None;
        }
        match (self.char_at(row, col), self.rgb_at(row, col)) {
            (Some(ch), Some(rgb)) => Some((ch, rgb)),
            _ => None,
        }
    }

    fn same_paint(a: &Rgb, b: &Rgb) -> (same: bool) {
        a.0 == b.0 && a.1 == b.1 && a.2 == b.2
    }
}

/// The smaller of two numbers.
fn smaller(a: usize, b: usize) -> (m: usize)
    ensures
        m == least(a as nat, b as nat),
{
    if a < b {
        a
    } else {
        b
    }
}

/// Plans the runs of a picture of the given size on a terminal of the given
/// size.
fn plan_placed<Pic: Picture>(
    picture: &Pic,
    frame_width: usize,
    frame_height: usize,
    term_width: u16,
    term_height: u16,
) -> (runs: Vec<Run<Pic::Paint>>)
    ensures
        paints(
            run_models(runs@),
            ink_of(picture),
            placement(
                frame_width as nat,
                frame_height as nat,
                term_width as nat,
                term_height as nat,
            ),
        ),
{
    let room: usize = if term_height == 0 {
        0
    } else {
        (term_height - 1) as usize
    };
    let width: usize = smaller(frame_width, term_width as usize);
    let height: usize = smaller(frame_height, room);
    let x_offset: usize = (term_width as usize - width) / 2;
    let y_offset: usize = (room - height) / 2;
    plan_runs(picture, height, width, x_offset, y_offset)
}

/// Plans how a color grid is drawn on a terminal of `term_width` columns
/// and `term_height` rows: the runs of cells that are not skipped, row by
/// row, each run as long as its color lasts.
pub fn color_runs(cframe: &CFrame, term_width: u16, term_height: u16) -> (runs: Vec<Run<Rgb>>)
    ensures
        paints(
            run_models(runs@),
            grid_ink(cframe@),
            placement(
                cframe@.width,
                cframe@.height,
                term_width as nat,
                term_height as nat,
            ),
        ),
{
    let width: usize = cframe.width() as usize;
    let height: usize = cframe.height() as usize;
    assert(ink_of(cframe) =~= grid_ink(cframe@));
    plan_placed(cframe, width, height, term_width, term_height)
}

/// What is visible of a text: every byte of every line but the blanks.
pub open spec fn text_ink(lines: Seq<Seq<u8>>) -> spec_fn(int, int) -> Option<(u8, ())> {
    |row: int, col: int|
        if 0 <= row < lines.len() && 0 <= col < lines[row].len() && lines[row][col] != 32 {
            Some((lines[row][col], ()))
        } else {
            None
        }
}

impl<'a> Picture for TextLines<'a> {
    type Paint = ();

    open spec fn ink(&self, row: int, col: int) -> Option<(u8, ())> {
        text_ink(self.lines())(row, col)
    }

    fn ink_at(&self, row: usize, col: usize) -> (ink: Option<(u8, ())>) {
        match self.byte_at(row, col) {
            Some(b) => if b != 32 {
                Some((b, ()))
            } else {
                None
            },
            None => None,
        }
    }

    fn same_paint(a: &(), b: &()) -> (same: bool) {
        true
    }
}

/// Plans how a text frame is drawn on a terminal of `term_width` columns
/// and `term_height` rows: line by line, every stretch of bytes between
/// blanks as one run.
pub fn text_runs(content: &str, term_width: u16, term_height: u16) -> (runs: Vec<Run<()>>)
    ensures
        paints(
            run_models(runs@),
            text_ink(lines_of(content.spec_bytes())),
            placement(
                widest(lines_of(content.spec_bytes())),
                lines_of(content.spec_bytes()).len(),
                term_width as nat,
                term_height as nat,
            ),
        ),
{
    let text = TextLines::split(content.as_bytes());
    let width: usize = text.width();
    let height: usize = text.height();
    assert(ink_of(&text) =~= text_ink(lines_of(content.spec_bytes())));
    plan_placed(&text, width, height, term_width, term_height)
}

/// The runs that draw one frame.
pub enum Drawing {
    /// Runs of a color grid, each with its color.
    Color(Vec<Run<Rgb>>),
    /// Runs of a text, all in the terminal's own white.
    Text(Vec<Run<()>>),
}

/// Plans how a frame is drawn: by its color grid if it has one, by its text
/// otherwise.
pub fn frame_runs(frame: &Frame, term_width: u16, term_height: u16) -> (drawing: Drawing)
    ensures
        match drawing {
            Drawing::Color(runs) => frame.cframe matches Some(grid) && paints(
                run_models(runs@),
                grid_ink(grid@),
                placement(grid@.width, grid@.height, term_width as nat, term_height as nat),
            ),
            Drawing::Text(runs) => frame.cframe is None && paints(
                run_models(runs@),
                text_ink(lines_of(vstd::utf8::encode_utf8(frame.content@))),
                placement(
                    widest(lines_of(vstd::utf8::encode_utf8(frame.content@))),
                    lines_of(vstd::utf8::encode_utf8(frame.content@)).len(),
                    term_width as nat,
                    term_height as nat,
                ),
            ),
        },
{
    match &frame.cframe {
        Some(grid) => Drawing::Color(color_runs(grid, term_width, term_height)),
        None => Drawing::Text(text_runs(frame.content.as_str(), term_width, term_height)),
    }
}

/// Of two drawings of one picture that agree before place `m`, with runs at
/// `m` of the same start and paint, the run of the first is no shorter than
/// that of the second.
proof fn lemma_run_not_shorter<P>(
    a: Seq<RunModel<P>>,
    b: Seq<RunModel<P>>,
    picture: spec_fn(int, int) -> Option<(u8, P)>,
    area: Placement,
    m: int,
)
    requires
        paints(a, picture, area),
        paints(b, picture, area),
        0 <= m < a.len(),
        m < b.len(),
        forall|i: int| 0 <= i < m ==> a[i] == b[i],
        a[m].x == b[m].x,
        a[m].y == b[m].y,
        a[m].paint == b[m].paint,
    ensures
        a[m].glyphs.len() >= b[m].glyphs.len(),
{
    if a[m].glyphs.len() < b[m].glyphs.len() {
        let row = a[m].y - area.y_offset;
        let col = a[m].end() - area.x_offset;
        let k = a[m].glyphs.len() as int;
        assert(a[m].shows(picture, area));
        assert(b[m].shows(picture, area));
        // the second drawing goes on in the same paint where the first stops
        assert(picture(row, col) == Some((b[m].glyphs[k], b[m].paint)));
        let p = choose|p: int| 0 <= p < a.len() && (#[trigger] a[p]).covers(area, row, col);
        assert(a[p].shows(picture, area));
        if p < m {
            assert(a[p] == b[p]);
            assert(b[p].precedes(b[m]));
        } else if p == m + 1 {
            assert(a[m].precedes(a[p]));
            assert(a[m].touches(a[m + 1]));
            assert(picture(row, col) == Some((a[p].glyphs[0], a[p].paint)));
        } else if p > m + 1 {
            assert(a[m].precedes(a[m + 1]));
            assert(a[m + 1].precedes(a[p]));
            assert(a[m + 1].shows(picture, area));
        }
    }
}

/// Where the run at place `m` of one drawing starts, no later starts the run
/// at place `m` of another drawing of the same picture that agrees with it
/// before `m`; in particular the other has a run at that place.
proof fn lemma_run_starts_no_later<P>(
    a: Seq<RunModel<P>>,
    b: Seq<RunModel<P>>,
    picture: spec_fn(int, int) -> Option<(u8, P)>,
    area: Placement,
    m: int,
)
    requires
        paints(a, picture, area),
        paints(b, picture, area),
        0 <= m < a.len(),
        m <= b.len(),
        forall|i: int| 0 <= i < m ==> a[i] == b[i],
    ensures
        m < b.len(),
        b[m].y < a[m].y || (b[m].y == a[m].y && b[m].x <= a[m].x),
{
    let row = a[m].y - area.y_offset;
    let col = a[m].x - area.x_offset;
    assert(a[m].shows(picture, area));
    assert(picture(row, col) == Some((a[m].glyphs[0], a[m].paint)));
    let q = choose|q: int| 0 <= q < b.len() && (#[trigger] b[q]).covers(area, row, col);
    if q < m {
        assert(a[q] == b[q]);
        assert(a[q].precedes(a[m]));
    } else if q > m {
        assert(b[m].precedes(b[q]));
        assert(b[m].shows(picture, area));
    }
}

/// Two drawings of one picture agree on their first `n` runs.
proof fn lemma_drawings_agree<P>(
    a: Seq<RunModel<P>>,
    b: Seq<RunModel<P>>,
    picture: spec_fn(int, int) -> Option<(u8, P)>,
    area: Placement,
    n: int,
)
    requires
        paints(a, picture, area),
        paints(b, picture, area),
        0 <= n <= a.len(),
    ensures
        n <= b.len(),
        forall|i: int| 0 <= i < n ==> a[i] == b[i],
    decreases n,
{
    if n > 0 {
        let m = n - 1;
        lemma_drawings_agree(a, b, picture, area, m);
        lemma_run_starts_no_later(a, b, picture, area, m);
        assert forall|i: int| 0 <= i < m implies b[i] == a[i] by {
            assert(a[i] == b[i]);
        }
        lemma_run_starts_no_later(b, a, picture, area, m);
        assert(a[m].shows(picture, area));
        assert(b[m].shows(picture, area));
        let row = a[m].y - area.y_offset;
        let col = a[m].x - area.x_offset;
        assert(picture(row, col) == Some((a[m].glyphs[0], a[m].paint)));
        assert(picture(row, col) == Some((b[m].glyphs[0], b[m].paint)));
        lemma_run_not_shorter(a, b, picture, area, m);
        lemma_run_not_shorter(b, a, picture, area, m);
        assert forall|k: int| 0 <= k < a[m].glyphs.len() implies a[m].glyphs[k]
            == b[m].glyphs[k] by {
            assert(picture(row, col + k) == Some((a[m].glyphs[k], a[m].paint)));
            assert(picture(row, col + k) == Some((b[m].glyphs[k], b[m].paint)));
        }
        assert(a[m].glyphs =~= b[m].glyphs);
    }
}

/// A picture has one drawing only: two lists of runs that both draw exactly
/// what is visible of it are the same list.
pub proof fn lemma_drawing_unique<P>(
    a: Seq<RunModel<P>>,
    b: Seq<RunModel<P>>,
    picture: spec_fn(int, int) -> Option<(u8, P)>,
    area: Placement,
)
    requires
        paints(a, picture, area),
        paints(b, picture, area),
    ensures
        a == b,
{
    lemma_drawings_agree(a, b, picture, area, a.len() as int);
    lemma_drawings_agree(b, a, picture, area, b.len() as int);
    assert(a =~= b);
}

} // verus!
