//! The decoded color grid of one frame.

use vstd::prelude::*;

verus! {

/// One character position of a frame.
pub struct Cell {
    /// The character, as one byte.
    pub ch: u8,
    /// Foreground color as red, green, blue.
    pub rgb: (u8, u8, u8),
    /// Background color, where the frame carries one for every cell.
    pub background: Option<(u8, u8, u8)>,
}

impl Cell {
    /// The glyph leaves no ink: it is a blank, or its color is all but black.
    pub open spec fn blank(self) -> bool {
        self.ch == 32 || (self.rgb.0 < 5 && self.rgb.1 < 5 && self.rgb.2 < 5)
    }

    /// A skip cell is not drawn: its glyph leaves no ink and it has no
    /// background of its own.
    pub open spec fn skip(self) -> bool {
        self.blank() && self.background is None
    }
}

/// Mathematical model of a [`CFrame`]: its cells in row-major order.
pub struct Grid {
    pub width: nat,
    pub height: nat,
    pub cells: Seq<Cell>,
}

impl Grid {
    /// Both dimensions are positive and there is one cell per position.
    pub open spec fn wf(self) -> bool {
        &&& self.width > 0
        &&& self.height > 0
        &&& self.cells.len() == self.width * self.height
    }

    pub open spec fn in_range(self, row: int, col: int) -> bool {
        0 <= row < self.height && 0 <= col < self.width
    }

    /// The cell at `(row, col)`; meaningful only `in_range`.
    pub open spec fn cell(self, row: int, col: int) -> Cell {
        self.cells[row * self.width + col]
    }
}

/// Every position in range has its own place in the row-major sequence.
pub proof fn lemma_cell_index(width: nat, height: nat, row: int, col: int)
    requires
        0 <= row < height,
        0 <= col < width,
    ensures
        0 <= row * width + col < width * height,
        row * width + col >= row * width,
        (row * width + col) / (width as int) == row,
        (row * width + col) % (width as int) == col,
{
    assert(row * width + width <= height * width) by (nonlinear_arith)
        requires
            0 <= row < height,
            0 < width,
    ;
    assert(0 <= row * width) by (nonlinear_arith)
        requires
            0 <= row,
            0 < width,
    ;
    assert(width * height == height * width) by (nonlinear_arith);
    assert(row * width == width * row) by (nonlinear_arith);
    vstd::arithmetic::div_mod::lemma_fundamental_div_mod_converse(
        row * width + col,
        width as int,
        row,
        col,
    );
}

/// A decoded color grid: `width * height` cells, each with a character, a
/// foreground color and, in frames that carry them, a background color.
pub struct CFrame {
    width: u32,
    height: u32,
    chars: Vec<u8>,
    rgb: Vec<u8>,
    background: Option<Vec<u8>>,
}

impl View for CFrame {
    type V = Grid;

    closed spec fn view(&self) -> Grid {
        grid_of_planes(
            self.width as nat,
            self.height as nat,
            self.chars@,
            self.rgb@,
            plane_bytes(self.background),
        )
    }
}

impl CFrame {
    #[verifier::type_invariant]
    spec fn inv(self) -> bool {
        planes_fit(
            self.width as nat,
            self.height as nat,
            self.chars@,
            self.rgb@,
            plane_bytes(self.background),
        )
    }

    /// Builds a grid from its three planes: one character per cell, three
    /// color bytes per cell and, optionally, three background bytes per
    /// cell. Returns `None` when a dimension is 0 or a plane has the wrong
    /// length.
    pub fn from_planes(
        width: u32,
        height: u32,
        chars: Vec<u8>,
        rgb: Vec<u8>,
        background: Option<Vec<u8>>,
    ) -> (r: Option<CFrame>)
        ensures
            r is Some <==> planes_fit(
                width as nat,
                height as nat,
                chars@,
                rgb@,
                plane_bytes(background),
            ),
            r matches Some(f) ==> f@ == grid_of_planes(
                width as nat,
                height as nat,
                chars@,
                rgb@,
                plane_bytes(background),
            ) && f@.wf(),
    {
        if width == 0 || height == 0 {
            return None;
        }
        assert(width * height <= u64::MAX) by (nonlinear_arith)
            requires
                width <= u32::MAX,
                height <= u32::MAX,
        ;
        let cells: u64 = width as u64 * height as u64;
        if chars.len() as u64 != cells {
            return None;
        }
        if rgb.len() as u128 != 3 * (cells as u128) {
            return None;
        }
        match &background {
            Some(bg) => {
                if bg.len() as u128 != 3 * (cells as u128) {
                    return None;
                }
            },
            None => {},
        }
        Some(CFrame { width, height, chars, rgb, background })
    }

    /// Number of columns.
    pub fn width(&self) -> (w: u32)
        ensures
            w == self@.width,
            w > 0,
    {
        proof {
            use_type_invariant(self);
        }
        self.width
    }

    /// Number of rows.
    pub fn height(&self) -> (h: u32)
        ensures
            h == self@.height,
            h > 0,
    {
        proof {
            use_type_invariant(self);
        }
        self.height
    }

    /// Place of `(row, col)` in the row-major planes.
    fn offset(&self, row: usize, col: usize) -> (i: usize)
        requires
            self@.in_range(row as int, col as int),
        ensures
            i == row * self@.width + col,
            i < self@.cells.len(),
            self@.wf(),
            self@.cells.len() == self.chars@.len(),
            self.rgb@.len() == 3 * self.chars@.len(),
            3 * i + 2 < self.rgb@.len() <= usize::MAX,
            plane_bytes(self.background) matches Some(bg) ==> bg.len() == 3 * self.chars@.len(),
    {
        proof {
            use_type_invariant(self);
            lemma_cell_index(self@.width, self@.height, row as int, col as int);
            assert(0 <= row * self.width) by (nonlinear_arith)
                requires
                    0 <= row,
                    0 <= self.width,
            ;
            assert(self.chars.len() == self.chars@.len());
            assert(self.rgb.len() == self.rgb@.len());
        }
        row * (self.width as usize) + col
    }

    /// The character at `(row, col)`, or `None` outside the grid.
    pub fn char_at(&self, row: usize, col: usize) -> (r: Option<u8>)
        ensures
            self@.wf(),
            r == (if self@.in_range(row as int, col as int) {
                Some(self@.cell(row as int, col as int).ch)
            } else {
                None
            }),
    {
        proof {
            use_type_invariant(self);
        }
        if row < self.height as usize && col < self.width as usize {
            let cell: usize = self.offset(row, col);
            Some(self.chars[cell])
        } else {
            None
        }
    }

    /// The foreground color at `(row, col)`, or `None` outside the grid.
    pub fn rgb_at(&self, row: usize, col: usize) -> (r: Option<(u8, u8, u8)>)
        ensures
            self@.wf(),
            r == (if self@.in_range(row as int, col as int) {
                Some(self@.cell(row as int, col as int).rgb)
            } else {
                None
            }),
    {
        proof {
            use_type_invariant(self);
        }
        if row < self.height as usize && col < self.width as usize {
            let at: usize = 3 * self.offset(row, col);
            Some((self.rgb[at], self.rgb[at + 1], self.rgb[at + 2]))
        } else {
            None
        }
    }

    /// Whether the renderer leaves `(row, col)` untouched: the cell is a
    /// skip cell, or there is no such cell.
    pub fn should_skip(&self, row: usize, col: usize) -> (skip: bool)
        ensures
            self@.wf(),
            skip == (self@.in_range(row as int, col as int) ==> self@.cell(
                row as int,
                col as int,
            ).skip()),
    {
        proof {
            use_type_invariant(self);
        }
        if row < self.height as usize && col < self.width as usize {
            let cell: usize = self.offset(row, col);
            if self.background.is_some() {
                return false;
            }
            let at: usize = 3 * cell;
            self.chars[cell] == 32 || (self.rgb[at] < 5 && self.rgb[at + 1] < 5 && self.rgb[at
                + 2] < 5)
        } else {
            true
        }
    }
}

/// The bytes of an optional plane.
pub open spec fn plane_bytes(plane: Option<Vec<u8>>) -> Option<Seq<u8>> {
    match plane {
        Some(bytes) => Some(bytes@),
        None => None,
    }
}

/// Whether three planes describe a `width` by `height` grid: one character
/// and three color bytes per cell, and three background bytes per cell
/// where there is a background plane.
pub open spec fn planes_fit(
    width: nat,
    height: nat,
    chars: Seq<u8>,
    rgb: Seq<u8>,
    background: Option<Seq<u8>>,
) -> bool {
    &&& width > 0
    &&& height > 0
    &&& chars.len() == width * height
    &&& rgb.len() == 3 * chars.len()
    &&& match background {
        Some(bg) => bg.len() == 3 * chars.len(),
        None => true,
    }
}

/// The grid that three planes describe.
pub open spec fn grid_of_planes(
    width: nat,
    height: nat,
    chars: Seq<u8>,
    rgb: Seq<u8>,
    background: Option<Seq<u8>>,
) -> Grid {
    Grid {
        width,
        height,
        cells: Seq::new(
            chars.len(),
            |i: int|
                Cell {
                    ch: chars[i],
                    rgb: (rgb[3 * i], rgb[3 * i + 1], rgb[3 * i + 2]),
                    background: match background {
                        Some(bg) => Some((bg[3 * i], bg[3 * i + 1], bg[3 * i + 2])),
                        None => None,
                    },
                },
        ),
    }
}

} // verus!
