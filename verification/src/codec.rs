//! The `.cframe` byte format: decoding to a color grid and to plain text.
//!
//! A frame file is an 8-byte header, the width and the height as
//! little-endian 32-bit numbers, followed by four bytes per cell in
//! row-major order: the character, then red, green and blue. A file may end
//! in a background plane of three bytes per cell, either directly after the
//! cells or behind one flag byte whose lowest bit is set.

use crate::grid::{grid_of_planes, lemma_cell_index, plane_bytes, CFrame, Grid};
use cascii_core_view::ParseError;
use vstd::prelude::*;

verus! {

/// Why a buffer is not a frame.
#[derive(Clone, Copy, Debug, PartialEq, Eq, Structural)]
pub enum FormatError {
    /// The buffer is shorter than the header: `actual` bytes where at least
    /// `expected` are needed.
    Truncated { expected: u128, actual: usize },
    /// The header declares a width or a height of 0.
    InvalidDimensions { width: u32, height: u32 },
    /// The buffer holds fewer cells than the header declares: `actual`
    /// bytes where header and cells take `expected`.
    SizeMismatch { expected: u128, actual: usize },
    /// The decoder found a fault that only a blob of several frames can
    /// have. No single frame is rejected for it.
    Inconsistent,
}

/// Length of the header in bytes.
pub const HEADER_LEN: usize = 8;

/// The little-endian 32-bit number in the four bytes from `at`.
pub open spec fn le_u32(data: Seq<u8>, at: int) -> nat {
    (data[at] as nat) + 256 * (data[at + 1] as nat) + 65536 * (data[at + 2] as nat) + 16777216
        * (data[at + 3] as nat)
}

/// The width that the header declares.
pub open spec fn header_width(data: Seq<u8>) -> nat {
    le_u32(data, 0)
}

/// The height that the header declares.
pub open spec fn header_height(data: Seq<u8>) -> nat {
    le_u32(data, 4)
}

/// Number of cells that the header declares.
pub open spec fn cell_count(data: Seq<u8>) -> nat {
    header_width(data) * header_height(data)
}

/// Length of the header and the cells together.
pub open spec fn body_len(data: Seq<u8>) -> nat {
    8 + 4 * cell_count(data)
}

/// The reason for which `data` is rejected, if it is.
pub open spec fn format_error(data: Seq<u8>) -> Option<FormatError> {
    if data.len() < 8 {
        Some(FormatError::Truncated { expected: 8, actual: data.len() as usize })
    } else if header_width(data) == 0 || header_height(data) == 0 {
        Some(
            FormatError::InvalidDimensions {
                width: header_width(data) as u32,
                height: header_height(data) as u32,
            },
        )
    } else if data.len() < body_len(data) {
        Some(
            FormatError::SizeMismatch {
                expected: body_len(data) as u128,
                actual: data.len() as usize,
            },
        )
    } else {
        None
    }
}

/// The character plane: the first byte of every cell.
pub open spec fn char_plane(data: Seq<u8>) -> Seq<u8> {
    Seq::new(cell_count(data), |i: int| data[8 + 4 * i])
}

/// The color plane: the three bytes behind the character of every cell.
pub open spec fn rgb_plane(data: Seq<u8>) -> Seq<u8> {
    Seq::new(3 * cell_count(data), |j: int| data[8 + 4 * (j / 3) + 1 + j % 3])
}

/// Where the background plane starts, if the buffer carries one: behind a
/// flag byte with its lowest bit set when more than a plane follows the
/// cells, directly behind the cells when exactly a plane follows.
pub open spec fn background_start(data: Seq<u8>) -> Option<int> {
    let plane = 3 * cell_count(data);
    let trailing = data.len() - body_len(data);
    if trailing > plane && data[body_len(data) as int] & 1 != 0 {
        Some(body_len(data) as int + 1)
    } else if trailing == plane {
        Some(body_len(data) as int)
    } else {
        None
    }
}

/// The background plane, if the buffer carries one.
pub open spec fn background_plane(data: Seq<u8>) -> Option<Seq<u8>> {
    match background_start(data) {
        Some(start) => Some(data.subrange(start, start + 3 * cell_count(data))),
        None => None,
    }
}

/// The grid that a well-formed buffer encodes.
pub open spec fn decoded_grid(data: Seq<u8>) -> Grid {
    grid_of_planes(
        header_width(data),
        header_height(data),
        char_plane(data),
        rgb_plane(data),
        background_plane(data),
    )
}

/// What decoding `data` gives: its grid, or the reason for its rejection.
pub open spec fn decode(data: Seq<u8>) -> Result<Grid, FormatError> {
    match format_error(data) {
        Some(e) => Err(e),
        None => Ok(decoded_grid(data)),
    }
}

/// The text that a well-formed buffer encodes: row after row, every byte as
/// the character of the same code, every row closed by a line feed.
pub open spec fn decoded_text(data: Seq<u8>) -> Seq<char> {
    let width = header_width(data) as int;
    Seq::new(
        header_height(data) * (header_width(data) + 1),
        |k: int|
            if k % (width + 1) == width {
                '\n'
            } else {
                data[8 + 4 * ((k / (width + 1)) * width + k % (width + 1))] as char
            },
    )
}

/// What text extraction gives for `data`.
pub open spec fn decode_text(data: Seq<u8>) -> Result<Seq<char>, FormatError> {
    match format_error(data) {
        Some(e) => Err(e),
        None => Ok(decoded_text(data)),
    }
}

/// The character of a newline-delimited text at `(row, col)`, for rows of
/// `width` characters.
pub open spec fn text_char_at(text: Seq<char>, width: nat, row: int, col: int) -> char {
    text[row * (width + 1) + col]
}

/// The declared cells can be addressed on this machine.
pub open spec fn addressable(data: Seq<u8>) -> bool {
    data.len() >= 8 ==> body_len(data) <= usize::MAX
}

/// The planes of a frame as the decoder hands them over.
pub(crate) struct RawFrame {
    pub width: u32,
    pub height: u32,
    pub chars: Vec<u8>,
    pub rgb: Vec<u8>,
    pub background: Option<Vec<u8>>,
}

/// Calls `cascii_core_view::parse_cframe`.
///
/// Trusted: the call rejects a buffer for the first of these reasons that
/// applies: it is shorter than the header, a declared dimension is 0, it is
/// shorter than header and cells together; the error carries the lengths or
/// the dimensions that it found. Otherwise it returns the declared
/// dimensions, the first byte of every cell as the character plane, the
/// other three as the color plane, and the background plane where one
/// follows the cells. The multiplications on the declared sizes are
/// unchecked there, so the caller keeps them in range.
#[verifier::external_body]
fn read_frame(data: &[u8]) -> (r: Result<RawFrame, FormatError>)
    requires
        addressable(data@),
    ensures
        match r {
            Ok(raw) => {
                &&& format_error(data@) is None
                &&& raw.width == header_width(data@)
                &&& raw.height == header_height(data@)
                &&& raw.chars@ == char_plane(data@)
                &&& raw.rgb@ == rgb_plane(data@)
                &&& plane_bytes(raw.background) == background_plane(data@)
            },
            Err(e) => format_error(data@) == Some(e),
        },
{
    match cascii_core_view::parse_cframe(data) {
        Ok(d) => Ok(
            RawFrame { width: d.width, height: d.height, chars: d.chars, rgb: d.rgb, background: d.bg_rgb },
        ),
        Err(ParseError::FileTooSmall { expected, actual }) => Err(FormatError::Truncated { expected: expected as u128, actual }),
        Err(ParseError::InvalidDimensions { width, height }) => Err(FormatError::InvalidDimensions { width, height }),
        Err(ParseError::SizeMismatch { expected, actual }) => Err(FormatError::SizeMismatch { expected: expected as u128, actual }),
        Err(ParseError::InvalidFrameCount { .. }) => Err(FormatError::Inconsistent),
        Err(ParseError::FrameCountMismatch { .. }) => Err(FormatError::Inconsistent),
        Err(ParseError::InvalidExtensionFlags { .. }) => Err(FormatError::Inconsistent),
    }
}

/// Calls `cascii_core_view::parse_cframe_text`.
///
/// Trusted: the call rejects a buffer as `parse_cframe` does, with the same
/// error, and otherwise returns every row's characters, each byte as the character of the same
/// code, with a line feed after every row. The multiplications on the
/// declared sizes are unchecked there, so the caller keeps them in range.
#[verifier::external_body]
fn read_text(data: &[u8]) -> (r: Result<String, FormatError>)
    requires
        addressable(data@),
    ensures
        match r {
            Ok(text) => format_error(data@) is None && text@ == decoded_text(data@),
            Err(e) => format_error(data@) == Some(e),
        },
{
    match cascii_core_view::parse_cframe_text(data) {
        Ok(text) => Ok(text),
        Err(ParseError::FileTooSmall { expected, actual }) => Err(FormatError::Truncated { expected: expected as u128, actual }),
        Err(ParseError::InvalidDimensions { width, height }) => Err(FormatError::InvalidDimensions { width, height }),
        Err(ParseError::SizeMismatch { expected, actual }) => Err(FormatError::SizeMismatch { expected: expected as u128, actual }),
        Err(ParseError::InvalidFrameCount { .. }) => Err(FormatError::Inconsistent),
        Err(ParseError::FrameCountMismatch { .. }) => Err(FormatError::Inconsistent),
        Err(ParseError::InvalidExtensionFlags { .. }) => Err(FormatError::Inconsistent),
    }
}

/// Reads the little-endian 32-bit number in the four bytes from `at`.
fn read_le_u32(data: &[u8], at: usize) -> (v: u32)
    requires
        at + 4 <= data@.len(),
    ensures
        v == le_u32(data@, at as int),
{
    let b0: u64 = data[at] as u64;
    let b1: u64 = data[at + 1] as u64;
    let b2: u64 = data[at + 2] as u64;
    let b3: u64 = data[at + 3] as u64;
    let v: u64 = b0 + 256 * b1 + 65536 * b2 + 16777216 * b3;
    v as u32
}

/// The rejection of a buffer that has a header but not the cells that the
/// header declares. Every other buffer is left to the decoder, which can
/// address the cells of each.
fn missing_cells(data: &[u8]) -> (e: Option<FormatError>)
    ensures
        e is Some <==> data@.len() >= 8 && body_len(data@) > data@.len(),
        e is Some ==> format_error(data@) == e,
        e is None ==> addressable(data@),
{
    let len: usize = data.len();
    if len < HEADER_LEN {
        return None;
    }
    let width: u128 = read_le_u32(data, 0) as u128;
    let height: u128 = read_le_u32(data, 4) as u128;
    assert(width * height <= 0xffff_ffff * 0xffff_ffff) by (nonlinear_arith)
        requires
            width <= 0xffff_ffff,
            height <= 0xffff_ffff,
    ;
    let needed: u128 = 8 + 4 * (width * height);
    if needed <= len as u128 {
        return None;
    }
    assert(width != 0 && height != 0) by (nonlinear_arith)
        requires
            8 + 4 * (width * height) > 8,
    ;
    Some(FormatError::SizeMismatch { expected: needed, actual: len })
}

/// What [`parse_cframe`] may return for a buffer that holds `data`.
pub open spec fn parse_cframe_returns(data: Seq<u8>, r: Result<CFrame, FormatError>) -> bool {
    match r {
        Ok(frame) => decode(data) == Ok::<Grid, FormatError>(frame@),
        Err(e) => decode(data) == Err::<Grid, FormatError>(e),
    }
}

/// Decodes a frame file into its color grid.
///
/// The buffer is rejected as `Truncated` when it is shorter than the header,
/// else as `InvalidDimensions` when a declared dimension is 0, else as
/// `SizeMismatch` when it is shorter than the header and the declared cells
/// together; each error says what was found. Every other buffer decodes to
/// the grid it encodes.
pub fn parse_cframe(data: &[u8]) -> (r: Result<CFrame, FormatError>)
    ensures
        parse_cframe_returns(data@, r),
        r matches Ok(frame) ==> frame@.wf(),
{
    if let Some(e) = missing_cells(data) {
        return Err(e);
    }
    match read_frame(data) {
        Ok(raw) => {
            match CFrame::from_planes(raw.width, raw.height, raw.chars, raw.rgb, raw.background) {
                Some(frame) => Ok(frame),
                None => Err(FormatError::Inconsistent),
            }
        },
        Err(e) => Err(e),
    }
}

/// Extracts the plain text of a frame file: its rows of characters, each
/// closed by a line feed. A buffer is rejected exactly as [`parse_cframe`]
/// rejects it.
pub fn parse_cframe_text(data: &[u8]) -> (r: Result<String, FormatError>)
    ensures
        match r {
            Ok(text) => decode_text(data@) == Ok::<Seq<char>, FormatError>(text@),
            Err(e) => decode_text(data@) == Err::<Seq<char>, FormatError>(e),
        },
{
    if let Some(e) = missing_cells(data) {
        return Err(e);
    }
    read_text(data)
}

/// Decoding is a function of the bytes alone: whatever two runs of the
/// decoder return for the same bytes, they return the same grid, cell for
/// cell, or reject the buffer for the same reason.
pub proof fn lemma_decode_deterministic(
    data: Seq<u8>,
    first: Result<CFrame, FormatError>,
    second: Result<CFrame, FormatError>,
)
    requires
        parse_cframe_returns(data, first),
        parse_cframe_returns(data, second),
    ensures
        first is Ok <==> second is Ok,
        first matches Ok(a) ==> second matches Ok(b) ==> a@ == b@,
        first matches Err(e) ==> second matches Err(f) ==> e == f,
{
}

/// In every well-formed buffer the extracted text shows, at every position
/// of the grid, the character that the grid holds there; every row of the
/// text ends in a line feed.
pub proof fn lemma_text_matches_grid(data: Seq<u8>, row: int, col: int)
    requires
        format_error(data) is None,
        0 <= row < header_height(data),
        0 <= col < header_width(data),
    ensures
        decoded_grid(data).wf(),
        decoded_grid(data).in_range(row, col),
        decoded_text(data).len() == header_height(data) * (header_width(data) + 1),
        0 <= row * (header_width(data) + 1) + col < decoded_text(data).len(),
        text_char_at(decoded_text(data), header_width(data), row, col) == decoded_grid(data).cell(
            row,
            col,
        ).ch as char,
        text_char_at(decoded_text(data), header_width(data), row, header_width(data) as int)
            == '\n',
{
    let width = header_width(data);
    let height = header_height(data);
    let stride = width + 1;
    lemma_cell_index(width, height, row, col);
    lemma_cell_index(stride, height, row, col);
    lemma_cell_index(stride, height, row, width as int);
    assert(stride * height == height * stride) by (nonlinear_arith);
    assert(decoded_text(data).len() == height * stride);
    let at = row * stride + col;
    assert(0 <= at < decoded_text(data).len());
    assert(at / (stride as int) == row && at % (stride as int) == col);
    let end = row * stride + width;
    assert(0 <= end < decoded_text(data).len());
    assert(end / (stride as int) == row && end % (stride as int) == width);
    assert(decoded_grid(data).cells.len() == width * height);
    assert(decoded_grid(data).cell(row, col).ch == data[8 + 4 * (row * width + col)]);
    assert(decoded_text(data)[at] == data[8 + 4 * (row * width + col)] as char);
    assert(decoded_text(data)[end] == '\n');
}

} // verus!
