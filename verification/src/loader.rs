//! Assembly of the frame sequence from the contents of frame files.

use crate::codec::{decode, decoded_text, format_error, parse_cframe, parse_cframe_text, FormatError};
use crate::frame::Frame;
use crate::grid::Grid;
use crate::text::{normalize_frame_text, normalized};
use vstd::prelude::*;

verus! {

/// Why no frame sequence could be assembled.
#[derive(Clone, Copy, Debug, PartialEq, Eq, Structural)]
pub enum LoadError {
    /// There is neither a binary nor a text frame file.
    NoFrames,
    /// The binary file at position `file` of its list is not a frame.
    Format { file: usize, error: FormatError },
}

/// The contents of a text frame file and, where a binary file of the same
/// stem stands beside it, the contents of that file.
pub struct TextSource {
    pub content: String,
    pub color: Option<Vec<u8>>,
}

impl TextSource {
    /// The bytes of the binary file beside the text file, if there is one.
    pub open spec fn color_bytes(self) -> Option<Seq<u8>> {
        match self.color {
            Some(data) => Some(data@),
            None => None,
        }
    }

    /// The reason for which the binary file beside the text file is not a
    /// frame, if there is such a file and such a reason.
    pub open spec fn color_error(self) -> Option<FormatError> {
        match self.color {
            Some(data) => format_error(data@),
            None => None,
        }
    }
}

/// The frame of a binary file: the grid it encodes, and the text of that
/// same grid.
pub open spec fn is_binary_frame(data: Seq<u8>, frame: Frame) -> bool {
    &&& format_error(data) is None
    &&& frame.content@ == decoded_text(data)
    &&& frame.cframe matches Some(grid) && decode(data) == Ok::<Grid, FormatError>(grid@)
}

/// The frame of a text file: its text closed by a line feed, with the grid
/// of the binary file beside it if there is one.
pub open spec fn is_text_frame(source: TextSource, frame: Frame) -> bool {
    &&& frame.content@ == normalized(source.content@)
    &&& match source.color {
        Some(data) => frame.cframe matches Some(grid) && decode(data@) == Ok::<Grid, FormatError>(
            grid@,
        ),
        None => frame.cframe is None,
    }
}

/// What loading the binary files gives: a frame for each, in order, or the
/// first file that is not a frame with the reason.
pub open spec fn binary_frames_loaded(
    binary: Seq<Vec<u8>>,
    r: Result<Vec<Frame>, LoadError>,
) -> bool {
    match r {
        Ok(frames) => {
            &&& frames@.len() == binary.len()
            &&& forall|i: int|
                0 <= i < binary.len() ==> is_binary_frame(binary[i]@, #[trigger] frames@[i])
        },
        Err(LoadError::Format { file, error }) => {
            &&& file < binary.len()
            &&& format_error(binary[file as int]@) == Some(error)
            &&& forall|i: int| 0 <= i < file ==> format_error((#[trigger] binary[i])@) is None
        },
        Err(LoadError::NoFrames) => false,
    }
}

/// What loading the text files gives: a frame for each, in order, or the
/// first file whose binary companion is not a frame with the reason.
pub open spec fn text_frames_loaded(text: Seq<TextSource>, r: Result<Vec<Frame>, LoadError>) -> bool {
    match r {
        Ok(frames) => {
            &&& frames@.len() == text.len()
            &&& forall|i: int| 0 <= i < text.len() ==> is_text_frame(text[i], #[trigger] frames@[i])
        },
        Err(LoadError::Format { file, error }) => {
            &&& file < text.len()
            &&& text[file as int].color_error() == Some(error)
            &&& forall|i: int| 0 <= i < file ==> (#[trigger] text[i]).color_error() is None
        },
        Err(LoadError::NoFrames) => false,
    }
}

/// What [`load_frames`] returns. Binary files, if there are any, make the
/// whole sequence and the text files are not looked at; without them the
/// text files make it; without either there is nothing to play.
pub open spec fn frames_loaded(
    binary: Seq<Vec<u8>>,
    text: Seq<TextSource>,
    r: Result<Vec<Frame>, LoadError>,
) -> bool {
    if binary.len() > 0 {
        binary_frames_loaded(binary, r)
    } else if text.len() > 0 {
        text_frames_loaded(text, r)
    } else {
        r == Err::<Vec<Frame>, LoadError>(LoadError::NoFrames)
    }
}

/// Builds the frame of one binary file.
pub fn load_binary_frame(data: &[u8]) -> (r: Result<Frame, FormatError>)
    ensures
        match r {
            Ok(frame) => is_binary_frame(data@, frame),
            Err(e) => format_error(data@) == Some(e),
        },
{
    let grid = match parse_cframe(data) {
        Ok(grid) => grid,
        Err(e) => {
            return Err(e);
        },
    };
    let content = match parse_cframe_text(data) {
        Ok(content) => content,
        Err(e) => {
            return Err(e);
        },
    };
    Ok(Frame::with_color(content, grid))
}

/// Builds the frame of one text file.
pub fn load_text_frame(source: &TextSource) -> (r: Result<Frame, FormatError>)
    ensures
        match r {
            Ok(frame) => is_text_frame(*source, frame),
            Err(e) => source.color_error() == Some(e),
        },
{
    let content = normalize_frame_text(source.content.clone());
    match &source.color {
        Some(data) => match parse_cframe(data.as_slice()) {
            Ok(grid) => Ok(Frame::with_color(content, grid)),
            Err(e) => Err(e),
        },
        None => Ok(Frame::text_only(content)),
    }
}

/// Assembles the frame sequence of a directory from the contents of its
/// frame files, each list in playing order.
///
/// With at least one binary file the sequence is made of the binary files
/// alone. Otherwise it is made of the text files, each with the grid of its
/// binary companion where it has one. Loading stops at the first file that
/// is not a frame, and fails with `NoFrames` when both lists are empty.
pub fn load_frames(binary: &Vec<Vec<u8>>, text: &Vec<TextSource>) -> (r: Result<
    Vec<Frame>,
    LoadError,
>)
    ensures
        frames_loaded(binary@, text@, r),
        r matches Ok(frames) ==> frames@.len() > 0,
{
    let mut frames: Vec<Frame> = Vec::new();
    if binary.len() > 0 {
        let mut i: usize = 0;
        while i < binary.len()
            invariant
                binary@.len() > 0,
                i <= binary@.len(),
                frames@.len() == i,
                forall|j: int| 0 <= j < i ==> is_binary_frame(binary@[j]@, #[trigger] frames@[j]),
                forall|j: int| 0 <= j < i ==> format_error((#[trigger] binary@[j])@) is None,
            decreases binary@.len() - i,
        {
            match load_binary_frame(binary[i].as_slice()) {
                Ok(frame) => {
                    frames.push(frame);
                },
                Err(error) => {
                    return Err(LoadError::Format { file: i, error });
                },
            }
            i = i + 1;
        }
        return Ok(frames);
    }
    if text.len() == 0 {
        return Err(LoadError::NoFrames);
    }
    let mut i: usize = 0;
    while i < text.len()
        invariant
            binary@.len() == 0,
            i <= text@.len(),
            frames@.len() == i,
            forall|j: int| 0 <= j < i ==> is_text_frame(text@[j], #[trigger] frames@[j]),
            forall|j: int| 0 <= j < i ==> (#[trigger] text@[j]).color_error() is None,
        decreases text@.len() - i,
    {
        match load_text_frame(&text[i]) {
            Ok(frame) => {
                frames.push(frame);
            },
            Err(error) => {
                return Err(LoadError::Format { file: i, error });
            },
        }
        i = i + 1;
    }
    Ok(frames)
}

} // verus!
