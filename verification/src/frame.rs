//! The unit of playback: a frame's text and, where it has one, its color grid.

use crate::grid::CFrame;
use vstd::prelude::*;

verus! {

/// One frame of an animation.
pub struct Frame {
    /// The frame as newline-delimited plain text.
    pub content: String,
    /// The color grid, for frames that come with one.
    pub cframe: Option<CFrame>,
}

impl Frame {
    /// A frame that has text only.
    pub fn text_only(content: String) -> (frame: Frame)
        ensures
            frame.content == content,
            frame.cframe is None,
    {
        Frame { content, cframe: None }
    }

    /// A frame with text and a color grid.
    pub fn with_color(content: String, cframe: CFrame) -> (frame: Frame)
        ensures
            frame.content == content,
            frame.cframe == Some(cframe),
    {
        Frame { content, cframe: Some(cframe) }
    }

    /// Whether the frame carries a color grid.
    pub fn has_color(&self) -> (colored: bool)
        ensures
            colored == self.cframe is Some,
    {
        self.cframe.is_some()
    }
}

/// Whether at least one of the frames carries a color grid.
pub fn any_color(frames: &Vec<Frame>) -> (colored: bool)
    ensures
        colored == exists|i: int| 0 <= i < frames@.len() && (#[trigger] frames@[i]).cframe is Some,
{
    let mut i: usize = 0;
    while i < frames.len()
        invariant
            i <= frames@.len(),
            forall|j: int| 0 <= j < i ==> (#[trigger] frames@[j]).cframe is None,
        decreases frames@.len() - i,
    {
        if frames[i].has_color() {
            return true;
        }
        i = i + 1;
    }
    false
}

} // verus!
