//! Renderers draw the moves of an emulated program.
use vstd::prelude::*;

use crate::plan::PointId;

verus! {

/// How a drawn move was made.
#[derive(PartialEq, Eq, Structural, Debug, Clone, Copy)]
pub enum MoveKind {
    /// A rapid move (`G0`), drawn in red.
    Rapid,
    /// A cutting move (`G1`), drawn in green.
    Feed,
}

/// A renderer failed.
#[derive(PartialEq, Eq, Structural, Debug, Clone, Copy)]
pub enum RenderError {
    /// The renderer has no document to draw into or to write out.
    NoDocument,
    /// The picture could not be encoded.
    Image,
    /// The encoded picture is too long to be written out.
    TooLarge,
}

/// The renderer that draws nothing. It stands in where no picture is wanted.
#[derive(PartialEq, Eq, Structural, Debug, Clone, Copy)]
pub struct NullRenderer {}

impl NullRenderer {
    pub fn new() -> (r: NullRenderer)
        ensures
            r == (NullRenderer {}),
    {
        NullRenderer {}
    }

    /// Draws nothing, and succeeds.
    pub fn draw_line(&mut self, start: PointId, end: PointId, kind: MoveKind) -> (r: Result<(), RenderError>)
        ensures
            r == Ok::<(), RenderError>(()),
            *final(self) == *old(self),
    {
        Ok(())
    }

    /// Writes nothing, and succeeds.
    pub fn to_file(&mut self, file: &str) -> (r: Result<(), RenderError>)
        ensures
            r == Ok::<(), RenderError>(()),
            *final(self) == *old(self),
    {
        Ok(())
    }

    /// There is no picture: the text says so.
    pub fn to_img_url(&mut self) -> (r: Result<String, RenderError>)
        ensures
            r matches Ok(s) && s@ == "Invalid Renderer"@,
            *final(self) == *old(self),
    {
        Ok(String::from_str("Invalid Renderer"))
    }
}

} // verus!
