//! The library's single error type.

use vstd::prelude::*;

use crate::dimensions::DimensionError;
use crate::shape::ShapeError;

verus! {

/// Everything that can go wrong reading, writing or building a texture.
#[derive(Debug, Clone, Copy, PartialEq, Eq)]
pub enum TextureError {
    /// The file header is malformed: a wrong magic or size constant, or flag bits that have no meaning.
    Header(&'static str),
    /// The data ended before everything the header describes was read.
    IO(&'static str),
    /// The header describes dimensions that cannot exist.
    Dimensions(DimensionError),
    /// The surfaces do not form a valid texture shape.
    Shape(ShapeError),
    /// The format is unknown or cannot be represented.
    Format(&'static str),
    /// The texture's structure cannot be represented in the requested container.
    Capability(&'static str),
    /// Reserved for extensions.
    Other(&'static str),
}

} // verus!
