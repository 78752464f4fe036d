//! Reading, writing and shaping of GPU textures stored in DDS containers.
//!
//! The library models a texture as a format together with a tree of surfaces
//! (arrays of cubemaps of mipmaps of surfaces), decodes and encodes the DDS
//! header bit for bit, and reads or writes the surface payload that follows it.

pub mod binary;
pub mod dds;
pub mod dimensions;
pub mod dx10;
pub mod error;
pub mod format;
pub mod pixel_format;
pub mod shape;
pub mod texture;
