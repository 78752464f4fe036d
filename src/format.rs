//! The formats a surface's bytes can be in, and how many bytes a surface of
//! given dimensions takes.

use vstd::prelude::*;

use crate::dimensions::{ceil_div, Dimensions};

verus! {

/// How the alpha channel of an uncompressed format is meant.
#[derive(Debug, Clone, Copy, PartialEq, Eq, Structural)]
pub enum AlphaFormat {
    /// Any alpha channel content is being used as a 4th channel
    /// and is not intended to represent transparency (straight or premultiplied).
    /// This is the default for unknown alpha channel types.
    Custom { alpha_mask: u32 },
    /// Any alpha channel content is presumed to use straight alpha.
    Straight { alpha_mask: u32 },
    /// Any alpha channel content is using premultiplied alpha.
    Premultiplied { alpha_mask: u32 },
    /// Any alpha channel content is all set to fully opaque.
    Opaque,
}

/// The color channels of an uncompressed format, as bit masks over a pixel.
#[derive(Debug, Clone, Copy, PartialEq, Eq, Structural)]
pub enum ColorFormat {
    /// RGB color channels
    RGB { r_mask: u32, g_mask: u32, b_mask: u32, srgb: bool },
    /// YUV color channels
    YUV { y_mask: u32, u_mask: u32, v_mask: u32 },
    /// Luminance-only color channels
    L { l_mask: u32 },
    /// No color information, e.g. alpha only
    NoColor,
}

/// What the bytes of a surface hold: one of the block-compressed formats, or
/// uncompressed pixels of `pitch` bytes each.
#[derive(Debug, Clone, Copy, PartialEq, Eq, Structural)]
pub enum Format {
    BC1 { srgb: bool },
    BC2 { srgb: bool },
    BC3 { srgb: bool },
    BC4 { signed: bool },
    BC5 { signed: bool },
    Uncompressed { pitch: usize, color_format: ColorFormat, alpha_format: AlphaFormat },
}

impl Format {
    /// The bytes that one 4×4 block takes, or that one pixel takes when uncompressed.
    pub open spec fn unit_bytes(self) -> nat {
        match self {
            Format::BC1 { .. } | Format::BC4 { .. } => 8,
            Format::BC2 { .. } | Format::BC3 { .. } | Format::BC5 { .. } => 16,
            Format::Uncompressed { pitch, .. } => pitch as nat,
        }
    }

    pub open spec fn is_compressed(self) -> bool {
        !(self is Uncompressed)
    }

    /// How many units (blocks, or pixels) a surface of `dims` has.
    pub open spec fn units_for(self, dims: Dimensions) -> nat {
        if self.is_compressed() {
            ceil_div(dims.spec_width() as nat, 4) * ceil_div(dims.spec_height() as nat, 4) * (
            dims.spec_depth() as nat)
        } else {
            dims.spec_product()
        }
    }

    /// The byte size of a surface of `dims`: `8·⌈w/4⌉·⌈h/4⌉·d` for BC1 and BC4,
    /// `16·⌈w/4⌉·⌈h/4⌉·d` for BC2, BC3 and BC5, `pitch·w·h·d` uncompressed.
    pub open spec fn spec_size_for(self, dims: Dimensions) -> nat {
        self.unit_bytes() * self.units_for(dims)
    }

    /// The byte size of a surface of `dims`, or `None` where it does not fit in a `usize`.
    pub fn checked_size_for(&self, dims: Dimensions) -> (r: Option<usize>)
        requires
            dims.wf(),
        ensures
            r == (if self.spec_size_for(dims) <= usize::MAX {
                Some(self.spec_size_for(dims) as usize)
            } else {
                None
            }),
    {
        let unit: usize = match self {
            Format::BC1 { .. } | Format::BC4 { .. } => 8,
            Format::BC2 { .. } | Format::BC3 { .. } | Format::BC5 { .. } => 16,
            Format::Uncompressed { pitch, .. } => *pitch,
        };
        let (a, b, c) = match self {
            Format::Uncompressed { .. } => (dims.width(), dims.height(), dims.depth()),
            _ => {
                let bl = dims.blocks(Dimensions::_2D(4, 4));
                proof {
                    assert(bl.axes().len() == dims.spec_blocks(Dimensions::_2D(4, 4)).len());
                    assert(bl.spec_width() as nat == ceil_div(dims.spec_width() as nat, 4));
                    assert(bl.spec_height() as nat == ceil_div(dims.spec_height() as nat, 4));
                    if dims.axes().len() == 3 {
                        assert(bl.axes()[2] as nat == ceil_div(dims.spec_depth() as nat, 1));
                        assert(ceil_div(dims.spec_depth() as nat, 1) == dims.spec_depth());
                    }
                    assert(bl.spec_depth() == dims.spec_depth());
                }
                (bl.width(), bl.height(), bl.depth())
            },
        };
        proof {
            dims.lemma_axes_positive();
            assert(a >= 1 && b >= 1 && c >= 1);
            assert(self.spec_size_for(dims) == unit * a * b * c) by (nonlinear_arith)
                requires
                    self.units_for(dims) == a * b * c,
                    self.unit_bytes() == unit,
                    self.spec_size_for(dims) == self.unit_bytes() * self.units_for(dims),
            ;
        }
        let ua = match unit.checked_mul(a as usize) {
            Some(v) => v,
            None => {
                proof {
                    lemma_product_grows(unit as nat, a as nat, b as nat, c as nat);
                }
                return None;
            },
        };
        let uab = match ua.checked_mul(b as usize) {
            Some(v) => v,
            None => {
                proof {
                    lemma_product_grows(unit as nat, a as nat, b as nat, c as nat);
                }
                return None;
            },
        };
        uab.checked_mul(c as usize)
    }

    /// The byte size of a surface of `dims` (see [`Format::spec_size_for`]).
    pub fn size_for(&self, dims: Dimensions) -> (r: usize)
        requires
            dims.wf(),
            self.spec_size_for(dims) <= usize::MAX,
        ensures
            r as nat == self.spec_size_for(dims),
    {
        match self.checked_size_for(dims) {
            Some(n) => n,
            None => 0,
        }
    }
}

/// Partial products of positive factors never exceed the whole product.
proof fn lemma_product_grows(u: nat, a: nat, b: nat, c: nat)
    requires
        a >= 1,
        b >= 1,
        c >= 1,
    ensures
        u * a <= u * a * b * c,
        u * a * b <= u * a * b * c,
{
    assert(u * a <= u * a * b * c) by (nonlinear_arith)
        requires
            a >= 1,
            b >= 1,
            c >= 1,
    ;
    assert(u * a * b <= u * a * b * c) by (nonlinear_arith)
        requires
            c >= 1,
    ;
}

} // verus!
