//! The DDS pixel format record: its on-disk form, the descriptor it means, and
//! the conversion of that descriptor to and from [`Format`].

use vstd::prelude::*;

use crate::binary::{get_u32_le, le_bytes, put_u32_le, read_le};
use crate::error::TextureError;
use crate::format::{AlphaFormat, ColorFormat, Format};

verus! {

broadcast use vstd::array::group_array_axioms;

/// The record carries alpha bits.
pub const PF_ALPHA_PIXELS: u32 = 0x1;
/// The pixels are alpha only.
pub const PF_ALPHA: u32 = 0x2;
/// The format is named by the four-character code.
pub const PF_FOUR_CC: u32 = 0x4;
/// The color masks are red, green and blue.
pub const PF_RGB: u32 = 0x40;
/// The color masks are Y, U and V.
pub const PF_YUV: u32 = 0x200;
/// The first color mask is luminance.
pub const PF_LUMINANCE: u32 = 0x20000;
/// Every flag bit that has a meaning.
pub const PF_KNOWN: u32 = 0x20247;

/// The size of the pixel format record, as stored in its first field.
pub const PIXEL_FORMAT_SIZE: u32 = 32;

/// A four-byte format code, usually ASCII.
#[derive(Debug, Clone, Copy, PartialEq, Eq)]
pub struct FourCC(pub [u8; 4]);

impl FourCC {
    /// The four bytes as a sequence.
    pub open spec fn bytes(self) -> Seq<u8> {
        self.0@
    }

    /// The code spelled by four ASCII characters.
    pub open spec fn tag(a: char, b: char, c: char, d: char) -> Seq<u8> {
        seq![a as u8, b as u8, c as u8, d as u8]
    }

    /// Whether this code is `[a, b, c, d]`.
    pub fn is(&self, a: u8, b: u8, c: u8, d: u8) -> (r: bool)
        ensures
            r == (self.bytes() == seq![a, b, c, d]),
    {
        let r = self.0[0] == a && self.0[1] == b && self.0[2] == c && self.0[3] == d;
        proof {
            if r {
                assert(self.bytes() =~= seq![a, b, c, d]);
            }
        }
        r
    }

    /// The code `[a, b, c, d]`.
    pub fn new(a: u8, b: u8, c: u8, d: u8) -> (r: FourCC)
        ensures
            r.bytes() == seq![a, b, c, d],
    {
        let r = FourCC([a, b, c, d]);
        assert(r.bytes() =~= seq![a, b, c, d]);
        r
    }
}

/// The pixel format record as stored: flags, code, bits per pixel and four masks.
#[derive(Debug, Clone, Copy, PartialEq, Eq)]
pub struct PixelFormatIntermediate {
    pub flags: u32,
    pub four_cc: FourCC,
    pub bit_count: u32,
    pub bitmasks: [u32; 4],
}

/// What the pixel format record describes: a format named by a code, or an
/// uncompressed layout given by bit masks.
#[derive(Debug, Clone, Copy, PartialEq, Eq)]
pub enum PixelFormat {
    FourCC(FourCC),
    Uncompressed { bit_count: u32, color_format: ColorFormat, alpha_format: AlphaFormat },
}

pub open spec fn has_flag(flags: u32, flag: u32) -> bool {
    flags & flag != 0
}

/// The 32 bytes of a pixel format record.
pub open spec fn pixel_format_bytes(p: PixelFormatIntermediate) -> Seq<u8> {
    le_bytes(PIXEL_FORMAT_SIZE) + le_bytes(p.flags) + p.four_cc.bytes() + le_bytes(p.bit_count)
        + le_bytes(p.bitmasks@[0]) + le_bytes(p.bitmasks@[1]) + le_bytes(p.bitmasks@[2])
        + le_bytes(p.bitmasks@[3])
}

impl PixelFormatIntermediate {
    /// The record stored at `off`, with flag bits that have no meaning dropped.
    pub open spec fn spec_parse(s: Seq<u8>, off: int) -> PixelFormatIntermediate {
        PixelFormatIntermediate {
            flags: read_le(s, off + 4) & PF_KNOWN,
            four_cc: FourCC([s[off + 8], s[off + 9], s[off + 10], s[off + 11]]),
            bit_count: read_le(s, off + 12),
            bitmasks: [read_le(s, off + 16), read_le(s, off + 20), read_le(s, off + 24), read_le(s, off + 28)],
        }
    }

    /// Reads the record at `off`. Fails with `Header` where its size field is not 32.
    pub fn parse(bytes: &[u8], off: usize) -> (r: Result<PixelFormatIntermediate, TextureError>)
        requires
            off + 32 <= bytes@.len(),
        ensures
            read_le(bytes@, off as int) != PIXEL_FORMAT_SIZE ==> r is Err && r->Err_0 is Header,
            read_le(bytes@, off as int) == PIXEL_FORMAT_SIZE ==> (r matches Ok(p) && p
                == Self::spec_parse(bytes@, off as int)),
    {
        let _len = bytes.len();
        if get_u32_le(bytes, off) != PIXEL_FORMAT_SIZE {
            return Err(TextureError::Header("pixel format size is not 32"));
        }
        let flags = get_u32_le(bytes, off + 4) & PF_KNOWN;
        let four_cc = FourCC([bytes[off + 8], bytes[off + 9], bytes[off + 10], bytes[off + 11]]);
        let bit_count = get_u32_le(bytes, off + 12);
        let bitmasks = [
            get_u32_le(bytes, off + 16),
            get_u32_le(bytes, off + 20),
            get_u32_le(bytes, off + 24),
            get_u32_le(bytes, off + 28),
        ];
        Ok(PixelFormatIntermediate { flags, four_cc, bit_count, bitmasks })
    }

    /// Appends the record's 32 bytes.
    pub fn write(&self, out: &mut Vec<u8>)
        ensures
            final(out)@ == old(out)@ + pixel_format_bytes(*self),
    {
        put_u32_le(out, PIXEL_FORMAT_SIZE);
        put_u32_le(out, self.flags);
        out.push(self.four_cc.0[0]);
        out.push(self.four_cc.0[1]);
        out.push(self.four_cc.0[2]);
        out.push(self.four_cc.0[3]);
        put_u32_le(out, self.bit_count);
        put_u32_le(out, self.bitmasks[0]);
        put_u32_le(out, self.bitmasks[1]);
        put_u32_le(out, self.bitmasks[2]);
        put_u32_le(out, self.bitmasks[3]);
        assert(out@ =~= old(out)@ + pixel_format_bytes(*self));
    }
}

/// The code `DX10`: the format is stored in the DX10 header that follows.
pub open spec fn tag_dx10() -> Seq<u8> {
    seq![0x44u8, 0x58, 0x31, 0x30]
}

/// The code `DXT1` (BC1).
pub open spec fn tag_dxt1() -> Seq<u8> {
    seq![0x44u8, 0x58, 0x54, 0x31]
}

/// The code `DXT3` (BC2).
pub open spec fn tag_dxt3() -> Seq<u8> {
    seq![0x44u8, 0x58, 0x54, 0x33]
}

/// The code `DXT5` (BC3).
pub open spec fn tag_dxt5() -> Seq<u8> {
    seq![0x44u8, 0x58, 0x54, 0x35]
}

/// The code `BC4U`.
pub open spec fn tag_bc4u() -> Seq<u8> {
    seq![0x42u8, 0x43, 0x34, 0x55]
}

/// The code `BC4S`.
pub open spec fn tag_bc4s() -> Seq<u8> {
    seq![0x42u8, 0x43, 0x34, 0x53]
}

/// The code `ATI2` (BC5, unsigned).
pub open spec fn tag_ati2() -> Seq<u8> {
    seq![0x41u8, 0x54, 0x49, 0x32]
}

/// The code `BC5U`.
pub open spec fn tag_bc5u() -> Seq<u8> {
    seq![0x42u8, 0x43, 0x35, 0x55]
}

/// The code `BC5S`.
pub open spec fn tag_bc5s() -> Seq<u8> {
    seq![0x42u8, 0x43, 0x35, 0x53]
}

/// The flag bit that names a color layout.
pub open spec fn color_flag(c: ColorFormat) -> u32 {
    match c {
        ColorFormat::RGB { .. } => PF_RGB,
        ColorFormat::YUV { .. } => PF_YUV,
        ColorFormat::L { .. } => PF_LUMINANCE,
        ColorFormat::NoColor => 0,
    }
}

/// The first three masks of a color layout.
pub open spec fn color_masks(c: ColorFormat) -> (u32, u32, u32) {
    match c {
        ColorFormat::RGB { r_mask, g_mask, b_mask, .. } => (r_mask, g_mask, b_mask),
        ColorFormat::YUV { y_mask, u_mask, v_mask } => (y_mask, u_mask, v_mask),
        ColorFormat::L { l_mask } => (l_mask, 0, 0),
        ColorFormat::NoColor => (0, 0, 0),
    }
}

/// The flag bit and mask of an alpha layout.
pub open spec fn alpha_bits(a: AlphaFormat) -> (u32, u32) {
    match a {
        AlphaFormat::Custom { alpha_mask } => (PF_ALPHA_PIXELS, alpha_mask),
        AlphaFormat::Straight { alpha_mask } => (PF_ALPHA_PIXELS, alpha_mask),
        AlphaFormat::Premultiplied { alpha_mask } => (PF_ALPHA_PIXELS, alpha_mask),
        AlphaFormat::Opaque => (0, 0),
    }
}

impl PixelFormat {
    /// What a stored record means: its code where the `FourCC` flag is set;
    /// otherwise the color layout of the first of the RGB, YUV and luminance
    /// flags that is set, and custom alpha in the fourth mask where either
    /// alpha flag is set.
    pub open spec fn spec_from_intermediate(p: PixelFormatIntermediate) -> PixelFormat {
        if has_flag(p.flags, PF_FOUR_CC) {
            PixelFormat::FourCC(p.four_cc)
        } else {
            let alpha_format = if has_flag(p.flags, PF_ALPHA) || has_flag(p.flags, PF_ALPHA_PIXELS) {
                AlphaFormat::Custom { alpha_mask: p.bitmasks@[3] }
            } else {
                AlphaFormat::Opaque
            };
            let color_format = if has_flag(p.flags, PF_RGB) {
                ColorFormat::RGB {
                    r_mask: p.bitmasks@[0],
                    g_mask: p.bitmasks@[1],
                    b_mask: p.bitmasks@[2],
                    srgb: false,
                }
            } else if has_flag(p.flags, PF_YUV) {
                ColorFormat::YUV {
                    y_mask: p.bitmasks@[0],
                    u_mask: p.bitmasks@[1],
                    v_mask: p.bitmasks@[2],
                }
            } else if has_flag(p.flags, PF_LUMINANCE) {
                ColorFormat::L { l_mask: p.bitmasks@[0] }
            } else {
                ColorFormat::NoColor
            };
            PixelFormat::Uncompressed { bit_count: p.bit_count, color_format, alpha_format }
        }
    }

    /// Reads the meaning of a stored record (see [`PixelFormat::spec_from_intermediate`]).
    pub fn from_intermediate(p: PixelFormatIntermediate) -> (r: PixelFormat)
        ensures
            r == Self::spec_from_intermediate(p),
    {
        if p.flags & PF_FOUR_CC != 0 {
            return PixelFormat::FourCC(p.four_cc);
        }
        let alpha_format = if p.flags & PF_ALPHA != 0 {
            AlphaFormat::Custom { alpha_mask: p.bitmasks[3] }
        } else if p.flags & PF_ALPHA_PIXELS != 0 {
            AlphaFormat::Custom { alpha_mask: p.bitmasks[3] }
        } else {
            AlphaFormat::Opaque
        };
        let color_format = if p.flags & PF_RGB != 0 {
            ColorFormat::RGB {
                r_mask: p.bitmasks[0],
                g_mask: p.bitmasks[1],
                b_mask: p.bitmasks[2],
                srgb: false,
            }
        } else if p.flags & PF_YUV != 0 {
            ColorFormat::YUV { y_mask: p.bitmasks[0], u_mask: p.bitmasks[1], v_mask: p.bitmasks[2] }
        } else if p.flags & PF_LUMINANCE != 0 {
            ColorFormat::L { l_mask: p.bitmasks[0] }
        } else {
            ColorFormat::NoColor
        };
        PixelFormat::Uncompressed { bit_count: p.bit_count, color_format, alpha_format }
    }

    /// The record that stores a pixel format: a code alone sets only the
    /// `FourCC` flag and zeroes the bit count and masks; an uncompressed layout
    /// sets the flag of its color layout, `AlphaPixels` where it has alpha, and
    /// its masks.
    pub open spec fn spec_to_intermediate(self) -> PixelFormatIntermediate {
        match self {
            PixelFormat::FourCC(four_cc) => PixelFormatIntermediate {
                flags: PF_FOUR_CC,
                four_cc,
                bit_count: 0,
                bitmasks: [0u32, 0u32, 0u32, 0u32],
            },
            PixelFormat::Uncompressed { bit_count, color_format, alpha_format } => {
                let (m0, m1, m2) = color_masks(color_format);
                let (aflag, amask) = alpha_bits(alpha_format);
                PixelFormatIntermediate {
                    flags: color_flag(color_format) | aflag,
                    four_cc: FourCC([0u8, 0u8, 0u8, 0u8]),
                    bit_count,
                    bitmasks: [m0, m1, m2, amask],
                }
            },
        }
    }

    /// The record that stores this pixel format (see [`PixelFormat::spec_to_intermediate`]).
    pub fn to_intermediate(&self) -> (r: PixelFormatIntermediate)
        ensures
            r == self.spec_to_intermediate(),
    {
        match *self {
            PixelFormat::FourCC(four_cc) => PixelFormatIntermediate {
                flags: PF_FOUR_CC,
                four_cc,
                bit_count: 0,
                bitmasks: [0u32, 0u32, 0u32, 0u32],
            },
            PixelFormat::Uncompressed { bit_count, color_format, alpha_format } => {
                let (color_flag, m0, m1, m2) = match color_format {
                    ColorFormat::RGB { r_mask, g_mask, b_mask, .. } => (PF_RGB, r_mask, g_mask, b_mask),
                    ColorFormat::YUV { y_mask, u_mask, v_mask } => (PF_YUV, y_mask, u_mask, v_mask),
                    ColorFormat::L { l_mask } => (PF_LUMINANCE, l_mask, 0u32, 0u32),
                    ColorFormat::NoColor => (0u32, 0u32, 0u32, 0u32),
                };
                let (alpha_flag, amask) = match alpha_format {
                    AlphaFormat::Custom { alpha_mask }
                    | AlphaFormat::Straight { alpha_mask }
                    | AlphaFormat::Premultiplied { alpha_mask } => (PF_ALPHA_PIXELS, alpha_mask),
                    AlphaFormat::Opaque => (0u32, 0u32),
                };
                PixelFormatIntermediate {
                    flags: color_flag | alpha_flag,
                    four_cc: FourCC([0u8, 0u8, 0u8, 0u8]),
                    bit_count,
                    bitmasks: [m0, m1, m2, amask],
                }
            },
        }
    }

    /// The format code `DX10`.
    pub open spec fn spec_is_dx10(self) -> bool {
        self matches PixelFormat::FourCC(fc) && fc.bytes() == tag_dx10()
    }

    /// Whether this is the code `DX10`, which says that a DX10 header follows.
    pub fn is_dx10(&self) -> (r: bool)
        ensures
            r == self.spec_is_dx10(),
    {
        match self {
            PixelFormat::FourCC(fc) => fc.is(0x44, 0x58, 0x31, 0x30),
            _ => false,
        }
    }

    /// The pixel format `FourCC(DX10)`.
    pub fn dx10() -> (r: PixelFormat)
        ensures
            r.spec_is_dx10(),
    {
        PixelFormat::FourCC(FourCC::new(0x44, 0x58, 0x31, 0x30))
    }

    /// The format a pixel format names: the block format of a known code,
    /// or an uncompressed format of `bit_count / 8` bytes per pixel.
    pub open spec fn spec_to_format(self) -> Result<Format, TextureError> {
        match self {
            PixelFormat::FourCC(fc) => {
                let t = fc.bytes();
                if t == tag_dx10() {
                    Err(TextureError::Format("cannot convert DX10 tag"))
                } else if t == tag_dxt1() {
                    Ok(Format::BC1 { srgb: false })
                } else if t == tag_dxt3() {
                    Ok(Format::BC2 { srgb: false })
                } else if t == tag_dxt5() {
                    Ok(Format::BC3 { srgb: false })
                } else if t == tag_bc4u() {
                    Ok(Format::BC4 { signed: false })
                } else if t == tag_bc4s() {
                    Ok(Format::BC4 { signed: true })
                } else if t == tag_ati2() || t == tag_bc5u() {
                    Ok(Format::BC5 { signed: false })
                } else if t == tag_bc5s() {
                    Ok(Format::BC5 { signed: true })
                } else {
                    Err(TextureError::Format("unknown FourCC"))
                }
            },
            PixelFormat::Uncompressed { bit_count, color_format, alpha_format } => {
                if bit_count % 8 != 0 {
                    Err(TextureError::Format("bit count is not a whole number of bytes"))
                } else {
                    Ok(
                        Format::Uncompressed {
                            pitch: (bit_count / 8) as usize,
                            color_format,
                            alpha_format,
                        },
                    )
                }
            },
        }
    }

    /// The format this pixel format names (see [`PixelFormat::spec_to_format`]).
    pub fn to_format(&self) -> (r: Result<Format, TextureError>)
        ensures
            r == self.spec_to_format(),
    {
        match *self {
            PixelFormat::FourCC(fc) => {
                if fc.is(0x44, 0x58, 0x31, 0x30) {
                    Err(TextureError::Format("cannot convert DX10 tag"))
                } else if fc.is(0x44, 0x58, 0x54, 0x31) {
                    Ok(Format::BC1 { srgb: false })
                } else if fc.is(0x44, 0x58, 0x54, 0x33) {
                    Ok(Format::BC2 { srgb: false })
                } else if fc.is(0x44, 0x58, 0x54, 0x35) {
                    Ok(Format::BC3 { srgb: false })
                } else if fc.is(0x42, 0x43, 0x34, 0x55) {
                    Ok(Format::BC4 { signed: false })
                } else if fc.is(0x42, 0x43, 0x34, 0x53) {
                    Ok(Format::BC4 { signed: true })
                } else if fc.is(0x41, 0x54, 0x49, 0x32) || fc.is(0x42, 0x43, 0x35, 0x55) {
                    Ok(Format::BC5 { signed: false })
                } else if fc.is(0x42, 0x43, 0x35, 0x53) {
                    Ok(Format::BC5 { signed: true })
                } else {
                    Err(TextureError::Format("unknown FourCC"))
                }
            },
            PixelFormat::Uncompressed { bit_count, color_format, alpha_format } => {
                if bit_count % 8 != 0 {
                    Err(TextureError::Format("bit count is not a whole number of bytes"))
                } else {
                    Ok(
                        Format::Uncompressed {
                            pitch: (bit_count / 8) as usize,
                            color_format,
                            alpha_format,
                        },
                    )
                }
            },
        }
    }

    /// The pixel format that stores `format` in a legacy header: the canonical
    /// code of each block format (BC5 unsigned as `ATI2`), or the uncompressed
    /// layout with `8 · pitch` bits per pixel.
    pub open spec fn spec_from_format(format: Format) -> Result<PixelFormat, TextureError> {
        match format {
            Format::BC1 { .. } => Ok(PixelFormat::FourCC(FourCC([0x44u8, 0x58, 0x54, 0x31]))),
            Format::BC2 { .. } => Ok(PixelFormat::FourCC(FourCC([0x44u8, 0x58, 0x54, 0x33]))),
            Format::BC3 { .. } => Ok(PixelFormat::FourCC(FourCC([0x44u8, 0x58, 0x54, 0x35]))),
            Format::BC4 { signed } => if signed {
                Ok(PixelFormat::FourCC(FourCC([0x42u8, 0x43, 0x34, 0x53])))
            } else {
                Ok(PixelFormat::FourCC(FourCC([0x42u8, 0x43, 0x34, 0x55])))
            },
            Format::BC5 { signed } => if signed {
                Ok(PixelFormat::FourCC(FourCC([0x42u8, 0x43, 0x35, 0x53])))
            } else {
                Ok(PixelFormat::FourCC(FourCC([0x41u8, 0x54, 0x49, 0x32])))
            },
            Format::Uncompressed { pitch, color_format, alpha_format } => if pitch * 8 <= u32::MAX {
                Ok(
                    PixelFormat::Uncompressed {
                        bit_count: (pitch * 8) as u32,
                        color_format,
                        alpha_format,
                    },
                )
            } else {
                Err(TextureError::Format("pixels too wide for a legacy header"))
            },
        }
    }

    /// The pixel format that stores `format` (see [`PixelFormat::spec_from_format`]).
    pub fn from_format(format: Format) -> (r: Result<PixelFormat, TextureError>)
        ensures
            r == Self::spec_from_format(format),
    {
        match format {
            Format::BC1 { .. } => Ok(PixelFormat::FourCC(FourCC([0x44u8, 0x58, 0x54, 0x31]))),
            Format::BC2 { .. } => Ok(PixelFormat::FourCC(FourCC([0x44u8, 0x58, 0x54, 0x33]))),
            Format::BC3 { .. } => Ok(PixelFormat::FourCC(FourCC([0x44u8, 0x58, 0x54, 0x35]))),
            Format::BC4 { signed } => if signed {
                Ok(PixelFormat::FourCC(FourCC([0x42u8, 0x43, 0x34, 0x53])))
            } else {
                Ok(PixelFormat::FourCC(FourCC([0x42u8, 0x43, 0x34, 0x55])))
            },
            Format::BC5 { signed } => if signed {
                Ok(PixelFormat::FourCC(FourCC([0x42u8, 0x43, 0x35, 0x53])))
            } else {
                Ok(PixelFormat::FourCC(FourCC([0x41u8, 0x54, 0x49, 0x32])))
            },
            Format::Uncompressed { pitch, color_format, alpha_format } => if pitch <= 0x1fff_ffff {
                Ok(
                    PixelFormat::Uncompressed {
                        bit_count: (pitch * 8) as u32,
                        color_format,
                        alpha_format,
                    },
                )
            } else {
                Err(TextureError::Format("pixels too wide for a legacy header"))
            },
        }
    }
}

/// Four bytes that spell the little-endian form of `v` are read back as `v`.
pub proof fn lemma_read_le_at(s: Seq<u8>, off: int, v: u32)
    requires
        0 <= off,
        off + 4 <= s.len(),
        s.subrange(off, off + 4) == le_bytes(v),
    ensures
        read_le(s, off) == v,
{
    crate::binary::lemma_le_of_bytes(v);
    assert(s[off] == s.subrange(off, off + 4)[0]);
    assert(s[off + 1] == s.subrange(off, off + 4)[1]);
    assert(s[off + 2] == s.subrange(off, off + 4)[2]);
    assert(s[off + 3] == s.subrange(off, off + 4)[3]);
}

/// How the flags of a stored uncompressed layout read back.
proof fn lemma_layout_flags(c: u32, a: u32)
    requires
        c == 0 || c == 0x40 || c == 0x200 || c == 0x20000,
        a == 0 || a == 1,
    ensures
        (c | a) & PF_KNOWN == c | a,
        (c | a) & PF_FOUR_CC == 0,
        (c | a) & PF_ALPHA == 0,
        ((c | a) & PF_ALPHA_PIXELS != 0) == (a == 1),
        ((c | a) & PF_RGB != 0) == (c == 0x40),
        ((c | a) & PF_YUV != 0) == (c == 0x200),
        ((c | a) & PF_LUMINANCE != 0) == (c == 0x20000),
{
    assert((c | a) & 0x20247u32 == c | a && (c | a) & 4u32 == 0 && (c | a) & 2u32 == 0 && (((c
        | a) & 1u32 != 0) == (a == 1u32)) && (((c | a) & 0x40u32 != 0) == (c == 0x40u32)) && (((c
        | a) & 0x200u32 != 0) == (c == 0x200u32)) && (((c | a) & 0x20000u32 != 0) == (c
        == 0x20000u32))) by (bit_vector)
        requires
            c == 0u32 || c == 0x40u32 || c == 0x200u32 || c == 0x20000u32,
            a == 0u32 || a == 1u32,
    ;
}

/// A pixel format that a stored record can express exactly: its RGB layout,
/// if any, is not marked sRGB, and its alpha, if any, is custom.
pub open spec fn is_storable(pf: PixelFormat) -> bool {
    pf matches PixelFormat::Uncompressed { color_format, alpha_format, .. } ==> {
        &&& !(color_format matches ColorFormat::RGB { srgb, .. } && srgb)
        &&& (alpha_format is Custom || alpha_format is Opaque)
    }
}

/// Storing a pixel format as the 32 bytes of its record and reading those
/// bytes back gives the same pixel format, for every pixel format that a
/// record can express.
pub proof fn lemma_pixel_format_round_trip(pf: PixelFormat)
    requires
        is_storable(pf),
    ensures
        PixelFormat::spec_from_intermediate(
            PixelFormatIntermediate::spec_parse(pixel_format_bytes(pf.spec_to_intermediate()), 0),
        ) == pf,
{
    let p = pf.spec_to_intermediate();
    let b = pixel_format_bytes(p);
    assert(b.len() == 32);
    assert(b.subrange(4, 8) =~= le_bytes(p.flags));
    assert(b.subrange(12, 16) =~= le_bytes(p.bit_count));
    assert(b.subrange(16, 20) =~= le_bytes(p.bitmasks@[0]));
    assert(b.subrange(20, 24) =~= le_bytes(p.bitmasks@[1]));
    assert(b.subrange(24, 28) =~= le_bytes(p.bitmasks@[2]));
    assert(b.subrange(28, 32) =~= le_bytes(p.bitmasks@[3]));
    lemma_read_le_at(b, 4, p.flags);
    lemma_read_le_at(b, 12, p.bit_count);
    lemma_read_le_at(b, 16, p.bitmasks@[0]);
    lemma_read_le_at(b, 20, p.bitmasks@[1]);
    lemma_read_le_at(b, 24, p.bitmasks@[2]);
    lemma_read_le_at(b, 28, p.bitmasks@[3]);
    let q = PixelFormatIntermediate::spec_parse(b, 0);
    assert(q.bitmasks@ =~= p.bitmasks@);
    match pf {
        PixelFormat::FourCC(fc) => {
            assert(4u32 & 0x20247u32 == 4u32 && 4u32 & 4u32 != 0) by (bit_vector);
            assert(q.four_cc.0@ =~= fc.0@);
            assert(q.four_cc.0 =~= fc.0);
        },
        PixelFormat::Uncompressed { color_format, alpha_format, .. } => {
            lemma_layout_flags(color_flag(color_format), alpha_bits(alpha_format).0);
        },
    }
}

} // verus!
