//! The DX10 extension of the DDS header: a DXGI format code, the texture's
//! dimensionality, the cubemap bit, the array size and the alpha mode.

use vstd::prelude::*;

use crate::binary::{get_u32_le, le_bytes, put_u32_le, read_le};
use crate::error::TextureError;
use crate::format::{AlphaFormat, ColorFormat, Format};

verus! {

/// A DXGI format code, as stored in a DX10 header.
#[derive(Debug, Clone, Copy, PartialEq, Eq, Structural)]
pub struct DXGIFormat(pub u32);

pub const DXGI_R8G8B8A8_UNORM: u32 = 28;
pub const DXGI_R8G8B8A8_UNORM_SRGB: u32 = 29;
pub const DXGI_BC1_UNORM: u32 = 71;
pub const DXGI_BC1_UNORM_SRGB: u32 = 72;
pub const DXGI_BC2_UNORM: u32 = 74;
pub const DXGI_BC2_UNORM_SRGB: u32 = 75;
pub const DXGI_BC3_UNORM: u32 = 77;
pub const DXGI_BC3_UNORM_SRGB: u32 = 78;
pub const DXGI_BC4_UNORM: u32 = 80;
pub const DXGI_BC4_SNORM: u32 = 81;
pub const DXGI_BC5_UNORM: u32 = 83;
pub const DXGI_BC5_SNORM: u32 = 84;
pub const DXGI_B8G8R8A8_UNORM: u32 = 87;
pub const DXGI_B8G8R8A8_UNORM_SRGB: u32 = 91;

/// The alpha mask of the 8-bit-per-channel layouts.
pub const ALPHA_MASK_8888: u32 = 0xff00_0000;

impl DXGIFormat {
    /// One of the codes that DXGI defines: 0 to 115, and 130 to 132.
    pub open spec fn is_known(self) -> bool {
        self.0 <= 115 || (130 <= self.0 <= 132)
    }
}

/// How many dimensions a DX10 texture has.
#[derive(Debug, Clone, Copy, PartialEq, Eq, Structural)]
pub enum Dimensionality {
    Texture1D,
    Texture2D,
    Texture3D,
}

/// The stored code of a dimensionality: 2, 3 or 4.
pub open spec fn dimensionality_code(d: Dimensionality) -> u32 {
    match d {
        Dimensionality::Texture1D => 2,
        Dimensionality::Texture2D => 3,
        Dimensionality::Texture3D => 4,
    }
}

/// How a DX10 texture's alpha channel is meant.
#[derive(Debug, Clone, Copy, PartialEq, Eq, Structural)]
pub enum AlphaMode {
    Unknown,
    Straight,
    Premultiplied,
    Opaque,
    Custom,
}

/// The stored code of an alpha mode: 0 to 4.
pub open spec fn alpha_mode_code(a: AlphaMode) -> u32 {
    match a {
        AlphaMode::Unknown => 0,
        AlphaMode::Straight => 1,
        AlphaMode::Premultiplied => 2,
        AlphaMode::Opaque => 3,
        AlphaMode::Custom => 4,
    }
}

/// The misc flag bit that marks a cubemap; other misc bits are ignored.
pub const MISC_TEXTURE_CUBE: u32 = 0x4;

/// The DX10 header as stored.
#[derive(Debug, Clone, Copy, PartialEq, Eq, Structural)]
pub struct DX10HeaderIntermediate {
    pub dxgi_format: DXGIFormat,
    pub dimensionality: Dimensionality,
    pub cube: bool,
    pub array_size: u32,
    pub alpha_mode: AlphaMode,
}

/// The 20 bytes of a DX10 header.
pub open spec fn dx10_bytes(h: DX10HeaderIntermediate) -> Seq<u8> {
    le_bytes(h.dxgi_format.0) + le_bytes(dimensionality_code(h.dimensionality)) + le_bytes(
        if h.cube {
            MISC_TEXTURE_CUBE
        } else {
            0
        },
    ) + le_bytes(h.array_size) + le_bytes(alpha_mode_code(h.alpha_mode))
}

impl DX10HeaderIntermediate {
    /// The stored fields at `off` make a DX10 header: a known DXGI code, a
    /// dimensionality code of 2, 3 or 4, and an alpha mode code of at most 4.
    pub open spec fn spec_valid(s: Seq<u8>, off: int) -> bool {
        &&& DXGIFormat(read_le(s, off)).is_known()
        &&& 2 <= read_le(s, off + 4) <= 4
        &&& read_le(s, off + 16) <= 4
    }

    /// The DX10 header stored at `off`, where it is valid.
    pub open spec fn spec_parse(s: Seq<u8>, off: int) -> DX10HeaderIntermediate {
        DX10HeaderIntermediate {
            dxgi_format: DXGIFormat(read_le(s, off)),
            dimensionality: if read_le(s, off + 4) == 2 {
                Dimensionality::Texture1D
            } else if read_le(s, off + 4) == 3 {
                Dimensionality::Texture2D
            } else {
                Dimensionality::Texture3D
            },
            cube: read_le(s, off + 8) & MISC_TEXTURE_CUBE != 0,
            array_size: read_le(s, off + 12),
            alpha_mode: if read_le(s, off + 16) == 0 {
                AlphaMode::Unknown
            } else if read_le(s, off + 16) == 1 {
                AlphaMode::Straight
            } else if read_le(s, off + 16) == 2 {
                AlphaMode::Premultiplied
            } else if read_le(s, off + 16) == 3 {
                AlphaMode::Opaque
            } else {
                AlphaMode::Custom
            },
        }
    }

    /// Reads the DX10 header at `off`. Fails with `Header` where a code is not one DX10 defines.
    pub fn parse(bytes: &[u8], off: usize) -> (r: Result<DX10HeaderIntermediate, TextureError>)
        requires
            off + 20 <= bytes@.len(),
        ensures
            !Self::spec_valid(bytes@, off as int) ==> r is Err && r->Err_0 is Header,
            Self::spec_valid(bytes@, off as int) ==> r == Ok::<DX10HeaderIntermediate, TextureError>(
                Self::spec_parse(bytes@, off as int),
            ),
    {
        let _len = bytes.len();
        let code = get_u32_le(bytes, off);
        if !(code <= 115 || (130 <= code && code <= 132)) {
            return Err(TextureError::Header("unknown DXGI format"));
        }
        let dimensionality = match get_u32_le(bytes, off + 4) {
            2 => Dimensionality::Texture1D,
            3 => Dimensionality::Texture2D,
            4 => Dimensionality::Texture3D,
            _ => return Err(TextureError::Header("unknown DX10 dimensionality")),
        };
        let cube = get_u32_le(bytes, off + 8) & MISC_TEXTURE_CUBE != 0;
        let array_size = get_u32_le(bytes, off + 12);
        let alpha_mode = match get_u32_le(bytes, off + 16) {
            0 => AlphaMode::Unknown,
            1 => AlphaMode::Straight,
            2 => AlphaMode::Premultiplied,
            3 => AlphaMode::Opaque,
            4 => AlphaMode::Custom,
            _ => return Err(TextureError::Header("unknown DX10 alpha mode")),
        };
        Ok(DX10HeaderIntermediate { dxgi_format: DXGIFormat(code), dimensionality, cube, array_size, alpha_mode })
    }

    /// Appends the header's 20 bytes.
    pub fn write(&self, out: &mut Vec<u8>)
        ensures
            final(out)@ == old(out)@ + dx10_bytes(*self),
    {
        put_u32_le(out, self.dxgi_format.0);
        let dim: u32 = match self.dimensionality {
            Dimensionality::Texture1D => 2,
            Dimensionality::Texture2D => 3,
            Dimensionality::Texture3D => 4,
        };
        put_u32_le(out, dim);
        put_u32_le(out, if self.cube { MISC_TEXTURE_CUBE } else { 0 });
        put_u32_le(out, self.array_size);
        let alpha: u32 = match self.alpha_mode {
            AlphaMode::Unknown => 0,
            AlphaMode::Straight => 1,
            AlphaMode::Premultiplied => 2,
            AlphaMode::Opaque => 3,
            AlphaMode::Custom => 4,
        };
        put_u32_le(out, alpha);
        assert(out@ =~= old(out)@ + dx10_bytes(*self));
    }
}

/// The alpha layout that a DX10 alpha mode gives the 8-bit-per-channel layouts.
pub open spec fn alpha_for_mode(mode: AlphaMode) -> AlphaFormat {
    match mode {
        AlphaMode::Straight => AlphaFormat::Straight { alpha_mask: ALPHA_MASK_8888 },
        AlphaMode::Premultiplied => AlphaFormat::Premultiplied { alpha_mask: ALPHA_MASK_8888 },
        AlphaMode::Opaque => AlphaFormat::Opaque,
        _ => AlphaFormat::Custom { alpha_mask: ALPHA_MASK_8888 },
    }
}

/// The red, green and blue masks of R8G8B8A8, with the given sRGB flag.
pub open spec fn rgba8(srgb: bool) -> ColorFormat {
    ColorFormat::RGB { r_mask: 0xff, g_mask: 0xff00, b_mask: 0xff_0000, srgb }
}

/// The red, green and blue masks of B8G8R8A8, with the given sRGB flag.
pub open spec fn bgra8(srgb: bool) -> ColorFormat {
    ColorFormat::RGB { r_mask: 0xff_0000, g_mask: 0xff00, b_mask: 0xff, srgb }
}

/// The format a DXGI code names: the BC1 to BC5 codes, and the 8-bit RGBA
/// and BGRA layouts (whose alpha follows the alpha mode). Any other code
/// fails with `Format`.
pub open spec fn spec_dxgi_to_format(code: DXGIFormat, mode: AlphaMode) -> Result<Format, TextureError> {
    let c = code.0;
    if c == DXGI_BC1_UNORM || c == DXGI_BC1_UNORM_SRGB {
        Ok(Format::BC1 { srgb: c == DXGI_BC1_UNORM_SRGB })
    } else if c == DXGI_BC2_UNORM || c == DXGI_BC2_UNORM_SRGB {
        Ok(Format::BC2 { srgb: c == DXGI_BC2_UNORM_SRGB })
    } else if c == DXGI_BC3_UNORM || c == DXGI_BC3_UNORM_SRGB {
        Ok(Format::BC3 { srgb: c == DXGI_BC3_UNORM_SRGB })
    } else if c == DXGI_BC4_UNORM || c == DXGI_BC4_SNORM {
        Ok(Format::BC4 { signed: c == DXGI_BC4_SNORM })
    } else if c == DXGI_BC5_UNORM || c == DXGI_BC5_SNORM {
        Ok(Format::BC5 { signed: c == DXGI_BC5_SNORM })
    } else if c == DXGI_R8G8B8A8_UNORM || c == DXGI_R8G8B8A8_UNORM_SRGB {
        Ok(
            Format::Uncompressed {
                pitch: 4,
                color_format: rgba8(c == DXGI_R8G8B8A8_UNORM_SRGB),
                alpha_format: alpha_for_mode(mode),
            },
        )
    } else if c == DXGI_B8G8R8A8_UNORM || c == DXGI_B8G8R8A8_UNORM_SRGB {
        Ok(
            Format::Uncompressed {
                pitch: 4,
                color_format: bgra8(c == DXGI_B8G8R8A8_UNORM_SRGB),
                alpha_format: alpha_for_mode(mode),
            },
        )
    } else {
        Err(TextureError::Format("unsupported DXGI format"))
    }
}

fn alpha_for_mode_exec(mode: AlphaMode) -> (r: AlphaFormat)
    ensures
        r == alpha_for_mode(mode),
{
    match mode {
        AlphaMode::Straight => AlphaFormat::Straight { alpha_mask: ALPHA_MASK_8888 },
        AlphaMode::Premultiplied => AlphaFormat::Premultiplied { alpha_mask: ALPHA_MASK_8888 },
        AlphaMode::Opaque => AlphaFormat::Opaque,
        _ => AlphaFormat::Custom { alpha_mask: ALPHA_MASK_8888 },
    }
}

impl DXGIFormat {
    /// The format this code names under `mode` (see [`spec_dxgi_to_format`]).
    pub fn as_format(&self, mode: AlphaMode) -> (r: Result<Format, TextureError>)
        ensures
            r == spec_dxgi_to_format(*self, mode),
    {
        let c = self.0;
        if c == DXGI_BC1_UNORM || c == DXGI_BC1_UNORM_SRGB {
            Ok(Format::BC1 { srgb: c == DXGI_BC1_UNORM_SRGB })
        } else if c == DXGI_BC2_UNORM || c == DXGI_BC2_UNORM_SRGB {
            Ok(Format::BC2 { srgb: c == DXGI_BC2_UNORM_SRGB })
        } else if c == DXGI_BC3_UNORM || c == DXGI_BC3_UNORM_SRGB {
            Ok(Format::BC3 { srgb: c == DXGI_BC3_UNORM_SRGB })
        } else if c == DXGI_BC4_UNORM || c == DXGI_BC4_SNORM {
            Ok(Format::BC4 { signed: c == DXGI_BC4_SNORM })
        } else if c == DXGI_BC5_UNORM || c == DXGI_BC5_SNORM {
            Ok(Format::BC5 { signed: c == DXGI_BC5_SNORM })
        } else if c == DXGI_R8G8B8A8_UNORM || c == DXGI_R8G8B8A8_UNORM_SRGB {
            Ok(
                Format::Uncompressed {
                    pitch: 4,
                    color_format: ColorFormat::RGB {
                        r_mask: 0xff,
                        g_mask: 0xff00,
                        b_mask: 0xff_0000,
                        srgb: c == DXGI_R8G8B8A8_UNORM_SRGB,
                    },
                    alpha_format: alpha_for_mode_exec(mode),
                },
            )
        } else if c == DXGI_B8G8R8A8_UNORM || c == DXGI_B8G8R8A8_UNORM_SRGB {
            Ok(
                Format::Uncompressed {
                    pitch: 4,
                    color_format: ColorFormat::RGB {
                        r_mask: 0xff_0000,
                        g_mask: 0xff00,
                        b_mask: 0xff,
                        srgb: c == DXGI_B8G8R8A8_UNORM_SRGB,
                    },
                    alpha_format: alpha_for_mode_exec(mode),
                },
            )
        } else {
            Err(TextureError::Format("unsupported DXGI format"))
        }
    }
}

/// The DX10 alpha mode that stores an alpha layout, where the 8-bit layouts can
/// carry it: none, or any kind over the top byte.
pub open spec fn spec_mode_for_alpha(a: AlphaFormat) -> Option<AlphaMode> {
    match a {
        AlphaFormat::Opaque => Some(AlphaMode::Opaque),
        AlphaFormat::Custom { alpha_mask } => if alpha_mask == ALPHA_MASK_8888 {
            Some(AlphaMode::Custom)
        } else {
            None
        },
        AlphaFormat::Straight { alpha_mask } => if alpha_mask == ALPHA_MASK_8888 {
            Some(AlphaMode::Straight)
        } else {
            None
        },
        AlphaFormat::Premultiplied { alpha_mask } => if alpha_mask == ALPHA_MASK_8888 {
            Some(AlphaMode::Premultiplied)
        } else {
            None
        },
    }
}

/// The DXGI code and alpha mode that store `format`: the BC1 to BC5 codes
/// (with unknown alpha mode), and the 8-bit RGBA and BGRA layouts. Any other
/// format fails with `Format`.
pub open spec fn spec_dxgi_from_format(format: Format) -> Result<(DXGIFormat, AlphaMode), TextureError> {
    match format {
        Format::BC1 { srgb } => Ok((DXGIFormat(if srgb { DXGI_BC1_UNORM_SRGB } else { DXGI_BC1_UNORM }), AlphaMode::Unknown)),
        Format::BC2 { srgb } => Ok((DXGIFormat(if srgb { DXGI_BC2_UNORM_SRGB } else { DXGI_BC2_UNORM }), AlphaMode::Unknown)),
        Format::BC3 { srgb } => Ok((DXGIFormat(if srgb { DXGI_BC3_UNORM_SRGB } else { DXGI_BC3_UNORM }), AlphaMode::Unknown)),
        Format::BC4 { signed } => Ok((DXGIFormat(if signed { DXGI_BC4_SNORM } else { DXGI_BC4_UNORM }), AlphaMode::Unknown)),
        Format::BC5 { signed } => Ok((DXGIFormat(if signed { DXGI_BC5_SNORM } else { DXGI_BC5_UNORM }), AlphaMode::Unknown)),
        Format::Uncompressed { pitch, color_format, alpha_format } => {
            if pitch == 4 && spec_mode_for_alpha(alpha_format) is Some {
                let mode = spec_mode_for_alpha(alpha_format)->Some_0;
                if color_format == rgba8(false) {
                    Ok((DXGIFormat(DXGI_R8G8B8A8_UNORM), mode))
                } else if color_format == rgba8(true) {
                    Ok((DXGIFormat(DXGI_R8G8B8A8_UNORM_SRGB), mode))
                } else if color_format == bgra8(false) {
                    Ok((DXGIFormat(DXGI_B8G8R8A8_UNORM), mode))
                } else if color_format == bgra8(true) {
                    Ok((DXGIFormat(DXGI_B8G8R8A8_UNORM_SRGB), mode))
                } else {
                    Err(TextureError::Format("no DXGI format for this layout"))
                }
            } else {
                Err(TextureError::Format("no DXGI format for this layout"))
            }
        },
    }
}

fn mode_for_alpha(a: AlphaFormat) -> (r: Option<AlphaMode>)
    ensures
        r == spec_mode_for_alpha(a),
{
    match a {
        AlphaFormat::Opaque => Some(AlphaMode::Opaque),
        AlphaFormat::Custom { alpha_mask } => if alpha_mask == ALPHA_MASK_8888 {
            Some(AlphaMode::Custom)
        } else {
            None
        },
        AlphaFormat::Straight { alpha_mask } => if alpha_mask == ALPHA_MASK_8888 {
            Some(AlphaMode::Straight)
        } else {
            None
        },
        AlphaFormat::Premultiplied { alpha_mask } => if alpha_mask == ALPHA_MASK_8888 {
            Some(AlphaMode::Premultiplied)
        } else {
            None
        },
    }
}

/// The DXGI code and alpha mode that store `format` (see [`spec_dxgi_from_format`]).
pub fn try_from_format(format: Format) -> (r: Result<(DXGIFormat, AlphaMode), TextureError>)
    ensures
        r == spec_dxgi_from_format(format),
{
    match format {
        Format::BC1 { srgb } => Ok((DXGIFormat(if srgb { DXGI_BC1_UNORM_SRGB } else { DXGI_BC1_UNORM }), AlphaMode::Unknown)),
        Format::BC2 { srgb } => Ok((DXGIFormat(if srgb { DXGI_BC2_UNORM_SRGB } else { DXGI_BC2_UNORM }), AlphaMode::Unknown)),
        Format::BC3 { srgb } => Ok((DXGIFormat(if srgb { DXGI_BC3_UNORM_SRGB } else { DXGI_BC3_UNORM }), AlphaMode::Unknown)),
        Format::BC4 { signed } => Ok((DXGIFormat(if signed { DXGI_BC4_SNORM } else { DXGI_BC4_UNORM }), AlphaMode::Unknown)),
        Format::BC5 { signed } => Ok((DXGIFormat(if signed { DXGI_BC5_SNORM } else { DXGI_BC5_UNORM }), AlphaMode::Unknown)),
        Format::Uncompressed { pitch, color_format, alpha_format } => {
            let mode = match mode_for_alpha(alpha_format) {
                Some(m) => m,
                None => return Err(TextureError::Format("no DXGI format for this layout")),
            };
            if pitch != 4 {
                return Err(TextureError::Format("no DXGI format for this layout"));
            }
            match color_format {
                ColorFormat::RGB { r_mask, g_mask, b_mask, srgb } => {
                    if r_mask == 0xff && g_mask == 0xff00 && b_mask == 0xff_0000 {
                        Ok((DXGIFormat(if srgb { DXGI_R8G8B8A8_UNORM_SRGB } else { DXGI_R8G8B8A8_UNORM }), mode))
                    } else if r_mask == 0xff_0000 && g_mask == 0xff00 && b_mask == 0xff {
                        Ok((DXGIFormat(if srgb { DXGI_B8G8R8A8_UNORM_SRGB } else { DXGI_B8G8R8A8_UNORM }), mode))
                    } else {
                        Err(TextureError::Format("no DXGI format for this layout"))
                    }
                },
                _ => Err(TextureError::Format("no DXGI format for this layout")),
            }
        },
    }
}

/// Storing a format as a DXGI code and alpha mode and reading it back gives
/// the same format, wherever a DXGI code stores it.
pub proof fn lemma_dxgi_round_trip(format: Format)
    requires
        spec_dxgi_from_format(format) is Ok,
    ensures
        spec_dxgi_to_format(spec_dxgi_from_format(format)->Ok_0.0, spec_dxgi_from_format(format)->Ok_0.1)
            == Ok::<Format, TextureError>(format),
{
}

} // verus!
