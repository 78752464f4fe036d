//! The DDS container: the header as stored, the normalized header it means,
//! and reading and writing whole textures.

use vstd::prelude::*;

use crate::binary::{get_u32_le, le_bytes, put_u32_le, read_le};
use crate::dimensions::Dimensions;
use crate::dx10::{
    dx10_bytes, spec_dxgi_from_format, spec_dxgi_to_format, try_from_format, AlphaMode,
    DX10HeaderIntermediate, DXGIFormat, Dimensionality,
};
use crate::error::TextureError;
use crate::format::Format;
use crate::pixel_format::{
    pixel_format_bytes, tag_dx10, FourCC, PixelFormat, PixelFormatIntermediate, PF_FOUR_CC,
};
use crate::shape::{
    all_faces, canonical_faces, canonical_subset, cubemap_order_of, entry_views, face_index,
    lemma_bare_is_surface, lemma_canonical_faces, lemma_canonical_subset_contains,
    lemma_canonical_subset_idempotent, lemma_face_defined, lemma_get_wf, lemma_layer_defined,
    lemma_mip_defined, lemma_wf_dims, node_views, opt_nat, CubeFace,
};
use crate::texture::{
    chain_bytes, face_span, face_tree, layer_span, layer_tree, lemma_chain_bytes_grow,
    lemma_layer_tree_sizes, mip_levels, mip_span, mip_tree, opt_faces, read_error, read_shape_error,
    sizes_match, surface_at, SurfaceReader, Texture,
};
use crate::shape::{ShapeView, TextureIndex, TextureShapeNode};

verus! {

/// `DDS ` read as a little-endian integer.
pub const DDS_MAGIC: u32 = 0x2053_4444;
/// The size of the header, as stored in its second field.
pub const DDS_HEADER_SIZE: u32 = 124;
/// The bytes of the magic and the header.
pub const HEADER_LEN: usize = 128;
/// The bytes of the magic, the header and the DX10 header.
pub const DX10_HEADER_LEN: usize = 148;

pub const FLAG_CAPS: u32 = 0x1;
pub const FLAG_HEIGHT: u32 = 0x2;
pub const FLAG_WIDTH: u32 = 0x4;
pub const FLAG_PITCH: u32 = 0x8;
pub const FLAG_PIXEL_FORMAT: u32 = 0x1000;
pub const FLAG_MIPMAP_COUNT: u32 = 0x2_0000;
pub const FLAG_LINEAR_SIZE: u32 = 0x8_0000;
pub const FLAG_DEPTH: u32 = 0x80_0000;
/// Every header flag bit that has a meaning.
pub const FLAGS_KNOWN: u32 = 0x8a_100f;

pub const CAPS1_COMPLEX: u32 = 0x8;
pub const CAPS1_TEXTURE: u32 = 0x1000;
pub const CAPS1_MIPMAP: u32 = 0x40_0000;
/// Every caps1 bit that has a meaning.
pub const CAPS1_KNOWN: u32 = 0x40_1008;

pub const CAPS2_CUBEMAP: u32 = 0x200;
pub const CAPS2_CUBEMAP_POSITIVE_X: u32 = 0x400;
pub const CAPS2_CUBEMAP_NEGATIVE_X: u32 = 0x800;
pub const CAPS2_CUBEMAP_POSITIVE_Y: u32 = 0x1000;
pub const CAPS2_CUBEMAP_NEGATIVE_Y: u32 = 0x2000;
pub const CAPS2_CUBEMAP_POSITIVE_Z: u32 = 0x4000;
pub const CAPS2_CUBEMAP_NEGATIVE_Z: u32 = 0x8000;
pub const CAPS2_VOLUME: u32 = 0x20_0000;
/// Every caps2 bit that has a meaning.
pub const CAPS2_KNOWN: u32 = 0x20_fe00;

/// The DDS header as stored, field by field; reserved bytes are not kept.
#[derive(Debug, Clone, Copy, PartialEq, Eq)]
pub struct DDSHeaderIntermediate {
    pub flags: u32,
    pub height: u32,
    pub width: u32,
    pub pitch_or_linear_size: u32,
    pub depth: u32,
    pub mipmap_count: u32,
    pub pixel_format: PixelFormatIntermediate,
    pub caps1: u32,
    pub caps2: u32,
    pub caps3: u32,
    pub caps4: u32,
    pub dx10_header: Option<DX10HeaderIntermediate>,
}

/// The stored pixel format is the code `DX10`, so a DX10 header follows.
pub open spec fn announces_dx10(p: PixelFormatIntermediate) -> bool {
    p.flags & PF_FOUR_CC != 0 && p.four_cc.bytes() == tag_dx10()
}

/// `n` zero bytes.
pub open spec fn zeros(n: nat) -> Seq<u8> {
    Seq::new(n, |i: int| 0u8)
}

/// The bytes of a stored header: the magic, the 124-byte header with zeroed
/// reserved fields, and the DX10 header where there is one.
pub open spec fn header_bytes(h: DDSHeaderIntermediate) -> Seq<u8> {
    le_bytes(DDS_MAGIC) + le_bytes(DDS_HEADER_SIZE) + le_bytes(h.flags) + le_bytes(h.height)
        + le_bytes(h.width) + le_bytes(h.pitch_or_linear_size) + le_bytes(h.depth) + le_bytes(
        h.mipmap_count,
    ) + zeros(44) + pixel_format_bytes(h.pixel_format) + le_bytes(h.caps1) + le_bytes(h.caps2)
        + le_bytes(h.caps3) + le_bytes(h.caps4) + zeros(4) + match h.dx10_header {
        Some(d) => dx10_bytes(d),
        None => Seq::empty(),
    }
}

impl DDSHeaderIntermediate {
    /// The 128 bytes at the start of `s` hold a header this library accepts:
    /// the magic and size constants, a pixel format record of size 32, and no
    /// flag, caps1 or caps2 bit without a meaning; and where the pixel format
    /// announces a DX10 header, 20 more bytes that hold a valid one.
    pub open spec fn spec_valid(s: Seq<u8>) -> bool {
        &&& s.len() >= 128
        &&& read_le(s, 0) == DDS_MAGIC
        &&& read_le(s, 4) == DDS_HEADER_SIZE
        &&& read_le(s, 8) & !FLAGS_KNOWN == 0
        &&& read_le(s, 76) == crate::pixel_format::PIXEL_FORMAT_SIZE
        &&& read_le(s, 108) & !CAPS1_KNOWN == 0
        &&& read_le(s, 112) & !CAPS2_KNOWN == 0
        &&& announces_dx10(PixelFormatIntermediate::spec_parse(s, 76)) ==> s.len() >= 148
            && DX10HeaderIntermediate::spec_valid(s, 128)
    }

    /// The header stored at the start of `s`, where it is valid.
    pub open spec fn spec_parse(s: Seq<u8>) -> DDSHeaderIntermediate {
        let pixel_format = PixelFormatIntermediate::spec_parse(s, 76);
        DDSHeaderIntermediate {
            flags: read_le(s, 8),
            height: read_le(s, 12),
            width: read_le(s, 16),
            pitch_or_linear_size: read_le(s, 20),
            depth: read_le(s, 24),
            mipmap_count: read_le(s, 28),
            pixel_format,
            caps1: read_le(s, 108),
            caps2: read_le(s, 112),
            caps3: read_le(s, 116),
            caps4: read_le(s, 120),
            dx10_header: if announces_dx10(pixel_format) {
                Some(DX10HeaderIntermediate::spec_parse(s, 128))
            } else {
                None
            },
        }
    }

    /// How many bytes the stored header takes: 148 with a DX10 header, else 128.
    pub open spec fn spec_len(self) -> nat {
        if self.dx10_header is Some {
            148
        } else {
            128
        }
    }

    /// Reads the header at the start of `bytes`. Fails with `Header` where
    /// it is not valid (see [`DDSHeaderIntermediate::spec_valid`]).
    pub fn parse(bytes: &[u8]) -> (r: Result<DDSHeaderIntermediate, TextureError>)
        ensures
            !Self::spec_valid(bytes@) ==> r is Err && r->Err_0 is Header,
            Self::spec_valid(bytes@) ==> r == Ok::<DDSHeaderIntermediate, TextureError>(
                Self::spec_parse(bytes@),
            ),
    {
        if bytes.len() < HEADER_LEN {
            return Err(TextureError::Header("the header is cut short"));
        }
        if get_u32_le(bytes, 0) != DDS_MAGIC {
            return Err(TextureError::Header("the magic is not `DDS `"));
        }
        if get_u32_le(bytes, 4) != DDS_HEADER_SIZE {
            return Err(TextureError::Header("the header size is not 124"));
        }
        let flags = get_u32_le(bytes, 8);
        if flags & !FLAGS_KNOWN != 0 {
            return Err(TextureError::Header("unknown header flags"));
        }
        let pixel_format = match PixelFormatIntermediate::parse(bytes, 76) {
            Ok(p) => p,
            Err(e) => return Err(e),
        };
        let caps1 = get_u32_le(bytes, 108);
        if caps1 & !CAPS1_KNOWN != 0 {
            return Err(TextureError::Header("unknown caps1 flags"));
        }
        let caps2 = get_u32_le(bytes, 112);
        if caps2 & !CAPS2_KNOWN != 0 {
            return Err(TextureError::Header("unknown caps2 flags"));
        }
        let dx10 = pixel_format.flags & PF_FOUR_CC != 0 && pixel_format.four_cc.is(0x44, 0x58, 0x31, 0x30);
        let dx10_header = if dx10 {
            if bytes.len() < DX10_HEADER_LEN {
                return Err(TextureError::Header("the DX10 header is cut short"));
            }
            match DX10HeaderIntermediate::parse(bytes, 128) {
                Ok(d) => Some(d),
                Err(e) => return Err(e),
            }
        } else {
            None
        };
        Ok(
            DDSHeaderIntermediate {
                flags,
                height: get_u32_le(bytes, 12),
                width: get_u32_le(bytes, 16),
                pitch_or_linear_size: get_u32_le(bytes, 20),
                depth: get_u32_le(bytes, 24),
                mipmap_count: get_u32_le(bytes, 28),
                pixel_format,
                caps1,
                caps2,
                caps3: get_u32_le(bytes, 116),
                caps4: get_u32_le(bytes, 120),
                dx10_header,
            },
        )
    }

    /// The stored bytes of the header (see [`header_bytes`]).
    pub fn to_bytes(&self) -> (r: Vec<u8>)
        ensures
            r@ == header_bytes(*self),
    {
        let mut out: Vec<u8> = Vec::new();
        put_u32_le(&mut out, DDS_MAGIC);
        put_u32_le(&mut out, DDS_HEADER_SIZE);
        put_u32_le(&mut out, self.flags);
        put_u32_le(&mut out, self.height);
        put_u32_le(&mut out, self.width);
        put_u32_le(&mut out, self.pitch_or_linear_size);
        put_u32_le(&mut out, self.depth);
        put_u32_le(&mut out, self.mipmap_count);
        let ghost before_pad = out@;
        let mut i: usize = 0;
        while i < 44
            invariant
                i <= 44,
                out@ == before_pad + zeros(i as nat),
            decreases 44 - i,
        {
            out.push(0u8);
            i += 1;
            assert(out@ =~= before_pad + zeros(i as nat));
        }
        self.pixel_format.write(&mut out);
        put_u32_le(&mut out, self.caps1);
        put_u32_le(&mut out, self.caps2);
        put_u32_le(&mut out, self.caps3);
        put_u32_le(&mut out, self.caps4);
        let ghost before_tail = out@;
        let mut j: usize = 0;
        while j < 4
            invariant
                j <= 4,
                out@ == before_tail + zeros(j as nat),
            decreases 4 - j,
        {
            out.push(0u8);
            j += 1;
            assert(out@ =~= before_tail + zeros(j as nat));
        }
        match &self.dx10_header {
            Some(d) => d.write(&mut out),
            None => {},
        }
        assert(out@ =~= header_bytes(*self));
        out
    }
}

/// The caps2 bit of a cubemap face.
pub open spec fn face_bit(f: CubeFace) -> u32 {
    match f {
        CubeFace::PositiveX => CAPS2_CUBEMAP_POSITIVE_X,
        CubeFace::NegativeX => CAPS2_CUBEMAP_NEGATIVE_X,
        CubeFace::PositiveY => CAPS2_CUBEMAP_POSITIVE_Y,
        CubeFace::NegativeY => CAPS2_CUBEMAP_NEGATIVE_Y,
        CubeFace::PositiveZ => CAPS2_CUBEMAP_POSITIVE_Z,
        CubeFace::NegativeZ => CAPS2_CUBEMAP_NEGATIVE_Z,
    }
}

/// The caps2 bit of a cubemap face.
pub fn from_cubemap_face(f: CubeFace) -> (r: u32)
    ensures
        r == face_bit(f),
{
    match f {
        CubeFace::PositiveX => CAPS2_CUBEMAP_POSITIVE_X,
        CubeFace::NegativeX => CAPS2_CUBEMAP_NEGATIVE_X,
        CubeFace::PositiveY => CAPS2_CUBEMAP_POSITIVE_Y,
        CubeFace::NegativeY => CAPS2_CUBEMAP_NEGATIVE_Y,
        CubeFace::PositiveZ => CAPS2_CUBEMAP_POSITIVE_Z,
        CubeFace::NegativeZ => CAPS2_CUBEMAP_NEGATIVE_Z,
    }
}

/// The faces among the first `k` in canonical order whose caps2 bit is set.
pub open spec fn faces_in_caps(caps2: u32, k: nat) -> Seq<CubeFace>
    decreases k,
{
    if k == 0 {
        Seq::empty()
    } else {
        let f = canonical_faces()[k - 1];
        if caps2 & face_bit(f) != 0 {
            faces_in_caps(caps2, (k - 1) as nat).push(f)
        } else {
            faces_in_caps(caps2, (k - 1) as nat)
        }
    }
}

/// The faces whose caps2 bit is set, in canonical order.
pub fn to_cubemap_faces(caps2: u32) -> (r: Vec<CubeFace>)
    ensures
        r@ == faces_in_caps(caps2, 6),
{
    let all = all_faces();
    let mut out: Vec<CubeFace> = Vec::new();
    let mut k: usize = 0;
    while k < 6
        invariant
            k <= 6,
            all@ == canonical_faces(),
            out@ == faces_in_caps(caps2, k as nat),
        decreases 6 - k,
    {
        if caps2 & from_cubemap_face(all[k]) != 0 {
            out.push(all[k]);
        }
        k += 1;
    }
    out
}

/// The union of the caps2 bits of `faces`.
pub open spec fn face_bits(faces: Seq<CubeFace>) -> u32
    decreases faces.len(),
{
    if faces.len() == 0 {
        0
    } else {
        face_bits(faces.drop_last()) | face_bit(faces.last())
    }
}

fn face_bits_of(faces: &Vec<CubeFace>) -> (r: u32)
    ensures
        r == face_bits(faces@),
{
    let mut bits: u32 = 0;
    let mut i: usize = 0;
    while i < faces.len()
        invariant
            i <= faces.len(),
            bits == face_bits(faces@.take(i as int)),
        decreases faces.len() - i,
    {
        proof {
            assert(faces@.take(i + 1).drop_last() =~= faces@.take(i as int));
        }
        bits = bits | from_cubemap_face(faces[i]);
        i += 1;
    }
    assert(faces@.take(faces@.len() as int) =~= faces@);
    bits
}

/// The mip count a stored header means: its `mipmap_count` where the
/// `MipmapCount` flag is set or the count exceeds 1, and none where the count is 0.
pub open spec fn spec_header_mips(raw: DDSHeaderIntermediate) -> Option<u32> {
    if raw.mipmap_count != 0 && (raw.flags & FLAG_MIPMAP_COUNT != 0 || raw.mipmap_count > 1) {
        Some(raw.mipmap_count)
    } else {
        None
    }
}

/// The sizes a stored header gives: width, height and depth for a legacy
/// header with the `Depth` flag, width and height for one without, and as
/// many as the DX10 dimensionality says otherwise.
pub open spec fn spec_header_axes(raw: DDSHeaderIntermediate) -> Seq<u32> {
    match raw.dx10_header {
        None => if raw.flags & FLAG_DEPTH != 0 {
            seq![raw.width, raw.height, raw.depth]
        } else {
            seq![raw.width, raw.height]
        },
        Some(d) => match d.dimensionality {
            Dimensionality::Texture1D => seq![raw.width],
            Dimensionality::Texture2D => seq![raw.width, raw.height],
            Dimensionality::Texture3D => seq![raw.width, raw.height, raw.depth],
        },
    }
}

/// What a DDS file's header says: its dimensions, its mip count, its cubemap
/// faces or DX10 cube bit and array size, and its format.
#[derive(Debug)]
pub enum DDSHeader {
    Legacy {
        dimensions: Dimensions,
        mips: Option<u32>,
        faces: Option<Vec<CubeFace>>,
        format: PixelFormat,
    },
    DX10 {
        dimensions: Dimensions,
        mips: Option<u32>,
        layers: Option<u32>,
        is_cubemap: bool,
        dxgi_format: DXGIFormat,
        alpha_mode: AlphaMode,
    },
}

/// The `pitch_or_linear_size` field a header writes for `format` and `dims`,
/// with its flag: `pitch · width` under `Pitch` for uncompressed formats,
/// the surface size under `LinearSize` for block formats, and 0 with neither
/// flag where the format is unknown or the value does not fit in 32 bits.
pub open spec fn spec_linear_size(format: Result<Format, TextureError>, dims: Dimensions) -> (u32, u32) {
    match format {
        Ok(Format::Uncompressed { pitch, .. }) => if pitch * dims.spec_width() <= u32::MAX {
            (FLAG_PITCH, (pitch * dims.spec_width()) as u32)
        } else {
            (0, 0)
        },
        Ok(f) => if f.spec_size_for(dims) <= u32::MAX {
            (FLAG_LINEAR_SIZE, f.spec_size_for(dims) as u32)
        } else {
            (0, 0)
        },
        Err(_) => (0, 0),
    }
}

/// The DX10 dimensionality of a dimension.
pub open spec fn dimensionality_of(dims: Dimensions) -> Dimensionality {
    match dims {
        Dimensions::_1D(_) => Dimensionality::Texture1D,
        Dimensions::_2D(_, _) => Dimensionality::Texture2D,
        Dimensions::_3D(_, _, _) => Dimensionality::Texture3D,
    }
}

impl DDSHeader {
    pub open spec fn spec_dimensions(self) -> Dimensions {
        match self {
            DDSHeader::Legacy { dimensions, .. } => dimensions,
            DDSHeader::DX10 { dimensions, .. } => dimensions,
        }
    }

    pub open spec fn spec_mips(self) -> Option<u32> {
        match self {
            DDSHeader::Legacy { mips, .. } => mips,
            DDSHeader::DX10 { mips, .. } => mips,
        }
    }

    pub open spec fn spec_layers(self) -> Option<u32> {
        match self {
            DDSHeader::Legacy { .. } => None,
            DDSHeader::DX10 { layers, .. } => layers,
        }
    }

    /// The faces of the cubemap: those listed in a legacy header, all six in
    /// canonical order for a DX10 cubemap.
    pub open spec fn spec_faces(self) -> Option<Seq<CubeFace>> {
        match self {
            DDSHeader::Legacy { faces, .. } => opt_faces(faces),
            DDSHeader::DX10 { is_cubemap, .. } => if is_cubemap {
                Some(canonical_faces())
            } else {
                None
            },
        }
    }

    /// The texture format: the pixel format's of a legacy header, the DXGI
    /// code's of a DX10 header.
    pub open spec fn spec_format(self) -> Result<Format, TextureError> {
        match self {
            DDSHeader::Legacy { format, .. } => format.spec_to_format(),
            DDSHeader::DX10 { dxgi_format, alpha_mode, .. } => spec_dxgi_to_format(dxgi_format, alpha_mode),
        }
    }

    /// The stored header that writes this header: the flags, sizes and caps
    /// re-derived from it (`Texture` always; `Complex` with faces, mips or
    /// layers; `Mipmap` and `MipmapCount` with mips; `Depth` for three
    /// dimensions; the cubemap bits of its faces), its pixel format, or the
    /// code `DX10` and a DX10 header.
    pub open spec fn spec_to_intermediate(self) -> DDSHeaderIntermediate {
        let dims = self.spec_dimensions();
        let mips = self.spec_mips();
        let (size_flag, size) = spec_linear_size(self.spec_format(), dims);
        let mip_flag: u32 = if mips is Some { FLAG_MIPMAP_COUNT } else { 0 };
        let depth_flag: u32 = if dims is _3D { FLAG_DEPTH } else { 0 };
        let complex: u32 = if self.spec_faces() is Some || mips is Some || self.spec_layers() is Some {
            CAPS1_COMPLEX
        } else {
            0
        };
        let mip_cap: u32 = if mips is Some { CAPS1_MIPMAP } else { 0 };
        DDSHeaderIntermediate {
            flags: FLAG_CAPS | FLAG_HEIGHT | FLAG_WIDTH | FLAG_PIXEL_FORMAT | size_flag | mip_flag | depth_flag,
            height: dims.spec_height(),
            width: dims.spec_width(),
            pitch_or_linear_size: size,
            depth: if dims is _3D { dims.spec_depth() } else { 0 },
            mipmap_count: match mips {
                Some(m) => m,
                None => 0,
            },
            pixel_format: match self {
                DDSHeader::Legacy { format, .. } => format.spec_to_intermediate(),
                DDSHeader::DX10 { .. } => PixelFormat::FourCC(FourCC([0x44u8, 0x58, 0x31, 0x30])).spec_to_intermediate(),
            },
            caps1: CAPS1_TEXTURE | complex | mip_cap,
            caps2: match self.spec_faces() {
                Some(fs) => CAPS2_CUBEMAP | face_bits(fs),
                None => 0,
            },
            caps3: 0,
            caps4: 0,
            dx10_header: match self {
                DDSHeader::Legacy { .. } => None,
                DDSHeader::DX10 { layers, is_cubemap, dxgi_format, alpha_mode, .. } => Some(
                    DX10HeaderIntermediate {
                        dxgi_format,
                        dimensionality: dimensionality_of(dims),
                        cube: is_cubemap,
                        array_size: match layers {
                            Some(l) => l,
                            None => 1,
                        },
                        alpha_mode,
                    },
                ),
            },
        }
    }

    /// The dimensions of the largest surface.
    pub fn dimensions(&self) -> (r: Dimensions)
        ensures
            r == self.spec_dimensions(),
    {
        match self {
            DDSHeader::Legacy { dimensions, .. } => *dimensions,
            DDSHeader::DX10 { dimensions, .. } => *dimensions,
        }
    }

    /// The number of array layers, for a DX10 header that has them.
    pub fn layers(&self) -> (r: Option<u32>)
        ensures
            r == self.spec_layers(),
    {
        match self {
            DDSHeader::Legacy { .. } => None,
            DDSHeader::DX10 { layers, .. } => *layers,
        }
    }

    /// The number of mip levels, where the header has them.
    pub fn mips(&self) -> (r: Option<u32>)
        ensures
            r == self.spec_mips(),
    {
        match self {
            DDSHeader::Legacy { mips, .. } => *mips,
            DDSHeader::DX10 { mips, .. } => *mips,
        }
    }

    /// The cubemap faces (see [`DDSHeader::spec_faces`]).
    pub fn faces(&self) -> (r: Option<Vec<CubeFace>>)
        ensures
            opt_faces(r) == self.spec_faces(),
    {
        match self {
            DDSHeader::Legacy { faces, .. } => match faces {
                Some(f) => {
                    let mut out: Vec<CubeFace> = Vec::new();
                    let mut i: usize = 0;
                    while i < f.len()
                        invariant
                            i <= f.len(),
                            out@ == f@.take(i as int),
                        decreases f.len() - i,
                    {
                        out.push(f[i]);
                        i += 1;
                        assert(out@ =~= f@.take(i as int));
                    }
                    assert(f@.take(f@.len() as int) =~= f@);
                    Some(out)
                },
                None => None,
            },
            DDSHeader::DX10 { is_cubemap, .. } => if *is_cubemap {
                Some(all_faces())
            } else {
                None
            },
        }
    }

    /// The texture format (see [`DDSHeader::spec_format`]).
    pub fn format(&self) -> (r: Result<Format, TextureError>)
        ensures
            r == self.spec_format(),
    {
        match self {
            DDSHeader::Legacy { format, .. } => format.to_format(),
            DDSHeader::DX10 { dxgi_format, alpha_mode, .. } => dxgi_format.as_format(*alpha_mode),
        }
    }

    /// The stored header that writes this header (see [`DDSHeader::spec_to_intermediate`]).
    pub fn to_intermediate(&self) -> (r: DDSHeaderIntermediate)
        requires
            self.spec_dimensions().wf(),
        ensures
            r == self.spec_to_intermediate(),
    {
        let dims = self.dimensions();
        let mips = self.mips();
        let faces = self.faces();
        let layers = self.layers();
        let (size_flag, size): (u32, u32) = match self.format() {
            Ok(Format::Uncompressed { pitch, .. }) => {
                match (pitch as u64).checked_mul(dims.width() as u64) {
                    Some(v) => if v <= 0xffff_ffffu64 {
                        (FLAG_PITCH, v as u32)
                    } else {
                        (0u32, 0u32)
                    },
                    None => (0u32, 0u32),
                }
            },
            Ok(f) => match f.checked_size_for(dims) {
                Some(n) => if n as u64 <= 0xffff_ffffu64 {
                    (FLAG_LINEAR_SIZE, n as u32)
                } else {
                    (0u32, 0u32)
                },
                None => (0u32, 0u32),
            },
            Err(_) => (0u32, 0u32),
        };
        let mip_flag: u32 = if mips.is_some() { FLAG_MIPMAP_COUNT } else { 0 };
        let is_3d = match dims {
            Dimensions::_3D(_, _, _) => true,
            _ => false,
        };
        let depth_flag: u32 = if is_3d { FLAG_DEPTH } else { 0 };
        let complex: u32 = if faces.is_some() || mips.is_some() || layers.is_some() {
            CAPS1_COMPLEX
        } else {
            0
        };
        let mip_cap: u32 = if mips.is_some() { CAPS1_MIPMAP } else { 0 };
        let caps2 = match &faces {
            Some(fs) => CAPS2_CUBEMAP | face_bits_of(fs),
            None => 0,
        };
        let pixel_format = match self {
            DDSHeader::Legacy { format, .. } => format.to_intermediate(),
            DDSHeader::DX10 { .. } => PixelFormat::FourCC(FourCC([0x44u8, 0x58, 0x31, 0x30])).to_intermediate(),
        };
        let dx10_header = match self {
            DDSHeader::Legacy { .. } => None,
            DDSHeader::DX10 { layers, is_cubemap, dxgi_format, alpha_mode, .. } => Some(
                DX10HeaderIntermediate {
                    dxgi_format: *dxgi_format,
                    dimensionality: match dims {
                        Dimensions::_1D(_) => Dimensionality::Texture1D,
                        Dimensions::_2D(_, _) => Dimensionality::Texture2D,
                        Dimensions::_3D(_, _, _) => Dimensionality::Texture3D,
                    },
                    cube: *is_cubemap,
                    array_size: match layers {
                        Some(l) => *l,
                        None => 1,
                    },
                    alpha_mode: *alpha_mode,
                },
            ),
        };
        DDSHeaderIntermediate {
            flags: FLAG_CAPS | FLAG_HEIGHT | FLAG_WIDTH | FLAG_PIXEL_FORMAT | size_flag | mip_flag | depth_flag,
            height: dims.height(),
            width: dims.width(),
            pitch_or_linear_size: size,
            depth: if is_3d { dims.depth() } else { 0 },
            mipmap_count: match mips {
                Some(m) => m,
                None => 0,
            },
            pixel_format,
            caps1: CAPS1_TEXTURE | complex | mip_cap,
            caps2,
            caps3: 0,
            caps4: 0,
            dx10_header,
        }
    }

    /// `self` is what the stored header `raw` means, given its dimensions.
    pub open spec fn means(self, raw: DDSHeaderIntermediate, dims: Dimensions) -> bool {
        match raw.dx10_header {
            None => {
                &&& self is Legacy
                &&& self.spec_dimensions() == dims
                &&& self.spec_mips() == spec_header_mips(raw)
                &&& self.spec_faces() == if raw.caps2 & CAPS2_CUBEMAP != 0 {
                    Some(faces_in_caps(raw.caps2, 6))
                } else {
                    None
                }
                &&& self->Legacy_format == PixelFormat::spec_from_intermediate(raw.pixel_format)
            },
            Some(d) => {
                &&& self is DX10
                &&& self.spec_dimensions() == dims
                &&& self.spec_mips() == spec_header_mips(raw)
                &&& self.spec_layers() == if d.array_size > 1 {
                    Some(d.array_size)
                } else {
                    None
                }
                &&& self->DX10_is_cubemap == d.cube
                &&& self->dxgi_format == d.dxgi_format
                &&& self->alpha_mode == d.alpha_mode
            },
        }
    }

    /// Reads what a stored header means. Fails with `Dimensions` where its
    /// sizes do not make a dimension (see [`spec_header_axes`]).
    pub fn from_intermediate(raw: &DDSHeaderIntermediate) -> (r: Result<DDSHeader, TextureError>)
        ensures
            Dimensions::spec_try_from(spec_header_axes(*raw)) matches Err(e) ==> r == Err::<
                DDSHeader,
                TextureError,
            >(TextureError::Dimensions(e)),
            Dimensions::spec_try_from(spec_header_axes(*raw)) matches Ok(dims) ==> (r matches Ok(
                h,
            ) && h.means(*raw, dims)),
            r matches Ok(h) ==> h.spec_dimensions().wf(),
    {
        let mips = if raw.mipmap_count != 0 && (raw.flags & FLAG_MIPMAP_COUNT != 0
            || raw.mipmap_count > 1) {
            Some(raw.mipmap_count)
        } else {
            None
        };
        match &raw.dx10_header {
            Some(d) => {
                let axes: Vec<u32> = match d.dimensionality {
                    Dimensionality::Texture1D => vec![raw.width],
                    Dimensionality::Texture2D => vec![raw.width, raw.height],
                    Dimensionality::Texture3D => vec![raw.width, raw.height, raw.depth],
                };
                assert(axes@ =~= spec_header_axes(*raw));
                let dimensions = match Dimensions::try_from_slice(axes.as_slice()) {
                    Ok(dims) => dims,
                    Err(e) => return Err(TextureError::Dimensions(e)),
                };
                let layers = if d.array_size > 1 {
                    Some(d.array_size)
                } else {
                    None
                };
                Ok(
                    DDSHeader::DX10 {
                        dimensions,
                        mips,
                        layers,
                        is_cubemap: d.cube,
                        dxgi_format: d.dxgi_format,
                        alpha_mode: d.alpha_mode,
                    },
                )
            },
            None => {
                let axes: Vec<u32> = if raw.flags & FLAG_DEPTH != 0 {
                    vec![raw.width, raw.height, raw.depth]
                } else {
                    vec![raw.width, raw.height]
                };
                assert(axes@ =~= spec_header_axes(*raw));
                let dimensions = match Dimensions::try_from_slice(axes.as_slice()) {
                    Ok(dims) => dims,
                    Err(e) => return Err(TextureError::Dimensions(e)),
                };
                let faces = if raw.caps2 & CAPS2_CUBEMAP != 0 {
                    Some(to_cubemap_faces(raw.caps2))
                } else {
                    None
                };
                Ok(
                    DDSHeader::Legacy {
                        dimensions,
                        mips,
                        faces,
                        format: PixelFormat::from_intermediate(raw.pixel_format),
                    },
                )
            },
        }
    }
}

/// A count that fits in 32 bits, or none.
pub open spec fn fits_u32(o: Option<nat>) -> bool {
    o matches Some(n) ==> n <= u32::MAX
}

/// A count as stored in a header.
pub open spec fn as_u32(o: Option<nat>) -> Option<u32> {
    match o {
        Some(n) => Some(n as u32),
        None => None,
    }
}

fn count_u32(o: Option<usize>) -> (r: Option<Option<u32>>)
    ensures
        r is Some <==> fits_u32(opt_nat(o)),
        r matches Some(c) ==> c == as_u32(opt_nat(o)),
{
    match o {
        Some(n) => if n <= 0xffff_ffffusize {
            Some(Some(n as u32))
        } else {
            None
        },
        None => Some(None),
    }
}

/// Why a legacy header cannot describe `t`, if it cannot: it is an array,
/// it has more mips than 32 bits count, or its format has no pixel format.
pub open spec fn legacy_error(t: Texture) -> Option<TextureError> {
    if t.surfaces@.layers() is Some {
        Some(TextureError::Capability("texture arrays are not supported by legacy DDS headers"))
    } else if !fits_u32(t.surfaces@.mips()) {
        Some(TextureError::Capability("too many mip levels"))
    } else {
        match PixelFormat::spec_from_format(t.format) {
            Err(e) => Some(e),
            Ok(_) => None,
        }
    }
}

/// `h` is the legacy header of `t`.
pub open spec fn describes_legacy(h: DDSHeader, t: Texture) -> bool {
    &&& h is Legacy
    &&& h.spec_dimensions() == t.surfaces@.dims()
    &&& h.spec_mips() == as_u32(t.surfaces@.mips())
    &&& h.spec_faces() == t.surfaces@.faces()
    &&& h->Legacy_format == PixelFormat::spec_from_format(t.format)->Ok_0
}

/// Why a DX10 header cannot describe `t`, if it cannot: it has some but not
/// all six cubemap faces, more mips or layers than 32 bits count, or a
/// format without a DXGI code.
pub open spec fn dx10_error(t: Texture) -> Option<TextureError> {
    if t.surfaces@.faces() matches Some(fs) && fs.len() != 6 {
        Some(TextureError::Capability("incomplete cubemaps are not supported by DX10 DDS headers"))
    } else if !fits_u32(t.surfaces@.mips()) {
        Some(TextureError::Capability("too many mip levels"))
    } else if !fits_u32(t.surfaces@.layers()) {
        Some(TextureError::Capability("too many array layers"))
    } else {
        match spec_dxgi_from_format(t.format) {
            Err(e) => Some(e),
            Ok(_) => None,
        }
    }
}

/// `h` is the DX10 header of `t`.
pub open spec fn describes_dx10(h: DDSHeader, t: Texture) -> bool {
    &&& h is DX10
    &&& h.spec_dimensions() == t.surfaces@.dims()
    &&& h.spec_mips() == as_u32(t.surfaces@.mips())
    &&& h.spec_layers() == as_u32(t.surfaces@.layers())
    &&& h->DX10_is_cubemap == (t.surfaces@.faces() is Some)
    &&& h->dxgi_format == spec_dxgi_from_format(t.format)->Ok_0.0
    &&& h->alpha_mode == spec_dxgi_from_format(t.format)->Ok_0.1
}

/// Which kind of header to write.
#[derive(Debug, Clone, Copy, PartialEq, Eq, Structural)]
pub enum DDSHeaderMode {
    /// A legacy header where one can describe the texture, else a DX10 header.
    PreferLegacy,
    /// A legacy header, or an error.
    ForceLegacy,
    /// A DX10 header, or an error.
    ForceDX10,
}

/// The options for writing a DDS header.
#[derive(Debug, Clone, Copy, PartialEq, Eq, Structural)]
pub struct DDSHeaderArgs {
    pub mode: DDSHeaderMode,
}

impl Default for DDSHeaderArgs {
    /// Prefer a legacy header.
    fn default() -> (r: DDSHeaderArgs)
        ensures
            r.mode == DDSHeaderMode::PreferLegacy,
    {
        DDSHeaderArgs { mode: DDSHeaderMode::PreferLegacy }
    }
}

/// Whether `args` end in a DX10 header for `t`: when forced, or when a
/// legacy header is preferred but fails with a `Capability` or `Format` error.
pub open spec fn chooses_dx10(t: Texture, args: DDSHeaderArgs) -> bool {
    ||| args.mode == DDSHeaderMode::ForceDX10
    ||| args.mode == DDSHeaderMode::PreferLegacy && (legacy_error(t) matches Some(e) && (e is Capability
        || e is Format))
}

impl DDSHeader {
    /// The legacy header of `texture` (see [`legacy_error`] and [`describes_legacy`]).
    pub fn for_texture_legacy(texture: &Texture) -> (r: Result<DDSHeader, TextureError>)
        requires
            texture.surfaces@.wf(),
        ensures
            match legacy_error(*texture) {
                Some(e) => r == Err::<DDSHeader, TextureError>(e),
                None => r matches Ok(h) && describes_legacy(h, *texture),
            },
            r matches Ok(h) ==> h.spec_dimensions().wf(),
    {
        proof {
            lemma_wf_dims(texture.surfaces@);
        }
        if texture.layers().is_some() {
            return Err(TextureError::Capability("texture arrays are not supported by legacy DDS headers"));
        }
        let dimensions = texture.dimensions();
        let mips = match count_u32(texture.mips()) {
            Some(m) => m,
            None => return Err(TextureError::Capability("too many mip levels")),
        };
        let faces = texture.faces();
        let format = match PixelFormat::from_format(texture.format) {
            Ok(pf) => pf,
            Err(e) => return Err(e),
        };
        Ok(DDSHeader::Legacy { dimensions, mips, faces, format })
    }

    /// The DX10 header of `texture` (see [`dx10_error`] and [`describes_dx10`]).
    pub fn for_texture_dx10(texture: &Texture) -> (r: Result<DDSHeader, TextureError>)
        requires
            texture.surfaces@.wf(),
        ensures
            match dx10_error(*texture) {
                Some(e) => r == Err::<DDSHeader, TextureError>(e),
                None => r matches Ok(h) && describes_dx10(h, *texture),
            },
            r matches Ok(h) ==> h.spec_dimensions().wf(),
    {
        proof {
            lemma_wf_dims(texture.surfaces@);
        }
        let dimensions = texture.dimensions();
        let is_cubemap = match texture.faces() {
            None => false,
            Some(faces) => if faces.len() == 6 {
                true
            } else {
                return Err(TextureError::Capability("incomplete cubemaps are not supported by DX10 DDS headers"));
            },
        };
        let mips = match count_u32(texture.mips()) {
            Some(m) => m,
            None => return Err(TextureError::Capability("too many mip levels")),
        };
        let layers = match count_u32(texture.layers()) {
            Some(l) => l,
            None => return Err(TextureError::Capability("too many array layers")),
        };
        let (dxgi_format, alpha_mode) = match try_from_format(texture.format) {
            Ok(pair) => pair,
            Err(e) => return Err(e),
        };
        Ok(DDSHeader::DX10 { dimensions, mips, layers, is_cubemap, dxgi_format, alpha_mode })
    }

    /// The header that writes `texture` under `args`: a legacy header unless
    /// [`chooses_dx10`], else a DX10 header, with the error of whichever was tried last.
    pub fn from_texture_args(texture: &Texture, args: &DDSHeaderArgs) -> (r: Result<DDSHeader, TextureError>)
        requires
            texture.surfaces@.wf(),
        ensures
            !chooses_dx10(*texture, *args) ==> match legacy_error(*texture) {
                Some(e) => r == Err::<DDSHeader, TextureError>(e),
                None => r matches Ok(h) && describes_legacy(h, *texture),
            },
            chooses_dx10(*texture, *args) ==> match dx10_error(*texture) {
                Some(e) => r == Err::<DDSHeader, TextureError>(e),
                None => r matches Ok(h) && describes_dx10(h, *texture),
            },
            r matches Ok(h) ==> h.spec_dimensions().wf(),
    {
        if args.mode != DDSHeaderMode::ForceDX10 {
            match Self::for_texture_legacy(texture) {
                Ok(header) => return Ok(header),
                Err(e) => {
                    if args.mode == DDSHeaderMode::ForceLegacy {
                        return Err(e);
                    }
                    match e {
                        TextureError::Capability(_) | TextureError::Format(_) => {},
                        _ => return Err(e),
                    }
                },
            }
        }
        Self::for_texture_dx10(texture)
    }

    /// The header that writes `texture`, preferring a legacy header.
    pub fn from_texture(texture: &Texture) -> (r: Result<DDSHeader, TextureError>)
        requires
            texture.surfaces@.wf(),
        ensures
            !chooses_dx10(*texture, DDSHeaderArgs { mode: DDSHeaderMode::PreferLegacy }) ==> match legacy_error(*texture) {
                Some(e) => r == Err::<DDSHeader, TextureError>(e),
                None => r matches Ok(h) && describes_legacy(h, *texture),
            },
            chooses_dx10(*texture, DDSHeaderArgs { mode: DDSHeaderMode::PreferLegacy }) ==> match dx10_error(*texture) {
                Some(e) => r == Err::<DDSHeader, TextureError>(e),
                None => r matches Ok(h) && describes_dx10(h, *texture),
            },
            r matches Ok(h) ==> h.spec_dimensions().wf(),
    {
        Self::from_texture_args(texture, &DDSHeaderArgs::default())
    }
}

/// A count of a header as a mathematical value.
pub open spec fn count_of(o: Option<u32>) -> Option<nat> {
    match o {
        Some(n) => Some(n as nat),
        None => None,
    }
}

/// The faces a header's surfaces are read for, in canonical order.
pub open spec fn faces_to_read(h: DDSHeader) -> Option<Seq<CubeFace>> {
    match h.spec_faces() {
        Some(fs) => Some(canonical_subset(fs, 6)),
        None => None,
    }
}

fn count_usize(o: Option<u32>) -> (r: Option<usize>)
    ensures
        opt_nat(r) == count_of(o),
{
    match o {
        Some(n) => Some(n as usize),
        None => None,
    }
}

impl DDSHeader {
    /// Reads the surfaces this header describes from `data`, starting at
    /// `start`, in the order arrays of cubemaps (faces in canonical order) of
    /// mipmaps. Returns them and the position after them. Fails with the
    /// header's format error, else as [`read_error`] says.
    pub fn read_surfaces(&self, data: &[u8], start: usize) -> (r: Result<(TextureShapeNode, usize), TextureError>)
        requires
            self.spec_dimensions().wf(),
            start <= data@.len(),
        ensures
            self.spec_format() matches Err(e) ==> r == Err::<(TextureShapeNode, usize), TextureError>(e),
            self.spec_format() matches Ok(format) ==> match read_error(format, self.spec_dimensions(), count_of(self.spec_layers()), faces_to_read(*self), count_of(self.spec_mips()), data@.len(), start as nat) {
                Some(e) => r == Err::<(TextureShapeNode, usize), TextureError>(e),
                None => r matches Ok((t, n)) && {
                    &&& t@ == layer_tree(format, self.spec_dimensions(), count_of(self.spec_layers()), faces_to_read(*self), count_of(self.spec_mips()), data@, start as int)
                    &&& t@.wf()
                    &&& sizes_match(format, t@)
                    &&& n == start + layer_span(format, self.spec_dimensions(), count_of(self.spec_layers()), faces_to_read(*self), count_of(self.spec_mips()))
                },
            },
    {
        let format = match self.format() {
            Ok(f) => f,
            Err(e) => return Err(e),
        };
        let layers = count_usize(self.layers());
        let faces = match self.faces() {
            Some(f) => Some(cubemap_order_of(&f)),
            None => None,
        };
        let mips = count_usize(self.mips());
        let mut reader = SurfaceReader { format, bytes: data, position: start };
        match reader.read_layers(self.dimensions(), layers, &faces, mips) {
            Ok(t) => {
                proof {
                    lemma_layer_tree_sizes(format, self.spec_dimensions(), count_of(self.spec_layers()), faces_to_read(*self), count_of(self.spec_mips()), data@, start as int);
                }
                Ok((t, reader.position))
            },
            Err(e) => Err(e),
        }
    }
}

/// The bytes of the parts, one after another, or `None` where a part has none.
pub open spec fn concat_parts(parts: Seq<Option<Seq<u8>>>) -> Option<Seq<u8>>
    decreases parts.len(),
{
    if parts.len() == 0 {
        Some(Seq::empty())
    } else {
        match (concat_parts(parts.drop_last()), parts.last()) {
            (Some(a), Some(b)) => Some(a + b),
            _ => None,
        }
    }
}

/// The bytes of a part that is a surface.
pub open spec fn leaf_bytes(p: Option<ShapeView>) -> Option<Seq<u8>> {
    match p {
        Some(ShapeView::Surface(s)) => Some(s.bytes),
        _ => None,
    }
}

/// The mip levels of `t`, largest first, or `t` itself without mips.
pub open spec fn mip_parts(t: ShapeView) -> Seq<Option<ShapeView>> {
    match t.mips() {
        Some(n) => Seq::new(n, |m: int| t.get(TextureIndex::Mip(m as usize))),
        None => seq![Some(t)],
    }
}

/// The faces of `t` in canonical order, or `t` itself without faces.
pub open spec fn face_parts(t: ShapeView) -> Seq<Option<ShapeView>> {
    match t.faces() {
        Some(fs) => Seq::new(
            canonical_subset(fs, 6).len(),
            |i: int| t.get(TextureIndex::Face(canonical_subset(fs, 6)[i])),
        ),
        None => seq![Some(t)],
    }
}

/// The array layers of `t`, or `t` itself without layers.
pub open spec fn layer_parts(t: ShapeView) -> Seq<Option<ShapeView>> {
    match t.layers() {
        Some(n) => Seq::new(n, |l: int| t.get(TextureIndex::Layer(l as usize))),
        None => seq![Some(t)],
    }
}

/// The bytes of the surfaces of each mip level, in order.
pub open spec fn mip_bytes(p: Option<ShapeView>) -> Option<Seq<u8>> {
    match p {
        Some(t) => concat_parts(Seq::new(mip_parts(t).len(), |i: int| leaf_bytes(mip_parts(t)[i]))),
        None => None,
    }
}

/// The bytes of the mipmaps of each face, in canonical order.
pub open spec fn face_bytes(p: Option<ShapeView>) -> Option<Seq<u8>> {
    match p {
        Some(t) => concat_parts(Seq::new(face_parts(t).len(), |i: int| mip_bytes(face_parts(t)[i]))),
        None => None,
    }
}

/// The surface data of a DDS file holding `t`: for each layer, for each face
/// in canonical order, for each mip level, the bytes of that surface; `None`
/// where one of these slices is not a single surface.
pub open spec fn surface_payload(t: ShapeView) -> Option<Seq<u8>> {
    concat_parts(Seq::new(layer_parts(t).len(), |i: int| face_bytes(layer_parts(t)[i])))
}

/// One more part appended.
proof fn lemma_concat_step(parts: Seq<Option<Seq<u8>>>, i: int)
    requires
        0 <= i < parts.len(),
    ensures
        concat_parts(parts.take(i + 1)) == match (concat_parts(parts.take(i)), parts[i]) {
            (Some(a), Some(b)) => Some(a + b),
            _ => None::<Seq<u8>>,
        },
{
    assert(parts.take(i + 1).drop_last() =~= parts.take(i));
}

/// Appends `bytes`.
fn append_bytes(out: &mut Vec<u8>, bytes: &Vec<u8>)
    ensures
        final(out)@ == old(out)@ + bytes@,
{
    let mut i: usize = 0;
    while i < bytes.len()
        invariant
            i <= bytes.len(),
            out@ == old(out)@ + bytes@.take(i as int),
        decreases bytes.len() - i,
    {
        out.push(bytes[i]);
        i += 1;
        assert(out@ =~= old(out)@ + bytes@.take(i as int));
    }
    assert(bytes@.take(bytes@.len() as int) =~= bytes@);
}

/// Appends the bytes of a part that is a surface; false where it is not.
fn write_leaf(t: &TextureShapeNode, out: &mut Vec<u8>) -> (ok: bool)
    ensures
        ok == leaf_bytes(Some(t@)) is Some,
        ok ==> final(out)@ == old(out)@ + leaf_bytes(Some(t@))->Some_0,
{
    match t {
        TextureShapeNode::Surface(s) => {
            append_bytes(out, s.bytes());
            true
        },
        _ => false,
    }
}

/// Appends the bytes of each mip level of `t`; false where one is not a surface.
fn write_mips(t: &TextureShapeNode, out: &mut Vec<u8>) -> (ok: bool)
    ensures
        ok == mip_bytes(Some(t@)) is Some,
        ok ==> final(out)@ == old(out)@ + mip_bytes(Some(t@))->Some_0,
{
    let ghost parts = Seq::new(mip_parts(t@).len(), |i: int| leaf_bytes(mip_parts(t@)[i]));
    match t.mips() {
        None => {
            assert(parts =~= seq![leaf_bytes(Some(t@))]);
            proof {
                lemma_concat_step(parts, 0);
                assert(parts.take(1) =~= parts);
                assert(parts.take(0) =~= Seq::<Option<Seq<u8>>>::empty());
            }
            write_leaf(t, out)
        },
        Some(n) => {
            let mut m: usize = 0;
            assert(parts.take(0) =~= Seq::<Option<Seq<u8>>>::empty());
            while m < n
                invariant
                    m <= n,
                    parts.len() == n,
                    parts == Seq::new(mip_parts(t@).len(), |i: int| leaf_bytes(mip_parts(t@)[i])),
                    mip_parts(t@) == Seq::new(n as nat, |k: int| t@.get(TextureIndex::Mip(k as usize))),
                    concat_parts(parts.take(m as int)) is Some,
                    out@ == old(out)@ + concat_parts(parts.take(m as int))->Some_0,
                decreases n - m,
            {
                proof {
                    lemma_concat_step(parts, m as int);
                }
                match t.get(TextureIndex::Mip(m)) {
                    Some(p) => {
                        if !write_leaf(&p, out) {
                            assert(parts.take(n as int) =~= parts);
                            proof { lemma_concat_none(parts, m as int + 1, n as int); }
                            return false;
                        }
                    },
                    None => {
                        proof { lemma_concat_none(parts, m as int + 1, n as int); }
                        assert(parts.take(n as int) =~= parts);
                        return false;
                    },
                }
                m += 1;
            }
            assert(parts.take(n as int) =~= parts);
            true
        },
    }
}

/// Appends the bytes of each face of `t` in canonical order; false where a
/// slice is not a single surface.
#[verifier::rlimit(60)]
fn write_faces(t: &TextureShapeNode, out: &mut Vec<u8>) -> (ok: bool)
    ensures
        ok == face_bytes(Some(t@)) is Some,
        ok ==> final(out)@ == old(out)@ + face_bytes(Some(t@))->Some_0,
{
    let ghost parts = Seq::new(face_parts(t@).len(), |i: int| mip_bytes(face_parts(t@)[i]));
    match t.faces() {
        None => {
            assert(parts =~= seq![mip_bytes(Some(t@))]);
            proof {
                lemma_concat_step(parts, 0);
                assert(parts.take(1) =~= parts);
                assert(parts.take(0) =~= Seq::<Option<Seq<u8>>>::empty());
            }
            write_mips(t, out)
        },
        Some(fs) => {
            let order = cubemap_order_of(&fs);
            let n = order.len();
            let mut i: usize = 0;
            assert(parts.take(0) =~= Seq::<Option<Seq<u8>>>::empty());
            while i < n
                invariant
                    i <= n,
                    n == order@.len(),
                    parts.len() == n,
                    parts == Seq::new(face_parts(t@).len(), |i: int| mip_bytes(face_parts(t@)[i])),
                    face_parts(t@) == Seq::new(n as nat, |k: int| t@.get(TextureIndex::Face(order@[k]))),
                    concat_parts(parts.take(i as int)) is Some,
                    out@ == old(out)@ + concat_parts(parts.take(i as int))->Some_0,
                decreases n - i,
            {
                proof {
                    lemma_concat_step(parts, i as int);
                }
                match t.get(TextureIndex::Face(order[i])) {
                    Some(p) => {
                        if !write_mips(&p, out) {
                            assert(parts.take(n as int) =~= parts);
                            proof { lemma_concat_none(parts, i as int + 1, n as int); }
                            return false;
                        }
                    },
                    None => {
                        proof { lemma_concat_none(parts, i as int + 1, n as int); }
                        assert(parts.take(n as int) =~= parts);
                        return false;
                    },
                }
                i += 1;
            }
            assert(parts.take(n as int) =~= parts);
            true
        },
    }
}

/// Appends the surface data of `t` (see [`surface_payload`]); false where a
/// slice is not a single surface.
fn write_layers(t: &TextureShapeNode, out: &mut Vec<u8>) -> (ok: bool)
    ensures
        ok == surface_payload(t@) is Some,
        ok ==> final(out)@ == old(out)@ + surface_payload(t@)->Some_0,
{
    let ghost parts = Seq::new(layer_parts(t@).len(), |i: int| face_bytes(layer_parts(t@)[i]));
    match t.layers() {
        None => {
            assert(parts =~= seq![face_bytes(Some(t@))]);
            proof {
                lemma_concat_step(parts, 0);
                assert(parts.take(1) =~= parts);
                assert(parts.take(0) =~= Seq::<Option<Seq<u8>>>::empty());
            }
            write_faces(t, out)
        },
        Some(n) => {
            let mut l: usize = 0;
            assert(parts.take(0) =~= Seq::<Option<Seq<u8>>>::empty());
            while l < n
                invariant
                    l <= n,
                    parts.len() == n,
                    parts == Seq::new(layer_parts(t@).len(), |i: int| face_bytes(layer_parts(t@)[i])),
                    layer_parts(t@) == Seq::new(n as nat, |k: int| t@.get(TextureIndex::Layer(k as usize))),
                    concat_parts(parts.take(l as int)) is Some,
                    out@ == old(out)@ + concat_parts(parts.take(l as int))->Some_0,
                decreases n - l,
            {
                proof {
                    lemma_concat_step(parts, l as int);
                }
                match t.get(TextureIndex::Layer(l)) {
                    Some(p) => {
                        if !write_faces(&p, out) {
                            assert(parts.take(n as int) =~= parts);
                            proof { lemma_concat_none(parts, l as int + 1, n as int); }
                            return false;
                        }
                    },
                    None => {
                        proof { lemma_concat_none(parts, l as int + 1, n as int); }
                        assert(parts.take(n as int) =~= parts);
                        return false;
                    },
                }
                l += 1;
            }
            assert(parts.take(n as int) =~= parts);
            true
        },
    }
}

/// Once a part has no bytes, no longer run of parts has any.
proof fn lemma_concat_none(parts: Seq<Option<Seq<u8>>>, i: int, j: int)
    requires
        0 <= i <= j <= parts.len(),
        concat_parts(parts.take(i)) is None,
    ensures
        concat_parts(parts.take(j)) is None,
    decreases j - i,
{
    if i < j {
        lemma_concat_step(parts, i);
        lemma_concat_none(parts, i + 1, j);
    }
}

impl DDSHeader {
    /// The surface data of `surfaces` (see [`surface_payload`]). Fails with
    /// `Other` where a slice by layer, face and mip is not a single surface.
    pub fn write_surfaces(&self, surfaces: &TextureShapeNode) -> (r: Result<Vec<u8>, TextureError>)
        ensures
            r is Ok <==> surface_payload(surfaces@) is Some,
            r matches Ok(b) ==> b@ == surface_payload(surfaces@)->Some_0,
            r matches Err(e) ==> e is Other,
            surfaces@.wf() ==> r is Ok,
    {
        proof {
            if surfaces@.wf() {
                lemma_payload_some(surfaces);
            }
        }
        let mut out: Vec<u8> = Vec::new();
        if write_layers(surfaces, &mut out) {
            assert(out@ =~= surface_payload(surfaces@)->Some_0);
            Ok(out)
        } else {
            Err(TextureError::Other("innermost shape is not a surface"))
        }
    }
}

/// The header of `t` under `args` fails with this error, if it fails.
pub open spec fn header_error(t: Texture, args: DDSHeaderArgs) -> Option<TextureError> {
    if chooses_dx10(t, args) {
        dx10_error(t)
    } else {
        legacy_error(t)
    }
}

/// `h` is the header of `t` under `args`.
pub open spec fn describes(h: DDSHeader, t: Texture, args: DDSHeaderArgs) -> bool {
    if chooses_dx10(t, args) {
        describes_dx10(h, t)
    } else {
        describes_legacy(h, t)
    }
}

/// Writes `texture` as a DDS file: the header chosen under `args`, then the
/// surface data. Fails with the header's error, or with `Other` where the
/// texture's slices are not single surfaces.
pub fn write_texture_args(texture: &Texture, args: &DDSHeaderArgs) -> (r: Result<Vec<u8>, TextureError>)
    requires
        texture.surfaces@.wf(),
    ensures
        header_error(*texture, *args) matches Some(e) ==> r == Err::<Vec<u8>, TextureError>(e),
        header_error(*texture, *args) is None ==> {
            &&& r is Ok <==> surface_payload(texture.surfaces@) is Some
            &&& r matches Ok(b) ==> exists|h: DDSHeader|
                describes(h, *texture, *args) && b@ == header_bytes(h.spec_to_intermediate())
                    + surface_payload(texture.surfaces@)->Some_0
            &&& r matches Err(e) ==> e is Other
        },
        header_error(*texture, *args) is None ==> r is Ok,
{
    proof {
        lemma_payload_some(&texture.surfaces);
    }
    let header = match DDSHeader::from_texture_args(texture, args) {
        Ok(h) => h,
        Err(e) => return Err(e),
    };
    let mut out = header.to_intermediate().to_bytes();
    let payload = match header.write_surfaces(&texture.surfaces) {
        Ok(p) => p,
        Err(e) => return Err(e),
    };
    append_bytes(&mut out, &payload);
    assert(describes(header, *texture, *args));
    Ok(out)
}

/// Writes `texture` as a DDS file, preferring a legacy header.
pub fn write_texture(texture: &Texture) -> (r: Result<Vec<u8>, TextureError>)
    requires
        texture.surfaces@.wf(),
    ensures
        header_error(*texture, DDSHeaderArgs { mode: DDSHeaderMode::PreferLegacy }) matches Some(e) ==> r == Err::<Vec<u8>, TextureError>(e),
        header_error(*texture, DDSHeaderArgs { mode: DDSHeaderMode::PreferLegacy }) is None ==> {
            &&& r is Ok <==> surface_payload(texture.surfaces@) is Some
            &&& r matches Ok(b) ==> exists|h: DDSHeader|
                describes(h, *texture, DDSHeaderArgs { mode: DDSHeaderMode::PreferLegacy }) && b@ == header_bytes(h.spec_to_intermediate())
                    + surface_payload(texture.surfaces@)->Some_0
            &&& r matches Err(e) ==> e is Other
        },
        header_error(*texture, DDSHeaderArgs { mode: DDSHeaderMode::PreferLegacy }) is None ==> r is Ok,
{
    write_texture_args(texture, &DDSHeaderArgs::default())
}

/// The stored fields of `s` are the ones `x` writes, where the byte round trip
/// is asked of them: the flags, sizes and counts, the pixel format record (its
/// flags read in full) and the caps.
pub open spec fn stores_fields(s: Seq<u8>, x: DDSHeaderIntermediate) -> bool {
    let raw = DDSHeaderIntermediate::spec_parse(s);
    &&& raw.flags == x.flags
    &&& raw.height == x.height
    &&& raw.width == x.width
    &&& raw.pitch_or_linear_size == x.pitch_or_linear_size
    &&& raw.depth == x.depth
    &&& raw.mipmap_count == x.mipmap_count
    &&& read_le(s, 80) == x.pixel_format.flags
    &&& raw.pixel_format.four_cc == x.pixel_format.four_cc
    &&& raw.pixel_format.bit_count == x.pixel_format.bit_count
    &&& raw.pixel_format.bitmasks@ == x.pixel_format.bitmasks@
    &&& raw.caps1 == x.caps1
    &&& raw.caps2 == x.caps2
    &&& raw.caps3 == x.caps3
}

/// Reading a header and writing the header it means reproduces the magic,
/// bytes 4 to 28 (size, flags, height, width, pitch or linear size, depth,
/// mip count) and bytes 76 to 120 (pixel format and caps) of the input,
/// wherever the input stores the fields that the header re-derives.
#[verifier::rlimit(50)]
pub proof fn lemma_header_round_trip(s: Seq<u8>, h: DDSHeader, dims: Dimensions)
    requires
        DDSHeaderIntermediate::spec_valid(s),
        Dimensions::spec_try_from(spec_header_axes(DDSHeaderIntermediate::spec_parse(s))) == Ok::<Dimensions, crate::dimensions::DimensionError>(dims),
        h.means(DDSHeaderIntermediate::spec_parse(s), dims),
        stores_fields(s, h.spec_to_intermediate()),
    ensures
        header_bytes(h.spec_to_intermediate()).subrange(0, 28) == s.subrange(0, 28),
        header_bytes(h.spec_to_intermediate()).subrange(76, 120) == s.subrange(76, 120),
{
    let x = h.spec_to_intermediate();
    let b = header_bytes(x);
    let p = x.pixel_format;
    crate::binary::lemma_bytes_of_le(s, 0);
    crate::binary::lemma_bytes_of_le(s, 4);
    crate::binary::lemma_bytes_of_le(s, 8);
    crate::binary::lemma_bytes_of_le(s, 12);
    crate::binary::lemma_bytes_of_le(s, 16);
    crate::binary::lemma_bytes_of_le(s, 20);
    crate::binary::lemma_bytes_of_le(s, 24);
    crate::binary::lemma_bytes_of_le(s, 76);
    crate::binary::lemma_bytes_of_le(s, 80);
    crate::binary::lemma_bytes_of_le(s, 88);
    crate::binary::lemma_bytes_of_le(s, 92);
    crate::binary::lemma_bytes_of_le(s, 96);
    crate::binary::lemma_bytes_of_le(s, 100);
    crate::binary::lemma_bytes_of_le(s, 104);
    crate::binary::lemma_bytes_of_le(s, 108);
    crate::binary::lemma_bytes_of_le(s, 112);
    crate::binary::lemma_bytes_of_le(s, 116);
    let raw = DDSHeaderIntermediate::spec_parse(s);
    assert(raw.pixel_format.bitmasks@[0] == p.bitmasks@[0]);
    assert(raw.pixel_format.bitmasks@[1] == p.bitmasks@[1]);
    assert(raw.pixel_format.bitmasks@[2] == p.bitmasks@[2]);
    assert(raw.pixel_format.bitmasks@[3] == p.bitmasks@[3]);
    assert(raw.pixel_format.four_cc.bytes() == p.four_cc.bytes());
    assert(b.subrange(0, 28) =~= s.subrange(0, 28)) by {
        assert forall|i: int| 0 <= i < 28 implies b[i] == s[i] by {
            let k = i / 4;
            assert(s[i] == s.subrange(4 * k, 4 * k + 4)[i - 4 * k]);
        }
    }
    assert(b.subrange(76, 120) =~= s.subrange(76, 120)) by {
        assert forall|i: int| 76 <= i < 120 implies b[i] == s[i] by {
            let k = i / 4;
            assert(s[i] == s.subrange(4 * k, 4 * k + 4)[i - 4 * k]);
            if 84 <= i < 88 {
                assert(p.four_cc.bytes()[i - 84] == s[i]);
            }
        }
    }
}

/// Parts that are consecutive stretches of `data` from `a` on, at offsets
/// `off(0) = 0 ≤ off(1) ≤ …`, join into the stretch they tile.
proof fn lemma_concat_tiles(parts: Seq<Option<Seq<u8>>>, data: Seq<u8>, a: int, off: spec_fn(int) -> int, j: int)
    requires
        0 <= a,
        0 <= j <= parts.len(),
        off(0) == 0,
        forall|i: int, k: int| 0 <= i <= k <= parts.len() ==> #[trigger] off(i) <= #[trigger] off(k),
        a + off(parts.len() as int) <= data.len(),
        forall|i: int| 0 <= i < parts.len() ==> #[trigger] parts[i] == Some(data.subrange(a + off(i), a + off(i + 1))),
    ensures
        concat_parts(parts.take(j)) == Some(data.subrange(a, a + off(j))),
    decreases j,
{
    if j == 0 {
        assert(parts.take(0) =~= Seq::<Option<Seq<u8>>>::empty());
        assert(data.subrange(a, a + off(0)) =~= Seq::<u8>::empty());
    } else {
        lemma_concat_tiles(parts, data, a, off, j - 1);
        lemma_concat_step(parts, j - 1);
        assert(off(j - 1) <= off(j));
        assert(data.subrange(a, a + off(j - 1)) + data.subrange(a + off(j - 1), a + off(j)) =~= data.subrange(a, a + off(j)));
    }
}

/// Writing a mipmap that was read gives back the bytes it was read from.
proof fn lemma_mip_payload(format: Format, dims: Dimensions, mips: Option<nat>, data: Seq<u8>, start: int)
    requires
        dims.wf(),
        mips != Some(0nat),
        mips matches Some(n) ==> n <= u32::MAX,
        0 <= start,
        start + mip_span(format, dims, mips) <= data.len(),
    ensures
        mip_bytes(Some(mip_tree(format, dims, mips, data, start))) == Some(data.subrange(start, start + mip_span(format, dims, mips))),
{
    let t = mip_tree(format, dims, mips, data, start);
    let parts = Seq::new(mip_parts(t).len(), |i: int| leaf_bytes(mip_parts(t)[i]));
    match mips {
        None => {
            let off = |i: int| if i <= 0 { 0 } else { format.spec_size_for(dims) as int };
            assert(parts =~= seq![Some(data.subrange(start, start + format.spec_size_for(dims)))]);
            lemma_concat_tiles(parts, data, start, off, 1);
            assert(parts.take(1) =~= parts);
        },
        Some(n) => {
            let m = mip_levels(dims, mips);
            let off = |i: int| chain_bytes(format, dims, i as nat) as int;
            assert forall|i: int, k: int| 0 <= i <= k <= parts.len() implies #[trigger] off(i) <= #[trigger] off(k) by {
                lemma_chain_bytes_grow(format, dims, i as nat, k as nat);
            }
            assert(parts.len() == m);
            assert forall|i: int| 0 <= i < parts.len() implies #[trigger] parts[i] == Some(data.subrange(start + off(i), start + off(i + 1))) by {
                assert((i as usize) as int == i);
                assert(t.get(TextureIndex::Mip(i as usize)) == Some(t->MipMap_0[i]));
            }
            lemma_concat_tiles(parts, data, start, off, m as int);
            assert(parts.take(m as int) =~= parts);
        },
    }
}

/// Writing a cubemap that was read, with its faces in canonical order, gives
/// back the bytes it was read from.
proof fn lemma_face_payload(
    format: Format,
    dims: Dimensions,
    faces: Option<Seq<CubeFace>>,
    mips: Option<nat>,
    data: Seq<u8>,
    start: int,
)
    requires
        dims.wf(),
        read_shape_error(None, faces, mips) is None,
        faces matches Some(fs) ==> canonical_subset(fs, 6) == fs,
        mips matches Some(n) ==> n <= u32::MAX,
        0 <= start,
        start + face_span(format, dims, faces, mips) <= data.len(),
    ensures
        face_bytes(Some(face_tree(format, dims, faces, mips, data, start))) == Some(data.subrange(start, start + face_span(format, dims, faces, mips))),
{
    let t = face_tree(format, dims, faces, mips, data, start);
    let parts = Seq::new(face_parts(t).len(), |i: int| mip_bytes(face_parts(t)[i]));
    let ms = mip_span(format, dims, mips);
    match faces {
        None => {
            lemma_mip_payload(format, dims, mips, data, start);
            let off = |i: int| if i <= 0 { 0 } else { ms as int };
            assert(t.faces() is None) by {
                crate::texture::lemma_mip_tree(format, dims, mips, data, start);
            }
            assert(parts =~= seq![Some(data.subrange(start, start + ms))]);
            lemma_concat_tiles(parts, data, start, off, 1);
            assert(parts.take(1) =~= parts);
        },
        Some(fs) => {
            let v = t->CubeMap_0;
            let n = fs.len();
            assert(t.faces() == Some(fs)) by {
                assert(crate::shape::entry_faces(v) =~= fs);
            }
            let off = |i: int| i * ms;
            assert forall|i: int, k: int| 0 <= i <= k <= parts.len() implies #[trigger] off(i) <= #[trigger] off(k) by {
                assert(i * ms <= k * ms) by (nonlinear_arith)
                    requires
                        i <= k,
                ;
            }
            assert(parts.len() == n);
            assert forall|i: int| 0 <= i < parts.len() implies #[trigger] parts[i] == Some(data.subrange(start + off(i), start + off(i + 1))) by {
                assert(exists|c: int| 0 <= c < v.len() && v[c].0 == fs[i] && forall|j: int| 0 <= j < c ==> v[j].0 != fs[i]) by {
                    assert(forall|j: int| 0 <= j < i ==> v[j].0 != fs[i]);
                }
                let c = crate::shape::first_entry(v, fs[i]);
                assert(c == i);
                assert(t.get(TextureIndex::Face(fs[i])) == Some(v[i].1));
                assert((i + 1) * ms <= n * ms) by (nonlinear_arith)
                    requires
                        i + 1 <= n,
                ;
                assert((i + 1) * ms == i * ms + ms) by (nonlinear_arith);
                assert(0 <= i * ms) by (nonlinear_arith)
                    requires
                        0 <= i,
                ;
                lemma_mip_payload(format, dims, mips, data, start + i * ms);
            }
            lemma_concat_tiles(parts, data, start, off, n as int);
            assert(parts.take(n as int) =~= parts);
        },
    }
}

/// Writing the surfaces of a texture as read, with any faces in canonical
/// order, gives back exactly the bytes they were read from.
pub proof fn lemma_payload_of_read(
    format: Format,
    dims: Dimensions,
    layers: Option<nat>,
    faces: Option<Seq<CubeFace>>,
    mips: Option<nat>,
    data: Seq<u8>,
    start: int,
)
    requires
        dims.wf(),
        read_shape_error(layers, faces, mips) is None,
        faces matches Some(fs) ==> canonical_subset(fs, 6) == fs,
        mips matches Some(n) ==> n <= u32::MAX,
        layers matches Some(n) ==> n <= u32::MAX,
        0 <= start,
        start + layer_span(format, dims, layers, faces, mips) <= data.len(),
    ensures
        surface_payload(layer_tree(format, dims, layers, faces, mips, data, start)) == Some(
            data.subrange(start, start + layer_span(format, dims, layers, faces, mips)),
        ),
{
    let t = layer_tree(format, dims, layers, faces, mips, data, start);
    let parts = Seq::new(layer_parts(t).len(), |i: int| face_bytes(layer_parts(t)[i]));
    let fs_span = face_span(format, dims, faces, mips);
    crate::texture::lemma_face_tree(format, dims, faces, mips, data, start);
    match layers {
        None => {
            lemma_face_payload(format, dims, faces, mips, data, start);
            let off = |i: int| if i <= 0 { 0 } else { fs_span as int };
            assert(parts =~= seq![Some(data.subrange(start, start + fs_span))]);
            lemma_concat_tiles(parts, data, start, off, 1);
            assert(parts.take(1) =~= parts);
        },
        Some(n) => {
            let v = t->Array_0;
            let off = |i: int| i * fs_span;
            assert forall|i: int, k: int| 0 <= i <= k <= parts.len() implies #[trigger] off(i) <= #[trigger] off(k) by {
                assert(i * fs_span <= k * fs_span) by (nonlinear_arith)
                    requires
                        i <= k,
                ;
            }
            assert(parts.len() == n);
            assert forall|i: int| 0 <= i < parts.len() implies #[trigger] parts[i] == Some(data.subrange(start + off(i), start + off(i + 1))) by {
                assert((i as usize) as int == i);
                assert(t.get(TextureIndex::Layer(i as usize)) == Some(v[i]));
                assert((i + 1) * fs_span <= n * fs_span) by (nonlinear_arith)
                    requires
                        i + 1 <= n,
                ;
                assert((i + 1) * fs_span == i * fs_span + fs_span) by (nonlinear_arith);
                assert(0 <= i * fs_span) by (nonlinear_arith)
                    requires
                        0 <= i,
                ;
                crate::texture::lemma_face_tree(format, dims, faces, mips, data, start + i * fs_span);
                lemma_face_payload(format, dims, faces, mips, data, start + i * fs_span);
            }
            lemma_concat_tiles(parts, data, start, off, n as int);
            assert(parts.take(n as int) =~= parts);
        },
    }
}

/// Parts that all have bytes join into bytes.
proof fn lemma_concat_some(parts: Seq<Option<Seq<u8>>>)
    requires
        forall|i: int| 0 <= i < parts.len() ==> (#[trigger] parts[i]) is Some,
    ensures
        concat_parts(parts) is Some,
    decreases parts.len(),
{
    if parts.len() > 0 {
        lemma_concat_some(parts.drop_last());
    }
}

/// The mip and layer counts of a node's view fit in a `usize`.
proof fn lemma_node_counts_bounded(n: &TextureShapeNode)
    ensures
        n@.mips() matches Some(k) ==> k <= usize::MAX,
        n@.layers() matches Some(k) ==> k <= usize::MAX,
    decreases n,
{
    n.lemma_view();
    match n {
        TextureShapeNode::Surface(_) => {},
        TextureShapeNode::Array(v) => {
            assert(v@.len() == v.len());
            if v@.len() > 0 {
                assert(node_views(v@)[0] == v@[0]@);
                lemma_node_counts_bounded(&v@[0]);
            }
        },
        TextureShapeNode::MipMap(v) => {
            assert(v@.len() == v.len());
            if v@.len() > 0 {
                assert(node_views(v@)[0] == v@[0]@);
                lemma_node_counts_bounded(&v@[0]);
            }
        },
        TextureShapeNode::CubeMap(v) => {
            if v@.len() > 0 {
                assert(entry_views(v@)[0] == (v@[0].0, v@[0].1@));
                assert(decreases_to!(v => v@[0]));
                assert(decreases_to!(v@[0] => v@[0].1));
                lemma_node_counts_bounded(&v@[0].1);
            }
        },
    }
}

/// A well-formed tree without layers or faces has the bytes of each mip level.
proof fn lemma_mip_bytes_some(w: ShapeView)
    requires
        w.wf(),
        w.layers() is None,
        w.faces() is None,
        w.mips() matches Some(k) ==> k <= usize::MAX,
    ensures
        mip_bytes(Some(w)) is Some,
{
    let parts = Seq::new(mip_parts(w).len(), |i: int| leaf_bytes(mip_parts(w)[i]));
    assert forall|i: int| 0 <= i < parts.len() implies (#[trigger] parts[i]) is Some by {
        if w.mips() is Some {
            let m = i as usize;
            assert(m as int == i);
            lemma_mip_defined(w, m);
            lemma_get_wf(w, TextureIndex::Mip(m));
            let x = w.get(TextureIndex::Mip(m))->Some_0;
            assert(x.faces() is None);
            lemma_bare_is_surface(x);
        } else {
            lemma_bare_is_surface(w);
        }
    }
    lemma_concat_some(parts);
}

/// A well-formed tree without layers has the bytes of each face.
proof fn lemma_face_bytes_some(u: ShapeView)
    requires
        u.wf(),
        u.layers() is None,
        u.mips() matches Some(k) ==> k <= usize::MAX,
    ensures
        face_bytes(Some(u)) is Some,
{
    let parts = Seq::new(face_parts(u).len(), |i: int| mip_bytes(face_parts(u)[i]));
    assert forall|i: int| 0 <= i < parts.len() implies (#[trigger] parts[i]) is Some by {
        if u.faces() is Some {
            let fs = u.faces()->Some_0;
            let c = canonical_subset(fs, 6);
            assert(c.contains(c[i]));
            lemma_canonical_subset_contains(fs, 6, c[i]);
            lemma_face_defined(u, c[i]);
            lemma_get_wf(u, TextureIndex::Face(c[i]));
            lemma_mip_bytes_some(u.get(TextureIndex::Face(c[i]))->Some_0);
        } else {
            lemma_mip_bytes_some(u);
        }
    }
    lemma_concat_some(parts);
}

/// Every well-formed tree has surface data: each slice by layer, face and mip
/// level is a single surface.
pub proof fn lemma_payload_some(t: &TextureShapeNode)
    requires
        t@.wf(),
    ensures
        surface_payload(t@) is Some,
{
    lemma_node_counts_bounded(t);
    let v = t@;
    let parts = Seq::new(layer_parts(v).len(), |i: int| face_bytes(layer_parts(v)[i]));
    assert forall|i: int| 0 <= i < parts.len() implies (#[trigger] parts[i]) is Some by {
        if v.layers() is Some {
            let l = i as usize;
            assert(l as int == i);
            lemma_layer_defined(v, l);
            lemma_get_wf(v, TextureIndex::Layer(l));
            lemma_face_bytes_some(v.get(TextureIndex::Layer(l))->Some_0);
        } else {
            lemma_face_bytes_some(v);
        }
    }
    lemma_concat_some(parts);
}

/// All six faces in canonical order are their own canonical selection.
proof fn lemma_canonical_subset_all(k: nat)
    requires
        k <= 6,
    ensures
        canonical_subset(canonical_faces(), k) == canonical_faces().take(k as int),
    decreases k,
{
    lemma_canonical_faces();
    if k > 0 {
        lemma_canonical_subset_all((k - 1) as nat);
        assert(canonical_faces().contains(canonical_faces()[k - 1]));
        assert(canonical_faces().take(k as int) =~= canonical_faces().take(k - 1).push(canonical_faces()[k - 1]));
    }
}

/// A texture that [`read_texture`] returns always gets a header when preferring
/// a legacy one: a legacy header, or a DX10 header for an array.
pub proof fn lemma_read_texture_writable(s: Seq<u8>, t: Texture)
    requires
        DDSHeaderIntermediate::spec_valid(s),
        Dimensions::spec_try_from(spec_header_axes(DDSHeaderIntermediate::spec_parse(s))) is Ok,
        raw_format(DDSHeaderIntermediate::spec_parse(s)) is Ok,
        read_shape_error(
            raw_layers(DDSHeaderIntermediate::spec_parse(s)),
            raw_faces(DDSHeaderIntermediate::spec_parse(s)),
            count_of(spec_header_mips(DDSHeaderIntermediate::spec_parse(s))),
        ) is None,
        t.format == raw_format(DDSHeaderIntermediate::spec_parse(s))->Ok_0,
        t.surfaces@ == layer_tree(
            raw_format(DDSHeaderIntermediate::spec_parse(s))->Ok_0,
            Dimensions::spec_try_from(spec_header_axes(DDSHeaderIntermediate::spec_parse(s)))->Ok_0,
            raw_layers(DDSHeaderIntermediate::spec_parse(s)),
            raw_faces(DDSHeaderIntermediate::spec_parse(s)),
            count_of(spec_header_mips(DDSHeaderIntermediate::spec_parse(s))),
            s,
            DDSHeaderIntermediate::spec_parse(s).spec_len() as int,
        ),
    ensures
        header_error(t, DDSHeaderArgs { mode: DDSHeaderMode::PreferLegacy }) is None,
{
    let raw = DDSHeaderIntermediate::spec_parse(s);
    let dims = Dimensions::spec_try_from(spec_header_axes(raw))->Ok_0;
    let format = raw_format(raw)->Ok_0;
    let mips = count_of(spec_header_mips(raw));
    let start = raw.spec_len() as int;
    assert(dims.wf()) by {
        let v = spec_header_axes(raw);
        assert(Dimensions::from_axes(v).axes() =~= v);
    }
    crate::texture::lemma_layer_tree(format, dims, raw_layers(raw), raw_faces(raw), mips, s, start);
    crate::texture::lemma_mip_tree(format, dims, mips, s, start);
    assert(fits_u32(t.surfaces@.mips()));
    assert(PixelFormat::spec_from_format(format) is Ok) by {
        if raw.dx10_header is None {
            let pf = PixelFormat::spec_from_intermediate(raw.pixel_format);
            if let PixelFormat::Uncompressed { bit_count, .. } = pf {
                assert((bit_count / 8) * 8 <= bit_count) by (nonlinear_arith);
            }
        }
    }
    if raw_layers(raw) is Some {
        let d = raw.dx10_header->Some_0;
        if d.cube {
            lemma_canonical_subset_all(6);
            lemma_canonical_faces();
            assert(canonical_faces().take(6) =~= canonical_faces());
        }
        assert(spec_dxgi_from_format(format) is Ok);
    }
}

/// A texture with array layers has no legacy header: forcing one fails with
/// `Capability`, and preferring one falls back to the DX10 header, which
/// exists wherever the cubemap, if any, is complete, the counts fit in 32
/// bits and the format has a DXGI code.
pub proof fn lemma_arrays_need_dx10(t: Texture)
    requires
        t.surfaces@.layers() is Some,
    ensures
        header_error(t, DDSHeaderArgs { mode: DDSHeaderMode::ForceLegacy }) matches Some(e) && e is Capability,
        chooses_dx10(t, DDSHeaderArgs { mode: DDSHeaderMode::PreferLegacy }),
        header_error(t, DDSHeaderArgs { mode: DDSHeaderMode::PreferLegacy }) == dx10_error(t),
        (t.surfaces@.faces() matches Some(fs) ==> fs.len() == 6) && fits_u32(t.surfaces@.mips())
            && fits_u32(t.surfaces@.layers()) && spec_dxgi_from_format(t.format) is Ok
            ==> dx10_error(t) is None,
{
}

/// The opaque 24-bit RGB format with red in the low byte.
pub open spec fn rgb24() -> Format {
    Format::Uncompressed {
        pitch: 3,
        color_format: crate::format::ColorFormat::RGB { r_mask: 0xff, g_mask: 0xff00, b_mask: 0xff_0000, srgb: false },
        alpha_format: crate::format::AlphaFormat::Opaque,
    }
}

/// A legacy 128×128 RGB cubemap header (RGB flag, 24 bits per pixel, masks
/// 0xFF, 0xFF00, 0xFF0000, the cubemap bit and all six face bits, no depth
/// and no mip count) makes [`read_texture`] read the opaque 24-bit RGB format,
/// no mips and no layers, and a cubemap of the six faces in canonical order,
/// face `i` holding the 49152 bytes at `128 + 49152·i`; it fails with `IO`
/// exactly where the input holds fewer than `128 + 6·49152` bytes.
pub proof fn lemma_rgb_cubemap(s: Seq<u8>)
    requires
        DDSHeaderIntermediate::spec_valid(s),
        DDSHeaderIntermediate::spec_parse(s).width == 128,
        DDSHeaderIntermediate::spec_parse(s).height == 128,
        DDSHeaderIntermediate::spec_parse(s).flags & FLAG_DEPTH == 0,
        DDSHeaderIntermediate::spec_parse(s).flags & FLAG_MIPMAP_COUNT == 0,
        DDSHeaderIntermediate::spec_parse(s).mipmap_count <= 1,
        DDSHeaderIntermediate::spec_parse(s).pixel_format.flags == crate::pixel_format::PF_RGB,
        DDSHeaderIntermediate::spec_parse(s).pixel_format.bit_count == 24,
        DDSHeaderIntermediate::spec_parse(s).pixel_format.bitmasks@ == seq![0xffu32, 0xff00, 0xff_0000, 0],
        DDSHeaderIntermediate::spec_parse(s).caps2 == 0xfe00,
    ensures
        ({
            let raw = DDSHeaderIntermediate::spec_parse(s);
            let dims = Dimensions::_2D(128, 128);
            &&& raw.spec_len() == 128
            &&& Dimensions::spec_try_from(spec_header_axes(raw)) == Ok::<Dimensions, crate::dimensions::DimensionError>(dims)
            &&& raw_format(raw) == Ok::<Format, TextureError>(rgb24())
            &&& spec_header_mips(raw) is None
            &&& raw_layers(raw) is None
            &&& raw_faces(raw) == Some(canonical_faces())
            &&& read_error(rgb24(), dims, None, Some(canonical_faces()), None, s.len(), 128) == if s.len() >= 128 + 6 * 49152 {
                None
            } else {
                Some(crate::texture::data_ends_early())
            }
            &&& layer_tree(rgb24(), dims, None, Some(canonical_faces()), None, s, 128) == ShapeView::CubeMap(
                Seq::new(6, |i: int| (canonical_faces()[i], surface_at(rgb24(), dims, s, 128 + 49152 * i))),
            )
        }),
{
    let raw = DDSHeaderIntermediate::spec_parse(s);
    let dims = Dimensions::_2D(128, 128);
    let p = raw.pixel_format;
    assert(0x40u32 & 4u32 == 0 && 0x40u32 & 2u32 == 0 && 0x40u32 & 1u32 == 0 && 0x40u32 & 0x40u32 != 0) by (bit_vector);
    assert(!announces_dx10(p));
    assert(raw.dx10_header is None);
    assert(spec_header_axes(raw) =~= seq![128u32, 128u32]);
    assert(Dimensions::from_axes(seq![128u32, 128u32]) == dims);
    assert(p.bitmasks@[0] == 0xff && p.bitmasks@[1] == 0xff00 && p.bitmasks@[2] == 0xff_0000);
    assert(PixelFormat::spec_from_intermediate(p) == PixelFormat::Uncompressed {
        bit_count: 24,
        color_format: crate::format::ColorFormat::RGB { r_mask: 0xff, g_mask: 0xff00, b_mask: 0xff_0000, srgb: false },
        alpha_format: crate::format::AlphaFormat::Opaque,
    });
    assert(0xfe00u32 & 0x200u32 != 0 && 0xfe00u32 & 0x400u32 != 0 && 0xfe00u32 & 0x800u32 != 0
        && 0xfe00u32 & 0x1000u32 != 0 && 0xfe00u32 & 0x2000u32 != 0 && 0xfe00u32 & 0x4000u32 != 0
        && 0xfe00u32 & 0x8000u32 != 0) by (bit_vector);
    lemma_canonical_faces();
    assert forall|k: nat| k <= 6 implies #[trigger] faces_in_caps(0xfe00, k) == canonical_faces().take(k as int) by {
        lemma_faces_all_set(k);
    }
    assert(canonical_faces().take(6) =~= canonical_faces());
    lemma_canonical_subset_all(6);
    assert(raw_faces(raw) == Some(canonical_faces()));
    assert(dims.axes() =~= seq![128u32, 128u32]);
    assert(dims.spec_width() == 128 && dims.spec_height() == 128 && dims.spec_depth() == 1);
    let (w, h, d) = (dims.spec_width() as int, dims.spec_height() as int, dims.spec_depth() as int);
    assert(w * h * d == 16384) by (nonlinear_arith)
        requires
            w == 128,
            h == 128,
            d == 1,
    ;
    assert(dims.spec_product() == 16384);
    assert(3 * dims.spec_product() == 49152);
    assert(rgb24().spec_size_for(dims) == 49152);
    assert(face_span(rgb24(), dims, Some(canonical_faces()), None) == 6 * 49152);
    let t = layer_tree(rgb24(), dims, None, Some(canonical_faces()), None, s, 128);
    assert(t->CubeMap_0 =~= Seq::new(6, |i: int| (canonical_faces()[i], surface_at(rgb24(), dims, s, 128 + 49152 * i))));
}

/// A DX10 header of a 64×64 BC3 (`BC3_UNORM`) texture with 3 mip levels, an
/// array size of 4 and the cube bit makes [`read_texture`] read BC3 without
/// sRGB, 4 layers of all six faces in canonical order, 3 mip levels of
/// 64×64, 32×32 and 16×16 taking 4096, 1024 and 256 bytes: 72 surfaces, laid
/// out from byte 148 as arrays of cubemaps of mipmaps. It fails with `IO`
/// exactly where the input holds fewer than `148 + 4·6·5376` bytes.
pub proof fn lemma_bc3_cube_array(s: Seq<u8>)
    requires
        DDSHeaderIntermediate::spec_valid(s),
        DDSHeaderIntermediate::spec_parse(s).width == 64,
        DDSHeaderIntermediate::spec_parse(s).height == 64,
        DDSHeaderIntermediate::spec_parse(s).flags & FLAG_MIPMAP_COUNT != 0,
        DDSHeaderIntermediate::spec_parse(s).mipmap_count == 3,
        DDSHeaderIntermediate::spec_parse(s).dx10_header matches Some(d) && d.dxgi_format.0 == crate::dx10::DXGI_BC3_UNORM
            && d.dimensionality == Dimensionality::Texture2D && d.cube && d.array_size == 4,
    ensures
        ({
            let raw = DDSHeaderIntermediate::spec_parse(s);
            let dims = Dimensions::_2D(64, 64);
            let bc3 = Format::BC3 { srgb: false };
            let tree = layer_tree(bc3, dims, Some(4), Some(canonical_faces()), Some(3), s, 148);
            &&& raw.spec_len() == 148
            &&& Dimensions::spec_try_from(spec_header_axes(raw)) == Ok::<Dimensions, crate::dimensions::DimensionError>(dims)
            &&& raw_format(raw) == Ok::<Format, TextureError>(bc3)
            &&& count_of(spec_header_mips(raw)) == Some(3nat)
            &&& raw_layers(raw) == Some(4nat)
            &&& raw_faces(raw) == Some(canonical_faces())
            &&& crate::texture::mip_levels(dims, Some(3)) == 3
            &&& dims.mip_at(1) == Dimensions::_2D(32, 32)
            &&& dims.mip_at(2) == Dimensions::_2D(16, 16)
            &&& bc3.spec_size_for(dims) == 4096
            &&& bc3.spec_size_for(dims.mip_at(1)) == 1024
            &&& bc3.spec_size_for(dims.mip_at(2)) == 256
            &&& layer_span(bc3, dims, Some(4), Some(canonical_faces()), Some(3)) == 4 * 6 * 5376
            &&& read_error(bc3, dims, Some(4), Some(canonical_faces()), Some(3), s.len(), 148) == if s.len() >= 148 + 4 * 6 * 5376 {
                None
            } else {
                Some(crate::texture::data_ends_early())
            }
            &&& tree.layers() == Some(4nat)
            &&& tree.faces() == Some(canonical_faces())
            &&& tree.mips() == Some(3nat)
            &&& crate::shape::surface_count(tree) == 72
        }),
{
    let raw = DDSHeaderIntermediate::spec_parse(s);
    let dims = Dimensions::_2D(64, 64);
    let bc3 = Format::BC3 { srgb: false };
    assert(spec_header_axes(raw) =~= seq![64u32, 64u32]);
    assert(Dimensions::from_axes(seq![64u32, 64u32]) == dims);
    reveal_with_fuel(crate::dimensions::floor_log2, 8);
    assert(dims.axes() =~= seq![64u32, 64u32]);
    assert(dims.spec_width() == 64 && dims.spec_height() == 64 && dims.spec_depth() == 1);
    assert(dims.mip_count() == 7);
    assert(crate::dimensions::halve_axis(64) == 32 && crate::dimensions::halve_axis(32) == 16);
    assert(dims.halved() == Dimensions::_2D(32, 32));
    assert(Dimensions::_2D(32, 32).halved() == Dimensions::_2D(16, 16));
    reveal_with_fuel(Dimensions::mip_at, 3);
    assert(dims.mip_at(0) == dims);
    assert(dims.mip_at(1) == Dimensions::_2D(32, 32));
    assert(dims.mip_at(2) == Dimensions::_2D(16, 16));
    let d1 = Dimensions::_2D(32, 32);
    let d2 = Dimensions::_2D(16, 16);
    assert(d1.axes() =~= seq![32u32, 32u32]);
    assert(d2.axes() =~= seq![16u32, 16u32]);
    assert(crate::dimensions::ceil_div(64, 4) == 16);
    assert(crate::dimensions::ceil_div(32, 4) == 8);
    assert(crate::dimensions::ceil_div(16, 4) == 4);
    assert(bc3.units_for(dims) == 256) by {
        assert(16 * 16 * 1 == 256) by (nonlinear_arith);
    }
    assert(bc3.units_for(d1) == 64) by {
        assert(8 * 8 * 1 == 64) by (nonlinear_arith);
    }
    assert(bc3.units_for(d2) == 16) by {
        assert(4 * 4 * 1 == 16) by (nonlinear_arith);
    }
    reveal_with_fuel(crate::texture::chain_bytes, 4);
    assert(crate::texture::chain_bytes(bc3, dims, 1) == 4096);
    assert(crate::texture::chain_bytes(bc3, dims, 2) == 5120);
    assert(crate::texture::chain_bytes(bc3, dims, 3) == 5376);
    lemma_canonical_faces();
    lemma_canonical_subset_all(6);
    assert(canonical_faces().take(6) =~= canonical_faces());
    crate::texture::lemma_layer_tree(bc3, dims, Some(4), Some(canonical_faces()), Some(3), s, 148);
    crate::texture::lemma_mip_tree(bc3, dims, Some(3), s, 148);
    let tree = layer_tree(bc3, dims, Some(4), Some(canonical_faces()), Some(3), s, 148);
    assert(crate::texture::mip_span(bc3, dims, Some(3)) == 5376);
    assert(6 * 5376 == 32256 && 4 * 32256 == 129024) by (nonlinear_arith);
    assert(crate::texture::face_span(bc3, dims, Some(canonical_faces()), Some(3)) == 32256);
    assert(layer_span(bc3, dims, Some(4), Some(canonical_faces()), Some(3)) == 4 * 6 * 5376);
    assert(3 * 4 * 6 == 72) by (nonlinear_arith);
    assert(crate::shape::surface_count(tree) == 72);
    assert(raw_format(raw) == Ok::<Format, TextureError>(bc3));
    assert(count_of(spec_header_mips(raw)) == Some(3nat));
    assert(raw_faces(raw) == Some(canonical_faces()));
}

/// With all six face bits set, every face among the first `k` is listed.
proof fn lemma_faces_all_set(k: nat)
    requires
        k <= 6,
        0xfe00u32 & 0x400u32 != 0 && 0xfe00u32 & 0x800u32 != 0 && 0xfe00u32 & 0x1000u32 != 0
            && 0xfe00u32 & 0x2000u32 != 0 && 0xfe00u32 & 0x4000u32 != 0 && 0xfe00u32 & 0x8000u32 != 0,
    ensures
        faces_in_caps(0xfe00, k) == canonical_faces().take(k as int),
    decreases k,
{
    if k > 0 {
        lemma_faces_all_set((k - 1) as nat);
        assert(canonical_faces().take(k as int) =~= canonical_faces().take(k - 1).push(canonical_faces()[k - 1]));
    }
}

/// The format a stored header names.
pub open spec fn raw_format(raw: DDSHeaderIntermediate) -> Result<Format, TextureError> {
    match raw.dx10_header {
        None => PixelFormat::spec_from_intermediate(raw.pixel_format).spec_to_format(),
        Some(d) => spec_dxgi_to_format(d.dxgi_format, d.alpha_mode),
    }
}

/// The array layers a stored header names.
pub open spec fn raw_layers(raw: DDSHeaderIntermediate) -> Option<nat> {
    match raw.dx10_header {
        None => None,
        Some(d) => if d.array_size > 1 {
            Some(d.array_size as nat)
        } else {
            None
        },
    }
}

/// The faces, in canonical order, that a stored header names.
pub open spec fn raw_faces(raw: DDSHeaderIntermediate) -> Option<Seq<CubeFace>> {
    match raw.dx10_header {
        None => if raw.caps2 & CAPS2_CUBEMAP != 0 {
            Some(canonical_subset(faces_in_caps(raw.caps2, 6), 6))
        } else {
            None
        },
        Some(d) => if d.cube {
            Some(canonical_subset(canonical_faces(), 6))
        } else {
            None
        },
    }
}

/// Reads a whole DDS file from the start of `bytes`: the header, then the
/// surfaces it describes. Returns the texture and how many bytes it took.
///
/// Fails with `Header` where the header is not valid, `Dimensions` where its
/// sizes make no dimension, `Format` where its format is unknown, and
/// otherwise as [`read_error`] says: `Shape` where its faces make no cubemap,
/// `IO` where the surface data ends early.
pub fn read_texture(bytes: &[u8]) -> (r: Result<(Texture, usize), TextureError>)
    ensures
        !DDSHeaderIntermediate::spec_valid(bytes@) ==> r is Err && r->Err_0 is Header,
        DDSHeaderIntermediate::spec_valid(bytes@) ==> {
            let raw = DDSHeaderIntermediate::spec_parse(bytes@);
            match Dimensions::spec_try_from(spec_header_axes(raw)) {
                Err(e) => r == Err::<(Texture, usize), TextureError>(TextureError::Dimensions(e)),
                Ok(dims) => match raw_format(raw) {
                    Err(e) => r == Err::<(Texture, usize), TextureError>(e),
                    Ok(format) => match read_error(format, dims, raw_layers(raw), raw_faces(raw), count_of(spec_header_mips(raw)), bytes@.len(), raw.spec_len()) {
                        Some(e) => r == Err::<(Texture, usize), TextureError>(e),
                        None => r matches Ok((t, n)) && {
                            &&& t.wf()
                            &&& t.format == format
                            &&& t.surfaces@ == layer_tree(format, dims, raw_layers(raw), raw_faces(raw), count_of(spec_header_mips(raw)), bytes@, raw.spec_len() as int)
                            &&& n == raw.spec_len() + layer_span(format, dims, raw_layers(raw), raw_faces(raw), count_of(spec_header_mips(raw)))
                        },
                    },
                },
            }
        },
{
    let raw = match DDSHeaderIntermediate::parse(bytes) {
        Ok(raw) => raw,
        Err(e) => return Err(e),
    };
    let header = match DDSHeader::from_intermediate(&raw) {
        Ok(h) => h,
        Err(e) => return Err(e),
    };
    let format = match header.format() {
        Ok(f) => f,
        Err(e) => return Err(e),
    };
    let start: usize = if raw.dx10_header.is_some() { DX10_HEADER_LEN } else { HEADER_LEN };
    match header.read_surfaces(bytes, start) {
        Ok((surfaces, n)) => Ok((Texture { format, surfaces }, n)),
        Err(e) => Err(e),
    }
}

/// Reading a DDS file and writing the texture back gives surface data equal to
/// the input's: given what [`read_texture`] returns for `s`, writing that
/// texture with the default arguments succeeds (its header error is none, so
/// [`write_texture`] returns `Ok`), and for the bytes `b` it writes under a
/// header `h`, the bytes after the written header are the bytes after the
/// read header.
#[verifier::rlimit(100)]
pub proof fn lemma_texture_round_trip(s: Seq<u8>, t: Texture, n: nat, h: DDSHeader, b: Seq<u8>)
    requires
        DDSHeaderIntermediate::spec_valid(s),
        Dimensions::spec_try_from(spec_header_axes(DDSHeaderIntermediate::spec_parse(s))) is Ok,
        raw_format(DDSHeaderIntermediate::spec_parse(s)) is Ok,
        read_shape_error(
            raw_layers(DDSHeaderIntermediate::spec_parse(s)),
            raw_faces(DDSHeaderIntermediate::spec_parse(s)),
            count_of(spec_header_mips(DDSHeaderIntermediate::spec_parse(s))),
        ) is None,
        t.format == raw_format(DDSHeaderIntermediate::spec_parse(s))->Ok_0,
        t.surfaces@ == layer_tree(
            raw_format(DDSHeaderIntermediate::spec_parse(s))->Ok_0,
            Dimensions::spec_try_from(spec_header_axes(DDSHeaderIntermediate::spec_parse(s)))->Ok_0,
            raw_layers(DDSHeaderIntermediate::spec_parse(s)),
            raw_faces(DDSHeaderIntermediate::spec_parse(s)),
            count_of(spec_header_mips(DDSHeaderIntermediate::spec_parse(s))),
            s,
            DDSHeaderIntermediate::spec_parse(s).spec_len() as int,
        ),
        n == DDSHeaderIntermediate::spec_parse(s).spec_len() + layer_span(
            raw_format(DDSHeaderIntermediate::spec_parse(s))->Ok_0,
            Dimensions::spec_try_from(spec_header_axes(DDSHeaderIntermediate::spec_parse(s)))->Ok_0,
            raw_layers(DDSHeaderIntermediate::spec_parse(s)),
            raw_faces(DDSHeaderIntermediate::spec_parse(s)),
            count_of(spec_header_mips(DDSHeaderIntermediate::spec_parse(s))),
        ),
        n <= s.len(),
        b == header_bytes(h.spec_to_intermediate()) + surface_payload(t.surfaces@)->Some_0,
    ensures
        header_error(t, DDSHeaderArgs { mode: DDSHeaderMode::PreferLegacy }) is None,
        surface_payload(t.surfaces@) is Some,
        b.subrange(header_bytes(h.spec_to_intermediate()).len() as int, b.len() as int)
            == s.subrange(DDSHeaderIntermediate::spec_parse(s).spec_len() as int, n as int),
{
    lemma_read_texture_writable(s, t);
    lemma_read_payload(s);
    let hb = header_bytes(h.spec_to_intermediate());
    assert(b.subrange(hb.len() as int, b.len() as int) =~= surface_payload(t.surfaces@)->Some_0);
}

/// The surface data of what [`read_texture`] reads is the stretch of input it read.
proof fn lemma_read_payload(s: Seq<u8>)
    requires
        DDSHeaderIntermediate::spec_valid(s),
        Dimensions::spec_try_from(spec_header_axes(DDSHeaderIntermediate::spec_parse(s))) is Ok,
        raw_format(DDSHeaderIntermediate::spec_parse(s)) is Ok,
        read_shape_error(
            raw_layers(DDSHeaderIntermediate::spec_parse(s)),
            raw_faces(DDSHeaderIntermediate::spec_parse(s)),
            count_of(spec_header_mips(DDSHeaderIntermediate::spec_parse(s))),
        ) is None,
        DDSHeaderIntermediate::spec_parse(s).spec_len() + layer_span(
            raw_format(DDSHeaderIntermediate::spec_parse(s))->Ok_0,
            Dimensions::spec_try_from(spec_header_axes(DDSHeaderIntermediate::spec_parse(s)))->Ok_0,
            raw_layers(DDSHeaderIntermediate::spec_parse(s)),
            raw_faces(DDSHeaderIntermediate::spec_parse(s)),
            count_of(spec_header_mips(DDSHeaderIntermediate::spec_parse(s))),
        ) <= s.len(),
    ensures
        ({
            let raw = DDSHeaderIntermediate::spec_parse(s);
            let dims = Dimensions::spec_try_from(spec_header_axes(raw))->Ok_0;
            let format = raw_format(raw)->Ok_0;
            let mips = count_of(spec_header_mips(raw));
            surface_payload(layer_tree(format, dims, raw_layers(raw), raw_faces(raw), mips, s, raw.spec_len() as int))
                == Some(s.subrange(raw.spec_len() as int, (raw.spec_len() + layer_span(format, dims, raw_layers(raw), raw_faces(raw), mips)) as int))
        }),
{
    let raw = DDSHeaderIntermediate::spec_parse(s);
    let dims = Dimensions::spec_try_from(spec_header_axes(raw))->Ok_0;
    let format = raw_format(raw)->Ok_0;
    let faces = raw_faces(raw);
    assert(dims.wf()) by {
        let v = spec_header_axes(raw);
        assert(Dimensions::from_axes(v).axes() =~= v);
    }
    if faces is Some {
        let base = match raw.dx10_header {
            None => faces_in_caps(raw.caps2, 6),
            Some(_) => canonical_faces(),
        };
        lemma_canonical_subset_idempotent(base, 6);
    }
    lemma_payload_of_read(
        format,
        dims,
        raw_layers(raw),
        faces,
        count_of(spec_header_mips(raw)),
        s,
        raw.spec_len() as int,
    );
}

} // verus!
